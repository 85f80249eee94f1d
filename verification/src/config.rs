//! The server's runtime configuration: the defaults of every setting, the
//! ranges each must fall in, and the paths derived from the data root.
//!
//! Reading the file and decoding its TOML is left to the caller, who hands
//! over the decoded settings with the defaults filled in.

use vstd::prelude::*;

use crate::characters::registry::{folder_views, registry_packs, CharacterRegistry, ScannedFolder};
use crate::characters::requirements::{
    clone_pairs, keys_sorted, last_value, lemma_normalized_valid, normalized_providers, pair_views,
    providers_valid, spec_expected, CharacterRequirements,
};
use crate::characters::assets::{spec_safe_id, CharacterRegistryError};
use crate::codec::{parse_url, path_parent, path_parent_of, url_components};
use crate::net::{is_socket_addr, spec_parse_cidr, spec_socket_addr_ok, IpCidr};
use crate::text::{join_path, join_path_str, str_eq};

verus! {

/// Why a configuration was refused.
#[derive(Debug, Clone, Copy)]
pub enum ConfigError {
    /// The file could not be read.
    Io,
    /// The file is not TOML of the expected shape.
    Toml,
    /// A setting is out of range; the text says which.
    Invalid(&'static str),
}

pub fn default_bind() -> (res: String)
    ensures
        res@ == "127.0.0.1:3000"@,
{
    "127.0.0.1:3000".to_owned()
}

pub fn default_turn_seconds() -> (res: u64)
    ensures
        res == 30,
{
    30
}

pub fn default_response_seconds() -> (res: u64)
    ensures
        res == 10,
{
    10
}

pub fn default_unlimited_watchdog_seconds() -> (res: u64)
    ensures
        res == 300,
{
    300
}

pub fn default_mcp_session_idle_seconds() -> (res: u64)
    ensures
        res == 1800,
{
    30 * 60
}

pub fn default_empty_room_cleanup_seconds() -> (res: u64)
    ensures
        res == 3600,
{
    3600
}

pub fn default_shutdown_seconds() -> (res: u64)
    ensures
        res == 10,
{
    10
}

pub fn default_max_connections() -> (res: usize)
    ensures
        res == 256,
{
    256
}

pub fn default_room_participant_limit() -> (res: usize)
    ensures
        res == 32,
{
    32
}

pub fn default_code_lookup_per_minute() -> (res: usize)
    ensures
        res == 20,
{
    20
}

pub fn default_participant_creation_per_minute() -> (res: usize)
    ensures
        res == 10,
{
    10
}

pub fn default_admin_login_failures() -> (res: usize)
    ensures
        res == 5,
{
    5
}

pub fn default_agent_auth_failures() -> (res: usize)
    ensures
        res == 20,
{
    20
}

pub fn default_max_compat_matches() -> (res: usize)
    ensures
        res == 32,
{
    32
}

pub fn default_max_ranked_queue() -> (res: usize)
    ensures
        res == 128,
{
    128
}

pub fn default_mjai_character() -> (res: String)
    ensures
        res@ == "mjai-bot"@,
{
    "mjai-bot".to_owned()
}

pub fn default_builtin_character() -> (res: String)
    ensures
        res@ == "tsumogiri-bot"@,
{
    "tsumogiri-bot".to_owned()
}

pub fn default_mcp_character() -> (res: String)
    ensures
        res@ == "mcp-agent"@,
{
    "mcp-agent".to_owned()
}

/// The `[characters]` table as written, providers sorted by name.
#[derive(Debug, Clone)]
pub struct RawCharacterConfig {
    pub mjai: String,
    pub builtin: String,
    pub mcp: String,
    pub mcp_providers: Vec<(String, String)>,
}

impl Default for RawCharacterConfig {
    fn default() -> (res: Self)
        ensures
            res.mjai@ == "mjai-bot"@,
            res.builtin@ == "tsumogiri-bot"@,
            res.mcp@ == "mcp-agent"@,
            res.mcp_providers@.len() == 0,
    {
        RawCharacterConfig {
            mjai: default_mjai_character(),
            builtin: default_builtin_character(),
            mcp: default_mcp_character(),
            mcp_providers: Vec::new(),
        }
    }
}

/// The `[time_controls.casual]` table as written.
#[derive(Debug, Clone, Copy)]
pub struct RawCasualTimeControl {
    pub turn_seconds: u64,
    pub response_seconds: u64,
}

impl Default for RawCasualTimeControl {
    fn default() -> (res: Self)
        ensures
            res.turn_seconds == 30,
            res.response_seconds == 10,
    {
        RawCasualTimeControl {
            turn_seconds: default_turn_seconds(),
            response_seconds: default_response_seconds(),
        }
    }
}

/// The `[time_controls]` table as written.
#[derive(Debug, Clone, Copy)]
pub struct RawTimeControls {
    pub casual: RawCasualTimeControl,
}

impl Default for RawTimeControls {
    fn default() -> (res: Self)
        ensures
            res.casual.turn_seconds == 30,
            res.casual.response_seconds == 10,
    {
        RawTimeControls { casual: RawCasualTimeControl::default() }
    }
}

/// The `[network]` table as written.
#[derive(Debug, Clone)]
pub struct RawNetworkConfig {
    pub max_connections: usize,
    pub room_participant_limit: usize,
    pub code_lookup_per_minute: usize,
    pub participant_creation_per_minute: usize,
    pub admin_login_failures_per_15_minutes: usize,
    pub agent_auth_failures_per_minute: usize,
    pub trusted_proxy_cidrs: Vec<String>,
    pub max_compat_matches: usize,
    pub max_ranked_queue: usize,
}

impl Default for RawNetworkConfig {
    fn default() -> (res: Self)
        ensures
            res.max_connections == 256,
            res.room_participant_limit == 32,
            res.code_lookup_per_minute == 20,
            res.participant_creation_per_minute == 10,
            res.admin_login_failures_per_15_minutes == 5,
            res.agent_auth_failures_per_minute == 20,
            res.trusted_proxy_cidrs@.len() == 0,
            res.max_compat_matches == 32,
            res.max_ranked_queue == 128,
    {
        RawNetworkConfig {
            max_connections: default_max_connections(),
            room_participant_limit: default_room_participant_limit(),
            code_lookup_per_minute: default_code_lookup_per_minute(),
            participant_creation_per_minute: default_participant_creation_per_minute(),
            admin_login_failures_per_15_minutes: default_admin_login_failures(),
            agent_auth_failures_per_minute: default_agent_auth_failures(),
            trusted_proxy_cidrs: Vec::new(),
            max_compat_matches: default_max_compat_matches(),
            max_ranked_queue: default_max_ranked_queue(),
        }
    }
}

/// The whole configuration file as written, defaults filled in.
#[derive(Debug, Clone)]
pub struct RawRuntimeConfig {
    pub bind: String,
    pub public_origin: String,
    pub characters: RawCharacterConfig,
    pub time_controls: RawTimeControls,
    pub unlimited_watchdog_seconds: u64,
    pub mcp_session_idle_seconds: u64,
    pub empty_room_cleanup_seconds: u64,
    pub shutdown_seconds: u64,
    pub network: RawNetworkConfig,
}

/// The characters that a configuration requires.
#[derive(Debug, Clone)]
pub struct CharacterConfig {
    pub mjai: String,
    pub builtin: String,
    pub mcp: String,
    pub mcp_providers: Vec<(String, String)>,
}

/// The clock of a casual game.
#[derive(Debug, Clone, Copy, PartialEq, Eq, Structural)]
pub struct CasualTimeControl {
    pub turn_seconds: u64,
    pub response_seconds: u64,
}

/// The clocks of every kind of game.
#[derive(Debug, Clone, Copy, PartialEq, Eq, Structural)]
pub struct TimeControls {
    pub casual: CasualTimeControl,
}

/// The limits on connections and requests.
#[derive(Debug, Clone)]
pub struct NetworkConfig {
    pub max_connections: usize,
    pub room_participant_limit: usize,
    pub code_lookup_per_minute: usize,
    pub participant_creation_per_minute: usize,
    pub admin_login_failures_per_15_minutes: usize,
    pub agent_auth_failures_per_minute: usize,
    pub trusted_proxy_cidrs: Vec<String>,
    pub max_compat_matches: usize,
    pub max_ranked_queue: usize,
}

/// The configuration the server runs with.
#[derive(Debug, Clone)]
pub struct RuntimeConfig {
    pub bind: String,
    pub public_origin: String,
    pub characters: CharacterConfig,
    pub time_controls: TimeControls,
    pub unlimited_watchdog_seconds: u64,
    pub mcp_session_idle_seconds: u64,
    pub empty_room_cleanup_seconds: u64,
    pub shutdown_seconds: u64,
    pub network: NetworkConfig,
    /// The directory that holds the configuration file.
    pub data_root: String,
}

/// Why `public_origin` is refused, if it is: it does not parse, or it is
/// not an `http` or `https` origin with a host and nothing after the path
/// `/`.
pub open spec fn origin_problem(origin: Seq<char>) -> Option<Seq<char>> {
    match url_components(origin) {
        None => Some("public_origin is invalid"@),
        Some((scheme, host, username, password, path, query, fragment, _, _, _)) => if !(scheme == "http"@
            || scheme == "https"@) || host is None || username.len() != 0 || password is Some
            || query is Some || fragment is Some || (path != ""@ && path != "/"@) {
            Some("public_origin must be an origin"@)
        } else {
            None
        },
    }
}

/// Whether the network limits are in range and every trusted proxy block
/// reads as a CIDR block.
pub open spec fn network_ok(n: RawNetworkConfig) -> (bool, bool) {
    (
        1 <= n.max_connections <= 4096 && 1 <= n.room_participant_limit <= 32
            && n.room_participant_limit >= 3 && n.code_lookup_per_minute != 0
            && n.participant_creation_per_minute != 0 && n.admin_login_failures_per_15_minutes != 0
            && n.agent_auth_failures_per_minute != 0 && 1 <= n.max_compat_matches <= 256 && 1
            <= n.max_ranked_queue <= 4096,
        forall|i: int|
            0 <= i < n.trusted_proxy_cidrs@.len() ==> spec_parse_cidr(
                (#[trigger] n.trusted_proxy_cidrs@[i])@,
            ) is Ok,
    )
}

/// Whether the character settings make a requirement set.
pub open spec fn characters_ok(c: RawCharacterConfig) -> bool {
    spec_safe_id(c.mjai@) && spec_safe_id(c.builtin@) && spec_safe_id(c.mcp@) && providers_valid(
        pair_views(c.mcp_providers@),
    )
}

/// Whether `v` lies in `[min, max]`.
pub open spec fn in_range(v: u64, min: u64, max: u64) -> bool {
    min <= v && v <= max
}

/// The message of the first check a configuration fails, in the order they
/// are made; `None` when it passes them all.
pub open spec fn config_problem(raw: RawRuntimeConfig) -> Option<Seq<char>> {
    if !spec_socket_addr_ok(raw.bind@) {
        Some("bind must be a socket address"@)
    } else if origin_problem(raw.public_origin@) is Some {
        origin_problem(raw.public_origin@)
    } else if !characters_ok(raw.characters) {
        Some("character configuration is invalid"@)
    } else if !(in_range(raw.time_controls.casual.turn_seconds, 1, 3600) && in_range(
        raw.time_controls.casual.response_seconds,
        1,
        3600,
    ) && in_range(raw.unlimited_watchdog_seconds, 10, 3600) && in_range(
        raw.mcp_session_idle_seconds,
        1,
        86400,
    ) && in_range(raw.empty_room_cleanup_seconds, 1, 86400) && in_range(
        raw.shutdown_seconds,
        1,
        86400,
    )) {
        Some("duration is outside its allowed range"@)
    } else if !network_ok(raw.network).0 {
        Some("network limit is outside its allowed range"@)
    } else if !network_ok(raw.network).1 {
        Some("trusted proxy CIDR is invalid"@)
    } else {
        None
    }
}

/// The directory that holds the configuration file `path`, `.` when it has
/// none.
pub open spec fn spec_data_root(path: Seq<char>) -> Seq<char> {
    match path_parent_of(path) {
        Some(p) => if p.len() > 0 {
            p
        } else {
            "."@
        },
        None => "."@,
    }
}

/// Checks that `bind` reads as a socket address.
pub fn validate_bind(bind: &str) -> (res: Result<(), ConfigError>)
    ensures
        spec_socket_addr_ok(bind@) <==> res is Ok,
        res matches Err(e) ==> (e matches ConfigError::Invalid(m) && m@
            == "bind must be a socket address"@),
{
    if is_socket_addr(bind) {
        Ok(())
    } else {
        Err(ConfigError::Invalid("bind must be a socket address"))
    }
}

/// Checks that `origin` is an `http` or `https` origin.
pub fn validate_origin(origin: &str) -> (res: Result<(), ConfigError>)
    ensures
        origin_problem(origin@) is None <==> res is Ok,
        res matches Err(e) ==> (e matches ConfigError::Invalid(m) && Some(m@) == origin_problem(
            origin@,
        )),
{
    let parsed = match parse_url(origin) {
        Some(u) => u,
        None => {
            return Err(ConfigError::Invalid("public_origin is invalid"));
        },
    };
    let scheme_ok = str_eq(parsed.scheme.as_str(), "http") || str_eq(
        parsed.scheme.as_str(),
        "https",
    );
    let path_ok = str_eq(parsed.path.as_str(), "") || str_eq(parsed.path.as_str(), "/");
    if !scheme_ok || parsed.host.is_none() || parsed.username.as_str().unicode_len() != 0
        || parsed.password.is_some() || parsed.query.is_some() || parsed.fragment.is_some()
        || !path_ok {
        return Err(ConfigError::Invalid("public_origin must be an origin"));
    }
    Ok(())
}

/// Checks that the character settings make a requirement set.
pub fn validate_character_config(config: &RawCharacterConfig) -> (res: Result<(), ConfigError>)
    ensures
        characters_ok(*config) <==> res is Ok,
        res matches Err(e) ==> (e matches ConfigError::Invalid(m) && m@
            == "character configuration is invalid"@),
{
    match CharacterRequirements::new(
        config.mjai.as_str(),
        config.builtin.as_str(),
        config.mcp.as_str(),
        clone_pairs(&config.mcp_providers),
    ) {
        Ok(_) => Ok(()),
        Err(_) => Err(ConfigError::Invalid("character configuration is invalid")),
    }
}

/// Checks that `value` lies in `[minimum, maximum]`.
pub fn validate_duration(value: u64, minimum: u64, maximum: u64) -> (res: Result<(), ConfigError>)
    ensures
        in_range(value, minimum, maximum) <==> res is Ok,
        res matches Err(e) ==> (e matches ConfigError::Invalid(m) && m@
            == "duration is outside its allowed range"@),
{
    if minimum <= value && value <= maximum {
        Ok(())
    } else {
        Err(ConfigError::Invalid("duration is outside its allowed range"))
    }
}

/// Checks the network limits, then every trusted proxy block.
pub fn validate_network(network: &RawNetworkConfig) -> (res: Result<(), ConfigError>)
    ensures
        (network_ok(*network).0 && network_ok(*network).1) <==> res is Ok,
        !network_ok(*network).0 ==> (res matches Err(ConfigError::Invalid(m)) && m@
            == "network limit is outside its allowed range"@),
        network_ok(*network).0 && !network_ok(*network).1 ==> (res matches Err(
            ConfigError::Invalid(m),
        ) && m@ == "trusted proxy CIDR is invalid"@),
{
    if !(1 <= network.max_connections && network.max_connections <= 4096)
        || !(1 <= network.room_participant_limit && network.room_participant_limit <= 32)
        || network.room_participant_limit < 3 || network.code_lookup_per_minute == 0
        || network.participant_creation_per_minute == 0
        || network.admin_login_failures_per_15_minutes == 0
        || network.agent_auth_failures_per_minute == 0 || !(1 <= network.max_compat_matches
        && network.max_compat_matches <= 256) || !(1 <= network.max_ranked_queue
        && network.max_ranked_queue <= 4096) {
        return Err(ConfigError::Invalid("network limit is outside its allowed range"));
    }
    let mut i: usize = 0;
    while i < network.trusted_proxy_cidrs.len()
        invariant
            i <= network.trusted_proxy_cidrs.len(),
            network_ok(*network).0,
            forall|k: int|
                0 <= k < i ==> spec_parse_cidr((#[trigger] network.trusted_proxy_cidrs@[k])@) is Ok,
        decreases network.trusted_proxy_cidrs.len() - i,
    {
        if IpCidr::parse(network.trusted_proxy_cidrs[i].as_str()).is_err() {
            return Err(ConfigError::Invalid("trusted proxy CIDR is invalid"));
        }
        i += 1;
    }
    Ok(())
}

/// The directory of the configuration file `path`.
pub fn data_root_of(path: &str) -> (res: String)
    ensures
        res@ == spec_data_root(path@),
{
    match path_parent(path) {
        Some(p) => if p.as_str().unicode_len() > 0 {
            p
        } else {
            ".".to_owned()
        },
        None => ".".to_owned(),
    }
}

impl RuntimeConfig {
    /// The configuration read from the file at `path`, whose settings are
    /// `raw`: refused with the first check it fails.
    pub fn from_raw(raw: RawRuntimeConfig, path: &str) -> (res: Result<RuntimeConfig, ConfigError>)
        ensures
            config_problem(raw) is None <==> res is Ok,
            res matches Err(e) ==> (e matches ConfigError::Invalid(m) && Some(m@) == config_problem(
                raw,
            )),
            res matches Ok(c) ==> {
                &&& c.bind@ == raw.bind@
                &&& c.public_origin@ == raw.public_origin@
                &&& c.characters.mjai@ == raw.characters.mjai@
                &&& c.characters.builtin@ == raw.characters.builtin@
                &&& c.characters.mcp@ == raw.characters.mcp@
                &&& c.characters.mcp_providers@ == raw.characters.mcp_providers@
                &&& c.time_controls.casual.turn_seconds == raw.time_controls.casual.turn_seconds
                &&& c.time_controls.casual.response_seconds
                    == raw.time_controls.casual.response_seconds
                &&& c.unlimited_watchdog_seconds == raw.unlimited_watchdog_seconds
                &&& c.mcp_session_idle_seconds == raw.mcp_session_idle_seconds
                &&& c.empty_room_cleanup_seconds == raw.empty_room_cleanup_seconds
                &&& c.shutdown_seconds == raw.shutdown_seconds
                &&& c.network.max_connections == raw.network.max_connections
                &&& c.network.room_participant_limit == raw.network.room_participant_limit
                &&& c.network.code_lookup_per_minute == raw.network.code_lookup_per_minute
                &&& c.network.participant_creation_per_minute
                    == raw.network.participant_creation_per_minute
                &&& c.network.admin_login_failures_per_15_minutes
                    == raw.network.admin_login_failures_per_15_minutes
                &&& c.network.agent_auth_failures_per_minute
                    == raw.network.agent_auth_failures_per_minute
                &&& c.network.trusted_proxy_cidrs@ == raw.network.trusted_proxy_cidrs@
                &&& c.network.max_compat_matches == raw.network.max_compat_matches
                &&& c.network.max_ranked_queue == raw.network.max_ranked_queue
                &&& c.spec_data_root() == spec_data_root(path@)
            },
    {
        if let Err(e) = validate_bind(raw.bind.as_str()) {
            return Err(e);
        }
        if let Err(e) = validate_origin(raw.public_origin.as_str()) {
            return Err(e);
        }
        if let Err(e) = validate_character_config(&raw.characters) {
            return Err(e);
        }
        if let Err(e) = validate_duration(raw.time_controls.casual.turn_seconds, 1, 3600) {
            return Err(e);
        }
        if let Err(e) = validate_duration(raw.time_controls.casual.response_seconds, 1, 3600) {
            return Err(e);
        }
        if let Err(e) = validate_duration(raw.unlimited_watchdog_seconds, 10, 3600) {
            return Err(e);
        }
        if let Err(e) = validate_duration(raw.mcp_session_idle_seconds, 1, 86400) {
            return Err(e);
        }
        if let Err(e) = validate_duration(raw.empty_room_cleanup_seconds, 1, 86400) {
            return Err(e);
        }
        if let Err(e) = validate_duration(raw.shutdown_seconds, 1, 86400) {
            return Err(e);
        }
        if let Err(e) = validate_network(&raw.network) {
            return Err(e);
        }
        let data_root = data_root_of(path);
        Ok(RuntimeConfig {
            bind: raw.bind,
            public_origin: raw.public_origin,
            characters: CharacterConfig {
                mjai: raw.characters.mjai,
                builtin: raw.characters.builtin,
                mcp: raw.characters.mcp,
                mcp_providers: raw.characters.mcp_providers,
            },
            time_controls: TimeControls {
                casual: CasualTimeControl {
                    turn_seconds: raw.time_controls.casual.turn_seconds,
                    response_seconds: raw.time_controls.casual.response_seconds,
                },
            },
            unlimited_watchdog_seconds: raw.unlimited_watchdog_seconds,
            mcp_session_idle_seconds: raw.mcp_session_idle_seconds,
            empty_room_cleanup_seconds: raw.empty_room_cleanup_seconds,
            shutdown_seconds: raw.shutdown_seconds,
            network: NetworkConfig {
                max_connections: raw.network.max_connections,
                room_participant_limit: raw.network.room_participant_limit,
                code_lookup_per_minute: raw.network.code_lookup_per_minute,
                participant_creation_per_minute: raw.network.participant_creation_per_minute,
                admin_login_failures_per_15_minutes: raw.network.admin_login_failures_per_15_minutes,
                agent_auth_failures_per_minute: raw.network.agent_auth_failures_per_minute,
                trusted_proxy_cidrs: raw.network.trusted_proxy_cidrs,
                max_compat_matches: raw.network.max_compat_matches,
                max_ranked_queue: raw.network.max_ranked_queue,
            },
            data_root,
        })
    }

    /// The directory that holds the configuration file.
    pub open spec fn spec_data_root(&self) -> Seq<char> {
        self.data_root@
    }

    pub fn data_root(&self) -> (res: &str)
        ensures
            res@ == self.spec_data_root(),
    {
        self.data_root.as_str()
    }

    /// The database file, in the data root.
    pub fn database_path(&self) -> (res: String)
        ensures
            res@ == join_path(self.spec_data_root(), "double-riichi.db"@),
    {
        join_path_str(self.data_root.as_str(), "double-riichi.db")
    }

    /// The replay directory, in the data root.
    pub fn replay_root(&self) -> (res: String)
        ensures
            res@ == join_path(self.spec_data_root(), "replays"@),
    {
        join_path_str(self.data_root.as_str(), "replays")
    }

    /// The character-pack directory, in the data root.
    pub fn character_pack_root(&self) -> (res: String)
        ensures
            res@ == join_path(self.spec_data_root(), "character-packs"@),
    {
        join_path_str(self.data_root.as_str(), "character-packs")
    }

    /// The requirement set of the configured characters.
    pub fn character_requirements(&self) -> (res: Result<CharacterRequirements, ConfigError>)
        ensures
            (spec_safe_id(self.characters.mjai@) && spec_safe_id(self.characters.builtin@)
                && spec_safe_id(self.characters.mcp@) && providers_valid(
                pair_views(self.characters.mcp_providers@),
            )) <==> res is Ok,
            res matches Err(e) ==> (e matches ConfigError::Invalid(m) && m@
                == "character configuration is invalid"@),
            res matches Ok(r) ==> {
                &&& r.mjai@ == self.characters.mjai@
                &&& r.builtin@ == self.characters.builtin@
                &&& r.mcp@ == self.characters.mcp@
                &&& keys_sorted(pair_views(r.mcp_providers@))
                &&& forall|k: Seq<char>|
                    #![trigger last_value(pair_views(r.mcp_providers@), k)]
                    last_value(pair_views(r.mcp_providers@), k) == last_value(
                        pair_views(self.characters.mcp_providers@),
                        k,
                    )
            },
    {
        match CharacterRequirements::new(
            self.characters.mjai.as_str(),
            self.characters.builtin.as_str(),
            self.characters.mcp.as_str(),
            clone_pairs(&self.characters.mcp_providers),
        ) {
            Ok(r) => Ok(r),
            Err(_) => Err(ConfigError::Invalid("character configuration is invalid")),
        }
    }

    /// The registry of the packs the caller found in `character_pack_root`,
    /// checked against the configured characters.
    pub fn load_character_registry(&self, pack_dir: &str, folders: &Vec<ScannedFolder>) -> (res:
        Result<CharacterRegistry, CharacterRegistryError>)
        ensures
            !(spec_safe_id(self.characters.mjai@) && spec_safe_id(self.characters.builtin@)
                && spec_safe_id(self.characters.mcp@) && providers_valid(
                pair_views(self.characters.mcp_providers@),
            )) ==> res == Err::<CharacterRegistry, CharacterRegistryError>(
                CharacterRegistryError::InvalidRequirement,
            ),
            (spec_safe_id(self.characters.mjai@) && spec_safe_id(self.characters.builtin@)
                && spec_safe_id(self.characters.mcp@) && providers_valid(
                pair_views(self.characters.mcp_providers@),
            )) ==> exists|p: Seq<(Seq<char>, Seq<char>)>|
                #![trigger normalized_providers(pair_views(self.characters.mcp_providers@), p)]
                normalized_providers(pair_views(self.characters.mcp_providers@), p) && match registry_packs(
                    pack_dir@,
                    folder_views(folders@),
                    Some(
                        spec_expected(
                            self.characters.mjai@,
                            self.characters.builtin@,
                            self.characters.mcp@,
                            p,
                        ),
                    ),
                ) {
                    Ok(packs) => res matches Ok(r) && r@.root == pack_dir@ && r@.packs == packs,
                    Err(e) => res == Err::<CharacterRegistry, CharacterRegistryError>(e),
                },
    {
        let requirements = match self.character_requirements() {
            Ok(r) => r,
            Err(_) => {
                return Err(CharacterRegistryError::InvalidRequirement);
            },
        };
        let ghost input = pair_views(self.characters.mcp_providers@);
        let ghost p = pair_views(requirements.mcp_providers@);
        proof {
            assert(normalized_providers(input, p));
            lemma_normalized_valid(input, p);
        }
        CharacterRegistry::load_from_data_root(pack_dir, folders, &requirements)
    }
}

} // verus!

use double_riichi_server::config::{
    data_root_of, default_bind, default_builtin_character, default_mcp_character,
    default_mjai_character, validate_duration, validate_network, ConfigError,
    RawCasualTimeControl, RawCharacterConfig, RawNetworkConfig, RawRuntimeConfig,
    RawTimeControls, RuntimeConfig,
};

fn raw() -> RawRuntimeConfig {
    RawRuntimeConfig {
        bind: default_bind(),
        public_origin: "https://driichi.example".to_owned(),
        characters: RawCharacterConfig::default(),
        time_controls: RawTimeControls::default(),
        unlimited_watchdog_seconds: 300,
        mcp_session_idle_seconds: 1800,
        empty_room_cleanup_seconds: 3600,
        shutdown_seconds: 10,
        network: RawNetworkConfig::default(),
    }
}

fn problem(config: RawRuntimeConfig) -> &'static str {
    match RuntimeConfig::from_raw(config, "/etc/driichi/config.toml") {
        Err(ConfigError::Invalid(message)) => message,
        other => panic!("expected an invalid configuration, got {other:?}"),
    }
}

#[test]
fn defaults_make_a_valid_configuration() {
    assert_eq!(default_bind(), "127.0.0.1:3000");
    assert_eq!(default_mjai_character(), "mjai-bot");
    assert_eq!(default_builtin_character(), "tsumogiri-bot");
    assert_eq!(default_mcp_character(), "mcp-agent");
    let config = RuntimeConfig::from_raw(raw(), "/etc/driichi/config.toml").unwrap();
    assert_eq!(config.data_root(), "/etc/driichi");
    assert_eq!(config.database_path(), "/etc/driichi/double-riichi.db");
    assert_eq!(config.replay_root(), "/etc/driichi/replays");
    assert_eq!(config.character_pack_root(), "/etc/driichi/character-packs");
    assert_eq!(config.time_controls.casual.turn_seconds, 30);
    assert_eq!(config.network.max_connections, 256);
    let requirements = config.character_requirements().unwrap();
    assert_eq!(requirements.mjai, "mjai-bot");
}

#[test]
fn a_bare_file_name_has_the_current_directory_as_data_root() {
    assert_eq!(data_root_of("config.toml"), ".");
    assert_eq!(data_root_of("conf/config.toml"), "conf");
}

#[test]
fn each_setting_is_checked_in_order() {
    let mut c = raw();
    c.bind = "localhost:3000".to_owned();
    assert_eq!(problem(c), "bind must be a socket address");
    let mut c = raw();
    c.public_origin = "not a url".to_owned();
    assert_eq!(problem(c), "public_origin is invalid");
    let mut c = raw();
    c.public_origin = "https://driichi.example/path".to_owned();
    assert_eq!(problem(c), "public_origin must be an origin");
    let mut c = raw();
    c.public_origin = "ftp://driichi.example".to_owned();
    assert_eq!(problem(c), "public_origin must be an origin");
    let mut c = raw();
    c.characters.mcp_providers = vec![("Bad".to_owned(), "x".to_owned())];
    assert_eq!(problem(c), "character configuration is invalid");
    let mut c = raw();
    c.time_controls = RawTimeControls { casual: RawCasualTimeControl { turn_seconds: 0, response_seconds: 10 } };
    assert_eq!(problem(c), "duration is outside its allowed range");
    let mut c = raw();
    c.unlimited_watchdog_seconds = 5;
    assert_eq!(problem(c), "duration is outside its allowed range");
    let mut c = raw();
    c.network.room_participant_limit = 2;
    assert_eq!(problem(c), "network limit is outside its allowed range");
    let mut c = raw();
    c.network.trusted_proxy_cidrs = vec!["10.0.0.0/40".to_owned()];
    assert_eq!(problem(c), "trusted proxy CIDR is invalid");
}

#[test]
fn durations_and_networks_are_range_checked() {
    assert!(validate_duration(1, 1, 3600).is_ok());
    assert!(validate_duration(3601, 1, 3600).is_err());
    let mut network = RawNetworkConfig::default();
    assert!(validate_network(&network).is_ok());
    network.max_compat_matches = 257;
    assert!(validate_network(&network).is_err());
}

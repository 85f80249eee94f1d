//! The parts of a character pack: what it is used for, its voice lines, its
//! asset files and the checks on their names and headers.

use vstd::prelude::*;

use crate::text::{
    char_views, chars_equal, chars_have_control, chars_of, has_control, spec_ascii_digit,
    spec_ascii_lowercase, split_chars, split_on, str_eq, string_from_chars, trim, trim_chars,
    trimmed_chars,
};

verus! {

/// Why a set of character packs was refused.
#[derive(Debug, Clone, Copy, PartialEq, Eq, Structural)]
pub enum CharacterRegistryError {
    Io,
    InvalidPack,
    UnsafePath,
    DuplicateId,
    DuplicatePath,
    MissingHumanPack,
    MissingRequiredPack,
    UsageMismatch,
    InvalidRequirement,
}

impl CharacterRegistryError {
    /// The message shown for the error.
    pub fn message(&self) -> (res: &'static str)
        ensures
            res@ == spec_registry_error_message(*self),
    {
        match self {
            CharacterRegistryError::Io => "character registry could not be read",
            CharacterRegistryError::InvalidPack => "character pack is invalid",
            CharacterRegistryError::UnsafePath => "character pack path is unsafe",
            CharacterRegistryError::DuplicateId => "duplicate character ID",
            CharacterRegistryError::DuplicatePath => "duplicate character asset path",
            CharacterRegistryError::MissingHumanPack => "no valid Human Character Pack is configured",
            CharacterRegistryError::MissingRequiredPack => "a required Character Pack is missing",
            CharacterRegistryError::UsageMismatch => "a required Character Pack has the wrong usage",
            CharacterRegistryError::InvalidRequirement => "Character Pack configuration is invalid",
        }
    }
}

/// The message of each registry error.
pub open spec fn spec_registry_error_message(e: CharacterRegistryError) -> Seq<char> {
    match e {
        CharacterRegistryError::Io => "character registry could not be read"@,
        CharacterRegistryError::InvalidPack => "character pack is invalid"@,
        CharacterRegistryError::UnsafePath => "character pack path is unsafe"@,
        CharacterRegistryError::DuplicateId => "duplicate character ID"@,
        CharacterRegistryError::DuplicatePath => "duplicate character asset path"@,
        CharacterRegistryError::MissingHumanPack => "no valid Human Character Pack is configured"@,
        CharacterRegistryError::MissingRequiredPack => "a required Character Pack is missing"@,
        CharacterRegistryError::UsageMismatch => "a required Character Pack has the wrong usage"@,
        CharacterRegistryError::InvalidRequirement => "Character Pack configuration is invalid"@,
    }
}

/// Who a character pack is for.
#[derive(Debug, Clone, Copy, PartialEq, Eq, Structural, Hash)]
pub enum CharacterUsage {
    Human,
    Mjai,
    Mcp,
    Builtin,
}

/// A line that every character pack voices.
#[derive(Debug, Clone, Copy, PartialEq, Eq, Structural, Hash)]
pub enum VoiceLine {
    Chi,
    Pon,
    Kan,
    Riichi,
    Ron,
    Tsumo,
}

/// The name of a voice line, as it appears in asset paths.
pub open spec fn voice_name(v: VoiceLine) -> Seq<char> {
    match v {
        VoiceLine::Chi => "chi"@,
        VoiceLine::Pon => "pon"@,
        VoiceLine::Kan => "kan"@,
        VoiceLine::Riichi => "riichi"@,
        VoiceLine::Ron => "ron"@,
        VoiceLine::Tsumo => "tsumo"@,
    }
}

/// The voice line named `s`, if any.
pub open spec fn voice_named(s: Seq<char>) -> Option<VoiceLine> {
    if s == "chi"@ {
        Some(VoiceLine::Chi)
    } else if s == "pon"@ {
        Some(VoiceLine::Pon)
    } else if s == "kan"@ {
        Some(VoiceLine::Kan)
    } else if s == "riichi"@ {
        Some(VoiceLine::Riichi)
    } else if s == "ron"@ {
        Some(VoiceLine::Ron)
    } else if s == "tsumo"@ {
        Some(VoiceLine::Tsumo)
    } else {
        None
    }
}

impl VoiceLine {
    pub fn as_str(self) -> (res: &'static str)
        ensures
            res@ == voice_name(self),
    {
        match self {
            VoiceLine::Chi => "chi",
            VoiceLine::Pon => "pon",
            VoiceLine::Kan => "kan",
            VoiceLine::Riichi => "riichi",
            VoiceLine::Ron => "ron",
            VoiceLine::Tsumo => "tsumo",
        }
    }

    /// The voice line named `value`, if any.
    pub fn parse(value: &str) -> (res: Option<VoiceLine>)
        ensures
            res == voice_named(value@),
    {
        if str_eq(value, "chi") {
            Some(VoiceLine::Chi)
        } else if str_eq(value, "pon") {
            Some(VoiceLine::Pon)
        } else if str_eq(value, "kan") {
            Some(VoiceLine::Kan)
        } else if str_eq(value, "riichi") {
            Some(VoiceLine::Riichi)
        } else if str_eq(value, "ron") {
            Some(VoiceLine::Ron)
        } else if str_eq(value, "tsumo") {
            Some(VoiceLine::Tsumo)
        } else {
            None
        }
    }
}

/// The voice lines that every pack must hold, in the order they are checked.
pub open spec fn spec_required_voices() -> Seq<VoiceLine> {
    seq![
        VoiceLine::Chi,
        VoiceLine::Pon,
        VoiceLine::Kan,
        VoiceLine::Riichi,
        VoiceLine::Ron,
        VoiceLine::Tsumo,
    ]
}

/// The voice lines that every pack must hold, in the order they are checked.
pub fn required_voices() -> (res: Vec<VoiceLine>)
    ensures
        res@ == spec_required_voices(),
{
    vec![
        VoiceLine::Chi,
        VoiceLine::Pon,
        VoiceLine::Kan,
        VoiceLine::Riichi,
        VoiceLine::Ron,
        VoiceLine::Tsumo,
    ]
}

/// One asset file of a character pack.
#[derive(Debug, Clone, Copy, PartialEq, Eq, Structural, Hash)]
pub enum CharacterAsset {
    Portrait,
    Icon,
    Voice(VoiceLine),
}

/// Where an asset lies inside its pack.
pub open spec fn asset_path(a: CharacterAsset) -> Seq<char> {
    match a {
        CharacterAsset::Portrait => "portrait.webp"@,
        CharacterAsset::Icon => "icon.webp"@,
        CharacterAsset::Voice(VoiceLine::Chi) => "voices/chi.ogg"@,
        CharacterAsset::Voice(VoiceLine::Pon) => "voices/pon.ogg"@,
        CharacterAsset::Voice(VoiceLine::Kan) => "voices/kan.ogg"@,
        CharacterAsset::Voice(VoiceLine::Riichi) => "voices/riichi.ogg"@,
        CharacterAsset::Voice(VoiceLine::Ron) => "voices/ron.ogg"@,
        CharacterAsset::Voice(VoiceLine::Tsumo) => "voices/tsumo.ogg"@,
    }
}

/// The media type an asset is served with.
pub open spec fn asset_content_type(a: CharacterAsset) -> Seq<char> {
    match a {
        CharacterAsset::Portrait | CharacterAsset::Icon => "image/webp"@,
        CharacterAsset::Voice(_) => "audio/ogg"@,
    }
}

impl CharacterAsset {
    pub fn relative_path(self) -> (res: &'static str)
        ensures
            res@ == asset_path(self),
    {
        match self {
            CharacterAsset::Portrait => "portrait.webp",
            CharacterAsset::Icon => "icon.webp",
            CharacterAsset::Voice(VoiceLine::Chi) => "voices/chi.ogg",
            CharacterAsset::Voice(VoiceLine::Pon) => "voices/pon.ogg",
            CharacterAsset::Voice(VoiceLine::Kan) => "voices/kan.ogg",
            CharacterAsset::Voice(VoiceLine::Riichi) => "voices/riichi.ogg",
            CharacterAsset::Voice(VoiceLine::Ron) => "voices/ron.ogg",
            CharacterAsset::Voice(VoiceLine::Tsumo) => "voices/tsumo.ogg",
        }
    }

    pub fn content_type(self) -> (res: &'static str)
        ensures
            res@ == asset_content_type(self),
    {
        match self {
            CharacterAsset::Portrait | CharacterAsset::Icon => "image/webp",
            CharacterAsset::Voice(_) => "audio/ogg",
        }
    }
}

/// Whether `b` starts with a RIFF header of the WEBP form.
pub open spec fn spec_is_webp(b: Seq<u8>) -> bool {
    &&& b.len() >= 12
    &&& b[0] == 82 && b[1] == 73 && b[2] == 70 && b[3] == 70
    &&& b[8] == 87 && b[9] == 69 && b[10] == 66 && b[11] == 80
}

/// Whether `b` starts with the Ogg capture pattern `OggS`.
pub open spec fn spec_is_ogg(b: Seq<u8>) -> bool {
    &&& b.len() >= 4
    &&& b[0] == 79 && b[1] == 103 && b[2] == 103 && b[3] == 83
}

/// Whether `bytes` start with a RIFF header of the WEBP form: `RIFF`, a
/// length, then `WEBP`. Only the container header is checked.
pub fn is_webp(bytes: &[u8]) -> (res: bool)
    ensures
        res == spec_is_webp(bytes@),
{
    bytes.len() >= 12 && bytes[0] == 82 && bytes[1] == 73 && bytes[2] == 70 && bytes[3] == 70
        && bytes[8] == 87 && bytes[9] == 69 && bytes[10] == 66 && bytes[11] == 80
}

/// Whether `bytes` start with the Ogg capture pattern `OggS`. Only the
/// container header is checked.
pub fn is_ogg(bytes: &[u8]) -> (res: bool)
    ensures
        res == spec_is_ogg(bytes@),
{
    bytes.len() >= 4 && bytes[0] == 79 && bytes[1] == 103 && bytes[2] == 103 && bytes[3] == 83
}

/// A character that may follow the first one of an id: a lowercase ASCII
/// letter, a digit or `-`.
pub open spec fn id_tail_char(c: char) -> bool {
    spec_ascii_lowercase(c) || spec_ascii_digit(c) || c == '-'
}

/// A safe character id: 1 to 64 characters, lowercase ASCII letters, digits
/// and `-`, not starting with `-`.
pub open spec fn spec_safe_id(s: Seq<char>) -> bool {
    &&& 1 <= s.len() <= 64
    &&& (spec_ascii_lowercase(s[0]) || spec_ascii_digit(s[0]))
    &&& forall|i: int| 1 <= i < s.len() ==> id_tail_char(#[trigger] s[i])
}

/// A character of a provider name.
pub open spec fn provider_char(c: char) -> bool {
    spec_ascii_lowercase(c) || spec_ascii_digit(c) || c == '-' || c == '_'
}

/// A provider name: 1 to 64 lowercase ASCII letters, digits, `-` and `_`.
pub open spec fn spec_provider(s: Seq<char>) -> bool {
    &&& 1 <= s.len() <= 64
    &&& forall|i: int| 0 <= i < s.len() ==> provider_char(#[trigger] s[i])
}

fn safe_id_chars(v: &[char]) -> (res: bool)
    ensures
        res == spec_safe_id(v@),
{
    if v.len() == 0 || v.len() > 64 {
        return false;
    }
    let first = v[0];
    if !(('a' <= first && first <= 'z') || ('0' <= first && first <= '9')) {
        return false;
    }
    let mut i: usize = 1;
    while i < v.len()
        invariant
            1 <= i <= v.len(),
            forall|k: int| 1 <= k < i ==> id_tail_char(#[trigger] v@[k]),
        decreases v.len() - i,
    {
        let c = v[i];
        if !(('a' <= c && c <= 'z') || ('0' <= c && c <= '9') || c == '-') {
            return false;
        }
        i += 1;
    }
    true
}

/// Whether `value` is a safe character id.
pub fn is_safe_id(value: &str) -> (res: bool)
    ensures
        res == spec_safe_id(value@),
{
    let v = chars_of(value);
    safe_id_chars(v.as_slice())
}

pub fn is_safe_character_id(value: &str) -> (res: bool)
    ensures
        res == spec_safe_id(value@),
{
    is_safe_id(value)
}

/// Whether `value` is a provider name.
pub fn is_provider(value: &str) -> (res: bool)
    ensures
        res == spec_provider(value@),
{
    let v = chars_of(value);
    if v.len() == 0 || v.len() > 64 {
        return false;
    }
    let mut i: usize = 0;
    while i < v.len()
        invariant
            i <= v.len(),
            v@ == value@,
            forall|k: int| 0 <= k < i ==> provider_char(#[trigger] v@[k]),
        decreases v.len() - i,
    {
        let c = v[i];
        if !(('a' <= c && c <= 'z') || ('0' <= c && c <= '9') || c == '-' || c == '_') {
            return false;
        }
        i += 1;
    }
    true
}

/// Whether a display name is kept: 1 to 64 characters once surrounding
/// whitespace is gone, none of them a control character.
pub open spec fn display_name_ok(s: Seq<char>) -> bool {
    1 <= trim(s).len() <= 64 && !has_control(trim(s))
}

/// A display name without surrounding whitespace, or `None` when it is
/// empty, longer than 64 characters or holds a control character.
pub fn normalize_display_name(value: &str) -> (res: Option<String>)
    ensures
        display_name_ok(value@) ==> (res matches Some(s) && s@ == trim(value@)),
        !display_name_ok(value@) ==> res is None,
{
    let trimmed = trimmed_chars(value);
    if trimmed.len() == 0 || trimmed.len() > 64 || chars_have_control(trimmed.as_slice()) {
        return None;
    }
    Some(string_from_chars(trimmed.as_slice()))
}

pub fn starter_version() -> (res: &'static str)
    ensures
        res@ == "1.0.0"@,
{
    "1.0.0"
}

/// Whether one entry of an `If-None-Match` list names `etag`, strongly or
/// weakly.
pub open spec fn etag_candidate_matches(candidate: Seq<char>, etag: Seq<char>) -> bool {
    trim(candidate) == etag || trim(candidate) == "W/"@ + etag
}

/// Whether an `If-None-Match` value matches `etag`: it is `*`, or one of its
/// comma-separated entries names the tag.
pub open spec fn spec_etag_matches(value: Seq<char>, etag: Seq<char>) -> bool {
    ||| trim(value) == "*"@
    ||| exists|i: int|
        0 <= i < split_on(value, ',').len() && etag_candidate_matches(
            #[trigger] split_on(value, ',')[i],
            etag,
        )
}

/// Whether the `If-None-Match` header value `value` matches `etag`.
pub fn etag_matches(value: &str, etag: &str) -> (res: bool)
    ensures
        res == spec_etag_matches(value@, etag@),
{
    let star = chars_of("*");
    let trimmed = trimmed_chars(value);
    if chars_equal(trimmed.as_slice(), star.as_slice()) {
        return true;
    }
    let strong = chars_of(etag);
    let mut weak_text = "W/".to_owned();
    weak_text.append(etag);
    let weak = chars_of(weak_text.as_str());
    let v = chars_of(value);
    let pieces = split_chars(v.as_slice(), ',');
    let mut i: usize = 0;
    while i < pieces.len()
        invariant
            i <= pieces.len(),
            char_views(pieces@) == split_on(value@, ','),
            strong@ == etag@,
            weak@ == "W/"@ + etag@,
            forall|k: int| 0 <= k < i ==> !etag_candidate_matches(#[trigger] split_on(value@, ',')[k], etag@),
        decreases pieces.len() - i,
    {
        let candidate = trim_chars(pieces[i].as_slice());
        proof {
            assert(char_views(pieces@)[i as int] == pieces@[i as int]@);
        }
        if chars_equal(candidate.as_slice(), strong.as_slice()) || chars_equal(
            candidate.as_slice(),
            weak.as_slice(),
        ) {
            return true;
        }
        i += 1;
    }
    proof {
        assert(pieces@.len() == split_on(value@, ',').len());
    }
    false
}

} // verus!

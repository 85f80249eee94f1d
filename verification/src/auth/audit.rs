//! What may be written to the admin audit log: summaries from an allowlist
//! per action, and never a raw bot token or a secret-looking key.

use vstd::prelude::*;

use crate::json::{
    ascii_lower, contains_seq, lowercase_contains, lowercase_equals, object_get, object_lookup,
    JsonValue,
};
use crate::text::{chars_of, str_eq, string_from_chars};

verus! {

/// A byte that may appear in a raw bot token after its prefix: an ASCII
/// letter or digit, `_` or `-`.
pub open spec fn spec_token_byte(b: u8) -> bool {
    (97 <= b && b <= 122) || (65 <= b && b <= 90) || (48 <= b && b <= 57) || b == 95 || b == 45
}

/// A character that may appear in a raw bot token after its prefix.
pub open spec fn spec_token_char(c: char) -> bool {
    (c as u32) < 128 && spec_token_byte((c as u32) as u8)
}

/// Whether a raw bot token (`driichi_` and 43 token characters) starts at
/// position `i` of `s`.
pub open spec fn raw_token_at(s: Seq<char>, i: int) -> bool {
    &&& 0 <= i
    &&& i + 51 <= s.len()
    &&& s.subrange(i, i + 8) == "driichi_"@
    &&& forall|k: int| i + 8 <= k < i + 51 ==> spec_token_char(#[trigger] s[k])
}

/// Whether `s` holds a raw bot token anywhere.
pub open spec fn spec_contains_raw_token(s: Seq<char>) -> bool {
    exists|i: int| raw_token_at(s, i)
}

pub fn is_token_character(byte: &u8) -> (res: bool)
    ensures
        res == spec_token_byte(*byte),
{
    let b = *byte;
    (97 <= b && b <= 122) || (65 <= b && b <= 90) || (48 <= b && b <= 57) || b == 95 || b == 45
}

fn is_token_char(c: char) -> (res: bool)
    ensures
        res == spec_token_char(c),
{
    let v = c as u32;
    if v >= 128 {
        return false;
    }
    let b = v as u8;
    is_token_character(&b)
}

fn raw_token_starts_at(v: &[char], prefix: &[char], i: usize) -> (res: bool)
    requires
        prefix@ == "driichi_"@,
        prefix@.len() == 8,
    ensures
        res == raw_token_at(v@, i as int),
{
    if v.len() < 51 || i > v.len() - 51 {
        return false;
    }
    let mut k: usize = 0;
    while k < 8
        invariant
            i + 51 <= v.len(),
            prefix@ == "driichi_"@,
            prefix@.len() == 8,
            k <= 8,
            forall|m: int| 0 <= m < k ==> v@[i + m] == prefix@[m],
        decreases 8 - k,
    {
        if v[i + k] != prefix[k] {
            assert(v@.subrange(i as int, i + 8)[k as int] == v@[i + k]);
            assert(v@.subrange(i as int, i + 8) != prefix@);
            return false;
        }
        k += 1;
    }
    assert(v@.subrange(i as int, i + 8) =~= prefix@);
    let mut k: usize = i + 8;
    while k < i + 51
        invariant
            i + 51 <= v.len(),
            i + 8 <= k <= i + 51,
            forall|m: int| i + 8 <= m < k ==> spec_token_char(#[trigger] v@[m]),
        decreases i + 51 - k,
    {
        if !is_token_char(v[k]) {
            assert(!spec_token_char(v@[k as int]));
            return false;
        }
        k += 1;
    }
    true
}

/// Whether `value` holds a raw bot token.
pub fn string_contains_raw_token(value: &str) -> (res: bool)
    ensures
        res == spec_contains_raw_token(value@),
{
    let v = chars_of(value);
    let prefix = chars_of("driichi_");
    proof {
        reveal_strlit("driichi_");
    }
    let mut i: usize = 0;
    while i < v.len()
        invariant
            i <= v.len(),
            v@ == value@,
            prefix@ == "driichi_"@,
            prefix@.len() == 8,
            forall|j: int| 0 <= j < i ==> !raw_token_at(v@, j),
        decreases v.len() - i,
    {
        if raw_token_starts_at(v.as_slice(), prefix.as_slice(), i) {
            assert(raw_token_at(v@, i as int));
            return true;
        }
        i += 1;
    }
    proof {
        assert forall|j: int| !raw_token_at(v@, j) by {
            if raw_token_at(v@, j) {
                assert(j < i);
            }
        }
    }
    false
}

/// `[REDACTED]` in place of an audit target id that holds a raw bot token.
pub open spec fn spec_redacted_target_id(target_id: Seq<char>) -> Seq<char> {
    if spec_contains_raw_token(target_id) {
        "[REDACTED]"@
    } else {
        target_id
    }
}

pub fn redact_audit_target_id(target_id: &str) -> (res: String)
    ensures
        res@ == spec_redacted_target_id(target_id@),
{
    if string_contains_raw_token(target_id) {
        "[REDACTED]".to_owned()
    } else {
        target_id.to_owned()
    }
}

/// A key that must not appear in an audit summary.
pub open spec fn forbidden_key(key: Seq<char>) -> bool {
    let lower = ascii_lower(key);
    contains_seq(lower, "password"@) || contains_seq(lower, "secret"@) || contains_seq(
        lower,
        "cookie"@,
    ) || contains_seq(lower, "authorization"@) || lower == "raw_token"@ || lower == "token"@
}

/// Whether `v` has a forbidden key at any depth.
pub open spec fn spec_contains_forbidden_key(v: JsonValue) -> bool
    decreases v,
{
    match v {
        JsonValue::Object(entries) => exists|i: int|
            0 <= i < entries@.len() && (forbidden_key(entries@[i].0@)
                || spec_contains_forbidden_key(entries@[i].1)),
        JsonValue::Array(values) => exists|i: int|
            0 <= i < values@.len() && spec_contains_forbidden_key(values@[i]),
        _ => false,
    }
}

/// Whether `v` has a string holding a raw bot token at any depth.
pub open spec fn spec_contains_raw_token_value(v: JsonValue) -> bool
    decreases v,
{
    match v {
        JsonValue::String(s) => spec_contains_raw_token(s@),
        JsonValue::Object(entries) => exists|i: int|
            0 <= i < entries@.len() && spec_contains_raw_token_value(entries@[i].1),
        JsonValue::Array(values) => exists|i: int|
            0 <= i < values@.len() && spec_contains_raw_token_value(values@[i]),
        _ => false,
    }
}

fn is_forbidden_key(key: &str) -> (res: bool)
    ensures
        res == forbidden_key(key@),
{
    let k = chars_of(key);
    proof {
        reveal_strlit("password");
        reveal_strlit("secret");
        reveal_strlit("cookie");
        reveal_strlit("authorization");
        reveal_strlit("raw_token");
        reveal_strlit("token");
    }
    lowercase_contains(k.as_slice(), chars_of("password").as_slice()) || lowercase_contains(
        k.as_slice(),
        chars_of("secret").as_slice(),
    ) || lowercase_contains(k.as_slice(), chars_of("cookie").as_slice()) || lowercase_contains(
        k.as_slice(),
        chars_of("authorization").as_slice(),
    ) || lowercase_equals(k.as_slice(), chars_of("raw_token").as_slice()) || lowercase_equals(
        k.as_slice(),
        chars_of("token").as_slice(),
    )
}

pub fn contains_forbidden_key(value: &JsonValue) -> (res: bool)
    ensures
        res == spec_contains_forbidden_key(*value),
    decreases value,
{
    match value {
        JsonValue::Object(entries) => {
            let mut i: usize = 0;
            while i < entries.len()
                invariant
                    *value == JsonValue::Object(*entries),
                    i <= entries@.len(),
                    forall|k: int|
                        0 <= k < i ==> !(forbidden_key(entries@[k].0@)
                            || spec_contains_forbidden_key(entries@[k].1)),
                decreases entries@.len() - i,
            {
                proof {
                    assert(decreases_to!(*value => value->Object_0));
                    assert(decreases_to!(*entries => entries@));
                    assert(decreases_to!(entries@ => entries@[i as int]));
                    assert(decreases_to!(entries@[i as int] => entries@[i as int].1));
                }
                if is_forbidden_key(entries[i].0.as_str()) || contains_forbidden_key(&entries[i].1) {
                    assert(forbidden_key(entries@[i as int].0@) || spec_contains_forbidden_key(
                        entries@[i as int].1,
                    ));
                    return true;
                }
                i += 1;
            }
            false
        },
        JsonValue::Array(values) => {
            let mut i: usize = 0;
            while i < values.len()
                invariant
                    *value == JsonValue::Array(*values),
                    i <= values@.len(),
                    forall|k: int| 0 <= k < i ==> !spec_contains_forbidden_key(values@[k]),
                decreases values@.len() - i,
            {
                proof {
                    assert(decreases_to!(*value => value->Array_0));
                    assert(decreases_to!(*values => values@));
                    assert(decreases_to!(values@ => values@[i as int]));
                }
                if contains_forbidden_key(&values[i]) {
                    assert(spec_contains_forbidden_key(values@[i as int]));
                    return true;
                }
                i += 1;
            }
            false
        },
        _ => false,
    }
}

pub fn contains_raw_token(value: &JsonValue) -> (res: bool)
    ensures
        res == spec_contains_raw_token_value(*value),
    decreases value,
{
    match value {
        JsonValue::String(s) => string_contains_raw_token(s.as_str()),
        JsonValue::Object(entries) => {
            let mut i: usize = 0;
            while i < entries.len()
                invariant
                    *value == JsonValue::Object(*entries),
                    i <= entries@.len(),
                    forall|k: int| 0 <= k < i ==> !spec_contains_raw_token_value(entries@[k].1),
                decreases entries@.len() - i,
            {
                proof {
                    assert(decreases_to!(*value => value->Object_0));
                    assert(decreases_to!(*entries => entries@));
                    assert(decreases_to!(entries@ => entries@[i as int]));
                    assert(decreases_to!(entries@[i as int] => entries@[i as int].1));
                }
                if contains_raw_token(&entries[i].1) {
                    assert(spec_contains_raw_token_value(entries@[i as int].1));
                    return true;
                }
                i += 1;
            }
            false
        },
        JsonValue::Array(values) => {
            let mut i: usize = 0;
            while i < values.len()
                invariant
                    *value == JsonValue::Array(*values),
                    i <= values@.len(),
                    forall|k: int| 0 <= k < i ==> !spec_contains_raw_token_value(values@[k]),
                decreases values@.len() - i,
            {
                proof {
                    assert(decreases_to!(*value => value->Array_0));
                    assert(decreases_to!(*values => values@));
                    assert(decreases_to!(values@ => values@[i as int]));
                }
                if contains_raw_token(&values[i]) {
                    assert(spec_contains_raw_token_value(values@[i as int]));
                    return true;
                }
                i += 1;
            }
            false
        },
        _ => false,
    }
}

/// An object with the single entry `key`, a string.
pub open spec fn spec_object_has_string(entries: Seq<(String, JsonValue)>, key: Seq<char>) -> bool {
    entries.len() == 1 && object_get(entries, key) matches Some(JsonValue::String(_))
}

/// An object with the single entry `key`, an array of strings.
pub open spec fn spec_object_has_string_array(entries: Seq<(String, JsonValue)>, key: Seq<char>) -> bool {
    entries.len() == 1 && match object_get(entries, key) {
        Some(JsonValue::Array(values)) => forall|i: int|
            0 <= i < values@.len() ==> values@[i] is String,
        _ => false,
    }
}

/// The summary of a token revocation: a string `name` and otherwise only a
/// string `token_id`.
pub open spec fn spec_token_revoke_summary(entries: Seq<(String, JsonValue)>) -> bool {
    &&& object_get(entries, "name"@) matches Some(JsonValue::String(_))
    &&& forall|i: int|
        0 <= i < entries.len() ==> (entries[i].0@ == "name"@ || entries[i].0@ == "token_id"@)
            && entries[i].1 is String
}

/// Whether `summary` may be logged for `action`.
pub open spec fn spec_audit_summary_allowed(action: Seq<char>, summary: JsonValue) -> bool {
    match summary {
        JsonValue::Object(entries) => {
            &&& !spec_contains_forbidden_key(summary)
            &&& !spec_contains_raw_token_value(summary)
            &&& if action == "login"@ || action == "logout"@ || action == "fill_with_bots"@ || action
                == "match_start"@ || action == "rematch"@ || action == "back_to_lobby"@ {
                entries@.len() == 0
            } else if action == "room_create"@ || action == "room_delete"@ {
                spec_object_has_string(entries@, "room_name"@)
            } else if action == "room_configure"@ {
                spec_object_has_string_array(entries@, "changed_fields"@)
            } else if action == "participant_select"@ || action == "participant_deselect"@
                || action == "participant_kick"@ {
                spec_object_has_string(entries@, "participant_id"@)
            } else if action == "token_create"@ {
                spec_object_has_string(entries@, "name"@)
            } else if action == "token_revoke"@ {
                spec_token_revoke_summary(entries@)
            } else if action == "replay_delete"@ {
                spec_object_has_string(entries@, "match_id"@)
            } else {
                false
            }
        },
        _ => false,
    }
}

pub fn object_has_string(entries: &Vec<(String, JsonValue)>, key: &str) -> (res: bool)
    ensures
        res == spec_object_has_string(entries@, key@),
{
    if entries.len() != 1 {
        return false;
    }
    match object_lookup(entries, key) {
        Some(JsonValue::String(_)) => true,
        _ => false,
    }
}

pub fn object_has_string_array(entries: &Vec<(String, JsonValue)>, key: &str) -> (res: bool)
    ensures
        res == spec_object_has_string_array(entries@, key@),
{
    if entries.len() != 1 {
        return false;
    }
    match object_lookup(entries, key) {
        Some(JsonValue::Array(values)) => {
            let mut i: usize = 0;
            while i < values.len()
                invariant
                    entries@.len() == 1,
                    object_get(entries@, key@) == Some(JsonValue::Array(*values)),
                    i <= values@.len(),
                    forall|k: int| 0 <= k < i ==> values@[k] is String,
                decreases values@.len() - i,
            {
                match &values[i] {
                    JsonValue::String(_) => {},
                    _ => return false,
                }
                i += 1;
            }
            true
        },
        _ => false,
    }
}

fn token_revoke_summary(entries: &Vec<(String, JsonValue)>) -> (res: bool)
    ensures
        res == spec_token_revoke_summary(entries@),
{
    match object_lookup(entries, "name") {
        Some(JsonValue::String(_)) => {},
        _ => return false,
    }
    let mut i: usize = 0;
    while i < entries.len()
        invariant
            i <= entries@.len(),
            forall|k: int|
                0 <= k < i ==> (entries@[k].0@ == "name"@ || entries@[k].0@ == "token_id"@)
                    && entries@[k].1 is String,
        decreases entries@.len() - i,
    {
        let key = entries[i].0.as_str();
        if !(str_eq(key, "name") || str_eq(key, "token_id")) {
            return false;
        }
        match &entries[i].1 {
            JsonValue::String(_) => {},
            _ => return false,
        }
        i += 1;
    }
    true
}

/// Whether `summary` may be written to the audit log for `action`.
pub fn validate_audit_summary(action: &str, summary: &JsonValue) -> (res: bool)
    ensures
        res == spec_audit_summary_allowed(action@, *summary),
{
    let entries = match summary {
        JsonValue::Object(entries) => entries,
        _ => return false,
    };
    if contains_forbidden_key(summary) || contains_raw_token(summary) {
        return false;
    }
    if str_eq(action, "login") || str_eq(action, "logout") || str_eq(action, "fill_with_bots")
        || str_eq(action, "match_start") || str_eq(action, "rematch") || str_eq(
        action,
        "back_to_lobby",
    ) {
        entries.len() == 0
    } else if str_eq(action, "room_create") || str_eq(action, "room_delete") {
        object_has_string(entries, "room_name")
    } else if str_eq(action, "room_configure") {
        object_has_string_array(entries, "changed_fields")
    } else if str_eq(action, "participant_select") || str_eq(action, "participant_deselect")
        || str_eq(action, "participant_kick") {
        object_has_string(entries, "participant_id")
    } else if str_eq(action, "token_create") {
        object_has_string(entries, "name")
    } else if str_eq(action, "token_revoke") {
        token_revoke_summary(entries)
    } else if str_eq(action, "replay_delete") {
        object_has_string(entries, "match_id")
    } else {
        false
    }
}

} // verus!

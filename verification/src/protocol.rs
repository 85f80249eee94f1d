//! The names that room snapshots are sent to clients with: object keys and
//! enum values in snake case, game modes by their short names.

use vstd::prelude::*;

use crate::json::{json_view, JsonValue, JsonView};
use crate::text::str_eq;

verus! {

/// The snake-case name of an enum value sent to clients.
pub open spec fn spec_protocol_value_name(value: Seq<char>) -> Option<Seq<char>> {
    if value == "Human"@ {
        Some("human"@)
    } else     if value == "MJAI"@ {
        Some("mjai"@)
    } else     if value == "MCP"@ {
        Some("mcp"@)
    } else     if value == "BuiltInBot"@ {
        Some("built_in_bot"@)
    } else     if value == "Interactive"@ {
        Some("interactive"@)
    } else     if value == "TemporaryAuto"@ {
        Some("temporary_auto"@)
    } else     if value == "PermanentAuto"@ {
        Some("permanent_auto"@)
    } else     if value == "LeftDuringMatch"@ {
        Some("left_during_match"@)
    } else     if value == "AgentLeft"@ {
        Some("agent_left"@)
    } else     if value == "TokenRevoked"@ {
        Some("token_revoked"@)
    } else     if value == "ConnectionLost"@ {
        Some("connection_lost"@)
    } else     if value == "Disconnect"@ {
        Some("disconnect"@)
    } else     if value == "Connected"@ {
        Some("connected"@)
    } else     if value == "Disconnected"@ {
        Some("disconnected"@)
    } else     if value == "None"@ {
        Some("none"@)
    } else     if value == "Player"@ {
        Some("player"@)
    } else     if value == "Spectator"@ {
        Some("spectator"@)
    } else     if value == "Turn"@ {
        Some("turn"@)
    } else     if value == "Response"@ {
        Some("response"@)
    } else     if value == "RiichiDev"@ {
        Some("riichi_dev"@)
    } else     if value == "Casual"@ {
        Some("casual"@)
    } else     if value == "East"@ {
        Some("east"@)
    } else     if value == "South"@ {
        Some("south"@)
    } else     if value == "West"@ {
        Some("west"@)
    } else     if value == "North"@ {
        Some("north"@)
    } else {
        None
    }
}

pub fn protocol_value_name(value: &str) -> (res: Option<&'static str>)
    ensures
        match spec_protocol_value_name(value@) {
            Some(n) => res matches Some(r) && r@ == n,
            None => res is None,
        },
{
    if str_eq(value, "Human") {
        Some("human")
    } else     if str_eq(value, "MJAI") {
        Some("mjai")
    } else     if str_eq(value, "MCP") {
        Some("mcp")
    } else     if str_eq(value, "BuiltInBot") {
        Some("built_in_bot")
    } else     if str_eq(value, "Interactive") {
        Some("interactive")
    } else     if str_eq(value, "TemporaryAuto") {
        Some("temporary_auto")
    } else     if str_eq(value, "PermanentAuto") {
        Some("permanent_auto")
    } else     if str_eq(value, "LeftDuringMatch") {
        Some("left_during_match")
    } else     if str_eq(value, "AgentLeft") {
        Some("agent_left")
    } else     if str_eq(value, "TokenRevoked") {
        Some("token_revoked")
    } else     if str_eq(value, "ConnectionLost") {
        Some("connection_lost")
    } else     if str_eq(value, "Disconnect") {
        Some("disconnect")
    } else     if str_eq(value, "Connected") {
        Some("connected")
    } else     if str_eq(value, "Disconnected") {
        Some("disconnected")
    } else     if str_eq(value, "None") {
        Some("none")
    } else     if str_eq(value, "Player") {
        Some("player")
    } else     if str_eq(value, "Spectator") {
        Some("spectator")
    } else     if str_eq(value, "Turn") {
        Some("turn")
    } else     if str_eq(value, "Response") {
        Some("response")
    } else     if str_eq(value, "RiichiDev") {
        Some("riichi_dev")
    } else     if str_eq(value, "Casual") {
        Some("casual")
    } else     if str_eq(value, "East") {
        Some("east")
    } else     if str_eq(value, "South") {
        Some("south")
    } else     if str_eq(value, "West") {
        Some("west")
    } else     if str_eq(value, "North") {
        Some("north")
    } else {
        None
    }
}

/// The snake-case name of an object key sent to clients; other keys are kept.
pub open spec fn spec_protocol_key(value: Seq<char>) -> Seq<char> {
    if value == "Player"@ {
        "player"@
    } else     if value == "Public"@ {
        "public"@
    } else     if value == "ReplayAdmin"@ {
        "replay_admin"@
    } else     if value == "Interactive"@ {
        "interactive"@
    } else     if value == "TemporaryAuto"@ {
        "temporary_auto"@
    } else     if value == "PermanentAuto"@ {
        "permanent_auto"@
    } else     if value == "LeftDuringMatch"@ {
        "left_during_match"@
    } else     if value == "AgentLeft"@ {
        "agent_left"@
    } else     if value == "TokenRevoked"@ {
        "token_revoked"@
    } else     if value == "ConnectionLost"@ {
        "connection_lost"@
    } else     if value == "StartGame"@ {
        "start_game"@
    } else     if value == "StartKyoku"@ {
        "start_kyoku"@
    } else     if value == "Tsumo"@ {
        "tsumo"@
    } else     if value == "Dahai"@ {
        "dahai"@
    } else     if value == "Pon"@ {
        "pon"@
    } else     if value == "Chi"@ {
        "chi"@
    } else     if value == "Daiminkan"@ {
        "daiminkan"@
    } else     if value == "Kakan"@ {
        "kakan"@
    } else     if value == "Ankan"@ {
        "ankan"@
    } else     if value == "Dora"@ {
        "dora"@
    } else     if value == "Reach"@ {
        "reach"@
    } else     if value == "ReachAccepted"@ {
        "reach_accepted"@
    } else     if value == "Hora"@ {
        "hora"@
    } else     if value == "Ryukyoku"@ {
        "ryukyoku"@
    } else     if value == "Kita"@ {
        "kita"@
    } else     if value == "EndKyoku"@ {
        "end_kyoku"@
    } else     if value == "EndGame"@ {
        "end_game"@
    } else     if value == "Discard"@ {
        "discard"@
    } else     if value == "RiichiDiscard"@ {
        "riichi_discard"@
    } else     if value == "AbortiveDraw"@ {
        "abortive_draw"@
    } else     if value == "BuiltInBot"@ {
        "built_in_bot"@
    } else {
        value
    }
}

pub fn protocol_key(value: &str) -> (res: String)
    ensures
        res@ == spec_protocol_key(value@),
{
    if str_eq(value, "Player") {
        "player".to_owned()
    } else     if str_eq(value, "Public") {
        "public".to_owned()
    } else     if str_eq(value, "ReplayAdmin") {
        "replay_admin".to_owned()
    } else     if str_eq(value, "Interactive") {
        "interactive".to_owned()
    } else     if str_eq(value, "TemporaryAuto") {
        "temporary_auto".to_owned()
    } else     if str_eq(value, "PermanentAuto") {
        "permanent_auto".to_owned()
    } else     if str_eq(value, "LeftDuringMatch") {
        "left_during_match".to_owned()
    } else     if str_eq(value, "AgentLeft") {
        "agent_left".to_owned()
    } else     if str_eq(value, "TokenRevoked") {
        "token_revoked".to_owned()
    } else     if str_eq(value, "ConnectionLost") {
        "connection_lost".to_owned()
    } else     if str_eq(value, "StartGame") {
        "start_game".to_owned()
    } else     if str_eq(value, "StartKyoku") {
        "start_kyoku".to_owned()
    } else     if str_eq(value, "Tsumo") {
        "tsumo".to_owned()
    } else     if str_eq(value, "Dahai") {
        "dahai".to_owned()
    } else     if str_eq(value, "Pon") {
        "pon".to_owned()
    } else     if str_eq(value, "Chi") {
        "chi".to_owned()
    } else     if str_eq(value, "Daiminkan") {
        "daiminkan".to_owned()
    } else     if str_eq(value, "Kakan") {
        "kakan".to_owned()
    } else     if str_eq(value, "Ankan") {
        "ankan".to_owned()
    } else     if str_eq(value, "Dora") {
        "dora".to_owned()
    } else     if str_eq(value, "Reach") {
        "reach".to_owned()
    } else     if str_eq(value, "ReachAccepted") {
        "reach_accepted".to_owned()
    } else     if str_eq(value, "Hora") {
        "hora".to_owned()
    } else     if str_eq(value, "Ryukyoku") {
        "ryukyoku".to_owned()
    } else     if str_eq(value, "Kita") {
        "kita".to_owned()
    } else     if str_eq(value, "EndKyoku") {
        "end_kyoku".to_owned()
    } else     if str_eq(value, "EndGame") {
        "end_game".to_owned()
    } else     if str_eq(value, "Discard") {
        "discard".to_owned()
    } else     if str_eq(value, "RiichiDiscard") {
        "riichi_discard".to_owned()
    } else     if str_eq(value, "AbortiveDraw") {
        "abortive_draw".to_owned()
    } else     if str_eq(value, "BuiltInBot") {
        "built_in_bot".to_owned()
    } else {
        value.to_owned()
    }
}

/// The snake-case name of a decision kind.
pub open spec fn spec_protocol_decision_kind_name(value: Seq<char>) -> Option<Seq<char>> {
    if value == "Turn"@ {
        Some("turn"@)
    } else     if value == "Response"@ {
        Some("response"@)
    } else {
        None
    }
}

pub fn protocol_decision_kind_name(value: &str) -> (res: Option<&'static str>)
    ensures
        match spec_protocol_decision_kind_name(value@) {
            Some(n) => res matches Some(r) && r@ == n,
            None => res is None,
        },
{
    if str_eq(value, "Turn") {
        Some("turn")
    } else     if str_eq(value, "Response") {
        Some("response")
    } else {
        None
    }
}

/// The snake-case name of a participant kind.
pub open spec fn spec_protocol_kind_name(value: Seq<char>) -> Option<Seq<char>> {
    if value == "Human"@ {
        Some("human"@)
    } else     if value == "MJAI"@ {
        Some("mjai"@)
    } else     if value == "MCP"@ {
        Some("mcp"@)
    } else     if value == "BuiltInBot"@ {
        Some("built_in_bot"@)
    } else {
        None
    }
}

pub fn protocol_kind_name(value: &str) -> (res: Option<&'static str>)
    ensures
        match spec_protocol_kind_name(value@) {
            Some(n) => res matches Some(r) && r@ == n,
            None => res is None,
        },
{
    if str_eq(value, "Human") {
        Some("human")
    } else     if str_eq(value, "MJAI") {
        Some("mjai")
    } else     if str_eq(value, "MCP") {
        Some("mcp")
    } else     if str_eq(value, "BuiltInBot") {
        Some("built_in_bot")
    } else {
        None
    }
}

/// The name of a game mode as clients know it.
pub open spec fn spec_protocol_mode_name(value: Seq<char>) -> Option<Seq<char>> {
    if value == "FourPlayerRedEast"@ {
        Some("4p-red-east"@)
    } else     if value == "FourPlayerRedHalf"@ {
        Some("4p-red-half"@)
    } else     if value == "ThreePlayerRedEast"@ {
        Some("3p-red-east"@)
    } else     if value == "ThreePlayerRedHalf"@ {
        Some("3p-red-half"@)
    } else {
        None
    }
}

pub fn protocol_mode_name(value: &str) -> (res: Option<&'static str>)
    ensures
        match spec_protocol_mode_name(value@) {
            Some(n) => res matches Some(r) && r@ == n,
            None => res is None,
        },
{
    if str_eq(value, "FourPlayerRedEast") {
        Some("4p-red-east")
    } else     if str_eq(value, "FourPlayerRedHalf") {
        Some("4p-red-half")
    } else     if str_eq(value, "ThreePlayerRedEast") {
        Some("3p-red-east")
    } else     if str_eq(value, "ThreePlayerRedHalf") {
        Some("3p-red-half")
    } else {
        None
    }
}

/// The value stored under the (already renamed) key `key`, with the enum
/// names that the key's field carries renamed: a game mode under `mode`, a
/// participant or decision kind under `kind`, and other enum values under
/// `controller`, `presence`, `role`, `time_control` and `permanent_auto`.
pub open spec fn renamed_value(key: Seq<char>, v: JsonView) -> JsonView {
    match v {
        JsonView::Str(s) => if key == "mode"@ {
            match spec_protocol_mode_name(s) {
                Some(n) => JsonView::Str(n),
                None => v,
            }
        } else if key == "kind"@ {
            match spec_protocol_kind_name(s) {
                Some(n) => JsonView::Str(n),
                None => match spec_protocol_decision_kind_name(s) {
                    Some(n) => JsonView::Str(n),
                    None => v,
                },
            }
        } else if key == "controller"@ || key == "presence"@ || key == "role"@ || key
            == "time_control"@ || key == "permanent_auto"@ {
            match spec_protocol_value_name(s) {
                Some(n) => JsonView::Str(n),
                None => v,
            }
        } else {
            v
        },
        _ => v,
    }
}

/// Whether `o` has an entry with key `k`.
pub open spec fn has_entry(o: Seq<(Seq<char>, JsonView)>, k: Seq<char>) -> bool {
    exists|i: int| 0 <= i < o.len() && (#[trigger] o[i]).0 == k
}

/// The position of the first entry of `o` with key `k`, or -1.
pub open spec fn entry_index(o: Seq<(Seq<char>, JsonView)>, k: Seq<char>) -> int
    decreases o.len(),
{
    if o.len() == 0 {
        -1
    } else if o[0].0 == k {
        0
    } else if entry_index(o.drop_first(), k) < 0 {
        -1
    } else {
        entry_index(o.drop_first(), k) + 1
    }
}

proof fn lemma_entry_index(o: Seq<(Seq<char>, JsonView)>, k: Seq<char>, j: int)
    requires
        0 <= j <= o.len(),
        forall|i: int| 0 <= i < j ==> (#[trigger] o[i]).0 != k,
        j == o.len() || o[j].0 == k,
    ensures
        entry_index(o, k) == (if j < o.len() {
            j
        } else {
            -1
        }),
        has_entry(o, k) == (j < o.len()),
    decreases j,
{
    if j > 0 {
        let t = o.drop_first();
        assert(o[0].0 != k);
        assert forall|i: int| 0 <= i < j - 1 implies (#[trigger] t[i]).0 != k by {
            assert(t[i] == o[i + 1]);
        }
        if j < o.len() {
            assert(t[j - 1] == o[j]);
        }
        lemma_entry_index(t, k, j - 1);
        if has_entry(t, k) {
            let i = choose|i: int| 0 <= i < t.len() && (#[trigger] t[i]).0 == k;
            assert(o[i + 1] == t[i]);
        }
        if has_entry(o, k) {
            let i = choose|i: int| 0 <= i < o.len() && (#[trigger] o[i]).0 == k;
            if i > 0 {
                assert(t[i - 1] == o[i]);
            }
        }
    } else if j == o.len() {
        assert(!has_entry(o, k));
    } else {
        assert(o[0].0 == k);
    }
}

/// `o` with `v` stored under `k`: replacing the value of the entry with
/// that key, or added at the end.
pub open spec fn put_entry(o: Seq<(Seq<char>, JsonView)>, k: Seq<char>, v: JsonView) -> Seq<
    (Seq<char>, JsonView),
> {
    let i = entry_index(o, k);
    if i >= 0 {
        o.update(i, (k, v))
    } else {
        o.push((k, v))
    }
}

/// The entries of a normalized object, from the first `n` entries of the
/// original, whose normalized values are `values`: each key renamed, its
/// value put under the new key; a key that an earlier entry was renamed to
/// keeps the value put there.
pub open spec fn fold_entries(
    keys: Seq<Seq<char>>,
    values: Seq<JsonView>,
    n: nat,
) -> Seq<(Seq<char>, JsonView)>
    decreases n,
{
    if n == 0 {
        Seq::empty()
    } else {
        let o = fold_entries(keys, values, (n - 1) as nat);
        let k = keys[n - 1];
        if has_entry(o, k) {
            o
        } else {
            let t = spec_protocol_key(k);
            put_entry(o, t, renamed_value(t, values[n - 1]))
        }
    }
}

/// The keys of an object's entries.
pub open spec fn object_keys(es: Seq<(Seq<char>, JsonView)>) -> Seq<Seq<char>> {
    Seq::new(es.len(), |i: int| es[i].0)
}

/// The normalized values of an object's entries.
pub open spec fn normalized_values(es: Seq<(Seq<char>, JsonView)>) -> Seq<JsonView>
    decreases es,
{
    Seq::new(
        es.len(),
        |i: int|
            if 0 <= i < es.len() {
                spec_normalize(es[i].1)
            } else {
                JsonView::Null
            },
    )
}

/// A snapshot value with every key and enum value in the names clients
/// know.
pub open spec fn spec_normalize(v: JsonView) -> JsonView
    decreases v,
{
    match v {
        JsonView::Array(xs) => JsonView::Array(
            Seq::new(
                xs.len(),
                |i: int|
                    if 0 <= i < xs.len() {
                        spec_normalize(xs[i])
                    } else {
                        JsonView::Null
                    },
            ),
        ),
        JsonView::Object(es) => JsonView::Object(
            fold_entries(object_keys(es), normalized_values(es), es.len()),
        ),
        _ => v,
    }
}

/// What a list of object entries holds.
pub open spec fn entries_view(es: Seq<(String, JsonValue)>) -> Seq<(Seq<char>, JsonView)> {
    Seq::new(es.len(), |i: int| (es[i].0@, json_view(es[i].1)))
}

proof fn lemma_object_view(es: Vec<(String, JsonValue)>)
    ensures
        json_view(JsonValue::Object(es)) == JsonView::Object(entries_view(es@)),
{
    assert(json_view(JsonValue::Object(es))->Object_0 =~= entries_view(es@));
}

fn rename_value(key: &str, v: JsonValue) -> (res: JsonValue)
    ensures
        json_view(res) == renamed_value(key@, json_view(v)),
{
    match v {
        JsonValue::String(s) => {
            if str_eq(key, "mode") {
                match protocol_mode_name(s.as_str()) {
                    Some(n) => JsonValue::String(n.to_owned()),
                    None => JsonValue::String(s),
                }
            } else if str_eq(key, "kind") {
                match protocol_kind_name(s.as_str()) {
                    Some(n) => JsonValue::String(n.to_owned()),
                    None => match protocol_decision_kind_name(s.as_str()) {
                        Some(n) => JsonValue::String(n.to_owned()),
                        None => JsonValue::String(s),
                    },
                }
            } else if str_eq(key, "controller") || str_eq(key, "presence") || str_eq(key, "role")
                || str_eq(key, "time_control") || str_eq(key, "permanent_auto") {
                match protocol_value_name(s.as_str()) {
                    Some(n) => JsonValue::String(n.to_owned()),
                    None => JsonValue::String(s),
                }
            } else {
                JsonValue::String(s)
            }
        },
        other => other,
    }
}

fn position_of_key(out: &Vec<(String, JsonValue)>, k: &str) -> (res: Option<usize>)
    ensures
        match res {
            Some(i) => i < out@.len() && entry_index(entries_view(out@), k@) == i && has_entry(
                entries_view(out@),
                k@,
            ),
            None => entry_index(entries_view(out@), k@) == -1 && !has_entry(entries_view(out@), k@),
        },
{
    let ghost o = entries_view(out@);
    let mut i: usize = 0;
    while i < out.len()
        invariant
            i <= out.len(),
            o == entries_view(out@),
            forall|j: int| 0 <= j < i ==> (#[trigger] o[j]).0 != k@,
        decreases out.len() - i,
    {
        if str_eq(out[i].0.as_str(), k) {
            proof {
                lemma_entry_index(o, k@, i as int);
            }
            return Some(i);
        }
        i += 1;
    }
    proof {
        lemma_entry_index(o, k@, o.len() as int);
    }
    None
}

fn put_value(out: &mut Vec<(String, JsonValue)>, k: String, v: JsonValue)
    ensures
        entries_view(final(out)@) == put_entry(entries_view(old(out)@), k@, json_view(v)),
{
    let ghost o = entries_view(out@);
    let ghost kv = (k@, json_view(v));
    match position_of_key(out, k.as_str()) {
        Some(i) => {
            out.set(i, (k, v));
            proof {
                assert(entries_view(out@) =~= o.update(i as int, kv));
            }
        },
        None => {
            out.push((k, v));
            proof {
                assert(entries_view(out@) =~= o.push(kv));
            }
        },
    }
}

/// `value` with every key and enum value renamed as clients know them.
pub fn normalized(value: &JsonValue) -> (res: JsonValue)
    ensures
        json_view(res) == spec_normalize(json_view(*value)),
    decreases value,
{
    match value {
        JsonValue::Null => JsonValue::Null,
        JsonValue::Bool(b) => JsonValue::Bool(*b),
        JsonValue::Number(n) => JsonValue::Number(n.clone()),
        JsonValue::String(s) => JsonValue::String(s.clone()),
        JsonValue::Array(items) => {
            let mut out: Vec<JsonValue> = Vec::new();
            let mut i: usize = 0;
            while i < items.len()
                invariant
                    *value == JsonValue::Array(*items),
                    i <= items.len(),
                    out@.len() == i,
                    forall|j: int|
                        0 <= j < i ==> json_view(#[trigger] out@[j]) == spec_normalize(
                            json_view(items@[j]),
                        ),
                decreases items.len() - i,
            {
                proof {
                    assert(decreases_to!(*value => value->Array_0));
                    assert(decreases_to!(*items => items@));
                    assert(decreases_to!(items@ => items@[i as int]));
                }
                let n = normalized(&items[i]);
                out.push(n);
                i += 1;
            }
            proof {
                let xs = json_view(*value)->Array_0;
                assert(xs.len() == items@.len());
                assert forall|j: int| 0 <= j < xs.len() implies xs[j] == json_view(items@[j]) by {}
                assert(json_view(JsonValue::Array(out))->Array_0 =~= spec_normalize(
                    json_view(*value),
                )->Array_0);
            }
            JsonValue::Array(out)
        },
        JsonValue::Object(entries) => {
            proof {
                lemma_object_view(*entries);
            }
            let ghost es = entries_view(entries@);
            let ghost keys = object_keys(es);
            let ghost values = normalized_values(es);
            let mut out: Vec<(String, JsonValue)> = Vec::new();
            assert(entries_view(out@) =~= fold_entries(keys, values, 0));
            let mut i: usize = 0;
            while i < entries.len()
                invariant
                    *value == JsonValue::Object(*entries),
                    es == entries_view(entries@),
                    keys == object_keys(es),
                    values == normalized_values(es),
                    i <= entries.len(),
                    entries_view(out@) == fold_entries(keys, values, i as nat),
                decreases entries.len() - i,
            {
                assert(keys[i as int] == entries@[i as int].0@);
                match position_of_key(&out, entries[i].0.as_str()) {
                    Some(_) => {},
                    None => {
                        proof {
                            assert(decreases_to!(*value => value->Object_0));
                            assert(decreases_to!(*entries => entries@));
                            assert(decreases_to!(entries@ => entries@[i as int]));
                            assert(decreases_to!(entries@[i as int] => entries@[i as int].1));
                        }
                        let t = protocol_key(entries[i].0.as_str());
                        let n = normalized(&entries[i].1);
                        let renamed = rename_value(t.as_str(), n);
                        put_value(&mut out, t, renamed);
                    },
                }
                i += 1;
            }
            proof {
                lemma_object_view(out);
            }
            JsonValue::Object(out)
        },
    }
}

/// Renames, in place, every key and enum value of a snapshot value as
/// clients know them.
pub fn normalize_protocol_value(value: &mut JsonValue)
    ensures
        json_view(*final(value)) == spec_normalize(json_view(*old(value))),
{
    let n = normalized(value);
    *value = n;
}

/// The piece of snake case that the character `c` becomes: an uppercase
/// letter is lowered, with an underscore before it unless it comes first;
/// any other character stays.
pub open spec fn snake_piece(c: char, first: bool) -> Seq<char> {
    if crate::text::spec_ascii_uppercase(c) {
        if first {
            seq![crate::json::ascii_lower_char(c)]
        } else {
            seq!['_', crate::json::ascii_lower_char(c)]
        }
    } else {
        seq![c]
    }
}

/// The snake-case spelling of a CamelCase name.
pub open spec fn snake_case(name: Seq<char>) -> Seq<char>
    decreases name.len(),
{
    if name.len() == 0 {
        Seq::empty()
    } else {
        snake_case(name.drop_last()) + snake_piece(name.last(), name.len() == 1)
    }
}

proof fn lemma_snake_player()
    ensures
        snake_case("Player"@) == "player"@,
{
    reveal_strlit("Player");
    reveal_strlit("player");
    reveal_with_fuel(snake_case, 7);
    assert(snake_case("Player"@) =~= "player"@);
}

proof fn lemma_snake_public()
    ensures
        snake_case("Public"@) == "public"@,
{
    reveal_strlit("Public");
    reveal_strlit("public");
    reveal_with_fuel(snake_case, 7);
    assert(snake_case("Public"@) =~= "public"@);
}

proof fn lemma_snake_replay_admin()
    ensures
        snake_case("ReplayAdmin"@) == "replay_admin"@,
{
    reveal_strlit("ReplayAdmin");
    reveal_strlit("replay_admin");
    reveal_with_fuel(snake_case, 12);
    assert(snake_case("ReplayAdmin"@) =~= "replay_admin"@);
}

proof fn lemma_snake_interactive()
    ensures
        snake_case("Interactive"@) == "interactive"@,
{
    reveal_strlit("Interactive");
    reveal_strlit("interactive");
    reveal_with_fuel(snake_case, 12);
    assert(snake_case("Interactive"@) =~= "interactive"@);
}

proof fn lemma_snake_temporary_auto()
    ensures
        snake_case("TemporaryAuto"@) == "temporary_auto"@,
{
    reveal_strlit("TemporaryAuto");
    reveal_strlit("temporary_auto");
    reveal_with_fuel(snake_case, 14);
    assert(snake_case("TemporaryAuto"@) =~= "temporary_auto"@);
}

proof fn lemma_snake_permanent_auto()
    ensures
        snake_case("PermanentAuto"@) == "permanent_auto"@,
{
    reveal_strlit("PermanentAuto");
    reveal_strlit("permanent_auto");
    reveal_with_fuel(snake_case, 14);
    assert(snake_case("PermanentAuto"@) =~= "permanent_auto"@);
}

proof fn lemma_snake_left_during_match()
    ensures
        snake_case("LeftDuringMatch"@) == "left_during_match"@,
{
    reveal_strlit("LeftDuringMatch");
    reveal_strlit("left_during_match");
    reveal_with_fuel(snake_case, 16);
    assert(snake_case("LeftDuringMatch"@) =~= "left_during_match"@);
}

proof fn lemma_snake_agent_left()
    ensures
        snake_case("AgentLeft"@) == "agent_left"@,
{
    reveal_strlit("AgentLeft");
    reveal_strlit("agent_left");
    reveal_with_fuel(snake_case, 10);
    assert(snake_case("AgentLeft"@) =~= "agent_left"@);
}

proof fn lemma_snake_token_revoked()
    ensures
        snake_case("TokenRevoked"@) == "token_revoked"@,
{
    reveal_strlit("TokenRevoked");
    reveal_strlit("token_revoked");
    reveal_with_fuel(snake_case, 13);
    assert(snake_case("TokenRevoked"@) =~= "token_revoked"@);
}

proof fn lemma_snake_connection_lost()
    ensures
        snake_case("ConnectionLost"@) == "connection_lost"@,
{
    reveal_strlit("ConnectionLost");
    reveal_strlit("connection_lost");
    reveal_with_fuel(snake_case, 15);
    assert(snake_case("ConnectionLost"@) =~= "connection_lost"@);
}

proof fn lemma_snake_start_game()
    ensures
        snake_case("StartGame"@) == "start_game"@,
{
    reveal_strlit("StartGame");
    reveal_strlit("start_game");
    reveal_with_fuel(snake_case, 10);
    assert(snake_case("StartGame"@) =~= "start_game"@);
}

proof fn lemma_snake_start_kyoku()
    ensures
        snake_case("StartKyoku"@) == "start_kyoku"@,
{
    reveal_strlit("StartKyoku");
    reveal_strlit("start_kyoku");
    reveal_with_fuel(snake_case, 11);
    assert(snake_case("StartKyoku"@) =~= "start_kyoku"@);
}

proof fn lemma_snake_tsumo()
    ensures
        snake_case("Tsumo"@) == "tsumo"@,
{
    reveal_strlit("Tsumo");
    reveal_strlit("tsumo");
    reveal_with_fuel(snake_case, 6);
    assert(snake_case("Tsumo"@) =~= "tsumo"@);
}

proof fn lemma_snake_dahai()
    ensures
        snake_case("Dahai"@) == "dahai"@,
{
    reveal_strlit("Dahai");
    reveal_strlit("dahai");
    reveal_with_fuel(snake_case, 6);
    assert(snake_case("Dahai"@) =~= "dahai"@);
}

proof fn lemma_snake_pon()
    ensures
        snake_case("Pon"@) == "pon"@,
{
    reveal_strlit("Pon");
    reveal_strlit("pon");
    reveal_with_fuel(snake_case, 4);
    assert(snake_case("Pon"@) =~= "pon"@);
}

proof fn lemma_snake_chi()
    ensures
        snake_case("Chi"@) == "chi"@,
{
    reveal_strlit("Chi");
    reveal_strlit("chi");
    reveal_with_fuel(snake_case, 4);
    assert(snake_case("Chi"@) =~= "chi"@);
}

proof fn lemma_snake_daiminkan()
    ensures
        snake_case("Daiminkan"@) == "daiminkan"@,
{
    reveal_strlit("Daiminkan");
    reveal_strlit("daiminkan");
    reveal_with_fuel(snake_case, 10);
    assert(snake_case("Daiminkan"@) =~= "daiminkan"@);
}

proof fn lemma_snake_kakan()
    ensures
        snake_case("Kakan"@) == "kakan"@,
{
    reveal_strlit("Kakan");
    reveal_strlit("kakan");
    reveal_with_fuel(snake_case, 6);
    assert(snake_case("Kakan"@) =~= "kakan"@);
}

proof fn lemma_snake_ankan()
    ensures
        snake_case("Ankan"@) == "ankan"@,
{
    reveal_strlit("Ankan");
    reveal_strlit("ankan");
    reveal_with_fuel(snake_case, 6);
    assert(snake_case("Ankan"@) =~= "ankan"@);
}

proof fn lemma_snake_dora()
    ensures
        snake_case("Dora"@) == "dora"@,
{
    reveal_strlit("Dora");
    reveal_strlit("dora");
    reveal_with_fuel(snake_case, 5);
    assert(snake_case("Dora"@) =~= "dora"@);
}

proof fn lemma_snake_reach()
    ensures
        snake_case("Reach"@) == "reach"@,
{
    reveal_strlit("Reach");
    reveal_strlit("reach");
    reveal_with_fuel(snake_case, 6);
    assert(snake_case("Reach"@) =~= "reach"@);
}

proof fn lemma_snake_reach_accepted()
    ensures
        snake_case("ReachAccepted"@) == "reach_accepted"@,
{
    reveal_strlit("ReachAccepted");
    reveal_strlit("reach_accepted");
    reveal_with_fuel(snake_case, 14);
    assert(snake_case("ReachAccepted"@) =~= "reach_accepted"@);
}

proof fn lemma_snake_hora()
    ensures
        snake_case("Hora"@) == "hora"@,
{
    reveal_strlit("Hora");
    reveal_strlit("hora");
    reveal_with_fuel(snake_case, 5);
    assert(snake_case("Hora"@) =~= "hora"@);
}

proof fn lemma_snake_ryukyoku()
    ensures
        snake_case("Ryukyoku"@) == "ryukyoku"@,
{
    reveal_strlit("Ryukyoku");
    reveal_strlit("ryukyoku");
    reveal_with_fuel(snake_case, 9);
    assert(snake_case("Ryukyoku"@) =~= "ryukyoku"@);
}

proof fn lemma_snake_kita()
    ensures
        snake_case("Kita"@) == "kita"@,
{
    reveal_strlit("Kita");
    reveal_strlit("kita");
    reveal_with_fuel(snake_case, 5);
    assert(snake_case("Kita"@) =~= "kita"@);
}

proof fn lemma_snake_end_kyoku()
    ensures
        snake_case("EndKyoku"@) == "end_kyoku"@,
{
    reveal_strlit("EndKyoku");
    reveal_strlit("end_kyoku");
    reveal_with_fuel(snake_case, 9);
    assert(snake_case("EndKyoku"@) =~= "end_kyoku"@);
}

proof fn lemma_snake_end_game()
    ensures
        snake_case("EndGame"@) == "end_game"@,
{
    reveal_strlit("EndGame");
    reveal_strlit("end_game");
    reveal_with_fuel(snake_case, 8);
    assert(snake_case("EndGame"@) =~= "end_game"@);
}

proof fn lemma_snake_discard()
    ensures
        snake_case("Discard"@) == "discard"@,
{
    reveal_strlit("Discard");
    reveal_strlit("discard");
    reveal_with_fuel(snake_case, 8);
    assert(snake_case("Discard"@) =~= "discard"@);
}

proof fn lemma_snake_riichi_discard()
    ensures
        snake_case("RiichiDiscard"@) == "riichi_discard"@,
{
    reveal_strlit("RiichiDiscard");
    reveal_strlit("riichi_discard");
    reveal_with_fuel(snake_case, 14);
    assert(snake_case("RiichiDiscard"@) =~= "riichi_discard"@);
}

proof fn lemma_snake_abortive_draw()
    ensures
        snake_case("AbortiveDraw"@) == "abortive_draw"@,
{
    reveal_strlit("AbortiveDraw");
    reveal_strlit("abortive_draw");
    reveal_with_fuel(snake_case, 13);
    assert(snake_case("AbortiveDraw"@) =~= "abortive_draw"@);
}

proof fn lemma_snake_built_in_bot()
    ensures
        snake_case("BuiltInBot"@) == "built_in_bot"@,
{
    reveal_strlit("BuiltInBot");
    reveal_strlit("built_in_bot");
    reveal_with_fuel(snake_case, 11);
    assert(snake_case("BuiltInBot"@) =~= "built_in_bot"@);
}

/// A key that is renamed for clients is renamed to its snake-case
/// spelling: no key is sent under another name than its own, so two
/// distinct renamed keys never meet under one name.
pub proof fn law_renamed_keys_are_snake_case(value: Seq<char>)
    ensures
        spec_protocol_key(value) != value ==> spec_protocol_key(value) == snake_case(value),
{
    lemma_snake_player();
    lemma_snake_public();
    lemma_snake_replay_admin();
    lemma_snake_interactive();
    lemma_snake_temporary_auto();
    lemma_snake_permanent_auto();
    lemma_snake_left_during_match();
    lemma_snake_agent_left();
    lemma_snake_token_revoked();
    lemma_snake_connection_lost();
    lemma_snake_start_game();
    lemma_snake_start_kyoku();
    lemma_snake_tsumo();
    lemma_snake_dahai();
    lemma_snake_pon();
    lemma_snake_chi();
    lemma_snake_daiminkan();
    lemma_snake_kakan();
    lemma_snake_ankan();
    lemma_snake_dora();
    lemma_snake_reach();
    lemma_snake_reach_accepted();
    lemma_snake_hora();
    lemma_snake_ryukyoku();
    lemma_snake_kita();
    lemma_snake_end_kyoku();
    lemma_snake_end_game();
    lemma_snake_discard();
    lemma_snake_riichi_discard();
    lemma_snake_abortive_draw();
    lemma_snake_built_in_bot();
}

/// Whether every character of `s` is an uppercase ASCII letter.
pub open spec fn all_uppercase(s: Seq<char>) -> bool {
    forall|i: int| 0 <= i < s.len() ==> crate::text::spec_ascii_uppercase(#[trigger] s[i])
}

/// The snake-case spelling of a name, an all-capital acronym being simply
/// lowered.
pub open spec fn snake_name(name: Seq<char>) -> Seq<char> {
    if all_uppercase(name) {
        crate::json::ascii_lower(name)
    } else {
        snake_case(name)
    }
}

proof fn lemma_snake_human()
    ensures
        snake_case("Human"@) == "human"@,
{
    reveal_strlit("Human");
    reveal_strlit("human");
    reveal_with_fuel(snake_case, 6);
    assert(snake_case("Human"@) =~= "human"@);
}

proof fn lemma_not_all_uppercase_Human()
    ensures
        snake_name("Human"@) == snake_case("Human"@),
{
    reveal_strlit("Human");
    assert(!crate::text::spec_ascii_uppercase("Human"@[1]));
}

proof fn lemma_acronym_mjai()
    ensures
        snake_name("MJAI"@) == "mjai"@,
{
    reveal_strlit("MJAI");
    reveal_strlit("mjai");
    assert(all_uppercase("MJAI"@));
    assert(crate::json::ascii_lower("MJAI"@) =~= "mjai"@);
}

proof fn lemma_acronym_mcp()
    ensures
        snake_name("MCP"@) == "mcp"@,
{
    reveal_strlit("MCP");
    reveal_strlit("mcp");
    assert(all_uppercase("MCP"@));
    assert(crate::json::ascii_lower("MCP"@) =~= "mcp"@);
}

proof fn lemma_not_all_uppercase_BuiltInBot()
    ensures
        snake_name("BuiltInBot"@) == snake_case("BuiltInBot"@),
{
    reveal_strlit("BuiltInBot");
    assert(!crate::text::spec_ascii_uppercase("BuiltInBot"@[1]));
}

proof fn lemma_not_all_uppercase_Interactive()
    ensures
        snake_name("Interactive"@) == snake_case("Interactive"@),
{
    reveal_strlit("Interactive");
    assert(!crate::text::spec_ascii_uppercase("Interactive"@[1]));
}

proof fn lemma_not_all_uppercase_TemporaryAuto()
    ensures
        snake_name("TemporaryAuto"@) == snake_case("TemporaryAuto"@),
{
    reveal_strlit("TemporaryAuto");
    assert(!crate::text::spec_ascii_uppercase("TemporaryAuto"@[1]));
}

proof fn lemma_not_all_uppercase_PermanentAuto()
    ensures
        snake_name("PermanentAuto"@) == snake_case("PermanentAuto"@),
{
    reveal_strlit("PermanentAuto");
    assert(!crate::text::spec_ascii_uppercase("PermanentAuto"@[1]));
}

proof fn lemma_not_all_uppercase_LeftDuringMatch()
    ensures
        snake_name("LeftDuringMatch"@) == snake_case("LeftDuringMatch"@),
{
    reveal_strlit("LeftDuringMatch");
    assert(!crate::text::spec_ascii_uppercase("LeftDuringMatch"@[1]));
}

proof fn lemma_not_all_uppercase_AgentLeft()
    ensures
        snake_name("AgentLeft"@) == snake_case("AgentLeft"@),
{
    reveal_strlit("AgentLeft");
    assert(!crate::text::spec_ascii_uppercase("AgentLeft"@[1]));
}

proof fn lemma_not_all_uppercase_TokenRevoked()
    ensures
        snake_name("TokenRevoked"@) == snake_case("TokenRevoked"@),
{
    reveal_strlit("TokenRevoked");
    assert(!crate::text::spec_ascii_uppercase("TokenRevoked"@[1]));
}

proof fn lemma_not_all_uppercase_ConnectionLost()
    ensures
        snake_name("ConnectionLost"@) == snake_case("ConnectionLost"@),
{
    reveal_strlit("ConnectionLost");
    assert(!crate::text::spec_ascii_uppercase("ConnectionLost"@[1]));
}

proof fn lemma_snake_disconnect()
    ensures
        snake_case("Disconnect"@) == "disconnect"@,
{
    reveal_strlit("Disconnect");
    reveal_strlit("disconnect");
    reveal_with_fuel(snake_case, 11);
    assert(snake_case("Disconnect"@) =~= "disconnect"@);
}

proof fn lemma_not_all_uppercase_Disconnect()
    ensures
        snake_name("Disconnect"@) == snake_case("Disconnect"@),
{
    reveal_strlit("Disconnect");
    assert(!crate::text::spec_ascii_uppercase("Disconnect"@[1]));
}

proof fn lemma_snake_connected()
    ensures
        snake_case("Connected"@) == "connected"@,
{
    reveal_strlit("Connected");
    reveal_strlit("connected");
    reveal_with_fuel(snake_case, 10);
    assert(snake_case("Connected"@) =~= "connected"@);
}

proof fn lemma_not_all_uppercase_Connected()
    ensures
        snake_name("Connected"@) == snake_case("Connected"@),
{
    reveal_strlit("Connected");
    assert(!crate::text::spec_ascii_uppercase("Connected"@[1]));
}

proof fn lemma_snake_disconnected()
    ensures
        snake_case("Disconnected"@) == "disconnected"@,
{
    reveal_strlit("Disconnected");
    reveal_strlit("disconnected");
    reveal_with_fuel(snake_case, 13);
    assert(snake_case("Disconnected"@) =~= "disconnected"@);
}

proof fn lemma_not_all_uppercase_Disconnected()
    ensures
        snake_name("Disconnected"@) == snake_case("Disconnected"@),
{
    reveal_strlit("Disconnected");
    assert(!crate::text::spec_ascii_uppercase("Disconnected"@[1]));
}

proof fn lemma_snake_none()
    ensures
        snake_case("None"@) == "none"@,
{
    reveal_strlit("None");
    reveal_strlit("none");
    reveal_with_fuel(snake_case, 5);
    assert(snake_case("None"@) =~= "none"@);
}

proof fn lemma_not_all_uppercase_None()
    ensures
        snake_name("None"@) == snake_case("None"@),
{
    reveal_strlit("None");
    assert(!crate::text::spec_ascii_uppercase("None"@[1]));
}

proof fn lemma_not_all_uppercase_Player()
    ensures
        snake_name("Player"@) == snake_case("Player"@),
{
    reveal_strlit("Player");
    assert(!crate::text::spec_ascii_uppercase("Player"@[1]));
}

proof fn lemma_snake_spectator()
    ensures
        snake_case("Spectator"@) == "spectator"@,
{
    reveal_strlit("Spectator");
    reveal_strlit("spectator");
    reveal_with_fuel(snake_case, 10);
    assert(snake_case("Spectator"@) =~= "spectator"@);
}

proof fn lemma_not_all_uppercase_Spectator()
    ensures
        snake_name("Spectator"@) == snake_case("Spectator"@),
{
    reveal_strlit("Spectator");
    assert(!crate::text::spec_ascii_uppercase("Spectator"@[1]));
}

proof fn lemma_snake_turn()
    ensures
        snake_case("Turn"@) == "turn"@,
{
    reveal_strlit("Turn");
    reveal_strlit("turn");
    reveal_with_fuel(snake_case, 5);
    assert(snake_case("Turn"@) =~= "turn"@);
}

proof fn lemma_not_all_uppercase_Turn()
    ensures
        snake_name("Turn"@) == snake_case("Turn"@),
{
    reveal_strlit("Turn");
    assert(!crate::text::spec_ascii_uppercase("Turn"@[1]));
}

proof fn lemma_snake_response()
    ensures
        snake_case("Response"@) == "response"@,
{
    reveal_strlit("Response");
    reveal_strlit("response");
    reveal_with_fuel(snake_case, 9);
    assert(snake_case("Response"@) =~= "response"@);
}

proof fn lemma_not_all_uppercase_Response()
    ensures
        snake_name("Response"@) == snake_case("Response"@),
{
    reveal_strlit("Response");
    assert(!crate::text::spec_ascii_uppercase("Response"@[1]));
}

proof fn lemma_snake_riichi_dev()
    ensures
        snake_case("RiichiDev"@) == "riichi_dev"@,
{
    reveal_strlit("RiichiDev");
    reveal_strlit("riichi_dev");
    reveal_with_fuel(snake_case, 10);
    assert(snake_case("RiichiDev"@) =~= "riichi_dev"@);
}

proof fn lemma_not_all_uppercase_RiichiDev()
    ensures
        snake_name("RiichiDev"@) == snake_case("RiichiDev"@),
{
    reveal_strlit("RiichiDev");
    assert(!crate::text::spec_ascii_uppercase("RiichiDev"@[1]));
}

proof fn lemma_snake_casual()
    ensures
        snake_case("Casual"@) == "casual"@,
{
    reveal_strlit("Casual");
    reveal_strlit("casual");
    reveal_with_fuel(snake_case, 7);
    assert(snake_case("Casual"@) =~= "casual"@);
}

proof fn lemma_not_all_uppercase_Casual()
    ensures
        snake_name("Casual"@) == snake_case("Casual"@),
{
    reveal_strlit("Casual");
    assert(!crate::text::spec_ascii_uppercase("Casual"@[1]));
}

proof fn lemma_snake_east()
    ensures
        snake_case("East"@) == "east"@,
{
    reveal_strlit("East");
    reveal_strlit("east");
    reveal_with_fuel(snake_case, 5);
    assert(snake_case("East"@) =~= "east"@);
}

proof fn lemma_not_all_uppercase_East()
    ensures
        snake_name("East"@) == snake_case("East"@),
{
    reveal_strlit("East");
    assert(!crate::text::spec_ascii_uppercase("East"@[1]));
}

proof fn lemma_snake_south()
    ensures
        snake_case("South"@) == "south"@,
{
    reveal_strlit("South");
    reveal_strlit("south");
    reveal_with_fuel(snake_case, 6);
    assert(snake_case("South"@) =~= "south"@);
}

proof fn lemma_not_all_uppercase_South()
    ensures
        snake_name("South"@) == snake_case("South"@),
{
    reveal_strlit("South");
    assert(!crate::text::spec_ascii_uppercase("South"@[1]));
}

proof fn lemma_snake_west()
    ensures
        snake_case("West"@) == "west"@,
{
    reveal_strlit("West");
    reveal_strlit("west");
    reveal_with_fuel(snake_case, 5);
    assert(snake_case("West"@) =~= "west"@);
}

proof fn lemma_not_all_uppercase_West()
    ensures
        snake_name("West"@) == snake_case("West"@),
{
    reveal_strlit("West");
    assert(!crate::text::spec_ascii_uppercase("West"@[1]));
}

proof fn lemma_snake_north()
    ensures
        snake_case("North"@) == "north"@,
{
    reveal_strlit("North");
    reveal_strlit("north");
    reveal_with_fuel(snake_case, 6);
    assert(snake_case("North"@) =~= "north"@);
}

proof fn lemma_not_all_uppercase_North()
    ensures
        snake_name("North"@) == snake_case("North"@),
{
    reveal_strlit("North");
    assert(!crate::text::spec_ascii_uppercase("North"@[1]));
}

/// The name of an enum value sent to clients is its snake-case spelling (an
/// all-capital acronym is simply lowered).
pub proof fn law_value_names_are_snake_case(value: Seq<char>)
    ensures
        spec_protocol_value_name(value) matches Some(n) ==> n == snake_name(value),
{
    lemma_not_all_uppercase_Human();
    lemma_snake_human();
    lemma_acronym_mjai();
    lemma_acronym_mcp();
    lemma_not_all_uppercase_BuiltInBot();
    lemma_snake_built_in_bot();
    lemma_not_all_uppercase_Interactive();
    lemma_snake_interactive();
    lemma_not_all_uppercase_TemporaryAuto();
    lemma_snake_temporary_auto();
    lemma_not_all_uppercase_PermanentAuto();
    lemma_snake_permanent_auto();
    lemma_not_all_uppercase_LeftDuringMatch();
    lemma_snake_left_during_match();
    lemma_not_all_uppercase_AgentLeft();
    lemma_snake_agent_left();
    lemma_not_all_uppercase_TokenRevoked();
    lemma_snake_token_revoked();
    lemma_not_all_uppercase_ConnectionLost();
    lemma_snake_connection_lost();
    lemma_not_all_uppercase_Disconnect();
    lemma_snake_disconnect();
    lemma_not_all_uppercase_Connected();
    lemma_snake_connected();
    lemma_not_all_uppercase_Disconnected();
    lemma_snake_disconnected();
    lemma_not_all_uppercase_None();
    lemma_snake_none();
    lemma_not_all_uppercase_Player();
    lemma_snake_player();
    lemma_not_all_uppercase_Spectator();
    lemma_snake_spectator();
    lemma_not_all_uppercase_Turn();
    lemma_snake_turn();
    lemma_not_all_uppercase_Response();
    lemma_snake_response();
    lemma_not_all_uppercase_RiichiDev();
    lemma_snake_riichi_dev();
    lemma_not_all_uppercase_Casual();
    lemma_snake_casual();
    lemma_not_all_uppercase_East();
    lemma_snake_east();
    lemma_not_all_uppercase_South();
    lemma_snake_south();
    lemma_not_all_uppercase_West();
    lemma_snake_west();
    lemma_not_all_uppercase_North();
    lemma_snake_north();
}

/// The name of a decision kind sent to clients is its snake-case spelling (an
/// all-capital acronym is simply lowered).
pub proof fn law_decision_kinds_are_snake_case(value: Seq<char>)
    ensures
        spec_protocol_decision_kind_name(value) matches Some(n) ==> n == snake_name(value),
{
    lemma_not_all_uppercase_Turn();
    lemma_snake_turn();
    lemma_not_all_uppercase_Response();
    lemma_snake_response();
}

/// The name of a participant kind sent to clients is its snake-case spelling (an
/// all-capital acronym is simply lowered).
pub proof fn law_participant_kinds_are_snake_case(value: Seq<char>)
    ensures
        spec_protocol_kind_name(value) matches Some(n) ==> n == snake_name(value),
{
    lemma_not_all_uppercase_Human();
    lemma_snake_human();
    lemma_acronym_mjai();
    lemma_acronym_mcp();
    lemma_not_all_uppercase_BuiltInBot();
    lemma_snake_built_in_bot();
}

} // verus!

//! What the MCP endpoint hands its clients: the addresses of a room's
//! resources, the strings and action ids found in a room projection, the
//! history with its private parts taken out, and the revision a waiting
//! session is woken with.

use vstd::prelude::*;

use crate::agents::McpFailure;
use crate::json::{as_str, json_view, JsonValue, JsonView};
use crate::responses::RoomErrorKind;
use crate::text::str_eq;

verus! {

/// The address of a room resource: a participant's `state`, the room's
/// `public` state, or (for any other kind) its history.
pub open spec fn spec_resource_uri(code: Seq<char>, participant_id: Seq<char>, kind: Seq<char>) -> Seq<
    char,
> {
    if kind == "state"@ {
        "riichi://rooms/"@ + code + "/participants/"@ + participant_id + "/state"@
    } else if kind == "public"@ {
        "riichi://rooms/"@ + code + "/public-state"@
    } else {
        "riichi://rooms/"@ + code + "/history"@
    }
}

/// The address of the resource `kind` of the room `code`.
pub fn resource_uri(code: &str, participant_id: &str, kind: &str) -> (res: String)
    ensures
        res@ == spec_resource_uri(code@, participant_id@, kind@),
{
    let mut res = "riichi://rooms/".to_owned();
    res.append(code);
    if str_eq(kind, "state") {
        res.append("/participants/");
        res.append(participant_id);
        res.append("/state");
    } else if str_eq(kind, "public") {
        res.append("/public-state");
    } else {
        res.append("/history");
    }
    res
}

/// Whether a wake for `reason` changes the room's history.
pub open spec fn history_reason(reason: Seq<char>) -> bool {
    reason == "round_started"@ || reason == "round_ended"@ || reason == "game_ended"@ || reason
        == "room_deleted"@ || reason == "server_shutdown"@
}

/// The resources a session is told to read again when woken for `reason`:
/// its state and the public state, and the history when it changed.
pub open spec fn spec_notification_uris(code: Seq<char>, participant_id: Seq<char>, reason: Seq<char>) -> Seq<
    Seq<char>,
> {
    let base = seq![
        spec_resource_uri(code, participant_id, "state"@),
        spec_resource_uri(code, Seq::empty(), "public"@),
    ];
    if history_reason(reason) {
        base.push(spec_resource_uri(code, Seq::empty(), "history"@))
    } else {
        base
    }
}

/// The resources to read again after a wake for `reason`.
pub fn notification_uris(room_code: &str, participant_id: &str, reason: &str) -> (res: Vec<String>)
    ensures
        res@.map_values(|s: String| s@) == spec_notification_uris(room_code@, participant_id@, reason@),
{
    let mut res: Vec<String> = Vec::new();
    res.push(resource_uri(room_code, participant_id, "state"));
    res.push(resource_uri(room_code, "", "public"));
    let history = str_eq(reason, "round_started") || str_eq(reason, "round_ended") || str_eq(
        reason,
        "game_ended",
    ) || str_eq(reason, "room_deleted") || str_eq(reason, "server_shutdown");
    if history {
        res.push(resource_uri(room_code, "", "history"));
    }
    proof {
        reveal_strlit("");
        assert(res@.map_values(|s: String| s@) =~= spec_notification_uris(
            room_code@,
            participant_id@,
            reason@,
        ));
    }
    res
}

/// A key that names an action id.
pub open spec fn action_key(key: Seq<char>) -> bool {
    key == "action_id"@ || key == "actionId"@
}

/// Whether `v` holds, at any depth, an action id entry whose value is the
/// string `action_id`.
pub open spec fn spec_contains_action_id(v: JsonValue, action_id: Seq<char>) -> bool
    decreases v,
{
    match v {
        JsonValue::Object(entries) => exists|i: int|
            0 <= i < entries@.len() && ((action_key(entries@[i].0@) && as_str(entries@[i].1) == Some(
                action_id,
            )) || spec_contains_action_id(entries@[i].1, action_id)),
        JsonValue::Array(values) => exists|i: int|
            0 <= i < values@.len() && spec_contains_action_id(values@[i], action_id),
        _ => false,
    }
}

/// Whether `value` offers the action `action_id` anywhere.
pub fn contains_action_id(value: &JsonValue, action_id: &str) -> (res: bool)
    ensures
        res == spec_contains_action_id(*value, action_id@),
    decreases value,
{
    match value {
        JsonValue::Object(entries) => {
            let mut i: usize = 0;
            while i < entries.len()
                invariant
                    *value == JsonValue::Object(*entries),
                    i <= entries@.len(),
                    forall|k: int|
                        0 <= k < i ==> !((action_key(entries@[k].0@) && as_str(entries@[k].1) == Some(
                            action_id@,
                        )) || spec_contains_action_id(entries@[k].1, action_id@)),
                decreases entries@.len() - i,
            {
                proof {
                    assert(decreases_to!(*value => value->Object_0));
                    assert(decreases_to!(*entries => entries@));
                    assert(decreases_to!(entries@ => entries@[i as int]));
                    assert(decreases_to!(entries@[i as int] => entries@[i as int].1));
                }
                let key = entries[i].0.as_str();
                let named = str_eq(key, "action_id") || str_eq(key, "actionId");
                let matches_id = match &entries[i].1 {
                    JsonValue::String(s) => str_eq(s.as_str(), action_id),
                    _ => false,
                };
                if named && matches_id || contains_action_id(&entries[i].1, action_id) {
                    assert((action_key(entries@[i as int].0@) && as_str(entries@[i as int].1) == Some(
                        action_id@,
                    )) || spec_contains_action_id(entries@[i as int].1, action_id@));
                    return true;
                }
                i += 1;
            }
            false
        },
        JsonValue::Array(values) => {
            let mut i: usize = 0;
            while i < values.len()
                invariant
                    *value == JsonValue::Array(*values),
                    i <= values@.len(),
                    forall|k: int| 0 <= k < i ==> !spec_contains_action_id(values@[k], action_id@),
                decreases values@.len() - i,
            {
                proof {
                    assert(decreases_to!(*value => value->Array_0));
                    assert(decreases_to!(*values => values@));
                    assert(decreases_to!(values@ => values@[i as int]));
                }
                if contains_action_id(&values[i], action_id) {
                    assert(spec_contains_action_id(values@[i as int], action_id@));
                    return true;
                }
                i += 1;
            }
            false
        },
        _ => false,
    }
}

/// The first `Some` of `s`, if any.
pub open spec fn first_some(s: Seq<Option<Seq<char>>>) -> Option<Seq<char>>
    decreases s.len(),
{
    if s.len() == 0 {
        None
    } else if s[0] is Some {
        s[0]
    } else {
        first_some(s.drop_first())
    }
}

/// What each entry of an object, or each item of an array, gives when
/// searched for `key`: an entry named `key` gives its value if that is a
/// string (and nothing, without looking inside it, if not); any other
/// entry, and any item, is searched in turn.
pub open spec fn find_hits(v: JsonValue, key: Seq<char>) -> Seq<Option<Seq<char>>>
    decreases v, 0int,
{
    match v {
        JsonValue::Object(entries) => Seq::new(
            entries@.len(),
            |i: int|
                if 0 <= i < entries@.len() {
                    if entries@[i].0@ == key {
                        as_str(entries@[i].1)
                    } else {
                        spec_find_string(entries@[i].1, key)
                    }
                } else {
                    None
                },
        ),
        JsonValue::Array(values) => Seq::new(
            values@.len(),
            |i: int|
                if 0 <= i < values@.len() {
                    spec_find_string(values@[i], key)
                } else {
                    None
                },
        ),
        _ => Seq::empty(),
    }
}

/// The string found for `key` in `v`: the first that its entries or items
/// give, in order.
pub open spec fn spec_find_string(v: JsonValue, key: Seq<char>) -> Option<Seq<char>>
    decreases v, 1int,
{
    first_some(find_hits(v, key))
}

/// `first_some` is the first `Some` when all before it are `None`, and
/// `None` when all are.
pub proof fn lemma_first_some(s: Seq<Option<Seq<char>>>, i: int)
    requires
        0 <= i <= s.len(),
        forall|k: int| 0 <= k < i ==> s[k] is None,
    ensures
        i < s.len() && s[i] is Some ==> first_some(s) == s[i],
        i == s.len() ==> first_some(s) is None,
    decreases i,
{
    if i > 0 {
        lemma_first_some(s.drop_first(), i - 1);
    }
}

/// The first string stored under `key` at any depth of `value`.
pub fn find_string(value: &JsonValue, key: &str) -> (res: Option<String>)
    ensures
        match res {
            Some(s) => spec_find_string(*value, key@) == Some(s@),
            None => spec_find_string(*value, key@) is None,
        },
    decreases value,
{
    match value {
        JsonValue::Object(entries) => {
            let ghost hits = find_hits(*value, key@);
            let mut i: usize = 0;
            while i < entries.len()
                invariant
                    *value == JsonValue::Object(*entries),
                    spec_find_string(*value, key@) == first_some(hits),
                    hits.len() == entries@.len(),
                    forall|k: int|
                        0 <= k < entries@.len() ==> #[trigger] hits[k] == if entries@[k].0@ == key@ {
                            as_str(entries@[k].1)
                        } else {
                            spec_find_string(entries@[k].1, key@)
                        },
                    i <= entries@.len(),
                    forall|k: int| 0 <= k < i ==> hits[k] is None,
                decreases entries@.len() - i,
            {
                proof {
                    assert(decreases_to!(*value => value->Object_0));
                    assert(decreases_to!(*entries => entries@));
                    assert(decreases_to!(entries@ => entries@[i as int]));
                    assert(decreases_to!(entries@[i as int] => entries@[i as int].1));
                }
                let hit = if str_eq(entries[i].0.as_str(), key) {
                    match &entries[i].1 {
                        JsonValue::String(s) => Some(s.clone()),
                        _ => None,
                    }
                } else {
                    find_string(&entries[i].1, key)
                };
                proof {
                    assert(hits[i as int] == if entries@[i as int].0@ == key@ {
                        as_str(entries@[i as int].1)
                    } else {
                        spec_find_string(entries@[i as int].1, key@)
                    });
                }
                match hit {
                    Some(s) => {
                        proof {
                            lemma_first_some(hits, i as int);
                        }
                        return Some(s);
                    },
                    None => {},
                }
                i += 1;
            }
            proof {
                lemma_first_some(hits, i as int);
            }
            None
        },
        JsonValue::Array(values) => {
            let ghost hits = find_hits(*value, key@);
            let mut i: usize = 0;
            while i < values.len()
                invariant
                    *value == JsonValue::Array(*values),
                    spec_find_string(*value, key@) == first_some(hits),
                    hits.len() == values@.len(),
                    forall|k: int|
                        0 <= k < values@.len() ==> #[trigger] hits[k] == spec_find_string(values@[k], key@),
                    i <= values@.len(),
                    forall|k: int| 0 <= k < i ==> hits[k] is None,
                decreases values@.len() - i,
            {
                proof {
                    assert(decreases_to!(*value => value->Array_0));
                    assert(decreases_to!(*values => values@));
                    assert(decreases_to!(values@ => values@[i as int]));
                }
                let hit = find_string(&values[i], key);
                proof {
                    assert(hits[i as int] == spec_find_string(values@[i as int], key@));
                }
                match hit {
                    Some(s) => {
                        proof {
                            lemma_first_some(hits, i as int);
                        }
                        return Some(s);
                    },
                    None => {},
                }
                i += 1;
            }
            proof {
                lemma_first_some(hits, i as int);
            }
            None
        },
        _ => {
            proof {
                assert(find_hits(*value, key@) =~= Seq::<Option<Seq<char>>>::empty());
            }
            None
        },
    }
}

/// A key of the history that only the seat it belongs to may see.
pub open spec fn private_key(key: Seq<char>) -> bool {
    key == "tehais"@ || key == "hands"@ || key == "wall"@ || key == "private_state"@ || key
        == "raw_state"@
}

/// The values of the `Some`s of `s`, in order.
pub open spec fn somes<A>(s: Seq<Option<A>>) -> Seq<A>
    decreases s.len(),
{
    if s.len() == 0 {
        Seq::empty()
    } else {
        let rest = somes(s.drop_last());
        match s.last() {
            Some(x) => rest.push(x),
            None => rest,
        }
    }
}

/// What each entry of an object becomes in the redacted history: nothing
/// for a private key, else the key with its redacted value.
pub open spec fn redacted_entries(v: JsonValue) -> Seq<Option<(Seq<char>, JsonView)>>
    decreases v, 0int,
{
    match v {
        JsonValue::Object(entries) => Seq::new(
            entries@.len(),
            |i: int|
                if 0 <= i < entries@.len() && !private_key(entries@[i].0@) {
                    Some((entries@[i].0@, redacted_view(entries@[i].1)))
                } else {
                    None
                },
        ),
        _ => Seq::empty(),
    }
}

/// What each item of an array becomes in the redacted history.
pub open spec fn redacted_items(v: JsonValue) -> Seq<JsonView>
    decreases v, 0int,
{
    match v {
        JsonValue::Array(values) => Seq::new(
            values@.len(),
            |i: int|
                if 0 <= i < values@.len() {
                    redacted_view(values@[i])
                } else {
                    JsonView::Null
                },
        ),
        _ => Seq::empty(),
    }
}

/// The history `v` with every entry under a private key taken out, at any
/// depth, and everything else kept in order.
pub open spec fn redacted_view(v: JsonValue) -> JsonView
    decreases v, 1int,
{
    match v {
        JsonValue::Object(_) => JsonView::Object(somes(redacted_entries(v))),
        JsonValue::Array(_) => JsonView::Array(redacted_items(v)),
        _ => json_view(v),
    }
}

/// Whether `v` has an entry under a private key at any depth.
pub open spec fn view_has_private_key(v: JsonView) -> bool
    decreases v,
{
    match v {
        JsonView::Object(entries) => exists|i: int|
            0 <= i < entries.len() && (private_key(entries[i].0) || view_has_private_key(entries[i].1)),
        JsonView::Array(items) => exists|i: int|
            0 <= i < items.len() && view_has_private_key(items[i]),
        _ => false,
    }
}

/// Taking one more option in adds its value, if it has one.
pub proof fn lemma_somes_push<A>(s: Seq<Option<A>>, k: int)
    requires
        0 <= k < s.len(),
    ensures
        somes(s.take(k + 1)) == match s[k] {
            Some(x) => somes(s.take(k)).push(x),
            None => somes(s.take(k)),
        },
{
    assert(s.take(k + 1).drop_last() =~= s.take(k));
}

/// Each value of `somes(s)` is the value of one of the options of `s`.
pub proof fn lemma_somes_from<A>(s: Seq<Option<A>>, j: int)
    requires
        0 <= j < somes(s).len(),
    ensures
        exists|k: int| 0 <= k < s.len() && s[k] == Some(somes(s)[j]),
    decreases s.len(),
{
    let rest = somes(s.drop_last());
    if j < rest.len() {
        lemma_somes_from(s.drop_last(), j);
        let k = choose|k: int| 0 <= k < s.drop_last().len() && s.drop_last()[k] == Some(rest[j]);
        assert(s[k] == Some(somes(s)[j]));
    } else {
        assert(s[s.len() - 1] == Some(somes(s)[j]));
    }
}

/// The history with its private entries taken out.
fn redacted(value: &JsonValue) -> (res: JsonValue)
    ensures
        json_view(res) == redacted_view(*value),
    decreases value,
{
    match value {
        JsonValue::Object(entries) => {
            let ghost hits = redacted_entries(*value);
            let mut out: Vec<(String, JsonValue)> = Vec::new();
            let mut k: usize = 0;
            while k < entries.len()
                invariant
                    *value == JsonValue::Object(*entries),
                    hits == redacted_entries(*value),
                    hits.len() == entries@.len(),
                    k <= entries@.len(),
                    out@.len() == somes(hits.take(k as int)).len(),
                    forall|j: int|
                        0 <= j < out@.len() ==> (#[trigger] out@[j].0@, json_view(out@[j].1))
                            == somes(hits.take(k as int))[j],
                decreases entries@.len() - k,
            {
                let ghost before = out@;
                proof {
                    assert(decreases_to!(*value => value->Object_0));
                    assert(decreases_to!(*entries => entries@));
                    assert(decreases_to!(entries@ => entries@[k as int]));
                    assert(decreases_to!(entries@[k as int] => entries@[k as int].1));
                    lemma_somes_push(hits, k as int);
                }
                let key = entries[k].0.as_str();
                let private = str_eq(key, "tehais") || str_eq(key, "hands") || str_eq(key, "wall")
                    || str_eq(key, "private_state") || str_eq(key, "raw_state");
                if !private {
                    let r = redacted(&entries[k].1);
                    out.push((entries[k].0.clone(), r));
                    proof {
                        assert(hits[k as int] == Some(
                            (entries@[k as int].0@, redacted_view(entries@[k as int].1)),
                        ));
                        assert forall|j: int| 0 <= j < out@.len() implies (#[trigger] out@[j].0@, json_view(
                            out@[j].1,
                        )) == somes(hits.take(k + 1))[j] by {
                            if j < before.len() {
                                assert(out@[j] == before[j]);
                            }
                        }
                    }
                } else {
                    proof {
                        assert(hits[k as int] is None);
                    }
                }
                k += 1;
            }
            proof {
                assert(hits.take(k as int) =~= hits);
            }
            let res = JsonValue::Object(out);
            proof {
                assert(json_view(res) == redacted_view(*value)) by {
                    let a = match json_view(res) {
                        JsonView::Object(es) => es,
                        _ => Seq::empty(),
                    };
                    assert(a =~= somes(hits));
                }
            }
            res
        },
        JsonValue::Array(values) => {
            let ghost items = redacted_items(*value);
            let mut out: Vec<JsonValue> = Vec::new();
            let mut k: usize = 0;
            while k < values.len()
                invariant
                    *value == JsonValue::Array(*values),
                    items == redacted_items(*value),
                    items.len() == values@.len(),
                    k <= values@.len(),
                    out@.len() == k,
                    forall|j: int| 0 <= j < k ==> json_view(#[trigger] out@[j]) == items[j],
                decreases values@.len() - k,
            {
                proof {
                    assert(decreases_to!(*value => value->Array_0));
                    assert(decreases_to!(*values => values@));
                    assert(decreases_to!(values@ => values@[k as int]));
                }
                let r = redacted(&values[k]);
                out.push(r);
                proof {
                    assert(items[k as int] == redacted_view(values@[k as int]));
                }
                k += 1;
            }
            let res = JsonValue::Array(out);
            proof {
                assert(json_view(res) == redacted_view(*value)) by {
                    let a = match json_view(res) {
                        JsonView::Array(es) => es,
                        _ => Seq::empty(),
                    };
                    assert(a =~= items);
                }
            }
            res
        },
        JsonValue::Null => JsonValue::Null,
        JsonValue::Bool(b) => JsonValue::Bool(*b),
        JsonValue::Number(n) => JsonValue::Number(n.clone()),
        JsonValue::String(t) => JsonValue::String(t.clone()),
    }
}

/// Takes the private entries out of the history `value`, at any depth.
pub fn redact_private_history(value: &mut JsonValue)
    ensures
        json_view(*final(value)) == redacted_view(*old(value)),
{
    let res = redacted(value);
    *value = res;
}

/// The redacted history has no entry under a private key, at any depth:
/// what one seat may not see never reaches another.
pub proof fn law_redacted_history_has_no_private_key(v: JsonValue)
    ensures
        !view_has_private_key(redacted_view(v)),
    decreases v,
{
    match v {
        JsonValue::Object(entries) => {
            let hits = redacted_entries(v);
            let es = somes(hits);
            assert(redacted_view(v) == JsonView::Object(es));
            if view_has_private_key(JsonView::Object(es)) {
                let i = choose|i: int|
                    0 <= i < es.len() && (private_key(es[i].0) || view_has_private_key(es[i].1));
                lemma_somes_from(hits, i);
                let k = choose|k: int| 0 <= k < hits.len() && hits[k] == Some(es[i]);
                assert(decreases_to!(v => entries));
                assert(decreases_to!(entries => entries@));
                assert(decreases_to!(entries@ => entries@[k]));
                assert(decreases_to!(entries@[k] => entries@[k].1));
                law_redacted_history_has_no_private_key(entries@[k].1);
                assert(es[i] == (entries@[k].0@, redacted_view(entries@[k].1)));
            }
        },
        JsonValue::Array(values) => {
            let items = redacted_items(v);
            assert forall|i: int| 0 <= i < items.len() implies !view_has_private_key(#[trigger] items[i]) by {
                assert(decreases_to!(v => values));
                assert(decreases_to!(values => values@));
                assert(decreases_to!(values@ => values@[i]));
                law_redacted_history_has_no_private_key(values@[i]);
            }
            assert(redacted_view(v) == JsonView::Array(items));
        },
        _ => {},
    }
}

/// What an MCP tool call answers when the room refuses it.
pub open spec fn spec_room_failure(error: RoomErrorKind) -> McpFailure {
    match error {
        RoomErrorKind::RoomFull => McpFailure::RoomFull,
        RoomErrorKind::ParticipantNotFound => McpFailure::WrongParticipant,
        RoomErrorKind::Disconnected | RoomErrorKind::ControllerNotInteractive => McpFailure::SessionExpired,
        RoomErrorKind::NotPlaying | RoomErrorKind::Playing | RoomErrorKind::Match => McpFailure::StaleAction,
        RoomErrorKind::Busy => McpFailure::Busy,
        RoomErrorKind::Deleted | RoomErrorKind::Closed => McpFailure::RoomNotFound,
        RoomErrorKind::NotLobby | RoomErrorKind::RematchUnavailable => McpFailure::LeaveUnavailable,
        _ => McpFailure::Internal,
    }
}

/// The MCP failure for a room's refusal.
pub fn room_failure(error: RoomErrorKind) -> (res: McpFailure)
    ensures
        res == spec_room_failure(error),
{
    match error {
        RoomErrorKind::RoomFull => McpFailure::RoomFull,
        RoomErrorKind::ParticipantNotFound => McpFailure::WrongParticipant,
        RoomErrorKind::Disconnected | RoomErrorKind::ControllerNotInteractive => McpFailure::SessionExpired,
        RoomErrorKind::NotPlaying | RoomErrorKind::Playing | RoomErrorKind::Match => McpFailure::StaleAction,
        RoomErrorKind::Busy => McpFailure::Busy,
        RoomErrorKind::Deleted | RoomErrorKind::Closed => McpFailure::RoomNotFound,
        RoomErrorKind::NotLobby | RoomErrorKind::RematchUnavailable => McpFailure::LeaveUnavailable,
        _ => McpFailure::Internal,
    }
}

/// The latest revision a session was woken for, and why.
pub struct RevisionWake {
    revision: u64,
    reason: String,
}

impl RevisionWake {
    /// The revision last recorded.
    pub closed spec fn revision(&self) -> u64 {
        self.revision
    }

    /// Why it was recorded.
    pub closed spec fn reason(&self) -> Seq<char> {
        self.reason@
    }

    /// Nothing recorded yet: revision 0, for a timeout.
    pub fn new() -> (res: Self)
        ensures
            res.revision() == 0,
            res.reason() == "timeout"@,
    {
        RevisionWake { revision: 0, reason: "timeout".to_owned() }
    }

    /// Records `revision` for `reason` when it is newer than the one held;
    /// whether it was.
    pub fn record(&mut self, revision: u64, reason: String) -> (res: bool)
        ensures
            res == (revision > old(self).revision()),
            res ==> final(self).revision() == revision && final(self).reason() == reason@,
            !res ==> final(self).revision() == old(self).revision() && final(self).reason() == old(self).reason(),
    {
        if revision <= self.revision {
            return false;
        }
        self.revision = revision;
        self.reason = reason;
        true
    }

    /// The revision and reason held.
    pub fn current(&self) -> (res: (u64, String))
        ensures
            res.0 == self.revision(),
            res.1@ == self.reason(),
    {
        (self.revision, self.reason.clone())
    }
}

} // verus!

//! Rules of the agent endpoints: room codes, provider and player names,
//! the codes of MCP failures, and query parameters of the MJAI endpoint.

use vstd::prelude::*;

use crate::codec::UrlParts;
use crate::origins::{text_has_origin, text_same_origin};

use crate::characters::assets::display_name_ok;
use crate::text::{
    char_views, chars_equal, chars_have_control, chars_of, find_char, find_char_from, has_control,
    spec_ascii_digit, split_chars, split_on, string_from_chars, sub_chars, trim, trimmed_chars,
};

verus! {

/// Whether `s` is a room code: six ASCII digits, not all zero.
pub open spec fn room_code_ok(s: Seq<char>) -> bool {
    &&& s.len() == 6
    &&& s != "000000"@
    &&& forall|i: int| 0 <= i < s.len() ==> spec_ascii_digit(#[trigger] s[i])
}

/// The room code `value`, if it is one.
pub fn normalize_room_code(value: &str) -> (res: Option<String>)
    ensures
        room_code_ok(value@) ==> (res matches Some(s) && s@ == value@),
        !room_code_ok(value@) ==> res is None,
{
    let v = chars_of(value);
    if v.len() != 6 {
        return None;
    }
    let zeros = chars_of("000000");
    if chars_equal(v.as_slice(), zeros.as_slice()) {
        return None;
    }
    let mut i: usize = 0;
    while i < v.len()
        invariant
            i <= v.len(),
            v@ == value@,
            forall|k: int| 0 <= k < i ==> spec_ascii_digit(#[trigger] v@[k]),
        decreases v.len() - i,
    {
        if !('0' <= v[i] && v[i] <= '9') {
            return None;
        }
        i += 1;
    }
    Some(value.to_owned())
}

/// A character of a provider name.
pub open spec fn provider_name_char(c: char) -> bool {
    ('a' <= c && c <= 'z') || ('0' <= c && c <= '9') || c == '-' || c == '_'
}

/// Whether a provider name is kept: once trimmed, 1 to 64 lowercase ASCII
/// letters, digits, `-` and `_`.
pub open spec fn provider_name_ok(s: Seq<char>) -> bool {
    &&& display_name_ok(s)
    &&& forall|i: int| 0 <= i < trim(s).len() ==> provider_name_char(#[trigger] trim(s)[i])
}

/// The provider name `value` without surrounding whitespace, if it is one.
pub fn normalize_provider(value: &str) -> (res: Option<String>)
    ensures
        provider_name_ok(value@) ==> (res matches Some(s) && s@ == trim(value@)),
        !provider_name_ok(value@) ==> res is None,
{
    let t = trimmed_chars(value);
    if t.len() == 0 || t.len() > 64 || chars_have_control(t.as_slice()) {
        return None;
    }
    let mut i: usize = 0;
    while i < t.len()
        invariant
            i <= t.len(),
            t@ == trim(value@),
            forall|k: int| 0 <= k < i ==> provider_name_char(#[trigger] t@[k]),
        decreases t.len() - i,
    {
        let c = t[i];
        if !(('a' <= c && c <= 'z') || ('0' <= c && c <= '9') || c == '-' || c == '_') {
            return None;
        }
        i += 1;
    }
    Some(string_from_chars(t.as_slice()))
}

/// A player name without surrounding whitespace, or `None` when it is
/// empty, longer than 64 characters or holds a control character.
pub fn normalize_name(value: &str) -> (res: Option<String>)
    ensures
        display_name_ok(value@) ==> (res matches Some(s) && s@ == trim(value@)),
        !display_name_ok(value@) ==> res is None,
{
    let t = trimmed_chars(value);
    if t.len() == 0 || t.len() > 64 || chars_have_control(t.as_slice()) {
        None
    } else {
        Some(string_from_chars(t.as_slice()))
    }
}

/// Why an MCP tool call failed.
#[derive(Debug, Clone, Copy, PartialEq, Eq, Structural)]
pub enum McpFailure {
    InvalidCredentials,
    SessionExpired,
    SessionBound,
    RoomNotFound,
    WrongParticipant,
    StaleAction,
    IllegalAction,
    RoomFull,
    Busy,
    LeaveUnavailable,
    InvalidInput,
    Internal,
}

/// The code an MCP failure is reported with.
pub open spec fn failure_code(f: McpFailure) -> Seq<char> {
    match f {
        McpFailure::InvalidCredentials => "invalid_credentials"@,
        McpFailure::SessionExpired => "session_expired"@,
        McpFailure::SessionBound => "session_already_bound"@,
        McpFailure::RoomNotFound => "room_not_found"@,
        McpFailure::WrongParticipant => "wrong_participant"@,
        McpFailure::StaleAction => "stale_action"@,
        McpFailure::IllegalAction => "illegal_action"@,
        McpFailure::RoomFull => "room_full"@,
        McpFailure::Busy => "busy"@,
        McpFailure::LeaveUnavailable => "leave_unavailable"@,
        McpFailure::InvalidInput => "invalid_input"@,
        McpFailure::Internal => "internal_error"@,
    }
}

impl McpFailure {
    pub fn code(&self) -> (res: &'static str)
        ensures
            res@ == failure_code(*self),
    {
        match self {
            McpFailure::InvalidCredentials => "invalid_credentials",
            McpFailure::SessionExpired => "session_expired",
            McpFailure::SessionBound => "session_already_bound",
            McpFailure::RoomNotFound => "room_not_found",
            McpFailure::WrongParticipant => "wrong_participant",
            McpFailure::StaleAction => "stale_action",
            McpFailure::IllegalAction => "illegal_action",
            McpFailure::RoomFull => "room_full",
            McpFailure::Busy => "busy",
            McpFailure::LeaveUnavailable => "leave_unavailable",
            McpFailure::InvalidInput => "invalid_input",
            McpFailure::Internal => "internal_error",
        }
    }
}

/// The longest an agent may wait for its turn, in seconds.
pub const MCP_MAX_WAIT_SECONDS: u64 = 330;

pub fn default_wait_seconds() -> (res: u64)
    ensures
        res == MCP_MAX_WAIT_SECONDS,
{
    MCP_MAX_WAIT_SECONDS
}

/// `s` with every `+` read as a space.
pub open spec fn plus_as_space(s: Seq<char>) -> Seq<char> {
    s.map_values(|c: char| if c == '+' {
        ' '
    } else {
        c
    })
}

/// The value of the parameter `key` among `&`-separated `name=value` parts:
/// the first part with that name.
pub open spec fn param_in(parts: Seq<Seq<char>>, key: Seq<char>) -> Option<Seq<char>>
    decreases parts.len(),
{
    if parts.len() == 0 {
        None
    } else {
        let p = parts[0];
        let eq = find_char(p, '=');
        if eq < p.len() && p.subrange(0, eq) == key {
            Some(plus_as_space(p.subrange(eq + 1, p.len() as int)))
        } else {
            param_in(parts.drop_first(), key)
        }
    }
}

/// The value of the query parameter `key`, with `+` read as a space.
pub fn query_param(query: Option<&str>, key: &str) -> (res: Option<String>)
    ensures
        crate::web::opt_text(res) == match query {
            Some(q) => param_in(split_on(q@, '&'), key@),
            None => None,
        },
{
    let q = match query {
        Some(q) => q,
        None => {
            return None;
        },
    };
    let v = chars_of(q);
    let k = chars_of(key);
    let parts = split_chars(v.as_slice(), '&');
    let ghost all = char_views(parts@);
    let mut i: usize = 0;
    assert(all.subrange(0, all.len() as int) =~= all);
    while i < parts.len()
        invariant
            i <= parts.len(),
            all == char_views(parts@),
            all == split_on(q@, '&'),
            query == Some(q),
            k@ == key@,
            param_in(all, key@) == param_in(all.subrange(i as int, all.len() as int), key@),
        decreases parts.len() - i,
    {
        let ghost rest = all.subrange(i as int, all.len() as int);
        assert(rest[0] == parts@[i as int]@);
        let p = &parts[i];
        let eq = find_char_from(p.as_slice(), 0, '=');
        proof {
            assert(p@.subrange(0, p.len() as int) =~= p@);
        }
        if eq < p.len() {
            let name = sub_chars(p.as_slice(), 0, eq);
            if chars_equal(name.as_slice(), k.as_slice()) {
                let value = sub_chars(p.as_slice(), eq + 1, p.len());
                let mut out = String::new();
                let mut j: usize = 0;
                while j < value.len()
                    invariant
                        j <= value.len(),
                        out@ == plus_as_space(value@.take(j as int)),
                    decreases value.len() - j,
                {
                    let c = if value[j] == '+' {
                        ' '
                    } else {
                        value[j]
                    };
                    crate::text::push_char(&mut out, c);
                    assert(plus_as_space(value@.take(j + 1)) =~= plus_as_space(value@.take(j as int)).push(c));
                    j += 1;
                }
                assert(value@.take(value.len() as int) =~= value@);
                return Some(out);
            }
        }
        assert(rest.drop_first() =~= all.subrange(i + 1, all.len() as int));
        i += 1;
    }
    None
}

/// The arguments of the `join_room` tool.
#[derive(Debug, Clone)]
pub struct JoinRoomInput {
    pub room_code: String,
    pub provider: String,
    pub display_name: String,
}

/// The result of the `join_room` tool.
#[derive(Debug, Clone)]
pub struct JoinRoomOutput {
    pub participant_id: String,
    pub resumed: bool,
    pub display_name: String,
    pub character_id: String,
    pub state_uri: String,
    pub public_state_uri: String,
    pub history_uri: String,
}

/// The arguments of the `submit_action` tool.
#[derive(Debug, Clone)]
pub struct SubmitActionInput {
    pub action_id: String,
}

/// The result of the `submit_action` tool.
#[derive(Debug, Clone, Copy)]
pub struct SubmitActionOutput {
    pub accepted: bool,
    pub revision: u64,
}

/// The arguments of the `wait_for_turn` tool; a timeout of zero asks for
/// the longest wait.
#[derive(Debug, Clone, Copy)]
pub struct WaitForTurnInput {
    pub after_revision: u64,
    pub timeout_seconds: u64,
}

/// The result of the `wait_for_turn` tool.
#[derive(Debug, Clone)]
pub struct WaitForTurnOutput {
    pub reason: String,
    pub revision: u64,
    pub state_uri: String,
}

impl JoinRoomInput {
    /// The room code, provider and display name the agent asks to join
    /// with, each normalized; an invalid one is invalid input.
    pub fn normalized(&self) -> (res: Result<(String, String, String), McpFailure>)
        ensures
            !room_code_ok(self.room_code@) || !provider_name_ok(self.provider@) || !display_name_ok(
                self.display_name@,
            ) ==> res == Err::<(String, String, String), McpFailure>(McpFailure::InvalidInput),
            room_code_ok(self.room_code@) && provider_name_ok(self.provider@) && display_name_ok(
                self.display_name@,
            ) ==> (res matches Ok((c, p, n)) && c@ == self.room_code@ && p@ == trim(self.provider@)
                && n@ == trim(self.display_name@)),
    {
        let code = match normalize_room_code(self.room_code.as_str()) {
            Some(c) => c,
            None => {
                return Err(McpFailure::InvalidInput);
            },
        };
        let provider = match normalize_provider(self.provider.as_str()) {
            Some(p) => p,
            None => {
                return Err(McpFailure::InvalidInput);
            },
        };
        let name = match crate::web::normalize_display_text(self.display_name.as_str()) {
            Some(n) => n,
            None => {
                return Err(McpFailure::InvalidInput);
            },
        };
        Ok((code, provider, name))
    }
}

impl WaitForTurnInput {
    /// How long to wait, in seconds: the asked timeout, the longest wait for
    /// zero, and invalid input past the longest wait.
    pub fn timeout(&self) -> (res: Result<u64, McpFailure>)
        ensures
            self.timeout_seconds > MCP_MAX_WAIT_SECONDS ==> res == Err::<u64, McpFailure>(
                McpFailure::InvalidInput,
            ),
            self.timeout_seconds == 0 ==> res == Ok::<u64, McpFailure>(MCP_MAX_WAIT_SECONDS),
            0 < self.timeout_seconds <= MCP_MAX_WAIT_SECONDS ==> res == Ok::<u64, McpFailure>(
                self.timeout_seconds,
            ),
    {
        if self.timeout_seconds > MCP_MAX_WAIT_SECONDS {
            return Err(McpFailure::InvalidInput);
        }
        if self.timeout_seconds == 0 {
            Ok(MCP_MAX_WAIT_SECONDS)
        } else {
            Ok(self.timeout_seconds)
        }
    }
}

/// Whether a compat-endpoint request may proceed by its `Origin` header
/// (`Some(None)`: present but unreadable): it has none, or it names the
/// public origin.
pub fn origin_allowed(origin: Option<Option<&str>>, public: &UrlParts) -> (res: bool)
    ensures
        res == match origin {
            None => true,
            Some(o) => o matches Some(v) && text_has_origin(v@, public.parts()),
        },
{
    match origin {
        None => true,
        Some(Some(v)) => text_same_origin(v, public),
        Some(None) => false,
    }
}

/// The time a bot is given to answer a request: no limit, or a grace, a
/// bank and a deadline in milliseconds.
#[derive(Debug, Clone, Copy, PartialEq, Eq, Structural)]
pub enum RequestTime {
    Unlimited,
    Limited { grace_ms: u64, bank_ms: u64, deadline_ms: u64 },
}

/// The time a bot gets for a room decision with `remaining_ms` left on its
/// clock: no limit when the decision has no clock, the time left (all of it
/// bank, none grace) while some is, and no request once none is left.
pub open spec fn spec_room_request_time(remaining_ms: Option<u64>) -> Option<RequestTime> {
    match remaining_ms {
        Some(r) => if r > 0 {
            Some(RequestTime::Limited { grace_ms: 0, bank_ms: r, deadline_ms: r })
        } else {
            None
        },
        None => Some(RequestTime::Unlimited),
    }
}

/// The time a bot gets for a room decision with `remaining_ms` left.
pub fn room_request_time(remaining_ms: Option<u64>) -> (res: Option<RequestTime>)
    ensures
        res == spec_room_request_time(remaining_ms),
{
    match remaining_ms {
        Some(r) => if r > 0 {
            Some(RequestTime::Limited { grace_ms: 0, bank_ms: r, deadline_ms: r })
        } else {
            None
        },
        None => Some(RequestTime::Unlimited),
    }
}

/// A decision request sent to a seat: when it was opened and when it falls
/// due, in milliseconds of a monotonic clock.
#[derive(Debug, Clone, Copy, PartialEq, Eq)]
pub struct PendingRequest {
    pub opened_at: u64,
    pub deadline: u64,
}

impl PendingRequest {
    /// Milliseconds since the request was opened, zero before that.
    pub fn elapsed_ms_at(self, now: u64) -> (res: u64)
        ensures
            res == spec_elapsed(self, now),
    {
        if now >= self.opened_at {
            now - self.opened_at
        } else {
            0
        }
    }
}

/// Milliseconds from the opening of `r` to `now`, zero before it.
pub open spec fn spec_elapsed(r: PendingRequest, now: u64) -> u64 {
    if now >= r.opened_at {
        (now - r.opened_at) as u64
    } else {
        0
    }
}

/// Whether the seats of `pending` are distinct, as the keys of a map are.
pub open spec fn seats_distinct(pending: Seq<(u8, PendingRequest)>) -> bool {
    forall|a: int, b: int|
        0 <= a < b < pending.len() ==> #[trigger] pending[a].0 != #[trigger] pending[b].0
}

/// Whether `entry` is a seat of `pending` whose request is due at `now`,
/// with the milliseconds since it was opened.
pub open spec fn is_due_entry(pending: Seq<(u8, PendingRequest)>, now: u64, entry: (u8, u64)) -> bool {
    exists|k: int|
        0 <= k < pending.len() && pending[k].0 == entry.0 && pending[k].1.deadline <= now && entry.1
            == spec_elapsed(pending[k].1, now)
}

/// Whether `due` lists, by increasing seat, each seat of `pending` whose
/// request is due at `now`, with the milliseconds since it was opened.
pub open spec fn due_listing(pending: Seq<(u8, PendingRequest)>, now: u64, due: Seq<(u8, u64)>) -> bool {
    &&& forall|i: int, j: int| 0 <= i < j < due.len() ==> #[trigger] due[i].0 < #[trigger] due[j].0
    &&& forall|i: int| 0 <= i < due.len() ==> is_due_entry(pending, now, #[trigger] due[i])
    &&& forall|k: int|
        0 <= k < pending.len() && (#[trigger] pending[k]).1.deadline <= now ==> exists|i: int|
            0 <= i < due.len() && due[i].0 == pending[k].0
}

/// The index of the request of seat `seat` in `pending`, if it has one.
fn find_seat(pending: &[(u8, PendingRequest)], seat: u8) -> (res: Option<usize>)
    ensures
        match res {
            Some(f) => f < pending@.len() && pending@[f as int].0 == seat,
            None => forall|j: int| 0 <= j < pending@.len() ==> pending@[j].0 != seat,
        },
{
    let mut k: usize = 0;
    while k < pending.len()
        invariant
            k <= pending@.len(),
            forall|j: int| 0 <= j < k ==> pending@[j].0 != seat,
        decreases pending@.len() - k,
    {
        if pending[k].0 == seat {
            return Some(k);
        }
        k += 1;
    }
    None
}

/// Whether `due` was drawn from `pending` by the indices `from`, every
/// due seat below `seat` being drawn, in increasing seat order.
spec fn drawn(
    pending: Seq<(u8, PendingRequest)>,
    now: u64,
    due: Seq<(u8, u64)>,
    from: Seq<int>,
    seat: int,
) -> bool {
    &&& from.len() == due.len()
    &&& forall|i: int|
        0 <= i < due.len() ==> 0 <= #[trigger] from[i] < pending.len() && pending[from[i]].0 == due[i].0
            && pending[from[i]].1.deadline <= now && due[i].1 == spec_elapsed(pending[from[i]].1, now)
            && due[i].0 < seat
    &&& forall|i: int, j: int| 0 <= i < j < due.len() ==> #[trigger] due[i].0 < #[trigger] due[j].0
    &&& forall|k: int|
        0 <= k < pending.len() && (#[trigger] pending[k]).1.deadline <= now && pending[k].0 < seat
            ==> exists|i: int| 0 <= i < due.len() && from[i] == k
}

proof fn lemma_drawn_listing(
    pending: Seq<(u8, PendingRequest)>,
    now: u64,
    due: Seq<(u8, u64)>,
    from: Seq<int>,
)
    requires
        drawn(pending, now, due, from, 256),
    ensures
        due_listing(pending, now, due),
{
    assert forall|i: int| 0 <= i < due.len() implies is_due_entry(pending, now, #[trigger] due[i]) by {
        let k = from[i];
        assert(0 <= k < pending.len() && pending[k].0 == due[i].0 && pending[k].1.deadline <= now
            && due[i].1 == spec_elapsed(pending[k].1, now));
    }
    assert forall|k: int|
        0 <= k < pending.len() && (#[trigger] pending[k]).1.deadline <= now implies exists|i: int|
        0 <= i < due.len() && due[i].0 == pending[k].0 by {
        assert(pending[k].0 < 256);
        let i = choose|i: int| 0 <= i < due.len() && from[i] == k;
        assert(0 <= from[i] < pending.len());
        assert(due[i].0 == pending[k].0);
    }
    assert(forall|i: int, j: int| 0 <= i < j < due.len() ==> #[trigger] due[i].0 < #[trigger] due[j].0);
}

proof fn lemma_drawn_step(
    pending: Seq<(u8, PendingRequest)>,
    now: u64,
    due: Seq<(u8, u64)>,
    from: Seq<int>,
    seat: int,
    found: Option<int>,
)
    requires
        0 <= seat < 256,
        seats_distinct(pending),
        drawn(pending, now, due, from, seat),
        match found {
            Some(f) => 0 <= f < pending.len() && pending[f].0 == seat,
            None => forall|j: int| 0 <= j < pending.len() ==> pending[j].0 != seat,
        },
    ensures
        match found {
            Some(f) => if pending[f].1.deadline <= now {
                drawn(
                    pending,
                    now,
                    due.push((seat as u8, spec_elapsed(pending[f].1, now))),
                    from.push(f),
                    seat + 1,
                )
            } else {
                drawn(pending, now, due, from, seat + 1)
            },
            None => drawn(pending, now, due, from, seat + 1),
        },
{
    match found {
        Some(f) => {
            if pending[f].1.deadline <= now {
                let d = due.push((seat as u8, spec_elapsed(pending[f].1, now)));
                let fr = from.push(f);
                assert forall|i: int|
                    0 <= i < d.len() implies 0 <= #[trigger] fr[i] < pending.len() && pending[fr[i]].0
                    == d[i].0 && pending[fr[i]].1.deadline <= now && d[i].1 == spec_elapsed(
                    pending[fr[i]].1,
                    now,
                ) && d[i].0 < seat + 1 by {
                    if i < due.len() {
                        assert(fr[i] == from[i]);
                        assert(d[i] == due[i]);
                    }
                }
                assert forall|i: int, j: int| 0 <= i < j < d.len() implies #[trigger] d[i].0
                    < #[trigger] d[j].0 by {
                    if j < due.len() {
                        assert(d[i] == due[i] && d[j] == due[j]);
                    } else {
                        assert(d[i] == due[i]);
                        assert(fr[i] == from[i]);
                    }
                }
                assert forall|k: int|
                    0 <= k < pending.len() && (#[trigger] pending[k]).1.deadline <= now && pending[k].0
                        < seat + 1 implies exists|i: int| 0 <= i < d.len() && fr[i] == k by {
                    if pending[k].0 < seat {
                        let i = choose|i: int| 0 <= i < due.len() && from[i] == k;
                        assert(fr[i] == k);
                    } else {
                        if k != f {
                            if k < f {
                                assert(pending[k].0 != pending[f].0);
                            } else {
                                assert(pending[f].0 != pending[k].0);
                            }
                        }
                        assert(fr[due.len() as int] == k);
                    }
                }
            } else {
                assert forall|k: int|
                    0 <= k < pending.len() && (#[trigger] pending[k]).1.deadline <= now && pending[k].0
                        < seat + 1 implies exists|i: int| 0 <= i < due.len() && from[i] == k by {
                    if pending[k].0 == seat && k != f {
                        if k < f {
                            assert(pending[k].0 != pending[f].0);
                        } else {
                            assert(pending[f].0 != pending[k].0);
                        }
                    }
                }
            }
        },
        None => {},
    }
}

/// The seats whose requests are due at `now`, by increasing seat, each
/// with the milliseconds since its request was opened.
pub fn due_requests(pending: &[(u8, PendingRequest)], now: u64) -> (res: Vec<(u8, u64)>)
    requires
        seats_distinct(pending@),
    ensures
        due_listing(pending@, now, res@),
{
    let mut due: Vec<(u8, u64)> = Vec::new();
    let ghost mut from: Seq<int> = Seq::empty();
    let mut seat: u16 = 0;
    while seat < 256
        invariant
            seat <= 256,
            seats_distinct(pending@),
            drawn(pending@, now, due@, from, seat as int),
        decreases 256 - seat,
    {
        let s = seat as u8;
        let found = find_seat(pending, s);
        proof {
            lemma_drawn_step(
                pending@,
                now,
                due@,
                from,
                seat as int,
                match found {
                    Some(f) => Some(f as int),
                    None => None,
                },
            );
        }
        match found {
            Some(f) => {
                if pending[f].1.deadline <= now {
                    let elapsed = pending[f].1.elapsed_ms_at(now);
                    due.push((s, elapsed));
                    proof {
                        from = from.push(f as int);
                    }
                }
            },
            None => {},
        }
        seat += 1;
    }
    proof {
        lemma_drawn_listing(pending@, now, due@, from);
    }
    due
}

} // verus!

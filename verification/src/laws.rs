//! What holds of the network, configuration, OAuth and frontend rules
//! across their functions.

use vstd::prelude::*;

use crate::config::{characters_ok, config_problem, in_range, network_ok, RawNetworkConfig, RawRuntimeConfig};
use crate::net::{
    held_by_any, spec_cidr_contains, spec_mask_ip, spec_prefix_mask_v4, spec_prefix_matches_v4,
    spec_request_ip, address_width, IpAddress,
};
use crate::oauth::{html_escaped, html_escaped_char, spec_access_expires_at};
use crate::web::{spec_asset_key, spec_frontend_path_is_safe, strip_trailing_slash};
use crate::text::{has_char, split_on};
use crate::gateway::{has_whitespace, spec_bearer_token};
use crate::oauth::AuthorizationRequestView;
use crate::pending::{consumed, live_flows, registered, PendingFlowView};
use crate::web::{crockford_digits, ulid_text};
use crate::guests::{session_issued, session_lasts, session_participant, swept, GuestView, SweepRule};
use crate::connections::{next_generation, RegistrationView};
use crate::server::bot_authenticated;
use crate::auth::tokens::TokenRecordView;
use crate::mcp_sessions::{
    bind_precheck, bind_refusal, idle_transports, none_replaced, replaced_by, token_pairs,
    token_transports, McpSession, TransportSession,
};
use crate::rate::{aged_out, bucket_or_new, fresh_hits, pass_decided, pruned_buckets, BucketView, RateKey};

verus! {

/// A block holds the address it was made from.
pub proof fn law_block_holds_its_address(a: IpAddress, prefix: u8)
    requires
        prefix as int <= address_width(a),
    ensures
        spec_cidr_contains(spec_mask_ip(a, prefix), prefix, a),
{
    match a {
        IpAddress::V4(v) => {
            let m = crate::net::spec_prefix_mask_v4(prefix);
            assert((v & m) & m == v & m) by (bit_vector);
        },
        IpAddress::V6(v) => {
            let m = crate::net::spec_prefix_mask_v6(prefix);
            assert((v & m) & m == v & m) by (bit_vector);
        },
    }
}

/// Two IPv4 addresses match under a prefix exactly when their first
/// `prefix` bits agree; under the empty prefix every address matches.
pub proof fn law_prefix_match_is_leading_bits(network: u32, address: u32, prefix: u8)
    requires
        prefix <= 32,
    ensures
        prefix == 0 ==> spec_prefix_matches_v4(network, address, prefix),
        prefix > 0 ==> (spec_prefix_matches_v4(network, address, prefix) <==> (network >> ((32
            - prefix) as u32)) == (address >> ((32 - prefix) as u32))),
{
    if prefix > 0 {
        let s: u32 = (32 - prefix) as u32;
        assert(s < 32);
        assert(((network & (0xffff_ffffu32 << s)) == (address & (0xffff_ffffu32 << s))) <==> ((
        network >> s) == (address >> s))) by (bit_vector)
            requires
                s < 32,
        ;
    } else {
        assert(network & 0 == address & 0) by (bit_vector);
    }
}

/// A request from a peer that no trusted block holds comes from that peer,
/// whatever it forwards.
pub proof fn law_untrusted_peer_is_the_client(
    forwarded: Option<Seq<char>>,
    peer: IpAddress,
    cidrs: Seq<(IpAddress, u8)>,
)
    requires
        !held_by_any(cidrs, peer),
    ensures
        spec_request_ip(forwarded, Some(peer), cidrs) == peer,
{
}

/// The default network settings pass validation.
pub proof fn law_default_network_is_valid(n: RawNetworkConfig)
    requires
        n.max_connections == 256,
        n.room_participant_limit == 32,
        n.code_lookup_per_minute == 20,
        n.participant_creation_per_minute == 10,
        n.admin_login_failures_per_15_minutes == 5,
        n.agent_auth_failures_per_minute == 20,
        n.trusted_proxy_cidrs@.len() == 0,
        n.max_compat_matches == 32,
        n.max_ranked_queue == 128,
    ensures
        network_ok(n).0 && network_ok(n).1,
{
}

/// The default durations lie in their allowed ranges.
pub proof fn law_default_durations_are_valid()
    ensures
        in_range(30, 1, 3600),
        in_range(10, 1, 3600),
        in_range(300, 10, 3600),
        in_range(1800, 1, 86400),
        in_range(3600, 1, 86400),
        in_range(10, 1, 86400),
{
}

/// An access token never outlives ten minutes nor its refresh family.
pub proof fn law_access_token_lifetime(issued_at: int, family_expires_at: int)
    ensures
        spec_access_expires_at(issued_at, family_expires_at) <= issued_at + 600,
        spec_access_expires_at(issued_at, family_expires_at) <= family_expires_at,
        spec_access_expires_at(issued_at, family_expires_at) == issued_at + 600
            || spec_access_expires_at(issued_at, family_expires_at) == family_expires_at,
{
}

/// Escaped text holds no `<`, `>`, `"` or `'`: it cannot open a tag or
/// leave an attribute value.
pub proof fn law_escaped_text_has_no_markup(s: Seq<char>)
    ensures
        forall|i: int|
            0 <= i < html_escaped(s).len() ==> {
                let c = #[trigger] html_escaped(s)[i];
                c != '<' && c != '>' && c != '"' && c != '\''
            },
    decreases s.len(),
{
    if s.len() > 0 {
        law_escaped_text_has_no_markup(s.drop_last());
        let head = html_escaped(s.drop_last());
        let tail = html_escaped_char(s.last());
        reveal_strlit("&amp;");
        reveal_strlit("&lt;");
        reveal_strlit("&gt;");
        reveal_strlit("&quot;");
        reveal_strlit("&#39;");
        assert forall|i: int| 0 <= i < html_escaped(s).len() implies {
            let c = #[trigger] html_escaped(s)[i];
            c != '<' && c != '>' && c != '"' && c != '\''
        } by {
            if i >= head.len() {
                assert(html_escaped(s)[i] == tail[i - head.len()]);
            } else {
                assert(html_escaped(s)[i] == head[i]);
            }
        }
    }
}

/// A path that names a frontend file never climbs out of the frontend:
/// none of its segments is `.` or `..` or hidden.
pub proof fn law_served_paths_stay_inside(path: Seq<char>)
    requires
        spec_asset_key(path) is Some,
    ensures
        spec_frontend_path_is_safe(path),
        forall|k: int|
            1 <= k < split_on(strip_trailing_slash(path), '/').len() ==> {
                let seg = #[trigger] split_on(strip_trailing_slash(path), '/')[k];
                seg != "."@ && seg != ".."@ && seg.len() > 0 && seg[0] != '.'
            },
{
    reveal_strlit(".");
    reveal_strlit("..");
    assert forall|k: int| 1 <= k < split_on(strip_trailing_slash(path), '/').len() implies {
        let seg = #[trigger] split_on(strip_trailing_slash(path), '/')[k];
        seg != "."@ && seg != ".."@ && seg.len() > 0 && seg[0] != '.'
    } by {
        let seg = split_on(strip_trailing_slash(path), '/')[k];
        assert(crate::web::segment_ok(seg));
        if seg == "."@ {
            assert(seg[0] == '.');
        }
        if seg == ".."@ {
            assert(seg[0] == '.');
        }
    }
}

/// A registered authorization flow is found under its key until the
/// instant it expires, whatever the registration had to push out.
pub proof fn law_registered_flow_waits_until_expiry(
    before: Map<Seq<u8>, PendingFlowView>,
    key: Seq<u8>,
    flow: PendingFlowView,
    now: u64,
    after: Map<Seq<u8>, PendingFlowView>,
    later: u64,
)
    requires
        registered(before, key, flow, now, after),
        later < flow.expires_at,
    ensures
        live_flows(after, later).contains_key(key),
        live_flows(after, later)[key] == flow,
{
}

/// A registration drops no flow that is still waiting unless the store was
/// full; and it never drops more than one.
pub proof fn law_registration_keeps_live_flows(
    before: Map<Seq<u8>, PendingFlowView>,
    key: Seq<u8>,
    flow: PendingFlowView,
    now: u64,
    after: Map<Seq<u8>, PendingFlowView>,
    other: Seq<u8>,
)
    requires
        registered(before, key, flow, now, after),
        live_flows(before, now).contains_key(other),
        other != key,
        live_flows(before, now).len() < crate::pending::MAX_PENDING_AUTHORIZATIONS,
    ensures
        after.contains_key(other),
        after[other] == before[other],
{
}

/// A flow authorizes one sign-in at most: once consumed, consuming it
/// again, for any request and at any time, takes nothing.
pub proof fn law_flow_is_consumed_once(
    before: Map<Seq<u8>, PendingFlowView>,
    key: Seq<u8>,
    request: AuthorizationRequestView,
    now: u64,
    again: AuthorizationRequestView,
    later: u64,
)
    requires
        consumed(before, key, request, now).0 is Some,
    ensures
        consumed(consumed(before, key, request, now).1, key, again, later).0 is None,
{
}

/// A consume that takes nothing leaves every flow in place.
pub proof fn law_refused_consume_keeps_flows(
    before: Map<Seq<u8>, PendingFlowView>,
    key: Seq<u8>,
    request: AuthorizationRequestView,
    now: u64,
)
    requires
        consumed(before, key, request, now).0 is None,
    ensures
        consumed(before, key, request, now).1 == before,
{
}

/// A bearer token that the gateway accepts is never empty and holds
/// neither whitespace nor a comma.
pub proof fn law_bearer_token_is_one_word(values: Seq<Option<Seq<char>>>)
    requires
        spec_bearer_token(values) is Some,
    ensures
        spec_bearer_token(values)->0.len() > 0,
        !has_whitespace(spec_bearer_token(values)->0),
        !has_char(spec_bearer_token(values)->0, ','),
{
}

/// Every ULID is 26 digits of Crockford's base32.
pub proof fn law_ulid_is_26_base32_digits(value: u128)
    ensures
        ulid_text(value).len() == 26,
        forall|i: int| 0 <= i < 26 ==> crockford_digits().contains(#[trigger] ulid_text(value)[i]),
{
    assert forall|i: int| 0 <= i < 26 implies crockford_digits().contains(#[trigger] ulid_text(value)[i]) by {
        let sh = (125 - 5 * i) as u32;
        let d = (value >> sh) & 31u128;
        assert(d < 32) by (bit_vector)
            requires d == (value >> sh) & 31u128;
        assert(ulid_text(value)[i] == crockford_digits()[d as int]);
    }
}

/// A request that passes leaves its bucket with at most `limit` hits.
pub proof fn law_passing_request_stays_within_limit(
    p: Map<RateKey, BucketView>,
    key: RateKey,
    limit: usize,
    window: u64,
    now: u64,
    after: Map<RateKey, BucketView>,
)
    requires
        pass_decided(p, key, limit, window, now, true, after),
    ensures
        after.contains_key(key) ==> after[key].1.len() <= limit,
{
    let b = bucket_or_new(p, key, window);
    let counted = p.insert(key, (b.0, b.1.push(now)));
    assert(crate::rate::hit_recorded(p, key, window, now, after));
    assert(after.submap_of(counted));
    if after.contains_key(key) {
        assert(counted.dom().contains(key));
        assert(after[key] == counted[key]);
    }
}

/// A refused request is not counted: its bucket keeps the hits it had.
pub proof fn law_refused_request_is_not_counted(
    p: Map<RateKey, BucketView>,
    key: RateKey,
    limit: usize,
    window: u64,
    now: u64,
    after: Map<RateKey, BucketView>,
)
    requires
        pass_decided(p, key, limit, window, now, false, after),
    ensures
        after.contains_key(key),
        after[key] == bucket_or_new(p, key, window),
{
}

/// Pruning drops only hits that have aged out of their own bucket's
/// window, oldest first: what is left is the newest part of the hits.
pub proof fn law_pruning_drops_only_aged_hits(hits: Seq<u64>, window: u64, now: u64)
    ensures
        fresh_hits(hits, window, now).len() <= hits.len(),
        fresh_hits(hits, window, now) == hits.subrange(
            hits.len() - fresh_hits(hits, window, now).len(),
            hits.len() as int,
        ),
        forall|i: int|
            0 <= i < hits.len() - fresh_hits(hits, window, now).len() ==> aged_out(
                #[trigger] hits[i],
                window,
                now,
            ),
    decreases hits.len(),
{
    if hits.len() > 0 && aged_out(hits[0], window, now) {
        let t = hits.drop_first();
        law_pruning_drops_only_aged_hits(t, window, now);
        assert forall|i: int|
            0 <= i < hits.len() - fresh_hits(hits, window, now).len() implies aged_out(
            #[trigger] hits[i],
            window,
            now,
        ) by {
            if i > 0 {
                assert(hits[i] == t[i - 1]);
            }
        }
        assert(t.subrange(t.len() - fresh_hits(t, window, now).len(), t.len() as int) =~= hits.subrange(
            hits.len() - fresh_hits(hits, window, now).len(),
            hits.len() as int,
        ));
    } else {
        assert(hits.subrange(0, hits.len() as int) =~= hits);
    }
}

/// Each bucket ages out by its own window: a bucket whose oldest hit is
/// still within that window keeps all its hits, whatever the windows of
/// other kinds.
pub proof fn law_pruning_keeps_each_window(m: Map<RateKey, BucketView>, key: RateKey, now: u64)
    requires
        m.contains_key(key),
        m[key].1.len() > 0,
        !aged_out(m[key].1[0], m[key].0, now),
    ensures
        pruned_buckets(m, now).contains_key(key),
        pruned_buckets(m, now)[key] == m[key],
{
}

/// An issued guest session lets its credential act as its participant in
/// its room for as long as it lasts.
pub proof fn law_issued_session_authenticates(
    before: Map<Seq<u8>, GuestView>,
    key: Seq<u8>,
    join_code: Seq<char>,
    participant: Seq<char>,
    now: u64,
    after: Map<Seq<u8>, GuestView>,
    later: u64,
)
    requires
        session_issued(before, key, (join_code, participant, now), now, after),
        session_lasts(now, later),
    ensures
        session_participant(swept(after, SweepRule::LastingAt(later)), key, join_code) == Some(
            participant,
        ),
{
    let m = swept(after, SweepRule::LastingAt(later));
    assert(after.contains_key(key) && after[key] == (join_code, participant, now));
    assert(m.contains_key(key));
}

/// A guest credential never acts in another room than its own.
pub proof fn law_session_acts_only_in_its_room(
    m: Map<Seq<u8>, GuestView>,
    key: Seq<u8>,
    join_code: Seq<char>,
    other: Seq<char>,
)
    requires
        session_participant(m, key, join_code) is Some,
        other != join_code,
    ensures
        session_participant(m, key, other) is None,
{
}

/// Once a room's sessions are invalidated, no credential acts in it.
pub proof fn law_invalidated_room_admits_no_guest(
    m: Map<Seq<u8>, GuestView>,
    join_code: Seq<char>,
    key: Seq<u8>,
)
    ensures
        session_participant(swept(m, SweepRule::OutsideRoom(join_code)), key, join_code) is None,
{
}

/// Once a participant's sessions are invalidated, no credential acts as it
/// in that room; the sessions of others stay.
pub proof fn law_invalidated_participant_admits_no_guest(
    m: Map<Seq<u8>, GuestView>,
    join_code: Seq<char>,
    participant: Seq<char>,
    key: Seq<u8>,
)
    ensures
        session_participant(
            swept(m, SweepRule::NotParticipant(join_code, participant)),
            key,
            join_code,
        ) != Some(participant),
        session_participant(m, key, join_code) is Some && session_participant(m, key, join_code)
            != Some(participant) ==> session_participant(
            swept(m, SweepRule::NotParticipant(join_code, participant)),
            key,
            join_code,
        ) == session_participant(m, key, join_code),
{
}

/// A socket that was replaced is no longer current, and its late removal
/// leaves its replacement in place: registering gives a generation that
/// differs from the one before it.
pub proof fn law_replaced_socket_cannot_remove_its_replacement(
    m: Map<Seq<char>, RegistrationView>,
    id: Seq<char>,
    first: u64,
    first_token: Seq<char>,
    second_token: Seq<char>,
)
    ensures
        ({
            let second = next_generation(first);
            let after = m.insert(id, (first, first_token)).insert(id, (second, second_token));
            &&& !(after.contains_key(id) && after[id].0 == first)
            &&& after.contains_key(id) && after[id].0 == second
        }),
{
}

/// A client with as many failed bot authentications as the limit is
/// refused, whatever token it presents, and nothing more is counted.
pub proof fn law_locked_out_client_is_refused(
    p: Map<RateKey, BucketView>,
    ip: crate::net::IpAddress,
    authorization: Option<Seq<char>>,
    records: Option<Seq<TokenRecordView>>,
    limit: usize,
    window: u64,
    now: u64,
    res: Result<TokenRecordView, ()>,
    after: Map<RateKey, BucketView>,
)
    requires
        bot_authenticated(p, ip, authorization, records, limit, window, now, res, after),
        p.contains_key((crate::rate::RateKind::AgentAuthFailure, ip)),
        p[(crate::rate::RateKind::AgentAuthFailure, ip)].1.len() >= limit,
    ensures
        res is Err,
        after == p,
{
}

/// A fill timer that was cancelled does nothing when it fires: the
/// cancel moves the generation on, as long as the counter is not held at
/// its largest value.
pub proof fn law_cancelled_timer_is_stale(generation: u64)
    requires
        generation < u64::MAX,
    ensures
        crate::ranked::saturating_next(generation) != generation,
{
}

/// Whether no two sessions play the same participant of the same room for
/// the same token.
pub open spec fn one_session_per_seat<R>(m: Map<Seq<char>, McpSession<R>>) -> bool {
    forall|a: Seq<char>, b: Seq<char>|
        #![trigger m[a], m[b]]
        a != b && m.contains_key(a) && m.contains_key(b) ==> !(m[a].token_id@ == m[b].token_id@
            && m[a].room_code@ == m[b].room_code@ && m[a].participant_id@ == m[b].participant_id@)
}

/// A session that was bound to a room is never bound again, whatever the
/// room, even after it left: binding it is refused.
pub proof fn law_bound_session_cannot_rebind<R>(
    sessions: Map<Seq<char>, McpSession<R>>,
    transports: Map<Seq<char>, TransportSession>,
    bound_rooms: Map<Seq<char>, (String, String)>,
    session_id: Seq<char>,
    token_id: Seq<char>,
)
    requires
        bound_rooms.contains_key(session_id),
    ensures
        bind_precheck(sessions, transports, session_id, token_id) is Some || bind_refusal(
            sessions,
            bound_rooms,
            session_id,
            token_id,
        ) is Some,
{
}

/// A new binding replaces the session that played the same participant
/// of the same room for the same token: afterwards there is still one
/// session per seat.
pub proof fn law_bind_keeps_one_session_per_seat<R>(
    before: Map<Seq<char>, McpSession<R>>,
    after: Map<Seq<char>, McpSession<R>>,
    replaced: Option<Seq<char>>,
    entry: McpSession<R>,
)
    requires
        one_session_per_seat(before),
        !before.contains_key(entry.session_id@),
        match replaced {
            Some(id) => replaced_by(
                before,
                id,
                entry.session_id@,
                entry.token_id@,
                entry.room_code@,
                entry.participant_id@,
            ) && after == before.remove(id).insert(entry.session_id@, entry),
            None => none_replaced(
                before,
                entry.session_id@,
                entry.token_id@,
                entry.room_code@,
                entry.participant_id@,
            ) && after == before.insert(entry.session_id@, entry),
        },
    ensures
        one_session_per_seat(after),
{
    let sid = entry.session_id@;
    assert forall|a: Seq<char>, b: Seq<char>|
        a != b && after.contains_key(a) && after.contains_key(b) implies !(#[trigger] after[a].token_id@
            == #[trigger] after[b].token_id@ && after[a].room_code@ == after[b].room_code@
            && after[a].participant_id@ == after[b].participant_id@) by {
        if a == sid {
            assert(!replaced_by(before, b, sid, entry.token_id@, entry.room_code@, entry.participant_id@)
                || Some(b) == replaced);
        } else if b == sid {
            assert(!replaced_by(before, a, sid, entry.token_id@, entry.room_code@, entry.participant_id@)
                || Some(a) == replaced);
        } else {
            assert(before.contains_key(a) && before.contains_key(b));
            assert(after[a] == before[a] && after[b] == before[b]);
        }
    }
}

/// Once a token is revoked, none of its transport sessions and none of its
/// (token, room) pairs remain.
pub proof fn law_revoked_token_leaves_nothing(
    transports: Map<Seq<char>, TransportSession>,
    participants: Map<(Seq<char>, Seq<char>), String>,
    token_id: Seq<char>,
)
    ensures
        token_transports(transports.remove_keys(token_transports(transports, token_id)), token_id)
            == Set::<Seq<char>>::empty(),
        forall|k: (Seq<char>, Seq<char>)| #[trigger]
            participants.remove_keys(token_pairs(token_id)).contains_key(k) ==> k.0 != token_id,
{
    assert(token_transports(transports.remove_keys(token_transports(transports, token_id)), token_id)
        =~= Set::<Seq<char>>::empty());
}

/// Once the idle sessions are expired, no transport session left is idle
/// at that time.
pub proof fn law_expired_sessions_are_gone(
    transports: Map<Seq<char>, TransportSession>,
    now: u64,
    idle: u64,
)
    ensures
        idle_transports(transports.remove_keys(idle_transports(transports, now, idle)), now, idle)
            == Set::<Seq<char>>::empty(),
{
    assert(idle_transports(transports.remove_keys(idle_transports(transports, now, idle)), now, idle)
        =~= Set::<Seq<char>>::empty());
}

/// A configuration that loads has characters that make a requirement set:
/// `character_requirements` never fails after `from_raw` succeeded.
pub proof fn law_loaded_configuration_has_valid_characters(raw: RawRuntimeConfig)
    requires
        config_problem(raw) is None,
    ensures
        characters_ok(raw.characters),
{
}

} // verus!

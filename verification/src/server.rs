//! Admission decisions of the server that combine its parts: bot-token
//! authentication under the limit on failed attempts, and the limit on new
//! participants per client address.

use vstd::prelude::*;

use crate::auth::tokens::{spec_hash_token, BotTokenAuthority, BotTokenRecord, TokenRecordView, TokenState};
use crate::gateway::{chars_have_whitespace, has_whitespace};
use crate::keyed::trimmed_to;
use crate::net::{cidr_views, request_ip, spec_request_ip, IpAddress, IpCidr};
use crate::rate::{
    hit_recorded, pass_decided, pruned_buckets, BucketView, RateKey, RateKind, RateLimiter,
    MAX_RATE_ENTRIES,
};
use crate::text::{chars_of, chars_start_with, starts_with, string_from_chars, sub_chars};

verus! {

/// The token of an `Authorization` value of the form `Bearer <token>`
/// (the scheme exactly so), when the token is not empty and holds no
/// whitespace.
pub open spec fn bot_bearer(value: Seq<char>) -> Option<Seq<char>> {
    if starts_with(value, "Bearer "@) {
        let t = value.subrange(7, value.len() as int);
        if t.len() > 0 && !has_whitespace(t) {
            Some(t)
        } else {
            None
        }
    } else {
        None
    }
}

/// Whether the records hold `raw` as an active token.
pub open spec fn token_active(records: Seq<TokenRecordView>, raw: Seq<char>) -> bool {
    exists|i: int|
        0 <= i < records.len() && records[i].token_hash == spec_hash_token(raw) && records[i].state
            == TokenState::Active
}

/// Whether `record` is the record of `raw` among `records`.
pub open spec fn record_of(records: Seq<TokenRecordView>, raw: Seq<char>, record: TokenRecordView) -> bool {
    exists|i: int|
        0 <= i < records.len() && records[i].token_hash == spec_hash_token(raw) && record
            == records[i]
}

/// The token of the `Authorization` value `value`.
pub fn bot_bearer_token(value: &str) -> (res: Option<String>)
    ensures
        match res {
            Some(t) => bot_bearer(value@) == Some(t@),
            None => bot_bearer(value@) is None,
        },
{
    let v = chars_of(value);
    let prefix = chars_of("Bearer ");
    proof {
        reveal_strlit("Bearer ");
    }
    if !chars_start_with(v.as_slice(), prefix.as_slice()) {
        return None;
    }
    let t = sub_chars(v.as_slice(), 7, v.len());
    if t.len() == 0 || chars_have_whitespace(t.as_slice()) {
        return None;
    }
    Some(string_from_chars(t.as_slice()))
}

/// What authenticating a bot does to the limiter `before` and gives, when
/// `p` is the limiter pruned at `now`: with as many failures as `limit`
/// under `ip` it refuses and counts nothing; a presented token that the
/// records accept passes; any other request is refused and counted as a
/// failure.
pub open spec fn bot_authenticated(
    p: Map<RateKey, BucketView>,
    ip: IpAddress,
    authorization: Option<Seq<char>>,
    records: Option<Seq<TokenRecordView>>,
    limit: usize,
    window: u64,
    now: u64,
    res: Result<TokenRecordView, ()>,
    after: Map<RateKey, BucketView>,
) -> bool {
    let key = (RateKind::AgentAuthFailure, ip);
    if p.contains_key(key) && p[key].1.len() >= limit {
        res is Err && after == p
    } else {
        match (authorization, records) {
            (Some(a), Some(r)) if bot_bearer(a) is Some && token_active(r, bot_bearer(a)->0) => {
                &&& res matches Ok(record) && record_of(r, bot_bearer(a)->0, record)
                &&& after == p
            },
            _ => {
                &&& res is Err
                &&& exists|q: Map<RateKey, BucketView>|
                    trimmed_to(pruned_buckets(p, now), q, MAX_RATE_ENTRIES as nat) && hit_recorded(
                        q,
                        key,
                        window,
                        now,
                        after,
                    )
            },
        }
    }
}

/// Authenticates a bot by its `Authorization` header (`None`: absent or
/// unreadable) from the client address `ip`, under the limit of `limit`
/// failures in `window`.
pub fn authenticate_bot(
    limiter: &mut RateLimiter,
    authority: Option<&BotTokenAuthority>,
    authorization: Option<&str>,
    ip: IpAddress,
    limit: usize,
    window: u64,
    now: u64,
) -> (res: Result<BotTokenRecord, ()>)
    ensures
        exists|p: Map<RateKey, BucketView>|
            trimmed_to(pruned_buckets(old(limiter)@, now), p, MAX_RATE_ENTRIES as nat)
                && bot_authenticated(
                p,
                ip,
                match authorization {
                    Some(a) => Some(a@),
                    None => None,
                },
                match authority {
                    Some(a) => Some(a@),
                    None => None,
                },
                limit,
                window,
                now,
                match res {
                    Ok(r) => Ok(r@),
                    Err(()) => Err(()),
                },
                final(limiter)@,
            ),
{
    if !limiter.available(RateKind::AgentAuthFailure, ip, limit, now) {
        return Err(());
    }
    let ghost p = limiter@;
    let token = match authorization {
        Some(v) => bot_bearer_token(v),
        None => None,
    };
    let token = match token {
        Some(t) => t,
        None => {
            limiter.record(RateKind::AgentAuthFailure, ip, window, now);
            return Err(());
        },
    };
    let auth = match authority {
        Some(a) => a,
        None => {
            limiter.record(RateKind::AgentAuthFailure, ip, window, now);
            return Err(());
        },
    };
    match auth.authenticate(token.as_str()) {
        Ok(record) => Ok(record),
        Err(_) => {
            limiter.record(RateKind::AgentAuthFailure, ip, window, now);
            Err(())
        },
    }
}

/// Whether a client may create a participant now: its address is read
/// from its `X-Forwarded-For` header (`None`: absent or unreadable) and
/// peer through the trusted proxies, and it must pass the limit of
/// `limit` creations in `window`, which counts it.
pub fn participant_creation_allowed(
    limiter: &mut RateLimiter,
    forwarded: Option<&str>,
    direct_peer: Option<IpAddress>,
    trusted_proxies: &[IpCidr],
    limit: usize,
    window: u64,
    now: u64,
) -> (res: bool)
    ensures
        exists|p: Map<RateKey, BucketView>|
            trimmed_to(pruned_buckets(old(limiter)@, now), p, MAX_RATE_ENTRIES as nat)
                && pass_decided(
                p,
                (
                    RateKind::ParticipantCreation,
                    spec_request_ip(
                        match forwarded {
                            Some(h) => Some(h@),
                            None => None,
                        },
                        direct_peer,
                        cidr_views(trusted_proxies@),
                    ),
                ),
                limit,
                window,
                now,
                res,
                final(limiter)@,
            ),
{
    let ip = request_ip(forwarded, direct_peer, trusted_proxies);
    limiter.allowed(RateKind::ParticipantCreation, ip, limit, window, now)
}

} // verus!

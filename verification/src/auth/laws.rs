//! Properties of the credential rules that span several operations.

use vstd::prelude::*;

use crate::auth::audit::{
    raw_token_at, spec_audit_summary_allowed, spec_contains_raw_token,
    spec_contains_raw_token_value, spec_redacted_target_id, spec_token_char,
};
use crate::auth::password::{hash_of_password, spec_required_password_hash};
use crate::auth::tokens::{
    first_with_id, insert_record, spec_hash_token, token_name_ok, TokenRecordView, TokenState,
};
use crate::crypto::{argon2_verification, phc_algorithm, url_safe_base64_char};
use crate::json::JsonValue;
use crate::text::{lemma_trim_idempotent, trim};

verus! {

/// A hash that `hash_password` produced configures admin login: with any
/// non-empty username `AdminAuthenticator::new` accepts it, and `login` with
/// that password succeeds.
pub proof fn law_hashed_password_configures_login(username: Seq<char>, password: Seq<char>, hash: Seq<char>)
    requires
        username.len() > 0,
        hash_of_password(password, hash),
    ensures
        !(username.len() == 0 || phc_algorithm(hash) is None || !spec_required_password_hash(hash)),
        argon2_verification(password, hash) == Some(true),
{
}

/// A session issued at `now` is live at every `t` before its expiry, whatever
/// sessions the store held before.
pub proof fn law_issued_session_is_live(sessions: Map<Seq<u8>, u64>, digest: Seq<u8>, now: u64, t: u64)
    requires
        now <= u64::MAX - crate::auth::session::SESSION_LIFETIME_SECONDS,
        t < now + crate::auth::session::SESSION_LIFETIME_SECONDS,
    ensures
        ({
            let after = sessions.insert(
                digest,
                (now + crate::auth::session::SESSION_LIFETIME_SECONDS) as u64,
            );
            after.contains_key(digest) && after[digest] > t
        }),
{
}

/// A revoked or cleared session is not live at any time.
pub proof fn law_revoked_session_is_dead(sessions: Map<Seq<u8>, u64>, digest: Seq<u8>, t: u64)
    ensures
        !(sessions.remove(digest).contains_key(digest) && sessions.remove(digest)[digest] > t),
        !(Map::<Seq<u8>, u64>::empty().contains_key(digest)),
{
}

/// A session found expired stays dead: validating it removes it.
pub proof fn law_expired_session_is_removed(sessions: Map<Seq<u8>, u64>, digest: Seq<u8>, now: u64)
    requires
        sessions.contains_key(digest),
        sessions[digest] <= now,
    ensures
        !sessions.remove(digest).contains_key(digest),
{
}

/// Putting an active record in makes its raw token authenticate, returning
/// that record.
pub proof fn law_inserted_token_authenticates(records: Seq<TokenRecordView>, r: TokenRecordView, raw: Seq<char>)
    requires
        r.state == TokenState::Active,
        r.token_hash == spec_hash_token(raw),
    ensures
        ({
            let after = insert_record(records, r);
            exists|i: int|
                0 <= i < after.len() && after[i].token_hash == spec_hash_token(raw)
                    && after[i].state == TokenState::Active && after[i] == r
        }),
{
    let after = insert_record(records, r);
    if exists|i: int| 0 <= i < records.len() && records[i].token_hash == r.token_hash {
        let i = choose|i: int| 0 <= i < records.len() && records[i].token_hash == r.token_hash;
        assert(after[i] == r);
    } else {
        assert(after[records.len() as int] == r);
    }
}

/// Revoking a token leaves its record revoked: the record that `revoke` marks
/// no longer authenticates.
pub proof fn law_revoked_token_no_longer_active(records: Seq<TokenRecordView>, token_id: Seq<char>, revoked_at: i64)
    requires
        first_with_id(records, token_id) is Some,
    ensures
        ({
            let i = first_with_id(records, token_id)->0;
            let after = records.update(
                i,
                TokenRecordView {
                    state: TokenState::Revoked,
                    revoked_at: Some(revoked_at),
                    ..records[i]
                },
            );
            after[i].state == TokenState::Revoked && after[i].token_hash == records[i].token_hash
                && after[i].token_id == token_id
        }),
{
    let i = crate::auth::tokens::first_index_with_id(records, token_id);
    let w = choose|w: int| 0 <= w < records.len() && records[w].token_id == token_id;
    crate::auth::tokens::lemma_first_index_exists(records, token_id, w);
}

/// Every raw bot token that `generate_bot_secret` makes is recognised as one,
/// so an audit target id holding it is redacted.
pub proof fn law_generated_secret_is_redacted(raw: Seq<char>)
    requires
        raw.len() == 51,
        raw.subrange(0, 8) == "driichi_"@,
        forall|i: int| 8 <= i < 51 ==> url_safe_base64_char(#[trigger] raw[i]),
    ensures
        spec_contains_raw_token(raw),
        spec_redacted_target_id(raw) == "[REDACTED]"@,
{
    assert forall|k: int| 8 <= k < 51 implies spec_token_char(#[trigger] raw[k]) by {
        assert(url_safe_base64_char(raw[k]));
    }
    assert(raw_token_at(raw, 0));
}

/// A redacted audit target id never holds a raw bot token.
pub proof fn law_redacted_target_id_holds_no_token(target_id: Seq<char>)
    ensures
        !spec_contains_raw_token(spec_redacted_target_id(target_id)),
{
    reveal_strlit("[REDACTED]");
    if spec_contains_raw_token(target_id) {
        assert forall|i: int| !raw_token_at("[REDACTED]"@, i) by {}
    }
}

/// A summary that holds a raw bot token anywhere is never written to the
/// audit log.
pub proof fn law_summary_with_token_refused(action: Seq<char>, summary: JsonValue)
    requires
        spec_contains_raw_token_value(summary),
    ensures
        !spec_audit_summary_allowed(action, summary),
{
}

/// A stored token name is stored again unchanged.
pub proof fn law_token_name_normal_form(name: Seq<char>)
    requires
        token_name_ok(name),
    ensures
        token_name_ok(trim(name)),
        trim(trim(name)) == trim(name),
{
    lemma_trim_idempotent(name);
}

/// Revoking a session ends that session and no other: the store holds one
/// session fewer when it held it and as many otherwise, and every other
/// session keeps its expiry.
pub proof fn law_revoke_ends_one_session(sessions: Map<Seq<u8>, u64>, digest: Seq<u8>, other: Seq<u8>)
    requires
        sessions.dom().finite(),
        other != digest,
    ensures
        sessions.remove(digest).len() == if sessions.contains_key(digest) {
            sessions.len() - 1
        } else {
            sessions.len() as int
        },
        sessions.remove(digest).contains_key(other) == sessions.contains_key(other),
        sessions.contains_key(other) ==> sessions.remove(digest)[other] == sessions[other],
{
    if !sessions.contains_key(digest) {
        assert(sessions.remove(digest) =~= sessions);
    }
}

/// Validating a session drops it only when it has expired: the store then
/// holds one session fewer, and otherwise as many as before.
pub proof fn law_validation_drops_only_expired(sessions: Map<Seq<u8>, u64>, digest: Seq<u8>, now: u64)
    requires
        sessions.dom().finite(),
    ensures
        ({
            let expired = sessions.contains_key(digest) && sessions[digest] <= now;
            let after = if expired {
                sessions.remove(digest)
            } else {
                sessions
            };
            after.len() == if expired {
                sessions.len() - 1
            } else {
                sessions.len() as int
            }
        }),
{
}

/// A login adds one session to the store when its credential's digest is
/// new to it (a random 32-byte credential whose digest is already held
/// replaces that session instead), and the new session is live until it
/// expires.
pub proof fn law_login_adds_one_session(sessions: Map<Seq<u8>, u64>, digest: Seq<u8>, now: u64, t: u64)
    requires
        sessions.dom().finite(),
        !sessions.contains_key(digest),
        now <= u64::MAX - crate::auth::session::SESSION_LIFETIME_SECONDS,
        t < now + crate::auth::session::SESSION_LIFETIME_SECONDS,
    ensures
        ({
            let after = sessions.insert(
                digest,
                (now + crate::auth::session::SESSION_LIFETIME_SECONDS) as u64,
            );
            &&& after.len() == sessions.len() + 1
            &&& after.contains_key(digest) && after[digest] > t
        }),
{
}

} // verus!

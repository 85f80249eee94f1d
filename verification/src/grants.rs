//! The rules of the OAuth authorization server for the one configured
//! client: which authorization-code requests, code exchanges, refreshes
//! and access checks it grants. The rows it reads and writes live in the
//! database; these functions decide on what was read.

use vstd::prelude::*;

use crate::oauth::{
    oauth_scope, s256_challenge, spec_s256_challenge, spec_valid_code_verifier,
    spec_valid_s256_challenge, valid_code_verifier, valid_s256_challenge,
};
use crate::text::str_eq;

verus! {

/// How long an authorization code may be exchanged, in seconds.
pub const AUTHORIZATION_CODE_LIFETIME_SECONDS: i64 = 300;

/// How long a refresh family lasts, in seconds.
pub const REFRESH_FAMILY_LIFETIME_SECONDS: i64 = 2592000;

/// Why a grant is refused.
#[derive(Debug, Clone, Copy, PartialEq, Eq, Structural)]
pub enum OAuthError {
    InvalidGrant,
    InsufficientScope,
    Storage,
}

impl OAuthError {
    /// The message of the error.
    pub fn message(self) -> (res: &'static str)
        ensures
            res@ == match self {
                OAuthError::InvalidGrant => "invalid OAuth grant"@,
                OAuthError::InsufficientScope => "OAuth access token has insufficient scope"@,
                OAuthError::Storage => "OAuth storage is unavailable"@,
            },
    {
        match self {
            OAuthError::InvalidGrant => "invalid OAuth grant",
            OAuthError::InsufficientScope => "OAuth access token has insufficient scope",
            OAuthError::Storage => "OAuth storage is unavailable",
        }
    }
}

/// A request to exchange an authorization code for tokens.
pub struct CodeExchange {
    pub client_id: String,
    pub redirect_uri: String,
    pub code: String,
    pub verifier: String,
    pub resource: String,
}

/// A request to exchange a refresh token for new tokens.
pub struct RefreshExchange {
    pub client_id: String,
    pub refresh_token: String,
    pub resource: String,
}

/// What an access token grants.
#[derive(Debug)]
pub struct AccessGrant {
    pub client_id: String,
    pub subject: String,
    pub resource: String,
    pub scope: String,
}

/// The refresh family of a refresh token that could not be redeemed, as
/// read back: its client, resource, scope, when it expires, when it was
/// revoked, and when the token was consumed and expires.
pub struct RefreshFamilyRow {
    pub family_id: String,
    pub client_id: String,
    pub resource: String,
    pub scope: String,
    pub expires_at: i64,
    pub revoked_at: Option<i64>,
    pub consumed_at: Option<i64>,
    pub token_expires_at: i64,
}

/// The configured client of the authorization server.
pub struct OAuthService {
    pub client_id: String,
    pub redirect_uri: String,
    pub resource: String,
}

impl OAuthService {
    /// The server for one client.
    pub fn new(client_id: String, redirect_uri: String, resource: String) -> (res: Self)
        ensures
            res.client_id@ == client_id@,
            res.redirect_uri@ == redirect_uri@,
            res.resource@ == resource@,
    {
        OAuthService { client_id, redirect_uri, resource }
    }

    /// Whether an authorization code may be issued: the request names the
    /// configured client, redirect and resource, the one scope, and a
    /// well-formed S256 challenge.
    pub fn check_code_request(
        &self,
        client_id: &str,
        redirect_uri: &str,
        resource: &str,
        scope: &str,
        pkce_challenge: &str,
    ) -> (res: Result<(), OAuthError>)
        ensures
            res is Ok <==> (client_id@ == self.client_id@ && redirect_uri@ == self.redirect_uri@
                && resource@ == self.resource@ && scope@ == oauth_scope()
                && spec_valid_s256_challenge(pkce_challenge@)),
            res matches Err(e) ==> e == OAuthError::InvalidGrant,
    {
        proof {
            reveal_strlit("driichi:play");
        }
        if !str_eq(client_id, self.client_id.as_str()) || !str_eq(
            redirect_uri,
            self.redirect_uri.as_str(),
        ) || !str_eq(resource, self.resource.as_str()) || !str_eq(scope, "driichi:play")
            || !valid_s256_challenge(pkce_challenge) {
            return Err(OAuthError::InvalidGrant);
        }
        Ok(())
    }

    /// Whether a code exchange may be tried: it names the configured
    /// client, redirect and resource, with a well-formed verifier.
    pub fn check_code_exchange(&self, exchange: &CodeExchange) -> (res: Result<(), OAuthError>)
        ensures
            res is Ok <==> (exchange.client_id@ == self.client_id@ && exchange.redirect_uri@
                == self.redirect_uri@ && exchange.resource@ == self.resource@
                && spec_valid_code_verifier(exchange.verifier@)),
            res matches Err(e) ==> e == OAuthError::InvalidGrant,
    {
        if !str_eq(exchange.client_id.as_str(), self.client_id.as_str()) || !str_eq(
            exchange.redirect_uri.as_str(),
            self.redirect_uri.as_str(),
        ) || !str_eq(exchange.resource.as_str(), self.resource.as_str()) || !valid_code_verifier(
            exchange.verifier.as_str(),
        ) {
            return Err(OAuthError::InvalidGrant);
        }
        Ok(())
    }

    /// Whether a refresh may be tried: it names the configured client and
    /// resource.
    pub fn check_refresh(&self, exchange: &RefreshExchange) -> (res: Result<(), OAuthError>)
        ensures
            res is Ok <==> (exchange.client_id@ == self.client_id@ && exchange.resource@
                == self.resource@),
            res matches Err(e) ==> e == OAuthError::InvalidGrant,
    {
        if !str_eq(exchange.client_id.as_str(), self.client_id.as_str()) || !str_eq(
            exchange.resource.as_str(),
            self.resource.as_str(),
        ) {
            return Err(OAuthError::InvalidGrant);
        }
        Ok(())
    }

    /// Whether an access token may be looked up for `resource`: only for
    /// the configured resource.
    pub fn check_access_resource(&self, resource: &str) -> (res: Result<(), OAuthError>)
        ensures
            res is Ok <==> resource@ == self.resource@,
            res matches Err(e) ==> e == OAuthError::InvalidGrant,
    {
        if !str_eq(resource, self.resource.as_str()) {
            return Err(OAuthError::InvalidGrant);
        }
        Ok(())
    }
}

/// When an authorization code issued at `issued_at` expires.
pub fn code_expires_at(issued_at: i64) -> (res: i64)
    requires
        issued_at + AUTHORIZATION_CODE_LIFETIME_SECONDS <= i64::MAX,
    ensures
        res == issued_at + AUTHORIZATION_CODE_LIFETIME_SECONDS,
{
    issued_at + AUTHORIZATION_CODE_LIFETIME_SECONDS
}

/// When a refresh family opened at `now` expires.
pub fn family_expires_at(now: i64) -> (res: i64)
    requires
        now + REFRESH_FAMILY_LIFETIME_SECONDS <= i64::MAX,
    ensures
        res == now + REFRESH_FAMILY_LIFETIME_SECONDS,
{
    now + REFRESH_FAMILY_LIFETIME_SECONDS
}

/// Whether a consumed code row with `scope` and `challenge` is redeemed by
/// `verifier`: the row has the one scope and the S256 challenge of the
/// verifier is the stored one.
pub fn code_redeemable(scope: &str, challenge: &str, verifier: &str) -> (res: bool)
    ensures
        res == (scope@ == oauth_scope() && spec_s256_challenge(verifier@) == challenge@),
{
    proof {
        reveal_strlit("driichi:play");
    }
    str_eq(scope, "driichi:play") && str_eq(s256_challenge(verifier).as_str(), challenge)
}

/// Whether a refresh token that could not be redeemed was already
/// consumed in its family of the same client, resource and scope: that is
/// a replay, and the whole family is revoked. The refresh is refused
/// either way.
pub fn refresh_replay_revokes_family(family: &RefreshFamilyRow, exchange: &RefreshExchange) -> (res:
    bool)
    ensures
        res == (family.client_id@ == exchange.client_id@ && family.resource@ == exchange.resource@
            && family.scope@ == oauth_scope() && family.consumed_at is Some),
{
    proof {
        reveal_strlit("driichi:play");
    }
    str_eq(family.client_id.as_str(), exchange.client_id.as_str()) && str_eq(
        family.resource.as_str(),
        exchange.resource.as_str(),
    ) && str_eq(family.scope.as_str(), "driichi:play") && family.consumed_at.is_some()
}

/// The grant of an access-token row whose token has `scope` and whose
/// family has `family_scope`: refused when they differ.
pub fn grant_from_row(
    client_id: String,
    subject: String,
    resource: String,
    scope: String,
    family_scope: &str,
) -> (res: Result<AccessGrant, OAuthError>)
    ensures
        match res {
            Ok(g) => scope@ == family_scope@ && g.client_id@ == client_id@ && g.subject@ == subject@
                && g.resource@ == resource@ && g.scope@ == scope@,
            Err(e) => scope@ != family_scope@ && e == OAuthError::InvalidGrant,
        },
{
    if !str_eq(scope.as_str(), family_scope) {
        return Err(OAuthError::InvalidGrant);
    }
    Ok(AccessGrant { client_id, subject, resource, scope })
}

/// Whether a looked-up grant serves a request asking for `scope`: the
/// request must ask for the one scope, and the grant must hold it.
pub fn check_grant_scope(scope: &str, grant: AccessGrant) -> (res: Result<AccessGrant, OAuthError>)
    ensures
        match res {
            Ok(g) => scope@ == oauth_scope() && grant.scope@ == scope@ && g.scope@ == grant.scope@
                && g.client_id@ == grant.client_id@ && g.subject@ == grant.subject@ && g.resource@
                == grant.resource@,
            Err(e) => !(scope@ == oauth_scope() && grant.scope@ == scope@) && e
                == OAuthError::InsufficientScope,
        },
{
    proof {
        reveal_strlit("driichi:play");
    }
    if !str_eq(scope, "driichi:play") || !str_eq(grant.scope.as_str(), scope) {
        return Err(OAuthError::InsufficientScope);
    }
    Ok(grant)
}

} // verus!

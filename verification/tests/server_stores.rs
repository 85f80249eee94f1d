use double_riichi_server::auth::tokens::{hash_token, BotTokenAuthority, BotTokenRecord, TokenState};
use double_riichi_server::connections::ConnectionRegistry;
use double_riichi_server::guests::GuestSessionStore;
use double_riichi_server::net::{parse_ip_addr, IpAddress, IpCidr};
use double_riichi_server::oauth::AuthorizationRequest;
use double_riichi_server::pending::{PendingAuthorizations, AUTHORIZATION_FLOW_LIFETIME_MILLIS};
use double_riichi_server::rate::{RateKind, RateLimiter};
use double_riichi_server::server::{authenticate_bot, bot_bearer_token, participant_creation_allowed};

fn localhost() -> IpAddress {
    IpAddress::V4(0x7f00_0001)
}

fn request(state: &str) -> AuthorizationRequest {
    AuthorizationRequest {
        client_id: "https://chatgpt.com/oauth/client.json".to_string(),
        redirect_uri: "https://chatgpt.com/connector_platform_oauth_redirect".to_string(),
        response_type: "code".to_string(),
        state: state.to_string(),
        scope: "driichi:play".to_string(),
        resource: "https://driichi.example/chatgpt/mcp".to_string(),
        code_challenge: "E9Melhoa2OwvFrEMTJguCHaoeK1t8URWbuGJSstw-cM".to_string(),
        code_challenge_method: "S256".to_string(),
    }
}

#[test]
fn replacement_disconnect_cannot_remove_new_generation() {
    let mut connections: ConnectionRegistry<()> = ConnectionRegistry::new();
    let participant = "agent";
    let (old_generation, _old_control) = connections.register(participant, "token", ());
    let (new_generation, replaced) = connections.register(participant, "token", ());
    assert!(replaced.is_some());
    assert!(!connections.is_current(participant, old_generation));
    assert!(connections.is_current(participant, new_generation));
    connections.remove(participant, old_generation);
    assert!(connections.is_current(participant, new_generation));
    assert!(connections.remove(participant, new_generation).is_some());
    assert!(!connections.is_current(participant, new_generation));
}

#[test]
fn connections_are_found_by_token() {
    let mut connections: ConnectionRegistry<u32> = ConnectionRegistry::new();
    connections.register("a", "t1", 1);
    connections.register("b", "t2", 2);
    connections.register("c", "t1", 3);
    let mut ids = connections.participants_for_token("t1");
    ids.sort();
    assert_eq!(ids, vec!["a".to_string(), "c".to_string()]);
    assert_eq!(connections.control("b"), Some(&2));
    assert_eq!(connections.participants().len(), 3);
}

#[test]
fn rate_pruning_keeps_each_kind_window() {
    let mut limiter = RateLimiter::new();
    let ip = localhost();
    let now = 10_000_000u64;
    limiter.record(RateKind::AdminLoginFailure, ip, 15 * 60 * 1000, now - 70 * 1000);
    assert!(limiter.available(RateKind::CodeLookup, ip, 1, now));
    assert_eq!(limiter.hit_count(RateKind::AdminLoginFailure, ip), 1);
}

#[test]
fn rate_limit_counts_passing_requests_within_the_window() {
    let mut limiter = RateLimiter::new();
    let ip = localhost();
    assert!(limiter.allowed(RateKind::CodeLookup, ip, 2, 60_000, 1_000));
    assert!(limiter.allowed(RateKind::CodeLookup, ip, 2, 60_000, 2_000));
    assert!(!limiter.allowed(RateKind::CodeLookup, ip, 2, 60_000, 3_000));
    assert_eq!(limiter.hit_count(RateKind::CodeLookup, ip), 2);
    assert!(limiter.allowed(RateKind::ParticipantCreation, ip, 2, 60_000, 3_000));
    assert!(limiter.allowed(RateKind::CodeLookup, ip, 2, 60_000, 61_000));
    assert_eq!(limiter.hit_count(RateKind::CodeLookup, ip), 2);
    assert!(!limiter.available(RateKind::CodeLookup, ip, 2, 61_500));
    assert!(limiter.available(RateKind::CodeLookup, ip, 2, 200_000));
}

#[test]
fn participant_creation_is_limited_per_client_address() {
    let mut limiter = RateLimiter::new();
    let proxies = vec![IpCidr::new(parse_ip_addr("10.0.0.0").unwrap(), 8).unwrap()];
    let proxy = Some(parse_ip_addr("10.1.2.3").unwrap());
    assert!(participant_creation_allowed(&mut limiter, Some("198.51.100.7"), proxy, &proxies, 1, 60_000, 5));
    assert!(!participant_creation_allowed(&mut limiter, Some("198.51.100.7"), proxy, &proxies, 1, 60_000, 6));
    assert!(participant_creation_allowed(&mut limiter, Some("198.51.100.8"), proxy, &proxies, 1, 60_000, 7));
}

#[test]
fn bot_authentication_counts_failures_and_locks_out() {
    let record = BotTokenRecord::new(
        "tok1".to_string(),
        "bot".to_string(),
        hash_token("driichi_bot_secret"),
        TokenState::Active,
        0,
        None,
    );
    let authority = BotTokenAuthority::from_records(vec![record]);
    let mut limiter = RateLimiter::new();
    let ip = localhost();
    let ok = authenticate_bot(&mut limiter, Some(&authority), Some("Bearer driichi_bot_secret"), ip, 2, 60_000, 1);
    assert_eq!(ok.unwrap().token_id(), "tok1");
    assert_eq!(limiter.hit_count(RateKind::AgentAuthFailure, ip), 0);
    assert!(authenticate_bot(&mut limiter, Some(&authority), Some("Bearer wrong"), ip, 2, 60_000, 2).is_err());
    assert!(authenticate_bot(&mut limiter, Some(&authority), Some("bearer driichi_bot_secret"), ip, 2, 60_000, 3).is_err());
    assert_eq!(limiter.hit_count(RateKind::AgentAuthFailure, ip), 2);
    assert!(authenticate_bot(&mut limiter, Some(&authority), Some("Bearer driichi_bot_secret"), ip, 2, 60_000, 4).is_err());
    assert_eq!(limiter.hit_count(RateKind::AgentAuthFailure, ip), 2);
    assert!(authenticate_bot(&mut limiter, None, Some("Bearer driichi_bot_secret"), IpAddress::V4(1), 2, 60_000, 4).is_err());
    assert!(authenticate_bot(&mut limiter, Some(&authority), Some("Bearer driichi_bot_secret"), ip, 2, 60_000, 70_000).is_ok());
}

#[test]
fn bot_bearer_needs_the_exact_scheme() {
    assert_eq!(bot_bearer_token("Bearer abc"), Some("abc".to_string()));
    assert_eq!(bot_bearer_token("Bearer "), None);
    assert_eq!(bot_bearer_token("Bearer a b"), None);
    assert_eq!(bot_bearer_token("bearer abc"), None);
}

#[test]
fn pending_authorization_is_found_until_it_expires_and_consumed_once() {
    let mut pending = PendingAuthorizations::new();
    pending.register("csrf-1", request("s1"), "ChatGPT".to_string(), 1_000);
    let found = pending.pending_authorization("csrf-1", 2_000).unwrap();
    assert_eq!(found.client_name, "ChatGPT");
    assert_eq!(found.expires_at, 1_000 + AUTHORIZATION_FLOW_LIFETIME_MILLIS);
    assert!(pending.pending_authorization("csrf-2", 2_000).is_none());
    assert!(pending.consume("csrf-1", &request("other"), 3_000).is_none());
    assert_eq!(pending.len(), 1);
    let taken = pending.consume("csrf-1", &request("s1"), 3_000).unwrap();
    assert_eq!(taken.request.state, "s1");
    assert!(pending.consume("csrf-1", &request("s1"), 3_000).is_none());
    assert_eq!(pending.len(), 0);

    pending.register("csrf-3", request("s3"), "ChatGPT".to_string(), 1_000);
    assert!(pending.consume("csrf-3", &request("s3"), 1_000 + AUTHORIZATION_FLOW_LIFETIME_MILLIS).is_none());
    assert!(pending
        .pending_authorization("csrf-3", 1_000 + AUTHORIZATION_FLOW_LIFETIME_MILLIS)
        .is_none());
    assert_eq!(pending.len(), 0);
}

#[test]
fn pending_authorizations_are_bounded() {
    let mut pending = PendingAuthorizations::new();
    for i in 0..1024u64 {
        pending.register(&format!("csrf-{i}"), request("s"), "c".to_string(), i);
    }
    assert_eq!(pending.len(), 1024);
    pending.register("csrf-new", request("s"), "c".to_string(), 5_000);
    assert_eq!(pending.len(), 1024);
    assert!(pending.pending_authorization("csrf-0", 5_000).is_none());
    assert!(pending.pending_authorization("csrf-1", 5_000).is_some());
    assert!(pending.pending_authorization("csrf-new", 5_000).is_some());
}

#[test]
fn guest_sessions_act_in_their_room_until_invalidated() {
    let mut guests = GuestSessionStore::new();
    let credential = guests.issue("123456", "participant", 0);
    assert_eq!(credential.len(), 43);
    assert_eq!(guests.authenticate("123456", &credential, 1_000), Some("participant".to_string()));
    assert_eq!(guests.authenticate("654321", &credential, 1_000), None);
    assert_eq!(guests.authenticate("123456", "MISSING", 1_000), None);
    let other = guests.issue("123456", "other", 0);
    guests.invalidate_participant("123456", "participant");
    assert_eq!(guests.authenticate("123456", &credential, 1_000), None);
    assert_eq!(guests.authenticate("123456", &other, 1_000), Some("other".to_string()));
    guests.invalidate_room("123456");
    assert_eq!(guests.authenticate("123456", &other, 1_000), None);
    assert_eq!(guests.len(), 0);
}

#[test]
fn guest_sessions_expire_after_a_day() {
    let mut guests = GuestSessionStore::new();
    let credential = guests.issue("123456", "participant", 0);
    assert!(guests.authenticate("123456", &credential, 86_399_999).is_some());
    assert!(guests.authenticate("123456", &credential, 86_400_000).is_none());
    assert_eq!(guests.len(), 0);
}

#[test]
fn guest_sessions_can_be_listed_and_removed() {
    let mut guests = GuestSessionStore::new();
    let credential = guests.issue("123456", "participant", 0);
    let entries = guests.entries();
    assert_eq!(entries.len(), 1);
    assert_eq!(entries[0].1, "123456");
    assert_eq!(entries[0].2, "participant");
    assert_eq!(entries[0].0, hash_token(&credential));
    guests.remove(&entries[0].0);
    assert_eq!(guests.authenticate("123456", &credential, 0), None);
}

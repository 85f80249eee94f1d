use double_riichi_server::agents::McpFailure;
use double_riichi_server::mcp_sessions::{
    mcp_join_decision, JoinDecision, McpBindingLookup, McpSessionRegistry, SeatLookup, MCP_DEFAULT_IDLE_MILLIS,
    MCP_MAX_SESSIONS,
};

fn bind(
    registry: &mut McpSessionRegistry<()>,
    session: &str,
    room_code: &str,
    participant: &str,
    now: u64,
) -> Result<Option<String>, McpFailure> {
    registry
        .bind(
            session.to_string(),
            "token".to_string(),
            room_code.to_string(),
            participant.to_string(),
            "Agent".to_string(),
            "mcp-bot".to_string(),
            (),
            now,
        )
        .map(|old| old.map(|s| s.session_id))
}

#[test]
fn registry_binding_survives_leave_and_cannot_change_rooms() {
    let mut registry: McpSessionRegistry<()> = McpSessionRegistry::new(60_000);
    assert_eq!(bind(&mut registry, "session", "123456", "agent", 0), Ok(None));

    let removed = registry.remove_binding("session");
    assert!(removed.is_some());
    assert_eq!(registry.binding("session", "token", 1), Err(McpFailure::SessionExpired));
    assert_eq!(registry.was_bound("session", "token"), Ok(true));
    assert!(registry.is_retired("token", "123456"));
    assert_eq!(
        bind(&mut registry, "session", "654321", "other", 2),
        Err(McpFailure::SessionBound)
    );
}

#[test]
fn registry_same_room_resumes_and_new_session_wins() {
    let mut registry: McpSessionRegistry<()> = McpSessionRegistry::new(60_000);
    assert_eq!(bind(&mut registry, "old", "123456", "agent", 0), Ok(None));
    assert_eq!(registry.participant_for("token", "123456"), Some("agent".to_string()));

    assert_eq!(bind(&mut registry, "new", "123456", "agent", 5), Ok(Some("old".to_string())));
    assert_eq!(registry.binding("old", "token", 6), Err(McpFailure::SessionExpired));
    assert_eq!(registry.binding("new", "token", 6), Ok(()));
    assert_eq!(registry.session("new").unwrap().participant_id, "agent");
    assert_eq!(registry.session("new").unwrap().last_seen, 6);
    assert!(registry.token_for("old").is_none());
    assert_eq!(registry.token_for("new"), Some("token".to_string()));
}

#[test]
fn registry_idle_sessions_expire_and_keep_their_participant() {
    let mut registry: McpSessionRegistry<()> = McpSessionRegistry::new(1_000);
    assert_eq!(bind(&mut registry, "session", "123456", "agent", 0), Ok(None));
    assert!(registry.expire_idle(999).is_empty());
    let expired = registry.expire_idle(2_000);
    assert_eq!(expired.len(), 1);
    assert_eq!(expired[0].session_id, "session");
    assert_eq!(registry.binding("session", "token", 2_000), Err(McpFailure::SessionExpired));
    assert_eq!(registry.participant_for("token", "123456"), Some("agent".to_string()));
    assert_eq!(registry.was_bound("session", "token"), Ok(false));
}

#[test]
fn registry_touch_postpones_expiry() {
    let mut registry: McpSessionRegistry<()> = McpSessionRegistry::new(1_000);
    assert_eq!(registry.register_transport("s".to_string(), "token".to_string(), 0), Ok(()));
    registry.touch("s", "token", 900);
    assert!(registry.expire_idle(1_500).is_empty());
    registry.touch("s", "intruder", 1_800);
    assert!(registry.expire_idle(1_899).is_empty());
    assert_eq!(registry.token_for("s"), Some("token".to_string()));
    assert!(registry.expire_idle(1_900).is_empty());
    assert!(registry.token_for("s").is_none());
}

#[test]
fn registry_zero_idle_means_default() {
    let mut registry: McpSessionRegistry<()> = McpSessionRegistry::new(0);
    assert_eq!(registry.register_transport("s".to_string(), "token".to_string(), 0), Ok(()));
    assert!(registry.expire_idle(MCP_DEFAULT_IDLE_MILLIS - 1).is_empty());
    assert!(registry.token_for("s").is_some());
    registry.expire_idle(MCP_DEFAULT_IDLE_MILLIS);
    assert!(registry.token_for("s").is_none());
}

#[test]
fn registry_transport_of_another_token_is_refused() {
    let mut registry: McpSessionRegistry<()> = McpSessionRegistry::new(60_000);
    assert_eq!(registry.register_transport("s".to_string(), "token".to_string(), 0), Ok(()));
    assert_eq!(registry.register_transport("s".to_string(), "token".to_string(), 10), Ok(()));
    assert_eq!(
        registry.register_transport("s".to_string(), "other".to_string(), 10),
        Err(McpFailure::InvalidCredentials)
    );
    let refused = registry.bind(
        "s".to_string(),
        "other".to_string(),
        "123456".to_string(),
        "agent".to_string(),
        "Agent".to_string(),
        "mcp-bot".to_string(),
        (),
        20,
    );
    assert!(matches!(refused, Err(McpFailure::InvalidCredentials)));
    assert_eq!(bind(&mut registry, "s", "123456", "agent", 30), Ok(None));
    assert_eq!(registry.binding("s", "other", 40), Err(McpFailure::InvalidCredentials));
    assert_eq!(registry.was_bound("s", "other"), Err(McpFailure::InvalidCredentials));
}

#[test]
fn registry_revoked_token_loses_sessions_and_participants() {
    let mut registry: McpSessionRegistry<()> = McpSessionRegistry::new(60_000);
    assert_eq!(bind(&mut registry, "a", "123456", "agent", 0), Ok(None));
    assert_eq!(bind(&mut registry, "b", "654321", "agent", 0), Ok(None));
    assert_eq!(registry.register_transport("c".to_string(), "keep".to_string(), 0), Ok(()));
    assert!(registry.remove_binding("b").is_some());
    let ended = registry.revoke_token("token");
    assert_eq!(ended.len(), 1);
    assert_eq!(ended[0].session_id, "a");
    assert!(registry.token_for("a").is_none());
    assert!(registry.token_for("b").is_none());
    assert_eq!(registry.token_for("c"), Some("keep".to_string()));
    assert_eq!(registry.participant_for("token", "123456"), None);
    assert!(!registry.is_retired("token", "654321"));
}

#[test]
fn registry_remove_and_terminate_all() {
    let mut registry: McpSessionRegistry<()> = McpSessionRegistry::new(60_000);
    assert_eq!(bind(&mut registry, "a", "123456", "agent", 0), Ok(None));
    assert_eq!(bind(&mut registry, "b", "123456", "other", 0), Ok(None));
    let removed = registry.remove("a").expect("bound session");
    assert_eq!(removed.room_code, "123456");
    assert_eq!(registry.was_bound("a", "token"), Ok(false));
    assert!(registry.remove("a").is_none());
    let all = registry.terminate_all();
    assert_eq!(all.len(), 1);
    assert_eq!(all[0].0, "b");
    assert!(registry.session("b").is_none());
    assert_eq!(registry.participant_for("token", "123456"), None);
}

#[test]
fn registry_full_store_refuses_new_sessions() {
    let mut registry: McpSessionRegistry<()> = McpSessionRegistry::new(60_000);
    for i in 0..MCP_MAX_SESSIONS {
        let participant = format!("p{i}");
        assert_eq!(bind(&mut registry, &format!("s{i}"), "123456", &participant, 0), Ok(None));
    }
    assert_eq!(
        bind(&mut registry, "one-more", "123456", "late", 0),
        Err(McpFailure::Busy)
    );
    assert!(registry.token_for("one-more").is_none());
}

#[test]
fn join_decisions_follow_the_binding_room_and_seat() {
    use_join_decisions();
}

fn use_join_decisions() {
    let bound_same = McpBindingLookup::Bound { same_room: true };
    let bound_other = McpBindingLookup::Bound { same_room: false };
    let expired = McpBindingLookup::Unbound(McpFailure::SessionExpired);
    let bad = McpBindingLookup::Unbound(McpFailure::InvalidCredentials);
    assert_eq!(mcp_join_decision(bound_same, Ok(false), true, SeatLookup::NoSeat, false), JoinDecision::ResumeBinding);
    assert_eq!(
        mcp_join_decision(bound_other, Ok(false), true, SeatLookup::NoSeat, false),
        JoinDecision::Refuse(McpFailure::SessionBound)
    );
    assert_eq!(
        mcp_join_decision(bad, Ok(false), true, SeatLookup::NoSeat, false),
        JoinDecision::Refuse(McpFailure::InvalidCredentials)
    );
    assert_eq!(
        mcp_join_decision(expired, Err(McpFailure::InvalidCredentials), true, SeatLookup::NoSeat, false),
        JoinDecision::Refuse(McpFailure::InvalidCredentials)
    );
    assert_eq!(
        mcp_join_decision(expired, Ok(true), true, SeatLookup::NoSeat, false),
        JoinDecision::Refuse(McpFailure::SessionBound)
    );
    assert_eq!(
        mcp_join_decision(expired, Ok(false), false, SeatLookup::Present, false),
        JoinDecision::Refuse(McpFailure::RoomNotFound)
    );
    assert_eq!(mcp_join_decision(expired, Ok(false), true, SeatLookup::Present, true), JoinDecision::Reconnect);
    assert_eq!(
        mcp_join_decision(expired, Ok(false), true, SeatLookup::Unreadable, false),
        JoinDecision::Refuse(McpFailure::Internal)
    );
    assert_eq!(
        mcp_join_decision(expired, Ok(false), true, SeatLookup::Absent, true),
        JoinDecision::Refuse(McpFailure::LeaveUnavailable)
    );
    assert_eq!(mcp_join_decision(expired, Ok(false), true, SeatLookup::Absent, false), JoinDecision::JoinNew);
    assert_eq!(mcp_join_decision(expired, Ok(false), true, SeatLookup::NoSeat, false), JoinDecision::JoinNew);
}

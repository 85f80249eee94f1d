use double_riichi_server::agents::{
    default_wait_seconds, normalize_name, normalize_provider, normalize_room_code, query_param,
    room_request_time, JoinRoomInput, McpFailure, RequestTime, WaitForTurnInput, MCP_MAX_WAIT_SECONDS,
};

#[test]
fn room_codes_are_six_digits_not_all_zero() {
    assert_eq!(normalize_room_code("123456").as_deref(), Some("123456"));
    assert_eq!(normalize_room_code("000000"), None);
    assert_eq!(normalize_room_code("12345a"), None);
    assert_eq!(normalize_room_code("1234567"), None);
}

#[test]
fn providers_and_names_are_normalized() {
    assert_eq!(normalize_provider(" open_ai ").as_deref(), Some("open_ai"));
    assert_eq!(normalize_provider("OpenAI"), None);
    assert_eq!(normalize_provider(""), None);
    assert_eq!(normalize_name("  Mahjong Bot ").as_deref(), Some("Mahjong Bot"));
    assert_eq!(normalize_name(&"x".repeat(65)), None);
}

#[test]
fn failures_have_stable_codes() {
    assert_eq!(McpFailure::SessionBound.code(), "session_already_bound");
    assert_eq!(McpFailure::Internal.code(), "internal_error");
    assert_eq!(McpFailure::InvalidInput.code(), "invalid_input");
}

#[test]
fn joins_and_waits_are_validated() {
    let input = JoinRoomInput {
        room_code: "654321".to_owned(),
        provider: " acme-labs ".to_owned(),
        display_name: " Mahjong Fan ".to_owned(),
    };
    assert_eq!(
        input.normalized(),
        Ok(("654321".to_owned(), "acme-labs".to_owned(), "Mahjong Fan".to_owned()))
    );
    let bad = JoinRoomInput { room_code: "000000".to_owned(), ..input };
    assert_eq!(bad.normalized(), Err(McpFailure::InvalidInput));
    assert_eq!(default_wait_seconds(), 330);
    assert_eq!(WaitForTurnInput { after_revision: 1, timeout_seconds: 0 }.timeout(), Ok(MCP_MAX_WAIT_SECONDS));
    assert_eq!(WaitForTurnInput { after_revision: 1, timeout_seconds: 5 }.timeout(), Ok(5));
    assert_eq!(
        WaitForTurnInput { after_revision: 1, timeout_seconds: 331 }.timeout(),
        Err(McpFailure::InvalidInput)
    );
}

#[test]
fn query_parameters_read_plus_as_space() {
    assert_eq!(query_param(Some("name=a+b&x=1"), "name").as_deref(), Some("a b"));
    assert_eq!(query_param(Some("x=1&flag"), "flag"), None);
    assert_eq!(query_param(None, "x"), None);
    assert_eq!(query_param(Some("x=1&x=2"), "x").as_deref(), Some("1"));
}

#[test]
fn room_request_time_follows_decision_deadline_and_unlimited_sentinel() {
    assert_eq!(
        room_request_time(Some(29_500)),
        Some(RequestTime::Limited {
            grace_ms: 0,
            bank_ms: 29_500,
            deadline_ms: 29_500,
        })
    );
    assert_eq!(room_request_time(None), Some(RequestTime::Unlimited));
    assert_eq!(room_request_time(Some(0)), None);
}

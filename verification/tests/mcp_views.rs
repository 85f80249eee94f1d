use double_riichi_server::agents::McpFailure;
use double_riichi_server::json::JsonValue;
use double_riichi_server::mcp_views::{
    contains_action_id, find_string, notification_uris, redact_private_history, resource_uri,
    room_failure, RevisionWake,
};
use double_riichi_server::responses::RoomErrorKind;

fn text(s: &str) -> JsonValue {
    JsonValue::String(s.to_string())
}

fn object(entries: Vec<(&str, JsonValue)>) -> JsonValue {
    JsonValue::Object(entries.into_iter().map(|(k, v)| (k.to_string(), v)).collect())
}

fn number(n: &str) -> JsonValue {
    JsonValue::Number(n.to_string())
}

fn same(a: &JsonValue, b: &JsonValue) -> bool {
    match (a, b) {
        (JsonValue::Null, JsonValue::Null) => true,
        (JsonValue::Bool(x), JsonValue::Bool(y)) => x == y,
        (JsonValue::Number(x), JsonValue::Number(y)) => x == y,
        (JsonValue::String(x), JsonValue::String(y)) => x == y,
        (JsonValue::Array(x), JsonValue::Array(y)) => {
            x.len() == y.len() && x.iter().zip(y.iter()).all(|(p, q)| same(p, q))
        }
        (JsonValue::Object(x), JsonValue::Object(y)) => {
            x.len() == y.len() && x.iter().zip(y.iter()).all(|(p, q)| p.0 == q.0 && same(&p.1, &q.1))
        }
        _ => false,
    }
}

#[test]
fn submit_action_errors_and_nested_action_ids_are_stable() {
    for (failure, code) in [
        (McpFailure::StaleAction, "stale_action"),
        (McpFailure::IllegalAction, "illegal_action"),
        (McpFailure::WrongParticipant, "wrong_participant"),
    ] {
        assert_eq!(failure.code(), code);
    }
    for (error, code) in [
        (RoomErrorKind::ParticipantNotFound, "wrong_participant"),
        (RoomErrorKind::NotPlaying, "stale_action"),
        (RoomErrorKind::Playing, "stale_action"),
        (RoomErrorKind::Match, "stale_action"),
    ] {
        assert_eq!(room_failure(error).code(), code);
    }
    let projection = object(vec![(
        "decision",
        object(vec![("actions", JsonValue::Array(vec![object(vec![("actionId", text("a1"))])]))]),
    )]);
    assert!(contains_action_id(&projection, "a1"));
    assert!(!contains_action_id(&projection, "a2"));
}

#[test]
fn room_failures_map_to_mcp_codes() {
    assert_eq!(room_failure(RoomErrorKind::RoomFull), McpFailure::RoomFull);
    assert_eq!(room_failure(RoomErrorKind::Disconnected), McpFailure::SessionExpired);
    assert_eq!(room_failure(RoomErrorKind::ControllerNotInteractive), McpFailure::SessionExpired);
    assert_eq!(room_failure(RoomErrorKind::Busy), McpFailure::Busy);
    assert_eq!(room_failure(RoomErrorKind::Deleted), McpFailure::RoomNotFound);
    assert_eq!(room_failure(RoomErrorKind::Closed), McpFailure::RoomNotFound);
    assert_eq!(room_failure(RoomErrorKind::NotLobby), McpFailure::LeaveUnavailable);
    assert_eq!(room_failure(RoomErrorKind::RematchUnavailable), McpFailure::LeaveUnavailable);
    assert_eq!(room_failure(RoomErrorKind::Persistence), McpFailure::Internal);
    assert_eq!(room_failure(RoomErrorKind::Other), McpFailure::Internal);
}

#[test]
fn action_ids_match_only_under_their_keys_and_as_strings() {
    let projection = object(vec![
        ("action_id", text("snake")),
        ("id", text("plain")),
        ("actionId", number("7")),
    ]);
    assert!(contains_action_id(&projection, "snake"));
    assert!(!contains_action_id(&projection, "plain"));
    assert!(!contains_action_id(&projection, "7"));
    assert!(!contains_action_id(&text("a1"), "a1"));
}

#[test]
fn history_redaction_removes_private_keys_at_any_depth() {
    let mut history = object(vec![
        ("tehais", JsonValue::Array(vec![number("1")])),
        ("nested", object(vec![("hands", JsonValue::Array(vec![number("2")])), ("visible", JsonValue::Bool(true))])),
    ]);
    redact_private_history(&mut history);
    let expected = object(vec![("nested", object(vec![("visible", JsonValue::Bool(true))]))]);
    assert!(same(&history, &expected));

    let mut log = JsonValue::Array(vec![
        object(vec![("wall", JsonValue::Null), ("kind", text("dahai"))]),
        object(vec![("private_state", JsonValue::Null), ("raw_state", JsonValue::Null), ("hand", text("kept"))]),
    ]);
    redact_private_history(&mut log);
    let expected = JsonValue::Array(vec![
        object(vec![("kind", text("dahai"))]),
        object(vec![("hand", text("kept"))]),
    ]);
    assert!(same(&log, &expected));
}

#[test]
fn find_string_takes_the_first_string_in_order() {
    let value = object(vec![
        ("meta", object(vec![("reason", text("inner"))])),
        ("reason", text("outer")),
    ]);
    assert_eq!(find_string(&value, "reason"), Some("inner".to_string()));
    let skipped = object(vec![
        ("reason", object(vec![("reason", text("hidden"))])),
        ("list", JsonValue::Array(vec![JsonValue::Null, object(vec![("reason", text("found"))])])),
    ]);
    assert_eq!(find_string(&skipped, "reason"), Some("found".to_string()));
    assert_eq!(find_string(&object(vec![("reason", number("1"))]), "reason"), None);
    assert_eq!(find_string(&text("reason"), "reason"), None);
}

#[test]
fn resource_addresses_and_notifications() {
    assert_eq!(resource_uri("123456", "agent", "state"), "riichi://rooms/123456/participants/agent/state");
    assert_eq!(resource_uri("123456", "", "public"), "riichi://rooms/123456/public-state");
    assert_eq!(resource_uri("123456", "", "history"), "riichi://rooms/123456/history");
    assert_eq!(
        notification_uris("123456", "agent", "my_decision"),
        vec![
            "riichi://rooms/123456/participants/agent/state".to_string(),
            "riichi://rooms/123456/public-state".to_string(),
        ]
    );
    for reason in ["round_started", "round_ended", "game_ended", "room_deleted", "server_shutdown"] {
        let uris = notification_uris("123456", "agent", reason);
        assert_eq!(uris.len(), 3);
        assert_eq!(uris[2], "riichi://rooms/123456/history");
    }
}

#[test]
fn wake_keeps_only_newer_revisions() {
    let mut wake = RevisionWake::new();
    assert_eq!(wake.current(), (0, "timeout".to_string()));
    assert!(wake.record(3, "my_decision".to_string()));
    assert!(!wake.record(3, "round_ended".to_string()));
    assert!(!wake.record(2, "round_ended".to_string()));
    assert_eq!(wake.current(), (3, "my_decision".to_string()));
    assert!(wake.record(4, "round_ended".to_string()));
    assert_eq!(wake.current(), (4, "round_ended".to_string()));
}

use double_riichi_server::json::JsonValue;
use double_riichi_server::responses::{
    already_connected, authentication_required, default_headers, internal_error, invalid_credentials,
    invalid_request, needs_no_store, not_found, origin_not_allowed, problem_document, problem_rewrite,
    rate_limited, registry_error, replay_error, room_error, room_not_found, server_busy,
    server_shutting_down, unsupported_media_type, request_too_large, RegistryErrorKind, RoomErrorKind,
    StorageError,
};

fn fields(e: double_riichi_server::responses::ApiError) -> (u16, &'static str, &'static str) {
    (e.status, e.title, e.code)
}

#[test]
fn problem_documents_carry_status_code_and_request_id() {
    let doc = problem_document(&room_not_found(), "01HREQ");
    let JsonValue::Object(entries) = doc else { panic!("object expected") };
    let keys: Vec<&str> = entries.iter().map(|(k, _)| k.as_str()).collect();
    assert_eq!(keys, vec!["type", "title", "status", "detail", "code", "request_id"]);
    assert!(matches!(&entries[0].1, JsonValue::String(s) if s == "about:blank"));
    assert!(matches!(&entries[2].1, JsonValue::Number(n) if n == "404"));
    assert!(matches!(&entries[4].1, JsonValue::String(s) if s == "room_not_found"));
    assert!(matches!(&entries[5].1, JsonValue::String(s) if s == "01HREQ"));
}

#[test]
fn named_errors_have_their_status_and_code() {
    assert_eq!(fields(invalid_request()), (400, "Invalid request", "invalid_request"));
    assert_eq!(fields(internal_error()), (500, "Internal server error", "internal_error"));
    assert_eq!(fields(invalid_credentials()), (401, "Unauthorized", "invalid_credentials"));
    assert_eq!(fields(origin_not_allowed()), (403, "Origin not allowed", "origin_not_allowed"));
    assert_eq!(fields(server_busy()), (503, "Server busy", "server_busy"));
    assert_eq!(fields(already_connected()), (409, "Already connected", "already_connected"));
    assert_eq!(fields(not_found()), (404, "Not found", "not_found"));
    assert_eq!(fields(authentication_required()), (401, "Unauthorized", "authentication_required"));
    assert_eq!(fields(request_too_large()), (413, "Request too large", "request_too_large"));
    assert_eq!(fields(unsupported_media_type()), (415, "Unsupported media type", "unsupported_media_type"));
    assert_eq!(fields(server_shutting_down()), (503, "Server shutting down", "server_shutting_down"));
    let (error, retry) = rate_limited(60_000);
    assert_eq!(fields(error), (429, "Too many requests", "rate_limited"));
    assert_eq!(retry, 60);
}

#[test]
fn room_and_registry_refusals_map_to_answers() {
    assert_eq!(fields(room_error(RoomErrorKind::Busy)), (503, "Room busy", "room_busy"));
    assert_eq!(fields(room_error(RoomErrorKind::NotReady)), (409, "Room is not ready", "room_not_ready"));
    assert_eq!(
        fields(room_error(RoomErrorKind::NotEnoughPlayers)),
        (409, "Room is not ready", "room_not_ready")
    );
    assert_eq!(
        fields(room_error(RoomErrorKind::PreloadIncomplete)),
        (400, "Invalid Character selection", "invalid_character")
    );
    assert_eq!(fields(room_error(RoomErrorKind::Closed)), (404, "Room not found", "room_not_found"));
    assert_eq!(
        fields(room_error(RoomErrorKind::Other)),
        (409, "Room command rejected", "room_command_rejected")
    );
    assert_eq!(fields(registry_error(RegistryErrorKind::NotFound)), (404, "Room not found", "room_not_found"));
    assert_eq!(
        fields(registry_error(RegistryErrorKind::Full)),
        (409, "Room capacity reached", "room_capacity_reached")
    );
    assert_eq!(
        fields(registry_error(RegistryErrorKind::CodeUnavailable)),
        (503, "Room code unavailable", "room_code_unavailable")
    );
    assert_eq!(
        fields(registry_error(RegistryErrorKind::Room(RoomErrorKind::RoomFull))),
        (409, "Room full", "room_full")
    );
}

#[test]
fn replay_failures_map_to_answers_and_kinds() {
    assert_eq!(fields(replay_error(StorageError::ReplayNotFound)), (404, "Replay not found", "replay_not_found"));
    assert_eq!(fields(replay_error(StorageError::ReplayTooLarge)), (413, "Replay too large", "replay_too_large"));
    assert_eq!(fields(replay_error(StorageError::ReplayCorrupt)), (422, "Replay unavailable", "replay_unavailable"));
    assert_eq!(fields(replay_error(StorageError::Sqlx)), (500, "Internal server error", "internal_error"));
    assert_eq!(StorageError::ReplayCorrupt.replay_failure_kind(), "corrupt");
    assert_eq!(StorageError::Io.replay_failure_kind(), "filesystem");
    assert_eq!(StorageError::AuditPending.replay_failure_kind(), "storage");
    assert_eq!(StorageError::ReplayNotFound.message(), "replay was not found");
}

#[test]
fn bare_client_errors_on_api_paths_become_problems() {
    let e = problem_rewrite("/api/v1/rooms", 405, Some("text/plain")).unwrap();
    assert_eq!((e.status, e.code), (405, "method_not_allowed"));
    let e = problem_rewrite("/ws/v1/rooms/123456", 400, None).unwrap();
    assert_eq!((e.status, e.code), (400, "invalid_request"));
    assert!(problem_rewrite("/api/v1/rooms", 404, Some("application/problem+json")).is_none());
    assert!(problem_rewrite("/api/v1/rooms", 500, None).is_none());
    assert!(problem_rewrite("/assets/app.js", 404, None).is_none());
}

#[test]
fn responses_get_security_headers_and_api_paths_no_store() {
    let headers = default_headers();
    assert_eq!(headers.len(), 5);
    assert_eq!(headers[0], ("x-content-type-options", "nosniff"));
    assert_eq!(headers[2], ("x-frame-options", "DENY"));
    assert!(headers[4].1.starts_with("default-src 'self'"));
    assert!(needs_no_store("/api/v1/health"));
    assert!(needs_no_store("/ws/v1/rooms"));
    assert!(!needs_no_store("/index.html"));
}

use double_riichi_server::web::{
    admin_session_cookie, cleared_admin_cookie, guest_cookie, guest_websocket_url, health_status,
    redact_audit_target_id, StorageProbe,
};

#[test]
fn audit_failure_target_ids_redact_raw_tokens_but_keep_safe_ids() {
    assert_eq!(redact_audit_target_id("room", "ROOM-123"), "ROOM-123");
    assert_eq!(
        redact_audit_target_id(
            "bot_token",
            "driichi_AAAAAAAAAAAAAAAAAAAAAAAAAAAAAAAAAAAAAAAAAAA"
        ),
        "[REDACTED]"
    );
    assert_eq!(redact_audit_target_id("replay", "MATCH15"), "MATCH15");
    assert_eq!(
        redact_audit_target_id(
            "replay",
            "replay-driichi_AAAAAAAAAAAAAAAAAAAAAAAAAAAAAAAAAAAAAAAAAAA"
        ),
        "[REDACTED]"
    );
}

use double_riichi_server::json::JsonValue;
use double_riichi_server::protocol::{
    normalize_protocol_value, protocol_key, protocol_mode_name, protocol_value_name,
};
use double_riichi_server::web::{
    cookie_value, frontend_asset_key, frontend_asset_mime, frontend_hashed_asset,
    frontend_path_is_safe, frontend_spa_route, normalize_display_text, request_log_ids,
    secure_cookie_suffix, token_view, ServerLimits,
};

fn get<'a>(value: &'a JsonValue, key: &str) -> &'a JsonValue {
    match value {
        JsonValue::Object(entries) => &entries.iter().find(|(k, _)| k == key).unwrap().1,
        _ => panic!("not an object"),
    }
}

fn string(value: &JsonValue) -> &str {
    match value {
        JsonValue::String(s) => s,
        _ => panic!("not a string"),
    }
}

#[test]
fn request_log_ids_bound_untrusted_path_values() {
    let participant_id = "A".repeat(512);
    let path = format!("/api/v1/admin/rooms/123456/participants/{participant_id}/kick");
    let ids = request_log_ids(
        "/api/v1/admin/rooms/{join_code}/participants/{participant_id}/kick",
        &path,
    );
    assert_eq!(ids.room_id.as_deref(), Some("123456"));
    assert_eq!(ids.participant_id.unwrap().len(), 128);
}

#[test]
fn protocol_normalization_snake_cases_enum_values() {
    let mut value = JsonValue::Object(vec![
        (
            "controller".to_owned(),
            JsonValue::Object(vec![(
                "PermanentAuto".to_owned(),
                JsonValue::String("ConnectionLost".to_owned()),
            )]),
        ),
        ("display_name".to_owned(), JsonValue::String("East".to_owned())),
        ("kind".to_owned(), JsonValue::String("Turn".to_owned())),
        (
            "role".to_owned(),
            JsonValue::Object(vec![("Player".to_owned(), JsonValue::Number("2".to_owned()))]),
        ),
    ]);
    normalize_protocol_value(&mut value);
    assert_eq!(string(get(get(&value, "controller"), "permanent_auto")), "connection_lost");
    assert!(matches!(get(get(&value, "role"), "player"), JsonValue::Number(n) if n == "2"));
    assert_eq!(string(get(&value, "kind")), "turn");
    assert_eq!(string(get(&value, "display_name")), "East");
}

#[test]
fn protocol_tables_rename_known_names_only() {
    assert_eq!(protocol_key("StartKyoku"), "start_kyoku");
    assert_eq!(protocol_key("custom"), "custom");
    assert_eq!(protocol_value_name("BuiltInBot"), Some("built_in_bot"));
    assert_eq!(protocol_value_name("Nope"), None);
    assert_eq!(protocol_mode_name("ThreePlayerRedHalf"), Some("3p-red-half"));
    let mut value = JsonValue::Object(vec![
        ("mode".to_owned(), JsonValue::String("FourPlayerRedEast".to_owned())),
        ("Player".to_owned(), JsonValue::String("first".to_owned())),
        ("player".to_owned(), JsonValue::String("second".to_owned())),
    ]);
    normalize_protocol_value(&mut value);
    assert_eq!(string(get(&value, "mode")), "4p-red-east");
    assert_eq!(string(get(&value, "player")), "first");
}

#[test]
fn frontend_paths_are_screened() {
    assert!(frontend_path_is_safe("/"));
    assert!(frontend_path_is_safe("/assets/app-1234abcd.js"));
    assert!(!frontend_path_is_safe("assets/app.js"));
    assert!(!frontend_path_is_safe("/assets/../secret"));
    assert!(!frontend_path_is_safe("/.env"));
    assert!(!frontend_path_is_safe("//x"));
    assert!(!frontend_path_is_safe("/a%2e"));
    assert!(!frontend_path_is_safe("/café"));
    assert!(frontend_spa_route("/admin"));
    assert!(frontend_spa_route("/room/123456/lobby"));
    assert!(frontend_spa_route("/admin/replays/match-1_a"));
    assert!(!frontend_spa_route("/room/12345"));
    assert!(!frontend_spa_route("/admin/rooms"));
    assert_eq!(frontend_asset_mime("a/b.woff2"), Some("font/woff2"));
    assert_eq!(frontend_asset_mime("noext"), None);
    assert!(frontend_hashed_asset("assets/index-AbCd1234.js"));
    assert!(!frontend_hashed_asset("assets/index.js"));
    assert_eq!(frontend_asset_key("/").as_deref(), Some("index.html"));
    assert_eq!(frontend_asset_key("/room/123456/").as_deref(), Some("index.html"));
    assert_eq!(frontend_asset_key("/assets/app.css").as_deref(), Some("assets/app.css"));
    assert_eq!(frontend_asset_key("/assets/app.exe"), None);
    assert_eq!(frontend_asset_key("/assets/"), None);
    assert_eq!(frontend_asset_key("/other.js"), None);
}

#[test]
fn cookies_are_found_by_name() {
    assert_eq!(cookie_value(Some("a=1; driichi_admin=xyz; b=2"), "driichi_admin").as_deref(), Some("xyz"));
    assert_eq!(cookie_value(Some("a=1"), "b"), None);
    assert_eq!(cookie_value(None, "a"), None);
    assert_eq!(cookie_value(Some("novalue; a=x=y"), "a").as_deref(), Some("x=y"));
    assert_eq!(secure_cookie_suffix(true), "; Secure");
    assert_eq!(secure_cookie_suffix(false), "");
}

#[test]
fn display_text_and_token_views() {
    assert_eq!(normalize_display_text(" Alice ").as_deref(), Some("Alice"));
    assert_eq!(normalize_display_text(""), None);
    let created = double_riichi_server::auth::tokens::create_bot_token("bot", 951782400).unwrap();
    let view = token_view(created.record());
    assert_eq!(view.name, "bot");
    assert_eq!(view.state, "active");
    assert_eq!(view.created_at, "2000-02-29T00:00:00Z");
    assert_eq!(view.revoked_at, None);
    let limits = ServerLimits::default();
    assert_eq!(limits.rate_window_seconds, 60);
}

#[test]
fn health_is_ok_only_when_database_and_replays_are() {
    assert_eq!(health_status(StorageProbe::NotConfigured), (503, "not_configured", "not_configured"));
    assert_eq!(
        health_status(StorageProbe::Checked { database_ok: true, replay_ok: true }),
        (200, "ok", "ok")
    );
    assert_eq!(
        health_status(StorageProbe::Checked { database_ok: true, replay_ok: false }),
        (503, "ok", "degraded")
    );
    assert_eq!(
        health_status(StorageProbe::Checked { database_ok: false, replay_ok: true }),
        (503, "degraded", "ok")
    );
}

#[test]
fn session_cookies_are_http_only_strict_and_scoped() {
    assert_eq!(
        admin_session_cookie("abc", false),
        "driichi_admin=abc; HttpOnly; SameSite=Strict; Path=/api/v1/admin; Max-Age=43200"
    );
    assert_eq!(
        admin_session_cookie("abc", true),
        "driichi_admin=abc; HttpOnly; SameSite=Strict; Path=/api/v1/admin; Max-Age=43200; Secure"
    );
    assert_eq!(
        cleared_admin_cookie(true),
        "driichi_admin=; HttpOnly; SameSite=Strict; Path=/api/v1/admin; Max-Age=0; Secure"
    );
    assert_eq!(
        guest_cookie("123456", "secret", false),
        "driichi_guest_123456=secret; HttpOnly; SameSite=Strict; Path=/ws/v1/rooms/123456"
    );
    assert_eq!(guest_websocket_url("123456"), "/ws/v1/rooms/123456/human");
}

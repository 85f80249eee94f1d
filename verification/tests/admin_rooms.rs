use double_riichi_server::admin_rooms::{
    configuration_changed, parse_time_control, participant_command_plan, participant_command_summary,
    room_patch_end, room_patch_plan, room_patch_summary, CommandEnd, CommandReply, ParticipantCommand,
    RoomFields, TimeControl,
};
use double_riichi_server::json::JsonValue;
use double_riichi_server::responses::RoomErrorKind;

#[test]
fn time_controls_parse_by_name() {
    assert_eq!(parse_time_control("riichi_dev"), Some(TimeControl::RiichiDev));
    assert_eq!(parse_time_control("riichi-dev"), Some(TimeControl::RiichiDev));
    assert_eq!(parse_time_control("casual"), Some(TimeControl::Casual));
    assert_eq!(parse_time_control("unlimited"), Some(TimeControl::Unlimited));
    assert_eq!(parse_time_control("blitz"), None);
}

#[test]
fn room_patch_needs_a_valid_field() {
    let code = |r: Result<_, double_riichi_server::responses::ApiError>| r.err().map(|e| e.code);
    assert_eq!(code(room_patch_plan(None, None, None, None, None, 8)), Some("invalid_request"));
    assert_eq!(code(room_patch_plan(None, Some(false), None, None, None, 8)), Some("invalid_request"));
    assert_eq!(code(room_patch_plan(None, None, Some("blitz"), None, None, 8)), Some("invalid_request"));
    assert_eq!(code(room_patch_plan(None, None, None, None, Some(9), 8)), Some("invalid_request"));
    let plan = room_patch_plan(Some("Room"), Some(true), Some("casual"), Some(false), Some(8), 8).unwrap();
    assert_eq!(plan.time_control, Some(TimeControl::Casual));
    assert_eq!(
        plan.changed_fields,
        vec!["room_name", "game_mode", "time_control", "replay_save", "participant_limit"]
    );
    let plan = room_patch_plan(None, None, None, Some(true), None, 8).unwrap();
    assert_eq!(plan.time_control, None);
    assert_eq!(plan.changed_fields, vec!["replay_save"]);
    match room_patch_summary(&plan) {
        JsonValue::Object(entries) => {
            assert_eq!(entries.len(), 1);
            assert_eq!(entries[0].0, "changed_fields");
            assert!(matches!(&entries[0].1, JsonValue::Array(items) if items.len() == 1));
        }
        _ => panic!("summary is an object"),
    }
}

#[test]
fn only_requested_fields_count_as_changes() {
    let none = RoomFields { room_name: false, game_mode: false, time_control: false, replay_save: false, participant_limit: false };
    let name = RoomFields { room_name: true, ..none };
    let limit = RoomFields { participant_limit: true, ..none };
    assert!(configuration_changed(name, name));
    assert!(!configuration_changed(name, limit));
    assert!(!configuration_changed(none, name));
}

#[test]
fn command_replies_end_as_planned() {
    assert_eq!(room_patch_end(CommandReply::Unexpected), CommandEnd::Internal);
    assert_eq!(room_patch_end(CommandReply::Refused(RoomErrorKind::NotLobby)), CommandEnd::RoomError(RoomErrorKind::NotLobby));
    assert_eq!(room_patch_end(CommandReply::Accepted { changed: false }), CommandEnd::Unchanged);
    assert_eq!(room_patch_end(CommandReply::Accepted { changed: true }), CommandEnd::Changed { end_sessions: false });
    assert_eq!(
        participant_command_plan(ParticipantCommand::Kick, CommandReply::Accepted { changed: true }),
        CommandEnd::Changed { end_sessions: true }
    );
    assert_eq!(
        participant_command_plan(ParticipantCommand::Leave, CommandReply::Accepted { changed: true }),
        CommandEnd::Changed { end_sessions: true }
    );
    assert_eq!(
        participant_command_plan(ParticipantCommand::Select, CommandReply::Accepted { changed: true }),
        CommandEnd::Changed { end_sessions: false }
    );
    assert_eq!(
        participant_command_plan(ParticipantCommand::Kick, CommandReply::Accepted { changed: false }),
        CommandEnd::Unchanged
    );
    match participant_command_summary("p1") {
        JsonValue::Object(entries) => {
            assert_eq!(entries[0].0, "participant_id");
            assert!(matches!(&entries[0].1, JsonValue::String(s) if s == "p1"));
        }
        _ => panic!("summary is an object"),
    }
}

//! The plans of the admin commands on a room: which configuration request
//! is accepted and which fields it changes, what a participant command
//! ends, and how the room's reply to a command is answered.
//!
//! The handlers around these plans authenticate the admin, look the room
//! up, write the audit log and send the command; the plans decide.

use vstd::prelude::*;

use crate::json::{json_view, JsonValue, JsonView};
use crate::responses::{error_fields, invalid_request, ApiError, RoomErrorKind};
use crate::text::str_eq;

verus! {

/// How much time players get for their decisions.
#[derive(Debug, Clone, Copy, PartialEq, Eq, Structural)]
pub enum TimeControl {
    RiichiDev,
    Casual,
    Unlimited,
}

/// The time control a request names, if it names one.
pub open spec fn spec_parse_time_control(value: Seq<char>) -> Option<TimeControl> {
    if value == "riichi_dev"@ || value == "riichi-dev"@ {
        Some(TimeControl::RiichiDev)
    } else if value == "casual"@ {
        Some(TimeControl::Casual)
    } else if value == "unlimited"@ {
        Some(TimeControl::Unlimited)
    } else {
        None
    }
}

/// The time control `value` names.
pub fn parse_time_control(value: &str) -> (res: Option<TimeControl>)
    ensures
        res == spec_parse_time_control(value@),
{
    if str_eq(value, "riichi_dev") || str_eq(value, "riichi-dev") {
        Some(TimeControl::RiichiDev)
    } else if str_eq(value, "casual") {
        Some(TimeControl::Casual)
    } else if str_eq(value, "unlimited") {
        Some(TimeControl::Unlimited)
    } else {
        None
    }
}

/// One flag for each field of a room's configuration, in the order
/// `room_name`, `game_mode`, `time_control`, `replay_save`,
/// `participant_limit`.
#[derive(Debug, Clone, Copy, PartialEq, Eq, Structural)]
pub struct RoomFields {
    pub room_name: bool,
    pub game_mode: bool,
    pub time_control: bool,
    pub replay_save: bool,
    pub participant_limit: bool,
}

/// Whether any field is set.
pub open spec fn any_field(f: RoomFields) -> bool {
    f.room_name || f.game_mode || f.time_control || f.replay_save || f.participant_limit
}

/// The names of the set fields, in order.
pub open spec fn field_names(f: RoomFields) -> Seq<Seq<char>> {
    (if f.room_name {
        seq!["room_name"@]
    } else {
        Seq::empty()
    }) + (if f.game_mode {
        seq!["game_mode"@]
    } else {
        Seq::empty()
    }) + (if f.time_control {
        seq!["time_control"@]
    } else {
        Seq::empty()
    }) + (if f.replay_save {
        seq!["replay_save"@]
    } else {
        Seq::empty()
    }) + (if f.participant_limit {
        seq!["participant_limit"@]
    } else {
        Seq::empty()
    })
}

/// The fields that a configuration request gives.
pub open spec fn requested_fields(
    room_name: Option<&str>,
    game_mode: Option<bool>,
    time_control: Option<&str>,
    replay_save: Option<bool>,
    participant_limit: Option<usize>,
) -> RoomFields {
    RoomFields {
        room_name: room_name is Some,
        game_mode: game_mode is Some,
        time_control: time_control is Some,
        replay_save: replay_save is Some,
        participant_limit: participant_limit is Some,
    }
}

/// The fields that a configuration request gives.
pub fn room_fields_requested(
    room_name: Option<&str>,
    game_mode: Option<bool>,
    time_control: Option<&str>,
    replay_save: Option<bool>,
    participant_limit: Option<usize>,
) -> (res: RoomFields)
    ensures
        res == requested_fields(room_name, game_mode, time_control, replay_save, participant_limit),
{
    RoomFields {
        room_name: room_name.is_some(),
        game_mode: game_mode.is_some(),
        time_control: time_control.is_some(),
        replay_save: replay_save.is_some(),
        participant_limit: participant_limit.is_some(),
    }
}

/// What an accepted configuration request does: the time control it sets,
/// if any, and the names of the fields it changes, in order.
pub struct RoomPatchPlan {
    pub time_control: Option<TimeControl>,
    pub changed_fields: Vec<&'static str>,
}

/// Whether a configuration request is accepted: it gives a field, its
/// game mode (when given) is one the engine knows, its time control (when
/// given) names one, and its participant limit (when given) is at most
/// `max_participants`.
pub open spec fn room_patch_ok(
    room_name: Option<&str>,
    game_mode: Option<bool>,
    time_control: Option<&str>,
    replay_save: Option<bool>,
    participant_limit: Option<usize>,
    max_participants: usize,
) -> bool {
    &&& any_field(requested_fields(room_name, game_mode, time_control, replay_save, participant_limit))
    &&& game_mode != Some(false)
    &&& (time_control matches Some(t) ==> spec_parse_time_control(t@) is Some)
    &&& (participant_limit matches Some(l) ==> l <= max_participants)
}

/// The plan of a room configuration request. `game_mode` is whether the
/// request names a game mode, and if so whether the engine knows it (game
/// modes are the engine's to parse). A refused request is an invalid
/// request.
pub fn room_patch_plan(
    room_name: Option<&str>,
    game_mode: Option<bool>,
    time_control: Option<&str>,
    replay_save: Option<bool>,
    participant_limit: Option<usize>,
    max_participants: usize,
) -> (res: Result<RoomPatchPlan, ApiError>)
    ensures
        !room_patch_ok(room_name, game_mode, time_control, replay_save, participant_limit, max_participants)
            ==> (res matches Err(e) && error_fields(e) == (400u16, "Invalid request"@,
        "The request body is invalid."@, "invalid_request"@)),
        room_patch_ok(room_name, game_mode, time_control, replay_save, participant_limit, max_participants)
            ==> (res matches Ok(plan) && plan.time_control == (match time_control {
            Some(t) => spec_parse_time_control(t@),
            None => None,
        }) && plan.changed_fields@.map_values(|s: &str| s@) == field_names(
            requested_fields(room_name, game_mode, time_control, replay_save, participant_limit),
        )),
{
    let fields = room_fields_requested(room_name, game_mode, time_control, replay_save, participant_limit);
    if !(fields.room_name || fields.game_mode || fields.time_control || fields.replay_save
        || fields.participant_limit) {
        return Err(invalid_request());
    }
    match game_mode {
        Some(false) => {
            return Err(invalid_request());
        },
        _ => {},
    }
    let parsed = match time_control {
        Some(t) => match parse_time_control(t) {
            Some(c) => Some(c),
            None => {
                return Err(invalid_request());
            },
        },
        None => None,
    };
    match participant_limit {
        Some(l) => {
            if l > max_participants {
                return Err(invalid_request());
            }
        },
        None => {},
    }
    let names = changed_field_names(fields);
    Ok(RoomPatchPlan { time_control: parsed, changed_fields: names })
}

/// The names of the set fields, in order.
pub fn changed_field_names(fields: RoomFields) -> (res: Vec<&'static str>)
    ensures
        res@.map_values(|s: &str| s@) == field_names(fields),
{
    let mut names: Vec<&'static str> = Vec::new();
    if fields.room_name {
        names.push("room_name");
    }
    if fields.game_mode {
        names.push("game_mode");
    }
    if fields.time_control {
        names.push("time_control");
    }
    if fields.replay_save {
        names.push("replay_save");
    }
    if fields.participant_limit {
        names.push("participant_limit");
    }
    proof {
        assert(names@.map_values(|s: &str| s@) =~= field_names(fields));
    }
    names
}

/// The audit summary of a configuration request: the names of the fields
/// it changes.
pub fn room_patch_summary(plan: &RoomPatchPlan) -> (res: JsonValue)
    ensures
        json_view(res) == JsonView::Object(
            seq![
                (
                    "changed_fields"@,
                    JsonView::Array(plan.changed_fields@.map_values(|s: &str| JsonView::Str(s@))),
                ),
            ],
        ),
{
    let mut items: Vec<JsonValue> = Vec::new();
    let mut i: usize = 0;
    while i < plan.changed_fields.len()
        invariant
            i <= plan.changed_fields@.len(),
            items@.len() == i,
            forall|j: int| 0 <= j < i ==> json_view(#[trigger] items@[j]) == JsonView::Str(plan.changed_fields@[j]@),
        decreases plan.changed_fields@.len() - i,
    {
        items.push(JsonValue::String(plan.changed_fields[i].to_owned()));
        i += 1;
    }
    let array = JsonValue::Array(items);
    proof {
        let a = match json_view(array) {
            JsonView::Array(a) => a,
            _ => Seq::empty(),
        };
        assert(a =~= plan.changed_fields@.map_values(|s: &str| JsonView::Str(s@)));
    }
    let mut entries: Vec<(String, JsonValue)> = Vec::new();
    entries.push(("changed_fields".to_owned(), array));
    let res = JsonValue::Object(entries);
    proof {
        let o = match json_view(res) {
            JsonView::Object(o) => o,
            _ => Seq::empty(),
        };
        assert(o =~= seq![
            (
                "changed_fields"@,
                JsonView::Array(plan.changed_fields@.map_values(|s: &str| JsonView::Str(s@))),
            ),
        ]);
    }
    res
}

/// Whether an accepted configuration changed the room: some field that
/// the request gives differs between the room before and after it.
pub open spec fn spec_configuration_changed(requested: RoomFields, differs: RoomFields) -> bool {
    (requested.room_name && differs.room_name) || (requested.game_mode && differs.game_mode) || (
    requested.time_control && differs.time_control) || (requested.replay_save && differs.replay_save)
        || (requested.participant_limit && differs.participant_limit)
}

/// Whether an accepted configuration changed the room, given which fields
/// the request gives and which differ between the room before and after.
pub fn configuration_changed(requested: RoomFields, differs: RoomFields) -> (res: bool)
    ensures
        res == spec_configuration_changed(requested, differs),
{
    (requested.room_name && differs.room_name) || (requested.game_mode && differs.game_mode) || (
    requested.time_control && differs.time_control) || (requested.replay_save && differs.replay_save)
        || (requested.participant_limit && differs.participant_limit)
}

/// What the room answered an admin command with: accepted (and whether
/// the room changed), an answer of an unexpected kind, or a refusal.
#[derive(Debug, Clone, Copy, PartialEq, Eq, Structural)]
pub enum CommandReply {
    Accepted { changed: bool },
    Unexpected,
    Refused(RoomErrorKind),
}

/// How an admin command ends.
#[derive(Debug, Clone, Copy, PartialEq, Eq, Structural)]
pub enum CommandEnd {
    /// Cancel the audit record and answer that the server failed.
    Internal,
    /// Cancel the audit record and answer with the room's refusal.
    RoomError(RoomErrorKind),
    /// Cancel the audit record (nothing changed) and answer with the room.
    Unchanged,
    /// Complete the audit record and answer with the room; a participant
    /// who left or was kicked loses its guest sessions and its socket
    /// (closed with 4006 `session_expired`) when `end_sessions` holds.
    Changed { end_sessions: bool },
}

/// An admin command on a participant.
#[derive(Debug, Clone, Copy, PartialEq, Eq, Structural)]
pub enum ParticipantCommand {
    Select,
    Deselect,
    Leave,
    Kick,
}

/// Whether the command takes the participant out of the room: its socket
/// operations are locked while it runs, and once it changed the room the
/// participant's sessions end.
pub open spec fn spec_removes_participant(command: ParticipantCommand) -> bool {
    command == ParticipantCommand::Leave || command == ParticipantCommand::Kick
}

/// Whether the command takes the participant out of the room.
pub fn removes_participant(command: ParticipantCommand) -> (res: bool)
    ensures
        res == spec_removes_participant(command),
{
    match command {
        ParticipantCommand::Leave | ParticipantCommand::Kick => true,
        _ => false,
    }
}

/// How a command ends given the room's reply: an unexpected answer is a
/// failure of the server, a refusal is the room's error, an accepted
/// command that changed nothing is answered without an audit record, and
/// one that changed the room completes it (ending the sessions of a
/// participant taken out when `removes` holds).
pub open spec fn spec_command_end(removes: bool, reply: CommandReply) -> CommandEnd {
    match reply {
        CommandReply::Unexpected => CommandEnd::Internal,
        CommandReply::Refused(e) => CommandEnd::RoomError(e),
        CommandReply::Accepted { changed } => if changed {
            CommandEnd::Changed { end_sessions: removes }
        } else {
            CommandEnd::Unchanged
        },
    }
}

/// How a participant command ends, given the room's reply.
pub fn participant_command_plan(command: ParticipantCommand, reply: CommandReply) -> (res: CommandEnd)
    ensures
        res == spec_command_end(spec_removes_participant(command), reply),
{
    let removes = removes_participant(command);
    command_end(removes, reply)
}

/// How a room configuration ends, given the room's reply (no participant
/// is taken out).
pub fn room_patch_end(reply: CommandReply) -> (res: CommandEnd)
    ensures
        res == spec_command_end(false, reply),
{
    command_end(false, reply)
}

fn command_end(removes: bool, reply: CommandReply) -> (res: CommandEnd)
    ensures
        res == spec_command_end(removes, reply),
{
    match reply {
        CommandReply::Unexpected => CommandEnd::Internal,
        CommandReply::Refused(e) => CommandEnd::RoomError(e),
        CommandReply::Accepted { changed } => if changed {
            CommandEnd::Changed { end_sessions: removes }
        } else {
            CommandEnd::Unchanged
        },
    }
}

/// The audit summary of a participant command: the participant's id.
pub fn participant_command_summary(participant_id: &str) -> (res: JsonValue)
    ensures
        json_view(res) == JsonView::Object(seq![("participant_id"@, JsonView::Str(participant_id@))]),
{
    let mut entries: Vec<(String, JsonValue)> = Vec::new();
    let id = JsonValue::String(participant_id.to_owned());
    assert(json_view(id) == JsonView::Str(participant_id@));
    entries.push(("participant_id".to_owned(), id));
    let res = JsonValue::Object(entries);
    proof {
        let o = match json_view(res) {
            JsonView::Object(o) => o,
            _ => Seq::empty(),
        };
        assert(o[0] == (entries@[0].0@, json_view(entries@[0].1)));
        assert(o =~= seq![("participant_id"@, JsonView::Str(participant_id@))]);
    }
    res
}

/// Only a command that takes a participant out, and that changed the room,
/// ends the participant's sessions; a select or deselect never does.
pub proof fn law_only_removal_ends_sessions(command: ParticipantCommand, reply: CommandReply)
    ensures
        spec_command_end(spec_removes_participant(command), reply) == (CommandEnd::Changed {
            end_sessions: true,
        }) ==> (spec_removes_participant(command) && reply == (CommandReply::Accepted {
            changed: true,
        })),
{
}

} // verus!

//! What the socket of a human player does next.
//!
//! The connection waits on four things at once: its control channel, the
//! room's event stream, the player's frames and a heartbeat tick. Each
//! event is handed to `human_socket_step`, which says what to do: carry
//! on, hand a text frame or a room event on, send a ping, close the socket
//! with a code and reason, or stop without a word. Times are milliseconds
//! of a monotonic clock.

use vstd::prelude::*;

verus! {

/// How often the server pings the player.
pub const HUMAN_HEARTBEAT_INTERVAL_MILLIS: u64 = 20000;

/// How long the player may go without answering a ping.
pub const HUMAN_HEARTBEAT_TIMEOUT_MILLIS: u64 = 60000;

/// What the player's text frame came to once handled.
#[derive(Debug, Clone, PartialEq, Eq)]
pub enum HumanMessageOutcome {
    Continue,
    /// The player's session is over, for this reason.
    Close(String),
    Invalid,
}

/// Something the connection was woken by.
#[derive(Debug, Clone, PartialEq, Eq)]
pub enum HumanSocketEvent {
    /// The control channel asks to close with this code and reason.
    ControlClose(u16, String),
    /// The control channel was dropped.
    ControlGone,
    /// The room's event stream ended.
    RoomStreamEnded,
    RoomDeleted,
    ServerShutdown,
    /// Any other room event.
    RoomEvent,
    /// Whether the room event handed on was queued.
    RoomEventQueued(bool),
    /// A text frame of this many bytes.
    Text(usize),
    /// What handling the text frame came to.
    TextHandled(HumanMessageOutcome),
    /// A binary frame of this many bytes.
    Binary(usize),
    /// A pong, at this time.
    Pong(u64),
    Ping,
    /// The player closed the socket, or it ended.
    PeerClosed,
    /// Reading from the socket failed.
    ReadFailed,
    /// The heartbeat ticked at this time.
    HeartbeatTick(u64),
    /// Whether the ping was queued.
    PingQueued(bool),
}

/// Why the server closes the socket.
#[derive(Debug, Clone, PartialEq, Eq)]
pub enum CloseReason {
    MessageTooLarge,
    InvalidMessage,
    SessionExpired,
    SlowConsumer,
    RoomDeleted,
    ServerShutdown,
    /// A reason given by the control channel or by the message handler.
    Given(String),
}

/// What the connection does next.
#[derive(Debug, Clone, PartialEq, Eq)]
pub enum HumanSocketAction {
    Continue,
    /// Hand the text frame to the message handler.
    HandleText,
    /// Project the room event for the player and queue it.
    ForwardRoomEvent,
    /// Queue a ping.
    SendPing,
    /// Queue a close frame and stop.
    Close(u16, CloseReason),
    /// Stop without a close frame.
    Stop,
}

/// The state the connection keeps between events.
#[derive(Debug, Clone, Copy, PartialEq, Eq)]
pub struct HumanSocketState {
    /// When the player last answered a ping.
    pub last_pong_ms: u64,
    /// The largest frame the player may send, in bytes.
    pub message_limit: usize,
}

/// The text of a close reason.
pub open spec fn spec_close_reason_text(reason: CloseReason) -> Seq<char> {
    match reason {
        CloseReason::MessageTooLarge => "message_too_large"@,
        CloseReason::InvalidMessage => "invalid_message"@,
        CloseReason::SessionExpired => "session_expired"@,
        CloseReason::SlowConsumer => "slow_consumer"@,
        CloseReason::RoomDeleted => "room_deleted"@,
        CloseReason::ServerShutdown => "server_shutdown"@,
        CloseReason::Given(s) => s@,
    }
}

/// The text of a close reason.
pub fn close_reason_text(reason: &CloseReason) -> (res: &str)
    ensures
        res@ == spec_close_reason_text(*reason),
{
    match reason {
        CloseReason::MessageTooLarge => "message_too_large",
        CloseReason::InvalidMessage => "invalid_message",
        CloseReason::SessionExpired => "session_expired",
        CloseReason::SlowConsumer => "slow_consumer",
        CloseReason::RoomDeleted => "room_deleted",
        CloseReason::ServerShutdown => "server_shutdown",
        CloseReason::Given(s) => s.as_str(),
    }
}

/// Milliseconds from `from` to `now`, zero when `now` is earlier.
pub open spec fn elapsed_millis(from: u64, now: u64) -> u64 {
    if now >= from {
        (now - from) as u64
    } else {
        0
    }
}

/// The step of the connection:
/// - a close asked by the control channel is sent; a dropped control
///   channel stops the connection;
/// - an ended room stream, or a room event or ping that could not be
///   queued, closes with 4005 `slow_consumer`; a deleted room closes with
///   4002 `room_deleted`, a server shutdown with 4003 `server_shutdown`;
///   any other room event is handed on;
/// - a text frame over the limit, or a read failure, closes with 1009
///   `message_too_large`; a text frame within it is handled, and its
///   handling goes on, closes with 4006 and the handler's reason, or closes
///   with 1008 `invalid_message` when the message is invalid; a binary
///   frame closes with 1009 over the limit and 1008 within it;
/// - a pong records its time; a ping is ignored; a peer close stops;
/// - a heartbeat tick at least 60 seconds after the last pong closes with
///   4006 `session_expired`, and otherwise sends a ping.
pub open spec fn spec_human_socket_step(state: HumanSocketState, event: HumanSocketEvent) -> (
    HumanSocketState,
    HumanSocketAction,
) {
    match event {
        HumanSocketEvent::ControlClose(code, reason) => (
            state,
            HumanSocketAction::Close(code, CloseReason::Given(reason)),
        ),
        HumanSocketEvent::ControlGone => (state, HumanSocketAction::Stop),
        HumanSocketEvent::RoomStreamEnded => (
            state,
            HumanSocketAction::Close(4005, CloseReason::SlowConsumer),
        ),
        HumanSocketEvent::RoomDeleted => (state, HumanSocketAction::Close(4002, CloseReason::RoomDeleted)),
        HumanSocketEvent::ServerShutdown => (
            state,
            HumanSocketAction::Close(4003, CloseReason::ServerShutdown),
        ),
        HumanSocketEvent::RoomEvent => (state, HumanSocketAction::ForwardRoomEvent),
        HumanSocketEvent::RoomEventQueued(queued) => if queued {
            (state, HumanSocketAction::Continue)
        } else {
            (state, HumanSocketAction::Close(4005, CloseReason::SlowConsumer))
        },
        HumanSocketEvent::Text(len) => if len > state.message_limit {
            (state, HumanSocketAction::Close(1009, CloseReason::MessageTooLarge))
        } else {
            (state, HumanSocketAction::HandleText)
        },
        HumanSocketEvent::TextHandled(outcome) => match outcome {
            HumanMessageOutcome::Continue => (state, HumanSocketAction::Continue),
            HumanMessageOutcome::Close(reason) => (
                state,
                HumanSocketAction::Close(4006, CloseReason::Given(reason)),
            ),
            HumanMessageOutcome::Invalid => (
                state,
                HumanSocketAction::Close(1008, CloseReason::InvalidMessage),
            ),
        },
        HumanSocketEvent::Binary(len) => if len > state.message_limit {
            (state, HumanSocketAction::Close(1009, CloseReason::MessageTooLarge))
        } else {
            (state, HumanSocketAction::Close(1008, CloseReason::InvalidMessage))
        },
        HumanSocketEvent::Pong(now) => (
            HumanSocketState { last_pong_ms: now, ..state },
            HumanSocketAction::Continue,
        ),
        HumanSocketEvent::Ping => (state, HumanSocketAction::Continue),
        HumanSocketEvent::PeerClosed => (state, HumanSocketAction::Stop),
        HumanSocketEvent::ReadFailed => (
            state,
            HumanSocketAction::Close(1009, CloseReason::MessageTooLarge),
        ),
        HumanSocketEvent::HeartbeatTick(now) => if elapsed_millis(state.last_pong_ms, now)
            >= HUMAN_HEARTBEAT_TIMEOUT_MILLIS {
            (state, HumanSocketAction::Close(4006, CloseReason::SessionExpired))
        } else {
            (state, HumanSocketAction::SendPing)
        },
        HumanSocketEvent::PingQueued(queued) => if queued {
            (state, HumanSocketAction::Continue)
        } else {
            (state, HumanSocketAction::Close(4005, CloseReason::SlowConsumer))
        },
    }
}

/// What the connection does on `event`, and its state after it.
pub fn human_socket_step(state: HumanSocketState, event: HumanSocketEvent) -> (res: (
    HumanSocketState,
    HumanSocketAction,
))
    ensures
        res == spec_human_socket_step(state, event),
{
    match event {
        HumanSocketEvent::ControlClose(code, reason) => (
            state,
            HumanSocketAction::Close(code, CloseReason::Given(reason)),
        ),
        HumanSocketEvent::ControlGone => (state, HumanSocketAction::Stop),
        HumanSocketEvent::RoomStreamEnded => (
            state,
            HumanSocketAction::Close(4005, CloseReason::SlowConsumer),
        ),
        HumanSocketEvent::RoomDeleted => (state, HumanSocketAction::Close(4002, CloseReason::RoomDeleted)),
        HumanSocketEvent::ServerShutdown => (
            state,
            HumanSocketAction::Close(4003, CloseReason::ServerShutdown),
        ),
        HumanSocketEvent::RoomEvent => (state, HumanSocketAction::ForwardRoomEvent),
        HumanSocketEvent::RoomEventQueued(queued) => if queued {
            (state, HumanSocketAction::Continue)
        } else {
            (state, HumanSocketAction::Close(4005, CloseReason::SlowConsumer))
        },
        HumanSocketEvent::Text(len) => if len > state.message_limit {
            (state, HumanSocketAction::Close(1009, CloseReason::MessageTooLarge))
        } else {
            (state, HumanSocketAction::HandleText)
        },
        HumanSocketEvent::TextHandled(outcome) => match outcome {
            HumanMessageOutcome::Continue => (state, HumanSocketAction::Continue),
            HumanMessageOutcome::Close(reason) => (
                state,
                HumanSocketAction::Close(4006, CloseReason::Given(reason)),
            ),
            HumanMessageOutcome::Invalid => (
                state,
                HumanSocketAction::Close(1008, CloseReason::InvalidMessage),
            ),
        },
        HumanSocketEvent::Binary(len) => if len > state.message_limit {
            (state, HumanSocketAction::Close(1009, CloseReason::MessageTooLarge))
        } else {
            (state, HumanSocketAction::Close(1008, CloseReason::InvalidMessage))
        },
        HumanSocketEvent::Pong(now) => (
            HumanSocketState { last_pong_ms: now, message_limit: state.message_limit },
            HumanSocketAction::Continue,
        ),
        HumanSocketEvent::Ping => (state, HumanSocketAction::Continue),
        HumanSocketEvent::PeerClosed => (state, HumanSocketAction::Stop),
        HumanSocketEvent::ReadFailed => (
            state,
            HumanSocketAction::Close(1009, CloseReason::MessageTooLarge),
        ),
        HumanSocketEvent::HeartbeatTick(now) => {
            let elapsed = if now >= state.last_pong_ms {
                now - state.last_pong_ms
            } else {
                0
            };
            if elapsed >= HUMAN_HEARTBEAT_TIMEOUT_MILLIS {
                (state, HumanSocketAction::Close(4006, CloseReason::SessionExpired))
            } else {
                (state, HumanSocketAction::SendPing)
            }
        },
        HumanSocketEvent::PingQueued(queued) => if queued {
            (state, HumanSocketAction::Continue)
        } else {
            (state, HumanSocketAction::Close(4005, CloseReason::SlowConsumer))
        },
    }
}

/// A player who answers pings keeps the socket: after a pong at `t`, a
/// heartbeat less than 60 seconds later sends the next ping, and one 60
/// seconds or more later closes with 4006 `session_expired`.
pub proof fn law_answered_pings_keep_the_socket(state: HumanSocketState, t: u64, now: u64)
    requires
        now >= t,
    ensures
        ({
            let after = spec_human_socket_step(state, HumanSocketEvent::Pong(t)).0;
            spec_human_socket_step(after, HumanSocketEvent::HeartbeatTick(now)).1 == if now - t
                < HUMAN_HEARTBEAT_TIMEOUT_MILLIS {
                HumanSocketAction::SendPing
            } else {
                HumanSocketAction::Close(4006, CloseReason::SessionExpired)
            }
        }),
{
}

} // verus!

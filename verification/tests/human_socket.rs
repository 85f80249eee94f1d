use double_riichi_server::human_socket::{
    close_reason_text, human_socket_step, CloseReason, HumanMessageOutcome, HumanSocketAction,
    HumanSocketEvent, HumanSocketState,
};

fn state() -> HumanSocketState {
    HumanSocketState { last_pong_ms: 1_000, message_limit: 4_096 }
}

fn action(event: HumanSocketEvent) -> HumanSocketAction {
    human_socket_step(state(), event).1
}

#[test]
fn frames_over_the_limit_and_invalid_frames_close_the_socket() {
    assert_eq!(action(HumanSocketEvent::Text(4_097)), HumanSocketAction::Close(1009, CloseReason::MessageTooLarge));
    assert_eq!(action(HumanSocketEvent::Text(4_096)), HumanSocketAction::HandleText);
    assert_eq!(action(HumanSocketEvent::Binary(5_000)), HumanSocketAction::Close(1009, CloseReason::MessageTooLarge));
    assert_eq!(action(HumanSocketEvent::Binary(10)), HumanSocketAction::Close(1008, CloseReason::InvalidMessage));
    assert_eq!(action(HumanSocketEvent::ReadFailed), HumanSocketAction::Close(1009, CloseReason::MessageTooLarge));
    assert_eq!(
        action(HumanSocketEvent::TextHandled(HumanMessageOutcome::Invalid)),
        HumanSocketAction::Close(1008, CloseReason::InvalidMessage)
    );
    assert_eq!(
        action(HumanSocketEvent::TextHandled(HumanMessageOutcome::Close("session_expired".to_string()))),
        HumanSocketAction::Close(4006, CloseReason::Given("session_expired".to_string()))
    );
    assert_eq!(action(HumanSocketEvent::TextHandled(HumanMessageOutcome::Continue)), HumanSocketAction::Continue);
}

#[test]
fn room_events_and_control_decide_the_close() {
    assert_eq!(action(HumanSocketEvent::RoomDeleted), HumanSocketAction::Close(4002, CloseReason::RoomDeleted));
    assert_eq!(action(HumanSocketEvent::ServerShutdown), HumanSocketAction::Close(4003, CloseReason::ServerShutdown));
    assert_eq!(action(HumanSocketEvent::RoomStreamEnded), HumanSocketAction::Close(4005, CloseReason::SlowConsumer));
    assert_eq!(action(HumanSocketEvent::RoomEvent), HumanSocketAction::ForwardRoomEvent);
    assert_eq!(action(HumanSocketEvent::RoomEventQueued(false)), HumanSocketAction::Close(4005, CloseReason::SlowConsumer));
    assert_eq!(action(HumanSocketEvent::RoomEventQueued(true)), HumanSocketAction::Continue);
    assert_eq!(
        action(HumanSocketEvent::ControlClose(4001, "replaced".to_string())),
        HumanSocketAction::Close(4001, CloseReason::Given("replaced".to_string()))
    );
    assert_eq!(action(HumanSocketEvent::ControlGone), HumanSocketAction::Stop);
    assert_eq!(action(HumanSocketEvent::PeerClosed), HumanSocketAction::Stop);
    assert_eq!(action(HumanSocketEvent::Ping), HumanSocketAction::Continue);
}

#[test]
fn heartbeat_expires_silent_players() {
    let (after_pong, act) = human_socket_step(state(), HumanSocketEvent::Pong(50_000));
    assert_eq!(act, HumanSocketAction::Continue);
    assert_eq!(after_pong.last_pong_ms, 50_000);
    assert_eq!(human_socket_step(after_pong, HumanSocketEvent::HeartbeatTick(109_999)).1, HumanSocketAction::SendPing);
    assert_eq!(
        human_socket_step(after_pong, HumanSocketEvent::HeartbeatTick(110_000)).1,
        HumanSocketAction::Close(4006, CloseReason::SessionExpired)
    );
    assert_eq!(human_socket_step(after_pong, HumanSocketEvent::HeartbeatTick(10)).1, HumanSocketAction::SendPing);
    assert_eq!(action(HumanSocketEvent::PingQueued(false)), HumanSocketAction::Close(4005, CloseReason::SlowConsumer));
    assert_eq!(close_reason_text(&CloseReason::SlowConsumer), "slow_consumer");
    assert_eq!(close_reason_text(&CloseReason::Given("x".to_string())), "x");
}

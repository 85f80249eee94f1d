use double_riichi_server::outbound::{
    outbound_message, output_admitted, queue_output, queue_with_capacity, Outbound, CLOSE_SLOW_CONSUMER, OUTBOUND_CAPACITY,
};
use tokio::sync::mpsc;

fn text(s: &str) -> Outbound {
    Outbound::Text(s.to_string())
}

#[test]
fn compat_full_queue_reserves_and_emits_slow_consumer_close() {
    let (sender, mut receiver) = mpsc::channel(OUTBOUND_CAPACITY + 1);
    for _ in 0..OUTBOUND_CAPACITY {
        assert!(queue_output(&sender, text("event")));
    }
    assert!(!queue_output(&sender, text("overflow")));
    match receiver.try_recv().unwrap() {
        Outbound::Text(_) => {}
        other => panic!("expected queued text before close, got {other:?}"),
    }
    for _ in 1..OUTBOUND_CAPACITY {
        assert!(matches!(receiver.try_recv(), Ok(Outbound::Text(_))));
    }
    match receiver.try_recv().unwrap() {
        Outbound::Close(code, reason) => {
            assert_eq!(code, CLOSE_SLOW_CONSUMER);
            assert_eq!(reason, "slow_consumer");
        }
        other => panic!("expected slow-consumer close, got {other:?}"),
    }
}

#[test]
fn outbound_queue_has_a_hard_capacity_and_slow_close() {
    let (sender, mut receiver) = mpsc::channel(OUTBOUND_CAPACITY + 1);
    for _ in 0..OUTBOUND_CAPACITY {
        assert!(queue_output(&sender, text("x")));
    }
    assert!(!queue_output(&sender, text("overflow")));
    for _ in 0..OUTBOUND_CAPACITY {
        assert!(matches!(receiver.try_recv(), Ok(Outbound::Text(_))));
    }
    match receiver.try_recv().unwrap() {
        Outbound::Close(code, reason) => {
            assert_eq!(code, 4005);
            assert_eq!(reason, "slow_consumer");
        }
        other => panic!("expected slow-consumer close, got {other:?}"),
    }
}

#[test]
fn close_frames_take_the_last_slot() {
    assert!(output_admitted(&Outbound::Close(1000, "bye".to_string()), 0));
    assert!(output_admitted(&Outbound::Close(1000, "bye".to_string()), 1));
    assert!(!output_admitted(&text("x"), 1));
    assert!(!output_admitted(&text("x"), 0));
    assert!(output_admitted(&text("x"), 2));

    let (sender, mut receiver) = mpsc::channel(2);
    assert!(queue_output(&sender, text("first")));
    assert!(queue_output(&sender, Outbound::Close(1000, "done".to_string())));
    assert!(matches!(receiver.try_recv(), Ok(Outbound::Text(_))));
    assert!(matches!(receiver.try_recv(), Ok(Outbound::Close(1000, _))));
}

#[test]
fn refused_text_is_not_queued_even_with_room() {
    let (sender, mut receiver) = mpsc::channel(4);
    assert!(!queue_with_capacity(&sender, text("late"), 1));
    match receiver.try_recv().unwrap() {
        Outbound::Close(code, _) => assert_eq!(code, CLOSE_SLOW_CONSUMER),
        other => panic!("expected the close frame, got {other:?}"),
    }
    assert!(receiver.try_recv().is_err());
}

#[test]
fn refused_messages_are_replaced_by_the_close_frame() {
    match outbound_message(text("late"), 1) {
        Outbound::Close(code, reason) => {
            assert_eq!(code, CLOSE_SLOW_CONSUMER);
            assert_eq!(reason, "slow_consumer");
        }
        other => panic!("expected the close frame, got {other:?}"),
    }
    assert!(matches!(outbound_message(text("kept"), 2), Outbound::Text(t) if t == "kept"));
    assert!(matches!(outbound_message(Outbound::Close(1000, "bye".to_string()), 0), Outbound::Close(1000, r) if r == "bye"));
}

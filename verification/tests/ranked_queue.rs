use double_riichi_server::ranked::{Enqueued, Filled, RankedQueue};

#[test]
fn cancelling_a_ranked_timer_advances_generation_for_old_sleepers() {
    let mut inner: RankedQueue<()> = RankedQueue::from_parts(Vec::new(), 1, true, 7, false);
    inner.cancel_ranked_timer();
    assert!(!inner.is_timer_running());
    assert_eq!(inner.generation(), 8);
    assert_eq!(inner.start_ranked_timer(0, 1), None);
}

#[test]
fn four_waiting_bots_start_at_once_when_a_slot_is_free() {
    let mut q: RankedQueue<u32> = RankedQueue::new();
    let first = q.enqueue("t1".to_string(), 1, 128, false, 0, 1).ok().unwrap();
    assert_eq!(first.0, 1);
    let Enqueued::Timer(Some(g)) = first.1 else { panic!("timer expected") };
    assert_eq!(g, 1);
    assert!(q.is_timer_running());
    for n in 2..4u32 {
        let (ticket, action) = q.enqueue(format!("t{n}"), n, 128, false, 0, 1).ok().unwrap();
        assert_eq!(ticket, n as u64);
        assert!(matches!(action, Enqueued::Timer(None)));
    }
    let (_, action) = q.enqueue("t4".to_string(), 4, 128, false, 0, 1).ok().unwrap();
    let Enqueued::Batch(batch) = action else { panic!("batch expected") };
    assert_eq!(batch.iter().map(|b| b.payload).collect::<Vec<_>>(), vec![1, 2, 3, 4]);
    assert_eq!(q.len(), 0);
    assert!(!q.is_timer_running());
    assert!(matches!(q.fill_ranked(g, false, 0, 1), Filled::Stale));
}

#[test]
fn the_queue_refuses_bots_when_full_or_shutting_down() {
    let mut q: RankedQueue<u32> = RankedQueue::new();
    assert!(q.enqueue("t".to_string(), 1, 1, false, 1, 1).is_ok());
    assert_eq!(q.enqueue("t".to_string(), 2, 1, false, 1, 1).err(), Some(2));
    assert_eq!(q.enqueue("t".to_string(), 3, 8, true, 0, 1).err(), Some(3));
    let waiting = q.shutdown();
    assert_eq!(waiting.len(), 1);
    assert_eq!(q.enqueue("t".to_string(), 4, 8, false, 0, 1).err(), Some(4));
    assert_eq!(q.validation_ticket(false, 0, 1), None);
}

#[test]
fn the_fill_timer_starts_whoever_waits_or_stops() {
    let mut q: RankedQueue<u32> = RankedQueue::new();
    let (_, action) = q.enqueue("a".to_string(), 1, 8, false, 0, 1).ok().unwrap();
    let Enqueued::Timer(Some(g)) = action else { panic!("timer expected") };
    q.enqueue("b".to_string(), 2, 8, false, 0, 1).ok().unwrap();
    assert!(matches!(q.fill_ranked(g, false, 1, 1), Filled::Blocked));
    assert_eq!(q.generation(), g + 1);
    assert!(matches!(q.fill_ranked(g, false, 0, 1), Filled::Stale));
    let g2 = q.start_ranked_timer(0, 1).unwrap();
    let Filled::Batch(batch) = q.fill_ranked(g2, false, 0, 1) else { panic!("batch expected") };
    assert_eq!(batch.len(), 2);
    assert_eq!(q.len(), 0);
    assert!(matches!(q.fill_ranked(q.generation(), false, 0, 1), Filled::Idle));
}

#[test]
fn waiting_bots_leave_by_ticket_or_revoked_token() {
    let mut q: RankedQueue<u32> = RankedQueue::new();
    for (n, token) in [(1u32, "a"), (2, "b"), (3, "a")] {
        q.enqueue(token.to_string(), n, 8, false, 1, 1).ok().unwrap();
    }
    assert_eq!(q.cancel_waiting(2).map(|b| b.payload), Some(2));
    assert!(q.cancel_waiting(2).is_none());
    let revoked = q.revoke_waiting("a");
    assert_eq!(revoked.iter().map(|b| b.payload).collect::<Vec<_>>(), vec![1, 3]);
    assert_eq!(q.len(), 0);
    assert!(!q.is_timer_running());
    assert_eq!(q.validation_ticket(false, 0, 1), Some(4));
}

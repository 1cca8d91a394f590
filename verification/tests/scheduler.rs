use appscale_core::scheduler::{Priority, WorkQueue, MAX_COALESCE_COUNT};

#[test]
fn test_priority_ordering() {
    let mut q: WorkQueue<u64> = WorkQueue::new();

    q.enqueue(1, Priority::Normal);
    q.enqueue(2, Priority::Immediate);
    q.enqueue(3, Priority::Low);

    let batches = q.drain_frame();
    assert_eq!(batches.len(), 1);
    assert_eq!(batches[0], 2);

    let batches = q.drain_frame();
    assert!(batches.iter().any(|b| *b == 1));
}

#[test]
fn user_blocking_items_drain_together() {
    let mut q: WorkQueue<u64> = WorkQueue::new();
    q.enqueue(1, Priority::UserBlocking);
    q.enqueue(2, Priority::Normal);
    q.enqueue(3, Priority::UserBlocking);
    assert_eq!(q.drain_frame(), vec![1, 3]);
    assert_eq!(q.drain_frame(), vec![2]);
    assert!(!q.has_pending_work());
    assert!(q.drain_frame().is_empty());
}

#[test]
fn coalescing_is_capped() {
    let mut q: WorkQueue<usize> = WorkQueue::new();
    for i in 0..11 {
        q.enqueue(i, Priority::Low);
    }
    let first = q.drain_frame();
    assert_eq!(first.len(), MAX_COALESCE_COUNT);
    assert_eq!(first, (0..8).collect::<Vec<_>>());
    assert_eq!(q.drain_frame(), vec![8, 9, 10]);
}

#[test]
fn first_come_first_served_within_a_lane() {
    let mut q: WorkQueue<u64> = WorkQueue::new();
    q.enqueue(10, Priority::Idle);
    q.enqueue(11, Priority::Normal);
    q.enqueue(12, Priority::Normal);
    q.enqueue(13, Priority::Immediate);
    q.enqueue(14, Priority::Normal);
    assert_eq!(q.len(), 5);
    assert_eq!(q.drain_frame(), vec![13]);
    assert_eq!(q.drain_frame(), vec![11, 12, 14]);
    assert_eq!(q.drain_frame(), vec![10]);
}

#[test]
fn idle_work_waits_until_nothing_else_is_pending() {
    let mut q: WorkQueue<u64> = WorkQueue::new();
    q.enqueue(1, Priority::Idle);
    q.enqueue(2, Priority::Low);
    q.enqueue(3, Priority::Idle);
    q.enqueue(4, Priority::Normal);
    assert_eq!(q.drain_frame(), vec![4, 2]);
    assert_eq!(q.drain_frame(), vec![1, 3]);
    assert!(!q.has_pending_work());
}

#[test]
fn priority_ranks() {
    assert_eq!(Priority::Immediate.rank(), 0);
    assert_eq!(Priority::UserBlocking.rank(), 1);
    assert_eq!(Priority::Normal.rank(), 2);
    assert_eq!(Priority::Low.rank(), 3);
    assert_eq!(Priority::Idle.rank(), 4);
    assert!(Priority::Immediate < Priority::Idle);
}

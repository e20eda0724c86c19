use consult_queue::Queue;
use consult_queue::QueueError;
use consult_queue::RequesterId;

fn rid(value: u64) -> RequesterId {
    RequesterId { value }
}

fn enqueue(q: &mut Queue, id: u64, name: &str, note: &str, at: u64) -> Result<usize, QueueError> {
    q.enqueue(rid(id), String::from(name), String::from(note), at)
}

#[test]
fn empty_list_is_empty() {
    let q = Queue::new();
    assert!(q.list_all().is_empty());
    assert_eq!(q.len(), 0);
}

#[test]
fn enqueue_returns_one_based_position() {
    let mut q = Queue::new();
    assert_eq!(enqueue(&mut q, 10, "Ana", "", 1), Ok(1));
    assert_eq!(enqueue(&mut q, 11, "Ben", "laser lab", 2), Ok(2));
    assert_eq!(enqueue(&mut q, 12, "Cid", "", 3), Ok(3));
    assert_eq!(q.len(), 3);
}

#[test]
fn duplicate_enqueue_rejected() {
    let mut q = Queue::new();
    assert_eq!(enqueue(&mut q, 42, "Ana", "first", 1), Ok(1));
    assert_eq!(
        enqueue(&mut q, 42, "Ana", "second", 2),
        Err(QueueError::AlreadyQueued)
    );
    let entries = q.list_all();
    assert_eq!(entries.len(), 1);
    assert_eq!(entries[0].requester.value, 42);
    assert_eq!(entries[0].note, "first");
    assert_eq!(entries[0].created_at, 1);
}

#[test]
fn fifo_positions_follow_arrival_order() {
    let mut q = Queue::new();
    enqueue(&mut q, 1, "A", "", 10).unwrap();
    enqueue(&mut q, 2, "B", "", 20).unwrap();
    enqueue(&mut q, 3, "C", "", 30).unwrap();
    assert_eq!(q.position_of(rid(1)), Ok(1));
    assert_eq!(q.position_of(rid(2)), Ok(2));
    assert_eq!(q.position_of(rid(3)), Ok(3));
}

#[test]
fn withdraw_shifts_later_positions() {
    let mut q = Queue::new();
    enqueue(&mut q, 1, "A", "", 10).unwrap();
    enqueue(&mut q, 2, "B", "", 20).unwrap();
    enqueue(&mut q, 3, "C", "", 30).unwrap();
    assert_eq!(q.withdraw(rid(2)), Ok(()));
    assert_eq!(q.position_of(rid(1)), Ok(1));
    assert_eq!(q.position_of(rid(3)), Ok(2));
    assert_eq!(q.position_of(rid(2)), Err(QueueError::NotQueued));
}

#[test]
fn withdraw_absent_fails_and_is_idempotent_in_effect() {
    let mut q = Queue::new();
    assert_eq!(q.withdraw(rid(5)), Err(QueueError::NotQueued));
    enqueue(&mut q, 5, "E", "", 1).unwrap();
    assert_eq!(q.withdraw(rid(5)), Ok(()));
    assert_eq!(q.withdraw(rid(5)), Err(QueueError::NotQueued));
    assert_eq!(q.withdraw(rid(5)), Err(QueueError::NotQueued));
}

#[test]
fn position_of_absent_fails() {
    let q = Queue::new();
    assert_eq!(q.position_of(rid(9)), Err(QueueError::NotQueued));
}

#[test]
fn admin_remove_absent_leaves_store_unchanged() {
    let mut q = Queue::new();
    enqueue(&mut q, 1, "A", "", 10).unwrap();
    enqueue(&mut q, 2, "B", "", 20).unwrap();
    assert_eq!(q.admin_remove(rid(7)), Err(QueueError::NotFound));
    let entries = q.list_all();
    assert_eq!(entries.len(), 2);
    assert_eq!(entries[0].requester.value, 1);
    assert_eq!(entries[1].requester.value, 2);
}

#[test]
fn admin_remove_takes_exactly_one_entry() {
    let mut q = Queue::new();
    enqueue(&mut q, 1, "A", "", 10).unwrap();
    enqueue(&mut q, 2, "B", "", 20).unwrap();
    enqueue(&mut q, 3, "C", "", 30).unwrap();
    assert_eq!(q.admin_remove(rid(2)), Ok(()));
    let entries = q.list_all();
    assert_eq!(entries.len(), 2);
    assert_eq!(entries[0].requester.value, 1);
    assert_eq!(entries[1].requester.value, 3);
    assert!(q.is_queued(rid(1)));
    assert!(!q.is_queued(rid(2)));
    assert!(q.is_queued(rid(3)));
}

#[test]
fn admin_remove_text_validates_the_identity() {
    let mut q = Queue::new();
    enqueue(&mut q, 123, "A", "", 10).unwrap();
    assert_eq!(q.admin_remove_text(""), Err(QueueError::InvalidArgument));
    assert_eq!(q.admin_remove_text("12a"), Err(QueueError::InvalidArgument));
    assert_eq!(q.admin_remove_text("-123"), Err(QueueError::InvalidArgument));
    assert_eq!(
        q.admin_remove_text("18446744073709551616"),
        Err(QueueError::InvalidArgument)
    );
    assert_eq!(q.len(), 1);
    assert_eq!(q.admin_remove_text("124"), Err(QueueError::NotFound));
    assert_eq!(q.admin_remove_text("123"), Ok(()));
    assert_eq!(q.len(), 0);
}

#[test]
fn listing_count_tracks_successful_calls() {
    let mut q = Queue::new();
    let mut ok_enqueues = 0usize;
    let mut ok_removals = 0usize;

    let enq: [u64; 6] = [1, 2, 2, 3, 1, 4];
    let rem: [u64; 4] = [2, 2, 5, 1];
    for id in enq {
        if enqueue(&mut q, id, "N", "", id).is_ok() {
            ok_enqueues += 1;
        }
    }
    for id in rem {
        if q.withdraw(rid(id)).is_ok() {
            ok_removals += 1;
        }
    }
    if q.admin_remove(rid(3)).is_ok() {
        ok_removals += 1;
    }
    if q.admin_remove(rid(3)).is_ok() {
        ok_removals += 1;
    }
    assert_eq!(ok_enqueues, 4);
    assert_eq!(ok_removals, 3);
    assert_eq!(q.list_all().len(), ok_enqueues - ok_removals);
}

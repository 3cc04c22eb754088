use delete_log::delete_queue::DeleteQueue;
use delete_log::operation::DeleteOperation;

fn make_op(i: u64) -> DeleteOperation<u64> {
    DeleteOperation { opstamp: i, target: i }
}

#[test]
fn test_deletequeue() {
    let mut delete_queue: DeleteQueue<u64> = DeleteQueue::new();

    delete_queue.push(make_op(1));
    delete_queue.push(make_op(2));

    let snapshot = delete_queue.cursor();
    {
        let mut operations_it = snapshot.fork(&mut delete_queue);
        assert_eq!(operations_it.get(&mut delete_queue).unwrap().opstamp, 1);
        operations_it.advance(&mut delete_queue);
        assert_eq!(operations_it.get(&mut delete_queue).unwrap().opstamp, 2);
        operations_it.advance(&mut delete_queue);
        assert!(operations_it.get(&mut delete_queue).is_none());
        operations_it.advance(&mut delete_queue);

        let mut snapshot2 = delete_queue.cursor();
        assert!(snapshot2.get(&mut delete_queue).is_none());
        delete_queue.push(make_op(3));
        assert_eq!(snapshot2.get(&mut delete_queue).unwrap().opstamp, 3);
        assert_eq!(operations_it.get(&mut delete_queue).unwrap().opstamp, 3);
        assert_eq!(operations_it.get(&mut delete_queue).unwrap().opstamp, 3);
        operations_it.advance(&mut delete_queue);
        assert!(operations_it.get(&mut delete_queue).is_none());
        operations_it.advance(&mut delete_queue);
        operations_it.release(&mut delete_queue);
        snapshot2.release(&mut delete_queue);
    }
    {
        let mut operations_it = snapshot;
        assert_eq!(operations_it.get(&mut delete_queue).unwrap().opstamp, 1);
        operations_it.advance(&mut delete_queue);
        assert_eq!(operations_it.get(&mut delete_queue).unwrap().opstamp, 2);
        operations_it.advance(&mut delete_queue);
        assert_eq!(operations_it.get(&mut delete_queue).unwrap().opstamp, 3);
        operations_it.advance(&mut delete_queue);
        assert!(operations_it.get(&mut delete_queue).is_none());
    }
}

#[test]
fn cursor_observes_push_order() {
    let mut queue: DeleteQueue<u64> = DeleteQueue::new();
    let mut cursor = queue.cursor();
    for i in 10..20u64 {
        queue.push(make_op(i));
    }
    let mut seen: Vec<u64> = Vec::new();
    while let Some(operation) = cursor.get(&mut queue) {
        seen.push(operation.opstamp);
        cursor.advance(&mut queue);
    }
    assert_eq!(seen, (10..20u64).collect::<Vec<u64>>());
}

#[test]
fn cursor_after_materialization_sees_only_later_ops() {
    let mut queue: DeleteQueue<u64> = DeleteQueue::new();
    let mut drain = queue.cursor();
    queue.push(make_op(1));
    queue.push(make_op(2));
    // Materialize operations 1 and 2 by consuming them.
    while drain.advance(&mut queue) {}
    let mut cursor = queue.cursor();
    assert!(cursor.get(&mut queue).is_none());
    queue.push(make_op(3));
    assert_eq!(cursor.get(&mut queue).unwrap().opstamp, 3);
}

#[test]
fn forked_cursors_are_independent() {
    let mut queue: DeleteQueue<u64> = DeleteQueue::new();
    queue.push(make_op(1));
    queue.push(make_op(2));
    let snapshot = queue.cursor();
    let mut a = snapshot.fork(&mut queue);
    let mut b = snapshot.fork(&mut queue);
    assert_eq!(a.get(&mut queue).unwrap().opstamp, 1);
    a.advance(&mut queue);
    assert_eq!(a.get(&mut queue).unwrap().opstamp, 2);
    a.advance(&mut queue);
    assert!(a.get(&mut queue).is_none());
    queue.push(make_op(3));
    assert_eq!(a.get(&mut queue).unwrap().opstamp, 3);
    assert_eq!(b.get(&mut queue).unwrap().opstamp, 1);
}

#[test]
fn skip_to_lands_on_first_at_or_above_target() {
    let mut queue: DeleteQueue<u64> = DeleteQueue::new();
    let mut cursor = queue.cursor();
    for i in [1u64, 2, 3, 7, 9] {
        queue.push(make_op(i));
    }
    cursor.skip_to(&mut queue, 5);
    assert_eq!(cursor.get(&mut queue).unwrap().opstamp, 7);
    // A target already passed is a no-op.
    cursor.skip_to(&mut queue, 1);
    assert_eq!(cursor.get(&mut queue).unwrap().opstamp, 7);
    // Skipping past everything exhausts the log.
    cursor.skip_to(&mut queue, 100);
    assert!(cursor.get(&mut queue).is_none());
}

#[test]
fn interleaved_producers_lose_and_duplicate_nothing() {
    let mut queue: DeleteQueue<u64> = DeleteQueue::new();
    let mut cursor = queue.cursor();
    let mut pushed: u64 = 0;
    let mut consumed: u64 = 0;
    let mut opstamp: u64 = 0;
    for round in 0..50usize {
        // Two producers take turns pushing bursts of different sizes.
        for _ in 0..(round % 4) {
            queue.push(make_op(opstamp));
            opstamp += 1;
            pushed += 1;
        }
        for _ in 0..(round % 3) {
            queue.push(make_op(opstamp));
            opstamp += 1;
            pushed += 1;
        }
        // The consumer drains a little, not necessarily everything.
        for _ in 0..(round % 5) {
            if cursor.advance(&mut queue) {
                consumed += 1;
            }
        }
    }
    while cursor.advance(&mut queue) {
        consumed += 1;
    }
    assert_eq!(consumed, pushed);
}

#[test]
fn consumed_history_is_reclaimed() {
    let mut queue: DeleteQueue<u64> = DeleteQueue::new();
    let mut cursor = queue.cursor();
    for batch in 0..100u64 {
        for i in 0..10u64 {
            queue.push(make_op(batch * 10 + i));
        }
        // Draining materializes the batch into a block and moves the only
        // cursor past all earlier blocks, which reclaims them.
        while cursor.advance(&mut queue) {}
        assert!(queue.retained_blocks() <= 2);
    }
    // With the last cursor released, nothing retains any history.
    cursor.release(&mut queue);
    assert_eq!(queue.retained_blocks(), 0);
}

#[test]
fn empty_queue_cursor_is_retryable() {
    let mut queue: DeleteQueue<u64> = DeleteQueue::new();
    let mut cursor = queue.cursor();
    assert!(cursor.get(&mut queue).is_none());
    assert!(cursor.get(&mut queue).is_none());
    queue.push(make_op(42));
    assert_eq!(cursor.get(&mut queue).unwrap().opstamp, 42);
}

#[test]
fn drain_observes_everything_in_push_order() {
    let mut queue: DeleteQueue<u64> = DeleteQueue::new();
    let mut cursor = queue.cursor();
    for i in 0..5u64 {
        queue.push(make_op(i));
    }
    assert_eq!(cursor.drain_opstamps(&mut queue), vec![0, 1, 2, 3, 4]);
    // A drained cursor has nothing more until another push.
    assert!(cursor.drain_opstamps(&mut queue).is_empty());
    queue.push(make_op(5));
    assert_eq!(cursor.drain_opstamps(&mut queue), vec![5]);
}

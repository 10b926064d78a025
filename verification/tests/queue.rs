use message_broker::queue::Queue;

#[test]
fn new_queue_is_empty() {
    let q: Queue<u32> = Queue::new();
    assert!(q.is_empty());
    assert_eq!(q.size(), 0);
}

#[test]
fn default_queue_is_empty() {
    let q: Queue<String> = Queue::default();
    assert!(q.is_empty());
    assert_eq!(q.size(), 0);
}

#[test]
fn items_leave_in_arrival_order() {
    let mut q = Queue::new();
    q.enqueue(1);
    q.enqueue(2);
    q.enqueue(3);
    assert_eq!(q.size(), 3);
    assert_eq!(q.dequeue(), Some(1));
    assert_eq!(q.dequeue(), Some(2));
    assert_eq!(q.dequeue(), Some(3));
    assert!(q.is_empty());
}

#[test]
fn enqueue_after_dequeue_goes_to_the_back() {
    let mut q = Queue::new();
    q.enqueue("a");
    q.enqueue("b");
    assert_eq!(q.dequeue(), Some("a"));
    q.enqueue("c");
    assert_eq!(q.size(), 2);
    assert!(!q.is_empty());
    assert_eq!(q.dequeue(), Some("b"));
    assert_eq!(q.dequeue(), Some("c"));
    assert_eq!(q.size(), 0);
}

#[test]
fn single_item_round_trip_empties_the_queue() {
    let mut q = Queue::new();
    q.enqueue(String::from("x"));
    assert_eq!(q.dequeue(), Some(String::from("x")));
    assert!(q.is_empty());
}

#[test]
fn interleaved_run_keeps_last_items_in_order() {
    let mut q = Queue::new();
    q.enqueue(1);
    q.enqueue(2);
    q.enqueue(3);
    assert_eq!(q.dequeue(), Some(1));
    q.enqueue(4);
    assert_eq!(q.dequeue(), Some(2));
    q.enqueue(5);
    // 5 enqueues, 2 dequeues: the last 3 items, in order.
    assert_eq!(q.size(), 3);
    assert!(!q.is_empty());
    assert_eq!(q.dequeue(), Some(3));
    assert_eq!(q.dequeue(), Some(4));
    assert_eq!(q.dequeue(), Some(5));
    assert!(q.is_empty());
}

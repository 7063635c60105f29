use emberone_control::queue::{DispatchQueue, DISPATCH_CAPACITY};

#[test]
fn session_queue_holds_eight() {
    assert_eq!(DISPATCH_CAPACITY, 8);
    let queue: DispatchQueue<u32> = DispatchQueue::new(DISPATCH_CAPACITY);
    assert_eq!(queue.capacity(), 8);
    assert_eq!(queue.len(), 0);
    assert!(queue.is_empty());
    assert!(!queue.is_full());
}

#[test]
fn third_command_waits_in_a_queue_of_two() {
    let mut queue: DispatchQueue<&str> = DispatchQueue::new(2);
    assert_eq!(queue.try_enqueue("first"), Ok(()));
    assert_eq!(queue.try_enqueue("second"), Ok(()));
    assert!(queue.is_full());
    assert_eq!(queue.try_enqueue("third"), Err("third"));
    assert_eq!(queue.try_enqueue("third"), Err("third"));
    assert_eq!(queue.len(), 2);
    assert_eq!(queue.try_dequeue(), Some("first"));
    assert_eq!(queue.try_enqueue("third"), Ok(()));
    assert_eq!(queue.try_dequeue(), Some("second"));
    assert_eq!(queue.try_dequeue(), Some("third"));
    assert_eq!(queue.try_dequeue(), None);
}

#[test]
fn order_is_kept() {
    let mut queue: DispatchQueue<u32> = DispatchQueue::new(8);
    for n in 0..8 {
        assert_eq!(queue.try_enqueue(n), Ok(()));
    }
    assert_eq!(queue.try_enqueue(8), Err(8));
    for n in 0..8 {
        assert_eq!(queue.try_dequeue(), Some(n));
    }
    assert!(queue.is_empty());
}

#[test]
fn interleaved_use_keeps_order() {
    let mut queue: DispatchQueue<u32> = DispatchQueue::new(3);
    let mut next_in = 0;
    let mut next_out = 0;
    for round in 0..50 {
        for _ in 0..(round % 4) {
            if queue.try_enqueue(next_in).is_ok() {
                next_in += 1;
            }
        }
        for _ in 0..(round % 3) {
            if let Some(n) = queue.try_dequeue() {
                assert_eq!(n, next_out);
                next_out += 1;
            }
        }
        assert!(queue.len() <= 3);
        assert_eq!(queue.len() as u32, next_in - next_out);
    }
}

#[test]
fn empty_queue_gives_nothing() {
    let mut queue: DispatchQueue<u8> = DispatchQueue::new(1);
    assert_eq!(queue.try_dequeue(), None);
    assert_eq!(queue.try_enqueue(1), Ok(()));
    assert_eq!(queue.try_enqueue(2), Err(2));
    assert_eq!(queue.try_dequeue(), Some(1));
    assert_eq!(queue.try_dequeue(), None);
}

#[test]
fn queue_without_room_refuses_everything() {
    let mut queue: DispatchQueue<u8> = DispatchQueue::new(0);
    assert!(queue.is_full());
    assert!(queue.is_empty());
    assert_eq!(queue.try_enqueue(1), Err(1));
    assert_eq!(queue.try_dequeue(), None);
}

use scheduler::ready_queue::{ReadyEntry, ReadyQueue};

#[test]
fn test_ready_queue_fifo() {
    let mut q = ReadyQueue::new();
    q.push(ReadyEntry {
        pri: 10,
        seq: 0,
        tid: 1,
    });
    q.push(ReadyEntry {
        pri: 10,
        seq: 1,
        tid: 2,
    });
    assert_eq!(q.len(), 2);
    assert_eq!(q.pop(), Some(1));
    assert_eq!(q.pop(), Some(2));
    assert!(q.is_empty());
}

#[test]
fn test_ready_queue_no_duplicates() {
    let mut q = ReadyQueue::new();
    q.push(ReadyEntry {
        pri: 10,
        seq: 0,
        tid: 1,
    });
    q.push(ReadyEntry {
        pri: 10,
        seq: 1,
        tid: 1,
    });
    assert_eq!(q.len(), 1);
    assert_eq!(q.pop(), Some(1));
    assert!(q.is_empty());
}

#[test]
fn ready_queue_fifo_and_dedup() {
    let mut q = ReadyQueue::new();
    q.push(ReadyEntry { pri: 10, seq: 0, tid: 1 });
    q.push(ReadyEntry { pri: 10, seq: 1, tid: 2 });
    q.push(ReadyEntry { pri: 10, seq: 2, tid: 1 });
    assert_eq!(q.len(), 2);
    assert_eq!(q.pop(), Some(1));
    assert_eq!(q.pop(), Some(2));
    assert!(q.is_empty());
    assert_eq!(q.pop(), None);
}

#[test]
fn push_of_present_id_keeps_len() {
    let mut q = ReadyQueue::new();
    q.push(ReadyEntry { pri: 3, seq: 0, tid: 7 });
    assert!(q.contains(7));
    assert!(!q.contains(8));
    q.push(ReadyEntry { pri: 0, seq: 1, tid: 7 });
    assert_eq!(q.len(), 1);
}

#[test]
fn lower_priority_value_pops_first() {
    let mut q = ReadyQueue::new();
    q.push(ReadyEntry { pri: 20, seq: 0, tid: 1 });
    q.push(ReadyEntry { pri: 5, seq: 1, tid: 2 });
    q.push(ReadyEntry { pri: 10, seq: 2, tid: 3 });
    assert_eq!(q.pop(), Some(2));
    assert_eq!(q.pop(), Some(3));
    assert_eq!(q.pop(), Some(1));
}

#[test]
fn equal_priority_pops_by_arrival() {
    let mut q = ReadyQueue::new();
    q.push(ReadyEntry { pri: 4, seq: 9, tid: 1 });
    q.push(ReadyEntry { pri: 4, seq: 3, tid: 2 });
    q.push(ReadyEntry { pri: 4, seq: 5, tid: 3 });
    assert_eq!(q.pop(), Some(2));
    assert_eq!(q.pop(), Some(3));
    assert_eq!(q.pop(), Some(1));
}

#[test]
fn force_push_allows_duplicates() {
    let mut q = ReadyQueue::new();
    q.push(ReadyEntry { pri: 10, seq: 0, tid: 1 });
    q.force_push(ReadyEntry { pri: 10, seq: 1, tid: 1 });
    assert_eq!(q.len(), 2);
    assert_eq!(q.pop(), Some(1));
    assert!(!q.contains(1));
    assert_eq!(q.pop(), Some(1));
    assert!(q.is_empty());
}

#[test]
fn popped_id_can_be_pushed_again() {
    let mut q = ReadyQueue::new();
    q.push(ReadyEntry { pri: 1, seq: 0, tid: 4 });
    assert_eq!(q.pop(), Some(4));
    assert!(!q.contains(4));
    q.push(ReadyEntry { pri: 1, seq: 1, tid: 4 });
    assert_eq!(q.len(), 1);
}

#[test]
fn precedes_orders_by_priority_then_arrival() {
    let a = ReadyEntry { pri: 1, seq: 5, tid: 1 };
    let b = ReadyEntry { pri: 2, seq: 0, tid: 2 };
    let c = ReadyEntry { pri: 1, seq: 6, tid: 3 };
    assert!(a.precedes(&b));
    assert!(!b.precedes(&a));
    assert!(a.precedes(&c));
    assert!(!c.precedes(&a));
    assert!(!a.precedes(&a));
}

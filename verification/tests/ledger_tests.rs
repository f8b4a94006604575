use tbc_engine::ledger::LedgerQueue;
use tbc_engine::types::{IuocId, Tick};

#[test]
fn due_changes_come_out_in_key_order() {
    let mut q = LedgerQueue::new();
    q.enqueue(IuocId(1), 10, Tick(20), 2);
    q.enqueue(IuocId(2), 11, Tick(10), 5);
    q.enqueue(IuocId(3), 12, Tick(10), 1);
    q.enqueue(IuocId(4), 13, Tick(30), 0);
    assert_eq!(q.pending_count(), 4);
    let due = q.take_due(Tick(20));
    let ids: Vec<u128> = due.iter().map(|d| d.action_id).collect();
    assert_eq!(ids, vec![1, 5, 2]);
    assert_eq!(due[0].actor, IuocId(3));
    assert_eq!(q.pending_count(), 1);
    assert!(q.take_due(Tick(29)).is_empty());
    assert_eq!(q.take_due(Tick(30)).len(), 1);
    assert_eq!(q.pending_count(), 0);
}

#[test]
fn same_key_replaces() {
    let mut q = LedgerQueue::new();
    q.enqueue(IuocId(1), 0.1f32.to_bits(), Tick(5), 9);
    q.enqueue(IuocId(2), 0.2f32.to_bits(), Tick(5), 9);
    assert_eq!(q.pending_count(), 1);
    let due = q.take_due(Tick(5));
    assert_eq!(due.len(), 1);
    assert_eq!(due[0].actor, IuocId(2));
    assert_eq!(f32::from_bits(due[0].delta_bits), 0.2);
}

use life_relay::Cell;
use life_relay::Holder;
use life_relay::OwnedCells;

fn frame(n: usize) -> OwnedCells {
    vec![vec![Cell::Living; n]]
}

#[test]
fn new_buffer_is_empty() {
    let h = Holder::new(4);
    assert_eq!(h.len(), 0);
    assert_eq!(h.capacity(), 4);
}

#[test]
fn eviction_bound_keeps_last_max_frames() {
    // Depositing MAX + k frames with no drains: the length never exceeds
    // MAX, and the buffer then holds exactly the last MAX deposits in
    // deposit order.
    let mut h = Holder::new(3);
    for n in 1..=5 {
        h.deposit(frame(n));
        assert!(h.len() <= 3);
    }
    assert_eq!(h.len(), 3);
    assert_eq!(h.drain_one(), Some(frame(3)));
    assert_eq!(h.drain_one(), Some(frame(4)));
    assert_eq!(h.drain_one(), Some(frame(5)));
    assert_eq!(h.drain_one(), None);
}

#[test]
fn drain_ordering_skips_only_evicted() {
    // An interleaving of deposits and drains: frames come back in deposit
    // order, and the only frame missing is the one evicted under overflow.
    let mut h = Holder::new(2);
    h.deposit(frame(1));
    h.deposit(frame(2));
    assert_eq!(h.drain_one(), Some(frame(1)));
    h.deposit(frame(3));
    h.deposit(frame(4));
    // Buffer was [2, 3] at capacity; depositing 4 evicts 2, the oldest.
    assert_eq!(h.drain_one(), Some(frame(3)));
    assert_eq!(h.drain_one(), Some(frame(4)));
    assert_eq!(h.drain_one(), None);
}

#[test]
fn empty_drain_is_noop() {
    let mut h = Holder::new(3);
    assert_eq!(h.len(), 0);
    assert_eq!(h.drain_one(), None);
    assert_eq!(h.len(), 0);
}

#[test]
fn relay_scenario_max_two() {
    // With MAX = 2, depositing F1, F2, F3 in order with no drains leaves
    // [F2, F3]; a drain then returns F2, leaving [F3].
    let mut h = Holder::new(2);
    h.deposit(frame(1));
    h.deposit(frame(2));
    h.deposit(frame(3));
    assert_eq!(h.len(), 2);
    assert_eq!(h.drain_one(), Some(frame(2)));
    assert_eq!(h.len(), 1);
    assert_eq!(h.drain_one(), Some(frame(3)));
    assert_eq!(h.drain_one(), None);
}

#[test]
fn deposit_at_capacity_keeps_newest() {
    // Latest-biased eviction: the newly produced frame is never the one
    // dropped.
    let mut h = Holder::new(1);
    h.deposit(frame(1));
    h.deposit(frame(2));
    assert_eq!(h.len(), 1);
    assert_eq!(h.drain_one(), Some(frame(2)));
}

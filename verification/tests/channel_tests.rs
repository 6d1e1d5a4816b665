use pipe_exec_layer::channel::{Barrier, IdChannel, NotifyOutcome};
use pipe_exec_layer::types::Bytes32;

fn id(n: u128) -> Bytes32 {
    Bytes32 { hi: n, lo: n + 1 }
}

#[test]
fn notify_then_wait_observes_the_value() {
    let mut b: Barrier<u64> = Barrier::new();
    assert!(b.get(7).is_none());
    assert_eq!(b.notify(7, 42), NotifyOutcome::Published);
    assert_eq!(b.get(7), Some(&42));
    // The value persists: a second observer sees the same value.
    assert_eq!(b.get(7), Some(&42));
    assert!(b.get(8).is_none());
}

#[test]
fn second_notify_on_a_key_is_a_duplicate() {
    let mut b: Barrier<u64> = Barrier::new();
    assert_eq!(b.notify(3, 1), NotifyOutcome::Published);
    assert_eq!(b.notify(3, 2), NotifyOutcome::Duplicate);
    // The first value stands.
    assert_eq!(b.get(3), Some(&1));
}

#[test]
fn seeded_channel_resolves_waits_immediately() {
    let b: Barrier<&str> = Barrier::new_with_states(vec![(10, "seed")]);
    assert_eq!(b.get(10), Some(&"seed"));
    assert!(b.get(11).is_none());
}

#[test]
fn close_resolves_every_wait() {
    let mut b: Barrier<u64> = Barrier::new();
    assert_eq!(b.notify(1, 11), NotifyOutcome::Published);
    b.close();
    assert!(b.is_closed());
    // Published values persist; unpublished keys resolve to the closed
    // sentinel rather than suspending.
    assert_eq!(b.get(1), Some(&11));
    assert!(b.get(2).is_none());
    // Notifies after close are refused.
    assert_eq!(b.notify(2, 22), NotifyOutcome::Closed);
    assert!(b.get(2).is_none());
}

#[test]
fn id_channel_round_trips_hashes() {
    let mut c = IdChannel::new();
    let block_id = id(100);
    let hash = id(200);
    assert!(c.get(block_id).is_none());
    assert_eq!(c.notify(block_id, hash), NotifyOutcome::Published);
    assert_eq!(c.get(block_id), Some(hash));
    assert_eq!(c.notify(block_id, id(300)), NotifyOutcome::Duplicate);
    assert_eq!(c.get(block_id), Some(hash));
}

#[test]
fn id_channel_close_is_irrevocable() {
    let mut c = IdChannel::new();
    c.close();
    assert!(c.is_closed());
    assert_eq!(c.notify(id(1), id(2)), NotifyOutcome::Closed);
    assert!(c.get(id(1)).is_none());
}

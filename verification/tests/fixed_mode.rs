use shmem_queue::sync::Role;
use shmem_queue::{ShmemEndpoint, ShmemSettings};

fn settings(size: usize) -> ShmemSettings {
    ShmemSettings { name: String::from("/shmem-queue-test"), size }
}

#[test]
fn fixed_scenario_capacity_four() {
    // Capacity 4, 8-byte integer elements: fill, drain in order, then the
    // blocked fifth produce goes through once one consume has fired.
    let mut e: ShmemEndpoint<u64> = ShmemEndpoint::new(settings(4), Role::Producer, 0);
    assert_eq!(e.capacity(), 4);
    assert_eq!(e.occupancy(), 0);
    assert!(e.is_empty());

    assert!(e.produce(0)); // empty -> nonempty edge wakes the consumer
    assert!(!e.produce(1));
    assert!(!e.produce(2));
    assert!(!e.produce(3));
    assert!(e.is_full());
    assert_eq!(e.occupancy(), 4);
    // A fifth produce would have to block here: the producer's gate holds.

    let (v, wake) = e.consume();
    assert_eq!(v, 0);
    assert!(wake); // full -> not-full edge wakes the producer
    let (v, wake) = e.consume();
    assert_eq!(v, 1);
    assert!(!wake);
    assert_eq!(e.consume().0, 2);
    assert_eq!(e.consume().0, 3);
    assert_eq!(e.occupancy(), 0);
    assert!(e.is_empty());

    // The fifth value, once space exists.
    assert!(e.produce(4));
    assert_eq!(e.consume().0, 4);
}

#[test]
fn fixed_fifo_order() {
    let mut e: ShmemEndpoint<u32> = ShmemEndpoint::new(settings(8), Role::Producer, 0);
    for i in 0..8u32 {
        e.produce(i * 10);
    }
    for i in 0..8u32 {
        assert_eq!(e.consume().0, i * 10);
    }
}

#[test]
fn fixed_wrap_reuses_slots() {
    // Writing capacity + 2 elements: the cursor wraps modulo the capacity
    // and the tail comes back in order, with no off-by-one.
    let mut e: ShmemEndpoint<u64> = ShmemEndpoint::new(settings(4), Role::Producer, 0);
    e.produce(0);
    e.produce(1);
    e.produce(2);
    e.produce(3);
    assert_eq!(e.consume().0, 0);
    assert_eq!(e.consume().0, 1);
    e.produce(4);
    e.produce(5);
    assert_eq!(e.consume().0, 2);
    assert_eq!(e.consume().0, 3);
    assert_eq!(e.consume().0, 4);
    assert_eq!(e.consume().0, 5);
    assert_eq!(e.occupancy(), 0);
}

#[test]
fn fixed_occupancy_stays_bounded() {
    let mut e: ShmemEndpoint<u16> = ShmemEndpoint::new(settings(3), Role::Producer, 0);
    let mut expected: u32 = 0;
    for round in 0..4u16 {
        while !e.is_full() {
            e.produce(round);
            expected += 1;
            assert_eq!(e.occupancy(), expected);
            assert!(e.occupancy() <= e.capacity());
        }
        while !e.is_empty() {
            let (v, _) = e.consume();
            assert_eq!(v, round);
            expected -= 1;
            assert_eq!(e.occupancy(), expected);
        }
    }
}

#[test]
fn fixed_many_messages_interleaved() {
    // A long run driving the cursors around the ring many times, checking
    // that every value comes back in production order.
    let mut e: ShmemEndpoint<u64> = ShmemEndpoint::new(settings(512), Role::Producer, 0);
    let total: u64 = 1024;
    let mut next_in: u64 = 0;
    let mut next_out: u64 = 0;
    while next_out < total {
        while next_in < total && !e.is_full() {
            e.produce(next_in);
            next_in += 1;
        }
        while !e.is_empty() {
            assert_eq!(e.consume().0, next_out);
            next_out += 1;
        }
    }
    assert_eq!(next_in, total);
}

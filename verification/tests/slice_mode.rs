use shmem_queue::sync::Role;
use shmem_queue::{ShmemEndpoint, ShmemSettings};

fn settings(size: usize) -> ShmemSettings {
    ShmemSettings { name: String::from("/shmem-queue-slice-test"), size }
}

fn byte_endpoint(size: usize) -> ShmemEndpoint<u8> {
    ShmemEndpoint::new_slice(settings(size), Role::Producer)
}

#[test]
fn slice_scenario_capacity_sixteen() {
    // Capacity 16 bytes: a 5-byte record occupies 4 (length) + 8 (rounded)
    // = 12 bytes, leaving 4 free; a second 5-byte record needs 12 more, so
    // it can only go in after the first is consumed, via a wrap sentinel at
    // offset 12 and a restart at offset zero.
    let mut e = byte_endpoint(16);
    assert!(e.has_room(5));
    assert!(e.produce_slice(&[0xAA; 5]));
    assert_eq!(e.occupancy(), 12);
    // Only 4 contiguous bytes remain and offset zero is still pending: no
    // room for another 12-byte frame, by either check.
    assert!(!e.has_room(5));
    assert!(e.has_capacity(12));

    let (guard, _) = e.consume_slice();
    assert_eq!(guard.as_slice(), &[0xAA; 5]);
    assert_eq!(e.occupancy(), 0);

    // Now the wrap sentinel goes in at offset 12 and the record at zero.
    assert!(e.has_room(5));
    assert!(e.produce_slice(&[0xBB; 5]));
    assert_eq!(e.occupancy(), 12);
    let (guard, _) = e.consume_slice();
    assert_eq!(guard.as_slice(), &[0xBB; 5]);
    assert_eq!(e.occupancy(), 0);
}

#[test]
fn slice_round_trip_representative_lengths() {
    // Every representative payload length comes back byte for byte.
    for len in [0usize, 1, 3, 4, 5, 32, 56] {
        let mut e = byte_endpoint(64);
        let payload: Vec<u8> = (0..len).map(|i| (i * 7 + len) as u8).collect();
        assert!(e.has_room(len as u32));
        e.produce_slice(&payload);
        let (guard, _) = e.consume_slice();
        assert_eq!(guard.as_slice(), payload.as_slice());
        assert_eq!(guard.len(), len);
        assert_eq!(e.occupancy(), 0);
    }
}

#[test]
fn slice_round_trip_across_wrap() {
    // Three records over a 32-byte ring; the third only fits after a wrap
    // sentinel, and only once the first two are out of the way.
    let mut e = byte_endpoint(32);
    e.produce_slice(&[1, 2, 3, 4, 5]); // cost 12, cursor at 12
    e.produce_slice(&[6, 7, 8]); // cost 8, cursor at 20
    assert_eq!(e.occupancy(), 20);

    let (a, _) = e.consume_slice();
    assert_eq!(a.into_vec(), vec![1, 2, 3, 4, 5]);
    // A 9-byte record costs 16; 12 bytes remain at the tail and the second
    // record still holds offset zero, so there is no room yet.
    assert!(!e.has_room(9));
    let (b, _) = e.consume_slice();
    assert_eq!(b.into_vec(), vec![6, 7, 8]);

    // Now the sentinel goes in at offset 20 and the record at offset zero.
    assert!(e.has_room(9));
    e.produce_slice(&[9, 10, 11, 12, 13, 14, 15, 16, 17]);
    assert_eq!(e.occupancy(), 16);
    let (c, _) = e.consume_slice();
    assert_eq!(c.into_vec(), vec![9, 10, 11, 12, 13, 14, 15, 16, 17]);
    assert_eq!(e.occupancy(), 0);
}

#[test]
fn slice_wake_edges() {
    let mut e = byte_endpoint(16);
    assert!(e.produce_slice(&[7; 2])); // empty -> nonempty wakes the consumer
    assert!(!e.produce_slice(&[8; 2]));
    let (_, wake) = e.consume_slice();
    assert!(wake); // occupancy 8 + 8 equalled the capacity: wake the producer
    let (_, wake) = e.consume_slice();
    assert!(!wake);
    assert!(e.is_empty());
}

#[test]
fn slice_occupancy_counts_framed_bytes() {
    let mut e = byte_endpoint(64);
    e.produce_slice(&[1]); // cost 4 + 4
    assert_eq!(e.occupancy(), 8);
    e.produce_slice(&[2, 3, 4, 5]); // cost 4 + 4
    assert_eq!(e.occupancy(), 16);
    e.produce_slice(&[]); // cost 4 + 0
    assert_eq!(e.occupancy(), 20);
    let (g, _) = e.consume_slice();
    assert_eq!(g.as_slice(), &[1]);
    assert_eq!(e.occupancy(), 12);
    let (g, _) = e.consume_slice();
    assert_eq!(g.as_slice(), &[2, 3, 4, 5]);
    assert_eq!(e.occupancy(), 4);
    let (g, _) = e.consume_slice();
    assert_eq!(g.as_slice(), &[] as &[u8]);
    assert_eq!(e.occupancy(), 0);
}

#[test]
fn slice_many_records_interleaved() {
    // A long run cycling the byte ring, sentinels included, each record
    // coming back byte for byte in order.
    let mut e = byte_endpoint(128);
    let total: usize = 300;
    let mut next_in: usize = 0;
    let mut next_out: usize = 0;
    while next_out < total {
        loop {
            if next_in >= total {
                break;
            }
            let len = (next_in % 23) as u32;
            if !e.has_room(len) {
                break;
            }
            let payload: Vec<u8> = (0..len as usize).map(|i| (i + next_in) as u8).collect();
            e.produce_slice(&payload);
            next_in += 1;
        }
        while !e.is_empty() {
            let (g, _) = e.consume_slice();
            let len = next_out % 23;
            let expect: Vec<u8> = (0..len).map(|i| (i + next_out) as u8).collect();
            assert_eq!(g.into_vec(), expect);
            next_out += 1;
        }
    }
    assert_eq!(next_in, total);
}

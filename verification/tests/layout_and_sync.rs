use shmem_queue::error::ShmemError;
use shmem_queue::queue::{
    advance_offset, aligned_payload_offset, roundup_to_u32_align, segment_length, METASIZE,
    OCCUPANCY_OFFSET, SYNC_WORD_OFFSET,
};
use shmem_queue::sync::{Role, Synchronizer, SYNC_IDLE, SYNC_WOKEN};

#[test]
fn roundup_exact_values() {
    assert_eq!(roundup_to_u32_align(0), 0);
    assert_eq!(roundup_to_u32_align(1), 4);
    assert_eq!(roundup_to_u32_align(3), 4);
    assert_eq!(roundup_to_u32_align(4), 4);
    assert_eq!(roundup_to_u32_align(5), 8);
    assert_eq!(roundup_to_u32_align(7), 8);
    assert_eq!(roundup_to_u32_align(8), 8);
    assert_eq!(roundup_to_u32_align(512), 512);
}

#[test]
fn segment_length_exact_values() {
    // header + capacity * element size
    assert_eq!(segment_length(4, 8), Some(40));
    assert_eq!(segment_length(16, 1), Some(24));
    assert_eq!(segment_length(0, 8), Some(METASIZE));
    assert_eq!(segment_length(usize::MAX, 2), None);
    assert_eq!(segment_length(usize::MAX, 1), None);
}

#[test]
fn payload_offset_respects_alignment() {
    assert_eq!(aligned_payload_offset(1), 8);
    assert_eq!(aligned_payload_offset(2), 8);
    assert_eq!(aligned_payload_offset(4), 8);
    assert_eq!(aligned_payload_offset(8), 8);
    assert_eq!(aligned_payload_offset(16), 16);
    assert_eq!(aligned_payload_offset(32), 32);
}

#[test]
fn header_layout_is_fixed() {
    assert_eq!(SYNC_WORD_OFFSET, 0);
    assert_eq!(OCCUPANCY_OFFSET, 4);
    assert_eq!(METASIZE, 8);
}

#[test]
fn cursor_advance_wraps_at_capacity() {
    assert_eq!(advance_offset(0, 4), 1);
    assert_eq!(advance_offset(2, 4), 3);
    assert_eq!(advance_offset(3, 4), 0);
    let mut off: u32 = 2;
    for _ in 0..5 {
        off = advance_offset(off, 5);
    }
    assert_eq!(off, 2);
}

#[test]
fn role_codes_are_the_extremes() {
    assert_eq!(Role::Producer.code(), i8::MIN);
    assert_eq!(Role::Consumer.code(), i8::MAX);
    assert_eq!(Role::Producer.other(), Role::Consumer);
    assert_eq!(Role::Consumer.other(), Role::Producer);
}

#[test]
fn wait_patterns_are_distinct() {
    let producer = Synchronizer::new(Role::Producer);
    let consumer = Synchronizer::new(Role::Consumer);
    assert_ne!(producer.wait_pattern(), consumer.wait_pattern());
    assert_ne!(producer.wait_pattern(), SYNC_IDLE);
    assert_ne!(consumer.wait_pattern(), SYNC_IDLE);
    assert_ne!(producer.wait_pattern(), SYNC_WOKEN);
    assert_ne!(consumer.wait_pattern(), SYNC_WOKEN);
    assert_eq!(producer.wake_pattern(), SYNC_WOKEN);
}

#[test]
fn wake_targets_exactly_the_waiting_peer() {
    // The no-lost-wakeup handshake, one step at a time: the consumer
    // publishes its pattern; the producer recognizes it and flips the word;
    // the consumer's re-check then sees its pattern gone and returns.
    let producer = Synchronizer::new(Role::Producer);
    let consumer = Synchronizer::new(Role::Consumer);

    let word = consumer.wait_pattern();
    assert!(consumer.keeps_waiting(word));
    assert!(producer.peer_waiting(word));
    let word = producer.wake_pattern();
    assert!(!consumer.keeps_waiting(word));

    // Nobody waiting: the wake is a no-op on both sides.
    assert!(!producer.peer_waiting(SYNC_IDLE));
    assert!(!producer.peer_waiting(producer.wait_pattern()));
    assert!(!consumer.peer_waiting(SYNC_IDLE));
    assert!(!consumer.peer_waiting(consumer.wait_pattern()));
}

#[test]
fn error_codes_carry_through() {
    assert_eq!(ShmemError::Open(2).code(), 2);
    assert_eq!(ShmemError::Resize(28).code(), 28);
    assert_eq!(ShmemError::SizeCheck(13).code(), 13);
    assert_eq!(ShmemError::Mmap(12).code(), 12);
    assert_eq!(ShmemError::Open(2), ShmemError::Open(2));
    assert_ne!(ShmemError::Open(2), ShmemError::Resize(2));
    assert!(matches!(ShmemError::Mmap(22), ShmemError::Mmap(22)));
}

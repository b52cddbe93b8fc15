use ticklog::record::{END_OF_BUFFER, LOG_RECORD, VERSION};
use ticklog::ring::{align_up, RingBuffer, Slot, DEFAULT_RING_SIZE, MIN_RING_SIZE, SLOT_SIZE};

/// A record of `len` bytes with a recognisable filling.
fn record(len: usize, fill: u8) -> Vec<u8> {
    let mut bytes = vec![fill; len];
    bytes[0] = VERSION;
    bytes[1] = LOG_RECORD;
    bytes[2..4].copy_from_slice(&(len as u16).to_le_bytes());
    bytes
}

fn append(ring: &mut RingBuffer, bytes: &[u8]) -> Option<Slot> {
    let slot = ring.reserve(bytes.len())?;
    ring.write(slot, bytes);
    ring.publish(slot);
    Some(slot)
}

#[test]
fn lengths_round_up_to_slots() {
    assert_eq!(align_up(0, 64), 0);
    assert_eq!(align_up(1, 64), 64);
    assert_eq!(align_up(64, 64), 64);
    assert_eq!(align_up(65, 64), 128);
    assert_eq!(SLOT_SIZE, 64);
}

#[test]
fn a_new_ring_is_empty_and_live() {
    let ring = RingBuffer::new(DEFAULT_RING_SIZE);
    assert_eq!(ring.data.len(), 1_048_576);
    assert_eq!((ring.head, ring.tail, ring.head_cache), (0, 0, 0));
    assert!(ring.live);
}

#[test]
fn records_are_appended_in_slots() {
    let mut ring = RingBuffer::new(MIN_RING_SIZE);
    let a = record(70, 0xAA);
    let b = record(20, 0xBB);
    assert_eq!(append(&mut ring, &a), Some(Slot { offset: 0, len: 70, next: 128 }));
    assert_eq!(append(&mut ring, &b), Some(Slot { offset: 128, len: 20, next: 192 }));
    assert_eq!(ring.head, 192);
    assert_eq!(&ring.data[0..70], &a[..]);
    assert_eq!(&ring.data[128..148], &b[..]);
}

#[test]
fn a_full_ring_takes_nothing_more_until_it_is_drained() {
    let mut ring = RingBuffer::new(MIN_RING_SIZE);
    let bytes = record(64, 1);
    for _ in 0..MIN_RING_SIZE / 64 {
        assert!(append(&mut ring, &bytes).is_some());
    }
    let before = ring.duplicate();
    assert_eq!(ring.reserve(1), None);
    assert!(ring.data == before.data);
    assert_eq!(ring.head, before.head);

    // The drain gives a slot back.
    let mut drained = ring.duplicate();
    drained.tail = 64;
    ring.settle(&drained);
    assert_eq!(ring.reserve(64), Some(Slot { offset: 0, len: 64, next: MIN_RING_SIZE as u64 + 64 }));
    assert_eq!(ring.reserve(65), None);
}

#[test]
fn a_record_that_would_straddle_the_end_starts_over() {
    let mut ring = RingBuffer::new(MIN_RING_SIZE);
    // Move head and tail to one slot before the end.
    let near_end = MIN_RING_SIZE as u64 - 64;
    ring.head = near_end;
    ring.tail = near_end;
    ring.head_cache = near_end;
    let bytes = record(100, 7);
    let slot = append(&mut ring, &bytes).unwrap();
    assert_eq!(slot, Slot { offset: 0, len: 100, next: near_end + 64 + 128 });
    // The rest of the storage is a filler.
    let at = near_end as usize;
    assert_eq!(ring.data[at], VERSION);
    assert_eq!(ring.data[at + 1], END_OF_BUFFER);
    assert_eq!(&ring.data[at + 2..at + 4], &64u16.to_le_bytes());
    assert_eq!(&ring.data[0..100], &bytes[..]);
}

#[test]
fn a_copy_follows_the_shared_ring_and_keeps_its_own_place() {
    let mut shared = RingBuffer::new(MIN_RING_SIZE);
    let mut local = shared.duplicate();
    append(&mut shared, &record(10, 3)).unwrap();
    shared.strings.intern("x");
    local.tail = 0;
    shared.retire();
    local.refresh(&shared);
    assert_eq!(local.head, 64);
    assert_eq!(local.tail, 0);
    assert!(!local.live);
    assert!(local.data == shared.data);
    assert_eq!(local.strings.strings, vec!["x"]);
}

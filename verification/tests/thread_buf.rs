use std::sync::{Arc, Mutex};
use ticklog::drain::RingEntry;
use ticklog::record::THREAD_SECTION_BASE_SIZE;
use ticklog::ring::{RingBuffer, DEFAULT_RING_SIZE};
use ticklog::thread_buf::{
    parse_thread_id, register_ring, truncate_name, ThreadBuf, ThreadSlot, MAX_THREAD_NAME_LEN,
};
use ticklog::{warm_up, TicklogError};

#[test]
fn get_stable_thread_id_returns_nonzero() {
    let id = parse_thread_id("ThreadId(2)");
    assert!(id > 0, "expected non-zero thread id, got {id}");
    assert_eq!(id, 2);
}

#[test]
fn other_thread_id_texts_give_zero() {
    assert_eq!(parse_thread_id("ThreadId(18446744073709551615)"), u64::MAX);
    assert_eq!(parse_thread_id("ThreadId(18446744073709551616)"), 0);
    assert_eq!(parse_thread_id("ThreadId()"), 0);
    assert_eq!(parse_thread_id("ThreadId("), 0);
    assert_eq!(parse_thread_id("ThreadId(2"), 0);
    assert_eq!(parse_thread_id("ThreadId(x)"), 0);
    assert_eq!(parse_thread_id("2"), 0);
    assert_eq!(parse_thread_id(""), 0);
}

#[test]
fn thread_buf_holds_ring_and_metadata() {
    let ring = RingBuffer::new(DEFAULT_RING_SIZE);
    let tb = ThreadBuf {
        ring,
        thread_id: 42,
        thread_name: "test-thread".into(),
        thread_section_size: (THREAD_SECTION_BASE_SIZE + "test-thread".len()) as u16,
    };
    assert_eq!(tb.thread_id, 42);
    assert_eq!(tb.thread_name, "test-thread");
    assert_eq!(
        tb.thread_section_size as usize,
        THREAD_SECTION_BASE_SIZE + "test-thread".len(),
    );
    assert!(tb.ring.live);
}

#[test]
fn drop_sets_live_to_false() {
    let ring = Arc::new(Mutex::new(RingBuffer::new(DEFAULT_RING_SIZE)));
    let tb = ThreadBuf::new(Arc::clone(&ring), 1, None);
    assert!(ring.lock().unwrap().live);
    tb.ring.lock().unwrap().retire();
    drop(tb);
    assert!(!ring.lock().unwrap().live);
}

#[test]
fn buffer_survives_thread_buf_drop_when_other_arcs_exist() {
    let ring = Arc::new(Mutex::new(RingBuffer::new(DEFAULT_RING_SIZE)));
    let other = Arc::clone(&ring);
    let tb = ThreadBuf::new(Arc::clone(&ring), 1, None);
    tb.ring.lock().unwrap().retire();
    drop(tb);
    assert!(!ring.lock().unwrap().live);
    // `other` is still valid; clone and drop without panic.
    let still_here = Arc::clone(&other);
    drop(still_here);
    drop(ring);
    drop(other);
}

#[test]
fn warm_up_and_with_thread_buf_lifecycle() {
    let mut slot: ThreadSlot<u32> = ThreadSlot::new();
    // First call initializes.
    warm_up(true, &mut slot, || (7, 3, Some("main".to_string()))).unwrap();
    // Second call is idempotent.
    warm_up(true, &mut slot, || (8, 4, None)).unwrap();
    // A logging call finds the existing buffer.
    assert!(slot.enter());
    slot.prepare(|| (9, 5, None));
    let tb = slot.buf.as_ref().unwrap();
    assert!(tb.thread_id > 0);
    assert_eq!((tb.ring, tb.thread_id), (7, 3));
    assert_eq!(tb.thread_name, "main");
    slot.leave();
}

#[test]
fn warm_up_needs_initialization() {
    let mut slot: ThreadSlot<u32> = ThreadSlot::new();
    let result = warm_up(false, &mut slot, || (7, 3, None));
    assert!(matches!(result, Err(TicklogError::NotInitialized)));
    assert!(slot.buf.is_none());
}

#[test]
fn register_ring_adds_to_registry() {
    let mut rings: Vec<RingEntry> = Vec::new();
    let count_before = rings.len();
    register_ring(&mut rings, RingEntry { id: 1, ring: RingBuffer::new(DEFAULT_RING_SIZE) });
    assert_eq!(rings.len(), count_before + 1);
}

#[test]
fn with_thread_buf_thread_id_matches_current_thread() {
    let expected = parse_thread_id("ThreadId(11)");
    let mut slot: ThreadSlot<()> = ThreadSlot::new();
    slot.prepare(|| ((), expected, None));
    assert_eq!(slot.buf.as_ref().unwrap().thread_id, expected);
}

#[test]
fn reentrant_with_thread_buf_is_refused() {
    let mut slot: ThreadSlot<()> = ThreadSlot::new();
    // Models an encode (or a panic hook) that logs while the outer record is
    // still being assembled.
    let outer = if slot.enter() {
        let inner = if slot.enter() { Some(()) } else { None };
        slot.leave();
        Some(inner)
    } else {
        None
    };
    assert_eq!(
        outer,
        Some(None),
        "outer must succeed, inner must be refused"
    );
    // Once the outer call is over, the thread can log again.
    assert!(slot.enter());
}

#[test]
fn thread_name_truncation_respects_utf8_boundary() {
    let mut name = "a".repeat(255);
    name.push('é'); // U+00E9, 2 bytes in UTF-8
    assert_eq!(name.len(), 257);

    let tb = ThreadBuf::new((), 1, Some(name));
    let n = tb.thread_name;
    assert!(
        n.len() <= MAX_THREAD_NAME_LEN,
        "truncated name too long: {}",
        n.len()
    );
    assert_eq!(n, "a".repeat(255));
    assert_eq!(tb.thread_section_size as usize, THREAD_SECTION_BASE_SIZE + 255);
}

#[test]
fn short_thread_names_are_kept() {
    assert_eq!(truncate_name("worker".to_string()), "worker");
    assert_eq!(truncate_name("b".repeat(256)), "b".repeat(256));
    assert_eq!(truncate_name("b".repeat(300)), "b".repeat(256));
}

#[test]
fn threads_without_a_name_are_unnamed() {
    let tb = ThreadBuf::new((), 7, None);
    assert_eq!(tb.thread_name, "<unnamed>");
    assert_eq!(tb.thread_section_size as usize, THREAD_SECTION_BASE_SIZE + 9);
    assert_eq!((tb.meta().id, tb.meta().name), (7, "<unnamed>"));
}

#[test]
fn a_buffer_is_made_once() {
    let made = std::cell::Cell::new(0);
    let make = || {
        made.set(made.get() + 1);
        ((), 3, Some("worker".to_string()))
    };
    let mut slot: ThreadSlot<()> = ThreadSlot::new();
    slot.prepare(make);
    slot.prepare(make);
    assert!(warm_up(true, &mut slot, make).is_ok());
    assert_eq!(made.get(), 1);
    assert_eq!(slot.buf.as_ref().unwrap().thread_name, "worker");

    // A thread that is logging is not prepared from within.
    let mut busy: ThreadSlot<()> = ThreadSlot::new();
    assert!(busy.enter());
    assert!(warm_up(true, &mut busy, make).is_ok());
    assert!(busy.buf.is_none());
    assert_eq!(made.get(), 1);
}

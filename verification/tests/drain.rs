use std::io;
use std::sync::{Arc, Mutex};
use ticklog::builder::check_config;
use ticklog::cursor::Cursor;
use ticklog::decode::{decode_and_format, format_record, Layout, LogMetadata};
use ticklog::drain::{drain_ring, Drain, Notice, RingEntry};
use ticklog::encode::{TAG_BOOL, TAG_F64, TAG_I64, TAG_STR, TAG_U16, TAG_U64};
use ticklog::format::{parse_spec, validate_fmt, FloatStyle, FormatSpec};
use ticklog::message::{
    fmt_bool, fmt_f32, fmt_f64, fmt_i16, fmt_i32, fmt_i64, fmt_i8, fmt_str, fmt_u16, fmt_u32,
    fmt_u64, fmt_u8, FloatValue,
};
use ticklog::record::{
    END_OF_BUFFER, FLAG_FORMAT, FLAG_SOURCE, FLAG_THREAD, FORMAT_SECTION_SIZE, HEADER_SIZE,
    LOG_RECORD, THREAD_SECTION_BASE_SIZE, VERSION,
};
use ticklog::ring::{align_up, RingBuffer, DEFAULT_RING_SIZE, SLOT_SIZE};
use ticklog::sink::Tap;
use ticklog::strings::StrTable;
use ticklog::{FanOut, Level, LogSink, LogSinkExt, TicklogError};

/// Shared handle to the `(line, level)` pairs a [`CaptureSink`] recorded.
type CaptureCalls = Arc<Mutex<Vec<(String, Level)>>>;

/// Identity clock: the raw tick value equals nanoseconds since epoch.
fn identity_clock(raw: u64) -> u64 {
    raw
}

/// The text of a float in a style.
fn float_text(value: FloatValue, style: FloatStyle) -> String {
    match value {
        FloatValue::F64(bits) => {
            let v = f64::from_bits(bits);
            match style {
                FloatStyle::Display(None) => format!("{v}"),
                FloatStyle::Display(Some(p)) => format!("{v:.*}", p as usize),
                FloatStyle::Debug => format!("{v:?}"),
                FloatStyle::DebugAlternate => format!("{v:#?}"),
                FloatStyle::LowerExp(None) => format!("{v:e}"),
                FloatStyle::LowerExp(Some(p)) => format!("{v:.*e}", p as usize),
                FloatStyle::UpperExp(None) => format!("{v:E}"),
                FloatStyle::UpperExp(Some(p)) => format!("{v:.*E}", p as usize),
            }
        }
        FloatValue::F32(bits) => {
            let v = f32::from_bits(bits);
            match style {
                FloatStyle::Display(None) => format!("{v}"),
                FloatStyle::Display(Some(p)) => format!("{v:.*}", p as usize),
                FloatStyle::Debug => format!("{v:?}"),
                FloatStyle::DebugAlternate => format!("{v:#?}"),
                FloatStyle::LowerExp(None) => format!("{v:e}"),
                FloatStyle::LowerExp(Some(p)) => format!("{v:.*e}", p as usize),
                FloatStyle::UpperExp(None) => format!("{v:E}"),
                FloatStyle::UpperExp(Some(p)) => format!("{v:.*E}", p as usize),
            }
        }
    }
}

/// Encodes a single argument's payload bytes for a fixed-size type.
fn le_bytes(tag: u8, value: u64) -> (u8, Vec<u8>) {
    let bytes = match tag {
        TAG_U64 | TAG_I64 | TAG_F64 => value.to_le_bytes().to_vec(),
        TAG_U16 => (value as u16).to_le_bytes().to_vec(),
        TAG_BOOL => vec![value as u8],
        _ => panic!("unsupported tag in helper"),
    };
    (tag, bytes)
}

/// Encodes a string argument payload: [len u16 LE][utf8 bytes].
fn str_arg(s: &str) -> (u8, Vec<u8>) {
    let mut v = (s.len() as u16).to_le_bytes().to_vec();
    v.extend_from_slice(s.as_bytes());
    (TAG_STR, v)
}

/// Builds a full encoded log record, whose strings are kept in `strings`.
#[allow(clippy::too_many_arguments)]
fn build_record_in(
    strings: &mut StrTable,
    level: Level,
    timestamp: u64,
    fmt: &'static str,
    source: Option<(&'static str, u32)>,
    thread_id: u64,
    thread_name: Option<&[u8]>,
    args: &[(u8, Vec<u8>)],
) -> Vec<u8> {
    let mut flags: u16 = FLAG_FORMAT | FLAG_THREAD;
    if source.is_some() {
        flags |= FLAG_SOURCE;
    }

    let mut payload: Vec<u8> = Vec::new();

    // Format section.
    let fmt = strings.intern(fmt);
    payload.extend_from_slice(&fmt.addr.to_le_bytes());
    payload.extend_from_slice(&fmt.len.to_le_bytes());

    // Source section.
    if let Some((file, line)) = source {
        let file = strings.intern(file);
        payload.extend_from_slice(&file.addr.to_le_bytes());
        payload.extend_from_slice(&file.len.to_le_bytes());
        payload.extend_from_slice(&line.to_le_bytes());
    }

    // Thread section.
    payload.extend_from_slice(&thread_id.to_le_bytes());
    let name_bytes = thread_name.unwrap_or(&b""[..]);
    payload.extend_from_slice(&(name_bytes.len() as u16).to_le_bytes());
    payload.extend_from_slice(name_bytes);

    // Arguments.
    payload.push(args.len() as u8);
    for (tag, _) in args {
        payload.push(*tag);
    }
    for (_, data) in args {
        payload.extend_from_slice(data);
    }

    let total_size = (HEADER_SIZE + payload.len()) as u16;

    let mut record = Vec::with_capacity(total_size as usize);
    record.push(VERSION); // version
    record.push(LOG_RECORD); // type
    record.extend_from_slice(&total_size.to_le_bytes());
    record.push(level.to_u8());
    record.extend_from_slice(&flags.to_le_bytes());
    record.push(0); // _pad
    record.extend_from_slice(&timestamp.to_le_bytes());
    record.extend_from_slice(&payload);
    record
}

/// A record with the table that holds its strings.
type Built = (Vec<u8>, StrTable);

fn build_record(
    level: Level,
    timestamp: u64,
    fmt: &'static str,
    source: Option<(&'static str, u32)>,
    thread_id: u64,
    thread_name: Option<&str>,
    args: &[(u8, Vec<u8>)],
) -> Built {
    let mut strings = StrTable::new();
    let name = thread_name.map(|n| n.as_bytes());
    let record =
        build_record_in(&mut strings, level, timestamp, fmt, source, thread_id, name, args);
    (record, strings)
}

fn format_line(record: &Built, metadata: LogMetadata) -> String {
    let mut buf = Vec::new();
    decode_and_format(
        &record.0,
        &record.1,
        0,
        &metadata,
        &identity_clock,
        &float_text,
        &mut buf,
    );
    String::from_utf8(buf).unwrap()
}

/// A sink that captures every accepted `(line, level)` pair.
struct CaptureSink {
    calls: CaptureCalls,
}

impl LogSink for CaptureSink {
    fn accept(&mut self, line: &[u8], level: Level) -> io::Result<()> {
        self.calls
            .lock()
            .unwrap()
            .push((String::from_utf8_lossy(line).into_owned(), level));
        Ok(())
    }
}

fn capture_drain() -> (Drain<CaptureSink>, CaptureCalls) {
    let calls = Arc::new(Mutex::new(Vec::new()));
    let sink = CaptureSink {
        calls: Arc::clone(&calls),
    };
    let drain = Drain::new(sink, 0, LogMetadata::default());
    (drain, calls)
}

/// A whole pass of `drain` over its rings, with the notices that it left.
fn poll<S: LogSink>(drain: &mut Drain<S>) -> (bool, Vec<Notice>) {
    let mut buf = Vec::new();
    let mut notices = Vec::new();
    let had_work = drain.poll_once(&identity_clock, &float_text, &mut buf, &mut notices);
    (had_work, notices)
}

/// Brings `drain` in step with `registry`.
fn sync<S: LogSink>(drain: &mut Drain<S>, registry: &mut Vec<RingEntry>) {
    let mut buf = Vec::new();
    let mut notices = Vec::new();
    drain.sync_rings(registry, &identity_clock, &float_text, &mut buf, &mut notices);
    assert!(notices.is_empty());
}

/// Writes `bytes` into a ring at `offset` and advances `head` by
/// `align_up(len, SLOT_SIZE)` to mimic the producer.
fn place_record(ring: &mut RingBuffer, offset: u64, bytes: &[u8]) {
    let start = offset as usize;
    ring.data[start..start + bytes.len()].copy_from_slice(bytes);
    ring.head = offset + align_up(bytes.len() as u64, SLOT_SIZE as u64);
}

/// A record with no arguments and no source, whose strings `ring` keeps.
fn plain_record(ring: &mut RingBuffer, level: Level, fmt: &'static str) -> Vec<u8> {
    build_record_in(&mut ring.strings, level, 0, fmt, None, 1, None, &[])
}

// ---- Cursor tests -----------------------------------------------------------

#[test]
fn cursor_reads_types_and_advances() {
    let mut data = Vec::new();
    data.push(0xABu8);
    data.extend_from_slice(&0xBEEFu16.to_le_bytes());
    data.extend_from_slice(&0xDEAD_BEEFu32.to_le_bytes());
    data.extend_from_slice(&0x0102_0304_0506_0708u64.to_le_bytes());

    let mut c = Cursor::new(&data);
    assert_eq!(c.read_u8(), 0xAB);
    assert_eq!(c.read_u16(), 0xBEEF);
    assert_eq!(c.read_u32(), 0xDEAD_BEEF);
    assert_eq!(c.read_u64(), 0x0102_0304_0506_0708);
}

#[test]
fn cursor_skip_and_read_bytes() {
    let data = [1u8, 2, 3, 4, 5, 6];
    let mut c = Cursor::new(&data);
    c.skip(2);
    assert_eq!(c.read_bytes(3), &[3, 4, 5]);
    assert_eq!(c.read_u8(), 6);
}

#[test]
fn cursor_read_len_prefixed() {
    let mut data = (5u16).to_le_bytes().to_vec();
    data.extend_from_slice(b"hello");
    data.push(0x99); // trailing byte after the string
    let mut c = Cursor::new(&data);
    let (s, len) = c.read_len_prefixed();
    assert_eq!(len, 5);
    assert_eq!(s, b"hello");
    assert_eq!(c.read_u8(), 0x99);
}

#[test]
fn cursor_read_len_prefixed_empty() {
    let data = (0u16).to_le_bytes().to_vec();
    let mut c = Cursor::new(&data);
    let (s, len) = c.read_len_prefixed();
    assert_eq!(len, 0);
    assert!(s.is_empty());
}

#[test]
fn cursor_clamps_reads_at_end() {
    // A 3-byte slice whose reads are all attempted past its end.
    let data = [1u8, 2, 3];
    let mut c = Cursor::new(&data);
    // A u64 needs 8 bytes but only 3 remain: yields 0, consumes nothing.
    assert_eq!(c.read_u64(), 0);
    assert_eq!(c.remaining(), 3);
    // read_bytes clamps to what is left.
    assert_eq!(c.read_bytes(100), &[1, 2, 3]);
    assert_eq!(c.remaining(), 0);
    // Exhausted: further fixed-width reads are 0.
    assert_eq!(c.read_u16(), 0);
}

#[test]
fn cursor_len_prefix_clamps_when_string_overruns() {
    // Prefix claims 9 bytes but only 3 follow: read_len_prefixed returns the
    // 3 present rather than reading past the slice.
    let mut data = (9u16).to_le_bytes().to_vec();
    data.extend_from_slice(b"abc");
    let mut c = Cursor::new(&data);
    let (s, len) = c.read_len_prefixed();
    assert_eq!(len, 9);
    assert_eq!(s, b"abc");
}

// ---- Formatter tests --------------------------------------------------------

#[test]
fn formatter_u64_roundtrip() {
    let mut buf = Vec::new();
    fmt_u64(&42u64.to_le_bytes(), &FormatSpec::default(), &mut buf);
    assert_eq!(buf, b"42");
}

#[test]
fn formatter_i64_negative() {
    let mut buf = Vec::new();
    fmt_i64(&(-7i64).to_le_bytes(), &FormatSpec::default(), &mut buf);
    assert_eq!(buf, b"-7");
}

#[test]
fn formatter_f64_roundtrip() {
    let mut buf = Vec::new();
    fmt_f64(&3.5f64.to_le_bytes(), &FormatSpec::default(), &float_text, &mut buf);
    assert_eq!(buf, b"3.5");
}

#[test]
fn formatter_bool_and_str() {
    let mut buf = Vec::new();
    fmt_bool(&[1], &FormatSpec::default(), &mut buf);
    assert_eq!(buf, b"true");

    buf.clear();
    fmt_str(b"hi", &FormatSpec::default(), &mut buf);
    assert_eq!(buf, b"hi");
}

#[test]
fn formatter_str_invalid_utf8_is_lossy() {
    let mut buf = Vec::new();
    // 0xFF is not valid UTF-8; lossy substitution must not panic.
    fmt_str(&[0xFF], &FormatSpec::default(), &mut buf);
    assert_eq!(buf, "\u{FFFD}".as_bytes());
}

#[test]
fn formatter_of_each_type() {
    let spec = parse_spec(":>7");
    let mut buf = Vec::new();
    fmt_u32(&7u32.to_le_bytes(), &spec, &mut buf);
    fmt_i32(&(-8i32).to_le_bytes(), &spec, &mut buf);
    fmt_u16(&9u16.to_le_bytes(), &spec, &mut buf);
    fmt_i16(&(-10i16).to_le_bytes(), &spec, &mut buf);
    fmt_u8(&[11], &spec, &mut buf);
    fmt_i8(&[0xFF], &spec, &mut buf);
    fmt_f32(&1.25f32.to_le_bytes(), &spec, &float_text, &mut buf);
    fmt_f64(&(-2.5f64).to_le_bytes(), &parse_spec(":e"), &float_text, &mut buf);
    assert_eq!(
        String::from_utf8(buf).unwrap(),
        "      7     -8      9    -10     11     -1   1.25-2.5e0"
    );
}

// ---- Decode tests -----------------------------------------------------------

#[test]
fn decode_full_line() {
    let record = build_record(
        Level::Info,
        0,
        "x={}",
        Some(("a.rs", 7)),
        1,
        None,
        &[le_bytes(TAG_U64, 42)],
    );
    let line = format_line(&record, LogMetadata::default());
    assert_eq!(line, "1970-01-01T00:00:00.000000000Z  INFO a.rs:7 x=42",);
}

#[test]
fn decode_hides_source_when_disabled() {
    let record = build_record(Level::Warn, 0, "hi", Some(("a.rs", 7)), 1, None, &[]);
    let meta = LogMetadata {
        file: false,
        line_number: false,
        thread_name: false,
        thread_id: false,
    };
    let line = format_line(&record, meta);
    assert_eq!(line, "1970-01-01T00:00:00.000000000Z  WARN hi");
}

#[test]
fn decode_file_without_line_number() {
    let record = build_record(Level::Info, 0, "m", Some(("a.rs", 7)), 1, None, &[]);
    let meta = LogMetadata {
        file: true,
        line_number: false,
        thread_name: false,
        thread_id: false,
    };
    let line = format_line(&record, meta);
    assert_eq!(line, "1970-01-01T00:00:00.000000000Z  INFO a.rs m");
}

#[test]
fn decode_multiple_args_and_types() {
    let record = build_record(
        Level::Error,
        0,
        "{} {} {}",
        None,
        1,
        None,
        &[le_bytes(TAG_U16, 5), str_arg("ok"), le_bytes(TAG_BOOL, 1)],
    );
    let line = format_line(&record, LogMetadata::default());
    assert_eq!(line, "1970-01-01T00:00:00.000000000Z  ERROR 5 ok true",);
}

#[test]
fn decode_escaped_braces() {
    let record = build_record(
        Level::Info,
        0,
        "{{{}}}",
        None,
        1,
        None,
        &[le_bytes(TAG_U64, 9)],
    );
    let line = format_line(&record, LogMetadata::default());
    assert_eq!(line, "1970-01-01T00:00:00.000000000Z  INFO {9}",);
}

#[test]
fn decode_unknown_tag_emits_placeholder() {
    // Tag 0x7F is not a known type; the drain must not panic.
    let record = build_record(Level::Info, 0, "v={}", None, 1, None, &[(0x7F, vec![0u8])]);
    let line = format_line(&record, LogMetadata::default());
    assert_eq!(
        line,
        "1970-01-01T00:00:00.000000000Z  INFO v=<unknown tag 0x7F>",
    );
}

#[test]
fn decode_missing_arg_placeholder() {
    // Two placeholders but only one argument supplied.
    let record = build_record(
        Level::Info,
        0,
        "{} {}",
        None,
        1,
        None,
        &[le_bytes(TAG_U64, 1)],
    );
    let line = format_line(&record, LogMetadata::default());
    assert_eq!(line, "1970-01-01T00:00:00.000000000Z  INFO 1 <missing arg>",);
}

#[test]
fn decode_tolerates_count_byte_exceeding_tags_present() {
    // Corruption: the count byte claims more args than the record actually
    // holds. The decoder must clamp to the tags present rather than panic on
    // a length-mismatched copy, and report the shortfall as a missing arg.
    let mut record = build_record(Level::Info, 0, "v={}", None, 1, None, &[]);
    // The count byte follows the fixed header, the format section, and the
    // thread section.
    record.0[HEADER_SIZE + FORMAT_SECTION_SIZE + THREAD_SECTION_BASE_SIZE] = 200;
    let line = format_line(&record, LogMetadata::default());
    assert!(
        line.ends_with("v=<missing arg>"),
        "expected a missing-arg placeholder, got {line:?}"
    );
}

#[test]
fn decode_timestamp_conversion() {
    // With identity calibration, the raw tick is nanoseconds since epoch.
    let record = build_record(Level::Info, 1_234_567_890, "t", None, 1, None, &[]);
    let line = format_line(&record, LogMetadata::default());
    assert_eq!(line, "1970-01-01T00:00:01.234567890Z  INFO t",);
}

// ---- Poll tests ---------------------------------------------------------------

#[test]
fn poll_empty_ring_no_accepts() {
    let (mut drain, calls) = capture_drain();
    drain.rings.push(RingEntry { id: 1, ring: RingBuffer::new(DEFAULT_RING_SIZE) });
    assert!(!poll(&mut drain).0);
    assert!(calls.lock().unwrap().is_empty());
}

#[test]
fn poll_one_record_accepts_and_advances_tail() {
    let (mut drain, calls) = capture_drain();
    let mut ring = RingBuffer::new(DEFAULT_RING_SIZE);
    let record = build_record_in(
        &mut ring.strings,
        Level::Info,
        0,
        "x={}",
        Some(("a.rs", 7)),
        1,
        None,
        &[le_bytes(TAG_U64, 42)],
    );
    place_record(&mut ring, 0, &record);
    let head = ring.head;
    drain.rings.push(RingEntry { id: 1, ring });

    assert!(poll(&mut drain).0);

    let recorded = calls.lock().unwrap();
    assert_eq!(recorded.len(), 1);
    assert_eq!(
        recorded[0].0,
        "1970-01-01T00:00:00.000000000Z  INFO a.rs:7 x=42",
    );
    assert_eq!(recorded[0].1, Level::Info);
    // tail advanced to head; a second poll finds no work.
    assert_eq!(drain.rings[0].ring.tail, head);
    drop(recorded);
    assert!(!poll(&mut drain).0);
}

#[test]
fn poll_discards_corrupt_record_and_resyncs_to_head() {
    let (mut drain, calls) = capture_drain();
    let mut ring = RingBuffer::new(DEFAULT_RING_SIZE);

    // A valid record, then one whose type byte is neither LOG_RECORD nor
    // END_OF_BUFFER (framing corruption), then a second valid record.
    let r1 = plain_record(&mut ring, Level::Info, "first");
    place_record(&mut ring, 0, &r1);
    let off2 = align_up(r1.len() as u64, SLOT_SIZE as u64);

    let mut bad = plain_record(&mut ring, Level::Info, "corrupt");
    bad[1] = 0x7F; // record type: not LOG_RECORD (1) or END_OF_BUFFER (2)
    place_record(&mut ring, off2, &bad);
    let off3 = off2 + align_up(bad.len() as u64, SLOT_SIZE as u64);

    let r2 = plain_record(&mut ring, Level::Info, "second");
    place_record(&mut ring, off3, &r2);
    let head = ring.head;

    drain.rings.push(RingEntry { id: 1, ring });
    let (_, notices) = poll(&mut drain);

    // Only the record before the corruption is emitted: the drain must not
    // decode the corrupt bytes as a record, and resyncs `tail` to the
    // producer's published head rather than desyncing onward.
    let recorded = calls.lock().unwrap();
    assert_eq!(recorded.len(), 1, "got {recorded:?}");
    assert!(recorded[0].0.ends_with("first"), "got {:?}", recorded[0].0);
    assert_eq!(drain.rings[0].ring.tail, head);
    assert_eq!(notices.len(), 1);
    let size = bad.len() as u16;
    match &notices[0] {
        Notice::Corrupt { version, rectype, size: total } => {
            assert_eq!((*version, *rectype, *total), (VERSION, 0x7F, size));
        }
        Notice::SinkFailed(e) => panic!("unexpected sink failure {e}"),
    }
}

#[test]
fn poll_skips_end_of_buffer_record() {
    let (mut drain, calls) = capture_drain();
    let mut ring = RingBuffer::new(DEFAULT_RING_SIZE);

    // An EOB record spanning one slot, followed by a real record.
    let mut eob = Vec::new();
    eob.push(0x01); // version
    eob.push(END_OF_BUFFER); // type
    eob.extend_from_slice(&(SLOT_SIZE as u16).to_le_bytes()); // total_size
    eob.resize(SLOT_SIZE, 0); // pad to a full slot
    place_record(&mut ring, 0, &eob);

    let record = plain_record(&mut ring, Level::Info, "hi");
    place_record(&mut ring, SLOT_SIZE as u64, &record);

    drain.rings.push(RingEntry { id: 1, ring });
    assert!(poll(&mut drain).0);

    let recorded = calls.lock().unwrap();
    assert_eq!(recorded.len(), 1);
    assert_eq!(recorded[0].0, "1970-01-01T00:00:00.000000000Z  INFO hi",);
}

#[test]
fn poll_multiple_records_in_one_ring() {
    let (mut drain, calls) = capture_drain();
    let mut ring = RingBuffer::new(DEFAULT_RING_SIZE);

    let r1 = plain_record(&mut ring, Level::Info, "a");
    let r2 = plain_record(&mut ring, Level::Warn, "b");
    let slot = SLOT_SIZE as u64;
    // Place two records in consecutive slots and set head past both.
    ring.data[..r1.len()].copy_from_slice(&r1);
    let off2 = slot as usize;
    ring.data[off2..off2 + r2.len()].copy_from_slice(&r2);
    ring.head = 2 * slot;
    drain.rings.push(RingEntry { id: 1, ring });

    assert!(poll(&mut drain).0);

    let recorded = calls.lock().unwrap();
    assert_eq!(recorded.len(), 2);
    assert_eq!(recorded[0].1, Level::Info);
    assert_eq!(recorded[1].1, Level::Warn);
}

// ---- Sync tests ---------------------------------------------------------------

#[test]
fn sync_picks_up_and_drops_rings() {
    let (mut drain, _calls) = capture_drain();
    let mut registry = vec![RingEntry { id: 5, ring: RingBuffer::new(DEFAULT_RING_SIZE) }];

    sync(&mut drain, &mut registry);
    assert!(drain.rings.iter().any(|r| r.id == 5));

    // Mark the ring dead; the next sync must drop it.
    registry[0].ring.retire();
    drain.rings[0].ring.retire();
    sync(&mut drain, &mut registry);
    assert!(!drain.rings.iter().any(|r| r.id == 5));
    assert!(registry.is_empty());
}

#[test]
fn sync_does_not_add_same_ring_twice() {
    let (mut drain, _calls) = capture_drain();
    let mut registry = vec![RingEntry { id: 5, ring: RingBuffer::new(DEFAULT_RING_SIZE) }];

    sync(&mut drain, &mut registry);
    sync(&mut drain, &mut registry);
    let count = drain.rings.iter().filter(|r| r.id == 5).count();
    assert_eq!(count, 1);
}

#[test]
fn sync_drains_dead_ring_before_dropping_it() {
    let (mut drain, calls) = capture_drain();
    let mut ring = RingBuffer::new(DEFAULT_RING_SIZE);

    // Thread-exit ordering: publish a record (head advances), then mark the
    // producer dead (live = false) with the record still unconsumed.
    let record = plain_record(&mut ring, Level::Info, "bye");
    place_record(&mut ring, 0, &record);
    ring.retire();
    drain.rings.push(RingEntry { id: 9, ring });

    sync(&mut drain, &mut Vec::new());

    // The dead ring's record must reach the sink before the ring is dropped.
    let recorded = calls.lock().unwrap();
    assert_eq!(recorded.len(), 1);
    assert_eq!(recorded[0].0, "1970-01-01T00:00:00.000000000Z  INFO bye",);
    drop(recorded);
    // And the ring is gone from the drain's local list afterwards.
    assert!(!drain.rings.iter().any(|r| r.id == 9));
}

// ---- Producer and drain in turn -------------------------------------------------

#[test]
fn producer_and_drain_concurrent_no_aliasing_ub() {
    const N: usize = 8;
    let mut ring = RingBuffer::new(DEFAULT_RING_SIZE);
    let record = build_record_in(
        &mut ring.strings,
        Level::Info,
        0x1234,
        "hello {}",
        Some(("f.rs", 1)),
        1,
        None,
        &[le_bytes(TAG_U64, 42)],
    );
    let calls = Arc::new(Mutex::new(Vec::new()));
    let mut sink = Tap::new(CaptureSink {
        calls: Arc::clone(&calls),
    });
    let layout = Layout::Fields(LogMetadata::default());
    let mut buf = Vec::new();
    let mut notices = Vec::new();

    for n in 0..N {
        let slot = ring.reserve(record.len()).unwrap();
        ring.write(slot, &record);
        ring.publish(slot);
        assert_eq!(calls.lock().unwrap().len(), n);
        assert!(drain_ring(
            &mut ring,
            &mut sink,
            0,
            &layout,
            &identity_clock,
            &float_text,
            &mut buf,
            &mut notices,
        ));
    }

    let calls = calls.lock().unwrap();
    assert_eq!(calls.len(), N);
    for (line, _) in calls.iter() {
        assert_eq!(line, "1970-01-01T00:00:00.000004660Z  INFO f.rs:1 hello 42");
    }
}

// ---- Further cases ----------------------------------------------------------------

#[test]
fn decode_shows_the_thread_when_asked() {
    let meta = LogMetadata { file: false, line_number: false, thread_name: true, thread_id: true };
    let named = build_record(Level::Info, 0, "m", None, 17, Some("worker"), &[]);
    let line = format_line(&named, meta);
    assert_eq!(line, "1970-01-01T00:00:00.000000000Z  INFO worker ThreadId(17) m");

    // A name that is not UTF-8 is shown as no name.
    let mut strings = StrTable::new();
    let name: &[u8] = &[0xFF, 0xFE];
    let record =
        build_record_in(&mut strings, Level::Info, 0, "m", None, 17, Some(name), &[]);
    let line = format_line(&(record, strings), meta);
    assert_eq!(line, "1970-01-01T00:00:00.000000000Z  INFO ThreadId(17) m");

    let id_only = LogMetadata { thread_name: false, ..meta };
    assert_eq!(
        format_line(&named, id_only),
        "1970-01-01T00:00:00.000000000Z  INFO ThreadId(17) m"
    );
    let name_only = LogMetadata { thread_id: false, ..meta };
    assert_eq!(
        format_line(&named, name_only),
        "1970-01-01T00:00:00.000000000Z  INFO worker m"
    );
}

#[test]
fn decode_reads_an_unknown_level_as_error() {
    let mut record = build_record(Level::Info, 0, "m", None, 1, None, &[]);
    record.0[4] = 77;
    assert_eq!(
        format_line(&record, LogMetadata::default()),
        "1970-01-01T00:00:00.000000000Z  ERROR m"
    );
}

#[test]
fn decode_applies_specs_and_floats() {
    let record = build_record(
        Level::Info,
        0,
        "[{:>6}] {:?} {:#?} {:.2} {:x}",
        None,
        1,
        None,
        &[
            le_bytes(TAG_U64, 42),
            str_arg("a\"b"),
            str_arg("c\nd"),
            (TAG_F64, 1.5f64.to_le_bytes().to_vec()),
            le_bytes(TAG_U16, 255),
        ],
    );
    assert_eq!(
        format_line(&record, LogMetadata::default()),
        "1970-01-01T00:00:00.000000000Z  INFO [    42] \"a\\\"b\" \"c\\nd\" 1.50 ff"
    );
}

/// A sink that takes no line.
struct RefusingSink;

impl LogSink for RefusingSink {
    fn accept(&mut self, _line: &[u8], _level: Level) -> io::Result<()> {
        Err(io::Error::new(io::ErrorKind::BrokenPipe, "refused"))
    }
}

#[test]
fn a_failing_sink_is_noticed_and_the_record_consumed() {
    let mut drain = Drain::new(RefusingSink, 0, LogMetadata::default());
    let mut ring = RingBuffer::new(DEFAULT_RING_SIZE);
    let record = plain_record(&mut ring, Level::Info, "lost");
    place_record(&mut ring, 0, &record);
    let head = ring.head;
    drain.rings.push(RingEntry { id: 1, ring });
    let (had_work, notices) = poll(&mut drain);
    assert!(had_work);
    assert_eq!(drain.rings[0].ring.tail, head);
    assert_eq!(notices.len(), 1);
    match &notices[0] {
        Notice::SinkFailed(e) => assert_eq!(e.kind(), io::ErrorKind::BrokenPipe),
        Notice::Corrupt { .. } => panic!("the record is sound"),
    }
    assert!(drain.flush_sink().is_ok());
}

#[test]
fn records_above_the_level_of_a_sink_are_consumed_unseen() {
    let calls: CaptureCalls = Arc::new(Mutex::new(Vec::new()));
    let sink = CaptureSink { calls: Arc::clone(&calls) }.with_max_level(Level::Warn);
    let fanned: CaptureCalls = Arc::new(Mutex::new(Vec::new()));
    let fan =
        FanOut::new().add(CaptureSink { calls: Arc::clone(&fanned) }.with_max_level(Level::Warn));
    let mut ring = RingBuffer::new(DEFAULT_RING_SIZE);
    let r1 = plain_record(&mut ring, Level::Info, "quiet");
    place_record(&mut ring, 0, &r1);
    let r2 = plain_record(&mut ring, Level::Error, "loud");
    place_record(&mut ring, 64, &r2);
    let mut plain = Drain::new(sink, 0, LogMetadata::default());
    plain.rings.push(RingEntry { id: 1, ring: ring.duplicate() });
    let (had_work, notices) = poll(&mut plain);
    assert!(had_work);
    assert!(notices.is_empty());
    assert_eq!(plain.rings[0].ring.tail, plain.rings[0].ring.head);
    let mut fan = Drain::new(fan, 0, LogMetadata::default());
    fan.rings.push(RingEntry { id: 1, ring });
    assert!(poll(&mut fan).0);
    for calls in [calls, fanned] {
        let calls = calls.lock().unwrap();
        assert_eq!(calls.len(), 1);
        assert!(calls[0].0.ends_with("ERROR loud"));
    }
}

/// The line of a record under a pattern.
fn pattern_line(record: &Built, pattern: &str) -> String {
    let layout = match Layout::parse(pattern) {
        Ok(layout) => layout,
        Err(e) => panic!("{}", e.to_string()),
    };
    let mut buf = Vec::new();
    format_record(&record.0, &record.1, 0, &layout, &identity_clock, &float_text, &mut buf);
    String::from_utf8(buf).unwrap()
}

#[test]
fn a_pattern_lays_out_the_line() {
    let named = build_record(
        Level::Info,
        0,
        "server listening on {}",
        Some(("examples/log_pattern.rs", 16)),
        1,
        Some("main"),
        &[le_bytes(TAG_U64, 8080)],
    );
    assert_eq!(
        pattern_line(
            &named,
            "{timestamp} {level:>5} {file}:{line} [{thread_id}|{thread_name}] - {message}"
        ),
        "1970-01-01T00:00:00.000000000Z  INFO examples/log_pattern.rs:16 [ThreadId(1)|main] - \
         server listening on 8080"
    );
    assert_eq!(pattern_line(&named, "{{{level:<6}}} {line:#x} {file:.4}"), "{INFO  } 0x10 exam");

    let bare = build_record(Level::Warn, 0, "m", None, 3, None, &[]);
    assert_eq!(
        pattern_line(&bare, "[{file}:{line:>3}] {thread_name:?} {message}"),
        "[:   ] \"<unnamed>\" m"
    );
}

#[test]
fn the_default_pattern_separates_with_single_spaces() {
    let layout = match check_config(0, DEFAULT_RING_SIZE, "", false) {
        Ok(layout) => layout,
        Err(e) => panic!("{}", e.to_string()),
    };
    let (record, strings) =
        build_record(Level::Info, 0, "listening", Some(("src/main.rs", 12)), 1, None, &[]);
    let mut ring = RingBuffer::new(DEFAULT_RING_SIZE);
    ring.strings = strings;
    place_record(&mut ring, 0, &record);
    let (sink, calls) = {
        let calls: CaptureCalls = Arc::new(Mutex::new(Vec::new()));
        (CaptureSink { calls: Arc::clone(&calls) }, calls)
    };
    let mut drain = Drain::with_layout(sink, 0, layout);
    drain.rings.push(RingEntry { id: 1, ring });
    assert!(poll(&mut drain).0);
    assert_eq!(
        calls.lock().unwrap()[0].0,
        "1970-01-01T00:00:00.000000000Z INFO src/main.rs:12 listening"
    );
}

#[test]
fn a_malformed_pattern_is_no_layout() {
    match Layout::parse("{message} {message}") {
        Err(TicklogError::InvalidFormatPattern(text)) => {
            assert_eq!(text, "{message} may occur only once");
        }
        _ => panic!("the pattern must be refused"),
    }
}

/// A sink that captures every line and refuses every second one.
struct MoodySink {
    calls: CaptureCalls,
}

impl LogSink for MoodySink {
    fn accept(&mut self, line: &[u8], level: Level) -> io::Result<()> {
        let mut calls = self.calls.lock().unwrap();
        calls.push((String::from_utf8_lossy(line).into_owned(), level));
        if calls.len() % 2 == 0 {
            Err(io::Error::from(io::ErrorKind::WouldBlock))
        } else {
            Ok(())
        }
    }
}

#[test]
fn what_a_sink_replies_changes_nothing_for_the_drain() {
    let mut ring = RingBuffer::new(DEFAULT_RING_SIZE);
    for (at, level) in [(0, Level::Info), (64, Level::Error), (128, Level::Warn)] {
        let record = plain_record(&mut ring, level, "same");
        place_record(&mut ring, at, &record);
    }
    let (mut pleased, pleased_calls) = capture_drain();
    pleased.rings.push(RingEntry { id: 1, ring: ring.duplicate() });
    let moody_calls: CaptureCalls = Arc::new(Mutex::new(Vec::new()));
    let sink = MoodySink { calls: Arc::clone(&moody_calls) };
    let mut moody = Drain::new(sink, 0, LogMetadata::default());
    moody.rings.push(RingEntry { id: 1, ring });
    let (pleased_work, pleased_notices) = poll(&mut pleased);
    let (moody_work, moody_notices) = poll(&mut moody);
    assert_eq!(pleased_work, moody_work);
    assert_eq!(pleased.rings[0].ring.tail, moody.rings[0].ring.tail);
    assert_eq!(*pleased_calls.lock().unwrap(), *moody_calls.lock().unwrap());
    assert_eq!(moody_calls.lock().unwrap().len(), 3);
    assert!(pleased_notices.is_empty());
    assert_eq!(moody_notices.len(), 1);
}

#[test]
fn lines_are_utf8_whatever_the_arguments_hold() {
    let mut cut = 3u16.to_le_bytes().to_vec();
    cut.extend_from_slice(&[0xe2, 0x82, 0x41]);
    let record = build_record(
        Level::Info,
        0,
        "größe {{}} {:*^9} {} {:#?}",
        Some(("src/straße.rs", 7)),
        1,
        Some("läufer"),
        &[str_arg("日本"), (TAG_STR, cut), (0xfe, Vec::new())],
    );
    let metadata = LogMetadata { thread_name: true, ..LogMetadata::default() };
    let line = format_line(&record, metadata);
    assert!(line.ends_with(
        "INFO läufer src/straße.rs:7 größe {} ***日本**** \u{fffd}A <unknown tag 0xFE>"
    ));
    let line = pattern_line(&record, "→ {thread_name:.>8} {message}");
    assert!(line.starts_with("→ ..läufer größe {} "));
}

#[test]
fn doubled_braces_are_text() {
    let record = build_record(
        Level::Info,
        0,
        "{{{{}} a}} ä {{}}",
        None,
        1,
        None,
        &[le_bytes(TAG_U64, 5)],
    );
    assert!(format_line(&record, LogMetadata::default()).ends_with("INFO {{} a} ä {}"));
    assert_eq!(validate_fmt("{{{{}} a}} ä {{}}"), Ok(0));
}

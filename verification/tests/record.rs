use ticklog::decode::{decode_and_format, LogMetadata};
use ticklog::encode::LoggableArgs;
use ticklog::format::FloatStyle;
use ticklog::message::FloatValue;
use ticklog::record::{
    assemble, assemble_for, record_size, ThreadMeta, BASE_RECORD_SIZE, COUNT_SIZE, FLAG_FORMAT,
    FLAG_SOURCE, FLAG_THREAD, FORMAT_SECTION_SIZE, HEADER_SIZE, LOG_RECORD, SOURCE_SECTION_SIZE,
    THREAD_SECTION_BASE_SIZE, VERSION,
};
use ticklog::strings::{StrRef, StrTable};
use ticklog::Level;

/// Names a static string by its address, as a record does.
fn by_address(s: &'static str) -> StrRef {
    StrRef { addr: s.as_ptr() as u64, len: s.len() as u16 }
}

/// Assembles a record into `scratch`, or returns `false` where the record format
/// cannot hold it.
fn check_assemble<A: LoggableArgs>(
    scratch: &mut Vec<u8>,
    level: Level,
    timestamp: u64,
    fmt: &'static str,
    file: &'static str,
    line: u32,
    args: &A,
) -> bool {
    let total = match record_size(
        args.args_count(),
        args.args_encoded_size(),
        fmt.len(),
        file.len(),
        0,
    ) {
        Some(total) => total,
        None => return false,
    };
    scratch.clear();
    scratch.resize(total, 0xEE);
    assemble(scratch, level, timestamp, by_address(fmt), by_address(file), line, args);
    true
}

// Reads a little-endian u16 at `offset`.
fn read_u16(bytes: &[u8], offset: usize) -> u16 {
    u16::from_le_bytes(bytes[offset..offset + 2].try_into().unwrap())
}

// Reads a little-endian u32 at `offset`.
fn read_u32(bytes: &[u8], offset: usize) -> u32 {
    u32::from_le_bytes(bytes[offset..offset + 4].try_into().unwrap())
}

// Reads a little-endian u64 at `offset`.
fn read_u64(bytes: &[u8], offset: usize) -> u64 {
    u64::from_le_bytes(bytes[offset..offset + 8].try_into().unwrap())
}

#[test]
fn header_fields_are_written() {
    let mut buf = Vec::new();
    let ok = check_assemble(&mut buf, Level::Warn, 0xABCD, "hi", "f.rs", 7, &());
    assert!(ok);

    assert_eq!(buf[0], VERSION);
    assert_eq!(buf[1], LOG_RECORD);
    assert_eq!(read_u16(&buf, 2) as usize, buf.len());
    assert_eq!(buf[4], Level::Warn.to_u8());
    assert_eq!(read_u16(&buf, 5), FLAG_FORMAT | FLAG_SOURCE);
    assert_eq!(buf[7], 0);
    assert_eq!(read_u64(&buf, 8), 0xABCD);
}

#[test]
fn format_and_source_sections_reference_the_static_strs() {
    let fmt = "value {}";
    let file = "src/x.rs";
    let mut buf = Vec::new();
    check_assemble(&mut buf, Level::Info, 0, fmt, file, 42, &(&1u64, ()));

    // Format section starts right after the header.
    let fmt_ptr = read_u64(&buf, HEADER_SIZE);
    let fmt_len = read_u16(&buf, HEADER_SIZE + 8);
    assert_eq!(fmt_ptr, fmt.as_ptr() as u64);
    assert_eq!(fmt_len as usize, fmt.len());

    // Source section follows the 10-byte format section.
    let src = HEADER_SIZE + FORMAT_SECTION_SIZE;
    assert_eq!(read_u64(&buf, src), file.as_ptr() as u64);
    assert_eq!(read_u16(&buf, src + 8) as usize, file.len());
    assert_eq!(read_u32(&buf, src + 10), 42);
}

#[test]
fn arguments_are_tag_grouped_then_payload_grouped() {
    let mut buf = Vec::new();
    // Two args: u16 (tag 0x06, 2 bytes) then bool (tag 0x0A, 1 byte).
    check_assemble(&mut buf, Level::Info, 0, "{} {}", "f", 1, &(&0x1234u16, (&true, ())));

    let args_at = HEADER_SIZE + FORMAT_SECTION_SIZE + SOURCE_SECTION_SIZE;
    assert_eq!(buf[args_at], 2); // count
    assert_eq!(buf[args_at + 1], 0x06); // u16 tag
    assert_eq!(buf[args_at + 2], 0x0A); // bool tag
    // Payloads follow the two tags.
    assert_eq!(read_u16(&buf, args_at + 3), 0x1234);
    assert_eq!(buf[args_at + 5], 1); // bool true
}

#[test]
fn total_size_matches_buffer_length() {
    let mut buf = Vec::new();
    check_assemble(&mut buf, Level::Error, 0, "{}", "f", 1, &(&"hello", ()));
    assert_eq!(read_u16(&buf, 2) as usize, buf.len());
}

#[test]
fn rejects_more_than_255_arguments() {
    assert_eq!(record_size(256, 256, 1, 1, 0), None);
    assert_eq!(record_size(255, 255, 1, 1, 0), Some(41 + 255 + 255));
}

#[test]
fn rejects_record_larger_than_u16_total_size() {
    // A string argument just large enough to push total_size past u16::MAX.
    let big = "x".repeat(u16::MAX as usize);
    let mut buf = Vec::new();
    assert!(!check_assemble(&mut buf, Level::Info, 0, "{}", "f", 1, &(&big.as_str(), ())));
}

#[test]
fn zero_args_writes_count_zero() {
    let mut buf = Vec::new();
    check_assemble(&mut buf, Level::Info, 0, "static", "f", 1, &());
    let args_at = HEADER_SIZE + FORMAT_SECTION_SIZE + SOURCE_SECTION_SIZE;
    assert_eq!(buf[args_at], 0);
    assert_eq!(buf.len(), args_at + 1);
}

#[test]
fn the_largest_record_is_the_one_that_fits_the_size_field() {
    assert_eq!(
        BASE_RECORD_SIZE,
        HEADER_SIZE + FORMAT_SECTION_SIZE + SOURCE_SECTION_SIZE + COUNT_SIZE
    );
    assert_eq!(record_size(1, 65_535 - 42, 1, 1, 0), Some(65_535));
    assert_eq!(record_size(1, 65_535 - 41, 1, 1, 0), None);
    assert_eq!(record_size(0, 0, 65_535, 65_535, 0), Some(41));
    assert_eq!(record_size(0, 0, 65_536, 0, 0), None);
    assert_eq!(record_size(0, 0, 0, 65_536, 0), None);
    assert_eq!(record_size(1, usize::MAX, 1, 1, 0), None);
}

#[test]
fn strings_are_kept_once_and_found_again() {
    let mut table = StrTable::new();
    let a = table.intern("x = {}");
    let b = table.intern("src/a.rs");
    assert_eq!(table.intern("x = {}"), a);
    assert_ne!(a, b);
    assert_eq!(table.resolve(a), Some("x = {}"));
    assert_eq!(table.duplicate().resolve(b), Some("src/a.rs"));
    // A shorter length names the front of the string, if it ends at a character.
    assert_eq!(table.resolve(StrRef { addr: a.addr, len: 1 }), Some("x"));
    let e = table.intern("é");
    assert_eq!(table.resolve(StrRef { addr: e.addr, len: 1 }), None);
    // What the table does not hold names nothing.
    assert_eq!(table.resolve(StrRef { addr: 99, len: 1 }), None);
    assert_eq!(table.resolve(StrRef { addr: a.addr, len: 7 }), None);
}

#[test]
fn the_thread_section_stands_between_source_and_arguments() {
    let thread = ThreadMeta { id: 0x0102, name: "io" };
    let total = record_size(1, 1, 2, 1, THREAD_SECTION_BASE_SIZE + 2).unwrap();
    assert_eq!(total, 41 + 12 + 2);
    let mut buf = vec![0xEE; total];
    let (fmt, file) = (by_address("{}"), by_address("f"));
    assemble_for(&mut buf, Level::Info, 9, fmt, file, 1, Some(thread), &(&true, ()));
    assert_eq!(read_u16(&buf, 2) as usize, total);
    assert_eq!(read_u16(&buf, 5), FLAG_FORMAT | FLAG_SOURCE | FLAG_THREAD);
    let at = HEADER_SIZE + FORMAT_SECTION_SIZE + SOURCE_SECTION_SIZE;
    assert_eq!(read_u64(&buf, at), 0x0102);
    assert_eq!(read_u16(&buf, at + 8), 2);
    assert_eq!(&buf[at + 10..], b"io\x01\x0A\x01");
    assert_eq!(record_size(1, 1, 2, 1, usize::MAX), None);
}

#[test]
fn the_line_of_an_assembled_record_shows_what_it_was_assembled_from() {
    let mut strings = StrTable::new();
    let fmt = strings.intern("{{{:#x}}} {name:>4} {}");
    let file = strings.intern("src/main.rs");
    let args = (&255u64, (&"ab", (&-7i32, ())));
    let total = record_size(args.args_count(), args.args_encoded_size(), 22, 11, 0).unwrap();
    let mut record = vec![0u8; total];
    assemble(&mut record, Level::Warn, 1_000_000_001, fmt, file, 42, &args);
    let mut line = Vec::new();
    let no_floats = |_: FloatValue, _: FloatStyle| -> String { panic!("no float was logged") };
    decode_and_format(
        &record,
        &strings,
        0,
        &LogMetadata::default(),
        &|tick: u64| tick,
        &no_floats,
        &mut line,
    );
    assert_eq!(
        String::from_utf8(line).unwrap(),
        "1970-01-01T00:00:01.000000001Z  WARN src/main.rs:42 {0xff}   ab -7"
    );
}

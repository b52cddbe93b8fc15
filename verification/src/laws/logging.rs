//! Logging: what a record says and where it goes.

use crate::decode::{Fields, Layout, LogMetadata};
use crate::encode::{F32Bits, F64Bits, Loggable, LoggableArgs, Value};
use crate::format::FloatStyle;
use crate::level::Level;
use crate::message::FloatValue;
use crate::record::ThreadView;
use crate::ring::{RingBuffer, RingState};
use vstd::prelude::*;
use vstd::string::*;

verus! {

/// An unsigned integer, a float and a boolean are logged as they are.
pub proof fn unsigned_are_logged(
    a: u64,
    b: u32,
    c: u16,
    d: u8,
    e: F64Bits,
    f: F32Bits,
    g: bool,
)
    ensures
        Loggable::value(&a) == Value::U64(a) && Loggable::value(&&a) == Value::U64(a),
        Loggable::value(&b) == Value::U32(b) && Loggable::value(&&b) == Value::U32(b),
        Loggable::value(&c) == Value::U16(c) && Loggable::value(&&c) == Value::U16(c),
        Loggable::value(&d) == Value::U8(d) && Loggable::value(&&d) == Value::U8(d),
        Loggable::value(&e) == Value::F64(e.0) && Loggable::value(&&e) == Value::F64(e.0),
        Loggable::value(&f) == Value::F32(f.0) && Loggable::value(&&f) == Value::F32(f.0),
        Loggable::value(&g) == Value::Bool(g) && Loggable::value(&&g) == Value::Bool(g),
{
}

/// A signed integer is logged as it is, and a string by its characters.
pub proof fn signed_are_logged(a: i64, b: i32, c: i16, d: i8, s: &str, t: String)
    ensures
        Loggable::value(&a) == Value::I64(a) && Loggable::value(&&a) == Value::I64(a),
        Loggable::value(&b) == Value::I32(b) && Loggable::value(&&b) == Value::I32(b),
        Loggable::value(&c) == Value::I16(c) && Loggable::value(&&c) == Value::I16(c),
        Loggable::value(&d) == Value::I8(d) && Loggable::value(&&d) == Value::I8(d),
        Loggable::value(&s) == Value::Str(s@),
        Loggable::value(&t) == Value::Str(t@) && Loggable::value(&&t) == Value::Str(t@),
{
}

/// Arguments are logged in the order in which they are given.
pub proof fn arguments_are_in_order<H: Loggable, T: LoggableArgs>(first: &H, rest: T)
    ensures
        ().values() == Seq::<Value>::empty(),
        (first, rest).values().len() == rest.values().len() + 1,
        (first, rest).values()[0] == first.value(),
        (first, rest).values().skip(1) == rest.values(),
{
    assert((first, rest).values().skip(1) =~= rest.values());
}

/// A record that was logged says what it was logged with: its level, the counter
/// value, the format string, the source file and line, the id and the name of the
/// thread, and the values, in order.
pub proof fn records_say_what_was_logged(
    level: Level,
    tick: u64,
    fmt: Seq<u8>,
    file: Seq<u8>,
    line: u32,
    thread: ThreadView,
    values: Seq<Value>,
)
    requires
        crate::log::fits(fmt, file, thread, values),
    ensures
        ({
            let fields = crate::log::logged(level, tick, fmt, file, line, thread, values);
            &&& fields.level == level
            &&& fields.tick == tick
            &&& fields.fmt == fmt
            &&& fields.source == Some((file, line))
            &&& fields.thread_id == thread.0
            &&& thread.1.len() > 0 ==> fields.thread_name == Some(thread.1)
            &&& thread.1.len() == 0 ==> fields.thread_name is None
            &&& fields.args().len() == values.len()
            &&& forall|k: int|
                0 <= k < values.len() ==> #[trigger] fields.args()[k] == crate::message::arg_of(
                    values[k],
                )
        }),
{
    let payloads = crate::encode::payloads(values);
    crate::decode::prefixes_hold(values);
    crate::message::args_round_trip(values, Seq::empty());
    assert(payloads + Seq::<u8>::empty() =~= payloads);
}

/// A record can be logged exactly where it has at most 255 arguments, its strings
/// have at most 65535 bytes each, and all of it has at most 65535: 41 bytes, 10 and
/// the name for the thread, one for each argument and the arguments themselves.
pub proof fn records_are_bounded(
    fmt: Seq<u8>,
    file: Seq<u8>,
    thread: ThreadView,
    values: Seq<Value>,
)
    ensures
        crate::log::fits(fmt, file, thread, values) <==> values.len() <= 255 && fmt.len() <= 65_535
            && file.len() <= 65_535 && 41 + 10 + thread.1.len() + values.len()
            + crate::encode::payloads(values).len() <= 65_535,
        crate::record::record_len(values, Some(thread)) == 51 + thread.1.len() + values.len()
            + crate::encode::payloads(values).len(),
{
}

/// The line of a record that was logged shows what it was logged with. With the
/// default fields it is the timestamp, two spaces, the level, the source file and
/// line, and the format string with the value number `k` in place of its placeholder
/// number `k`.
pub proof fn logged_line<C: Fn(u64) -> u64, F: Fn(FloatValue, FloatStyle) -> String>(
    text: Seq<u8>,
    level: Level,
    tick: u64,
    fmt: Seq<u8>,
    file: Seq<u8>,
    line: u32,
    thread: ThreadView,
    values: Seq<Value>,
    timezone_offset: i32,
    clock: &C,
    float_text: &F,
)
    requires
        crate::log::fits(fmt, file, thread, values),
        crate::format::placeholders(fmt) == Ok::<nat, crate::format::FmtFault>(values.len()),
        crate::decode::is_line(
            text,
            crate::log::logged(level, tick, fmt, file, line, thread, values),
            timezone_offset,
            Layout::Fields(
                LogMetadata { file: true, line_number: true, thread_name: false, thread_id: false },
            ),
            clock,
            float_text,
        ),
    ensures
        exists|ns: u64, floats: Seq<String>| #[trigger]
            call_ensures(clock, (tick,), ns) && (forall|k: int|
                0 <= k < values.len() ==> crate::message::float_text_ok(
                    float_text,
                    values[k],
                    crate::message::holes(fmt)[k],
                    #[trigger] floats[k],
                )) && text == crate::timestamp::iso8601(ns, timezone_offset) + seq![0x20u8, 0x20u8]
                + vstd::utf8::encode_utf8(match level {
                    Level::Error => "ERROR"@,
                    Level::Warn => "WARN"@,
                    Level::Info => "INFO"@,
                    Level::Debug => "DEBUG"@,
                    Level::Trace => "TRACE"@,
                }) + seq![0x20u8] + file
                + seq![0x3Au8] + crate::text::decimal(line as nat) + seq![0x20u8]
                + #[trigger] crate::message::filled(
                fmt,
                crate::message::texts_of(values, crate::message::holes(fmt), floats),
            ),
{
    let fields = crate::log::logged(level, tick, fmt, file, line, thread, values);
    let metadata = LogMetadata {
        file: true,
        line_number: true,
        thread_name: false,
        thread_id: false,
    };
    let specs = crate::message::holes(fmt);
    records_say_what_was_logged(level, tick, fmt, file, line, thread, values);
    crate::message::placeholders_are_holes(fmt);
    crate::decode::prefixes_hold(values);
    let (ns, floats) = choose|ns: u64, floats: Seq<String>|
        call_ensures(clock, (fields.tick,), ns) && crate::message::floats_ok(
            float_text,
            specs,
            fields.args(),
            floats,
        ) && text == #[trigger] crate::decode::line_of(
            fields,
            ns,
            floats,
            timezone_offset,
            Layout::Fields(metadata),
        );
    let texts = crate::message::texts_of(values, specs, floats);
    assert forall|k: int| 0 <= k < texts.len() implies #[trigger] texts[k]
        == crate::message::hole_text(k, specs[k], fields.args(), floats) by {
        assert(fields.args()[k] == crate::message::arg_of(values[k]));
        super::messages::arguments_show_values(values[k], specs[k], floats[k]@);
    }
    crate::message::message_is_filled(fmt, fields.args(), floats, texts);
    assert forall|k: int| 0 <= k < values.len() implies crate::message::float_text_ok(
        float_text,
        values[k],
        specs[k],
        #[trigger] floats[k],
    ) by {
        assert(crate::message::arg_text_ok(float_text, fields.args()[k], specs[k], floats[k]));
        crate::message::value_round_trip(values[k], Seq::empty());
    }
    super::lines::lines_show_their_fields(fields, ns, floats, timezone_offset, metadata);
    let filled = crate::message::filled(fmt, texts);
    assert(text =~= crate::timestamp::iso8601(ns, timezone_offset) + seq![0x20u8, 0x20u8]
        + vstd::utf8::encode_utf8(match level {
            Level::Error => "ERROR"@,
            Level::Warn => "WARN"@,
            Level::Info => "INFO"@,
            Level::Debug => "DEBUG"@,
            Level::Trace => "TRACE"@,
        }) + seq![0x20u8] + file
        + seq![0x3Au8] + crate::text::decimal(line as nat) + seq![0x20u8] + filled);
}

/// What a pattern shows of a record is what the record says: the timestamp of its
/// time, its level, source and thread, and its message.
pub proof fn patterns_show_the_record(
    fields: Fields,
    ns: u64,
    floats: Seq<String>,
    timezone_offset: i32,
    pattern: String,
)
    ensures
        ({
            let parts = crate::decode::parts_of(fields, ns, floats, timezone_offset);
            &&& crate::decode::line_of(
                fields,
                ns,
                floats,
                timezone_offset,
                Layout::Pattern(pattern),
            ) == crate::pattern::line_from(vstd::utf8::encode_utf8(pattern@), 0, parts)
            &&& parts.timestamp == crate::timestamp::iso8601(ns, timezone_offset)
            &&& parts.level == fields.level
            &&& parts.thread_id == fields.thread_id
            &&& parts.message == crate::message::message(fields.fmt, fields.args(), floats)
            &&& fields.source is None ==> parts.source is None
            &&& fields.source matches Some((file, line)) ==> parts.source == Some(
                (vstd::utf8::decode_utf8(file), line),
            )
            &&& fields.thread_name is None ==> parts.thread_name is None
            &&& fields.thread_name matches Some(name) ==> parts.thread_name == Some(
                vstd::utf8::decode_utf8(name),
            )
        }),
{
}

/// A line is that of the record, made at the time that the clock gives for its
/// counter value and with the texts that are given for its floats.
pub proof fn lines_are_of_their_record<
    C: Fn(u64) -> u64,
    F: Fn(FloatValue, FloatStyle) -> String,
>(
    text: Seq<u8>,
    fields: Fields,
    timezone_offset: i32,
    layout: Layout,
    clock: &C,
    float_text: &F,
)
    requires
        crate::decode::is_line(text, fields, timezone_offset, layout, clock, float_text),
    ensures
        exists|ns: u64, floats: Seq<String>|
            call_ensures(clock, (fields.tick,), ns) && (forall|k: int|
                0 <= k < crate::message::holes(fields.fmt).len() && k < fields.args().len()
                    ==> crate::message::arg_text_ok(
                    float_text,
                    fields.args()[k],
                    crate::message::holes(fields.fmt)[k],
                    #[trigger] floats[k],
                )) && text == #[trigger] crate::decode::line_of(
                fields,
                ns,
                floats,
                timezone_offset,
                layout,
            ),
{
}

/// The text of a float is what is given for its bits in the style that its
/// placeholder asks for.
pub proof fn floats_are_asked_for<F: Fn(FloatValue, FloatStyle) -> String>(
    float_text: &F,
    bits: u64,
    short: u32,
    spec: crate::format::FormatSpec,
    text: String,
)
    ensures
        crate::message::float_text_ok(float_text, Value::F64(bits), spec, text) <==> call_ensures(
            float_text,
            (FloatValue::F64(bits), crate::format::style_of(spec)),
            text,
        ),
        crate::message::float_text_ok(float_text, Value::F32(short), spec, text) <==> call_ensures(
            float_text,
            (FloatValue::F32(short), crate::format::style_of(spec)),
            text,
        ),
{
}

/// There is room for a record exactly where it, rounded up to whole slots of 64 bytes,
/// overwrites nothing that waits: at the head where it fits in front of the physical
/// end of the ring, otherwise at its start, and what is left at the end is skipped.
pub proof fn rings_have_room(ring: &RingBuffer, len: nat)
    requires
        ring.wf(),
    ensures
        ({
            let waits = if ring.tail <= ring.head {
                ring.head - ring.tail
            } else {
                0
            };
            let slots = (len + 63) / 64 * 64;
            let left = ring.data@.len() - ring.head as int % ring.data@.len() as int;
            let skipped = if slots <= left {
                0
            } else {
                left
            };
            &&& ring.admits(len) <==> waits + skipped + slots <= ring.data@.len()
                && ring.head + skipped + slots <= 0xFFFF_FFFF_FFFE_0000
            &&& ring.next_head(len) == ring.head + skipped + slots
        }),
{
}

/// What is logged waits behind what waited before.
pub proof fn records_queue_up(before: RingState, after: RingState, record: Seq<u8>)
    requires
        crate::log::appended(before, after, record),
        before.tail % 64 == 0,
        crate::ring::framed(before.data, before.tail as int, before.head as int),
    ensures
        crate::log::waiting(after) == crate::log::waiting(before).push(record),
        after.tail == before.tail,
{
    assert(crate::log::records_kept(before, before.tail as int));
}

} // verus!

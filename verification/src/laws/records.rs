//! Records in bytes.

use crate::encode::Value;
use crate::level::Level;
use crate::message::Arg;
use crate::record::{ThreadMeta, ThreadView};
use crate::ring::RingBuffer;
use crate::strings::StrRef;
use vstd::prelude::*;
use vstd::string::*;

verus! {

/// Numbers are little-endian: the first byte counts once, and what follows it 256
/// times.
pub proof fn numbers_are_little_endian(v: nat, n: nat, b: u8, s: Seq<u8>)
    ensures
        crate::le::le_value(Seq::empty()) == 0,
        crate::le::le_value(seq![b] + s) == b + 256 * crate::le::le_value(s),
        crate::le::le(v, 0).len() == 0,
        crate::le::le(v, n + 1) == seq![(v % 256) as u8] + crate::le::le(v / 256, n),
{
    assert((seq![b] + s).skip(1) =~= s);
}

/// A number is read from the bytes in front where there are enough, and otherwise is
/// zero and nothing is read. Bytes are read as far as there are any.
pub proof fn reads_stay_within_bounds(s: Seq<u8>, n: nat)
    ensures
        n <= s.len() ==> crate::cursor::fixed_value(s, n) == crate::le::le_value(s.take(n as int))
            && crate::cursor::fixed_rest(s, n) == s.skip(n as int) && crate::cursor::front(s, n)
            == s.take(n as int) && crate::cursor::behind(s, n) == s.skip(n as int),
        n > s.len() ==> crate::cursor::fixed_value(s, n) == 0 && crate::cursor::fixed_rest(s, n)
            == s && crate::cursor::front(s, n) == s && crate::cursor::behind(s, n).len() == 0,
{
}

/// A record is a header of 16 bytes, the references to its format string and its source
/// file with the line, the thread where there is one, the number of its arguments, their
/// type tags and their payloads.
pub proof fn records_are_laid_out(
    level: Level,
    timestamp: u64,
    fmt: StrRef,
    file: StrRef,
    line: u32,
    thread: ThreadView,
    values: Seq<Value>,
)
    ensures
        ({
            let fixed = |total: nat, flags: nat|
                seq![1u8, 1u8] + crate::le::le(total, 2) + seq![
                    level.byte() as u8,
                ] + crate::le::le(flags, 2) + seq![0u8] + crate::le::le(timestamp as nat, 8)
                    + crate::le::le(fmt.addr as nat, 8) + crate::le::le(fmt.len as nat, 2)
                    + crate::le::le(file.addr as nat, 8) + crate::le::le(file.len as nat, 2)
                    + crate::le::le(line as nat, 4);
            let args = seq![values.len() as u8] + crate::encode::tags(values)
                + crate::encode::payloads(values);
            let size = 41 + values.len() + crate::encode::payloads(values).len();
            &&& crate::record::record_bytes(level, timestamp, fmt, file, line, None, values)
                == fixed(size, 3) + args
            &&& crate::record::record_bytes(
                level,
                timestamp,
                fmt,
                file,
                line,
                Some(thread),
                values,
            ) == fixed(size + 10 + thread.1.len(), 7) + crate::le::le(thread.0 as nat, 8)
                + crate::le::le(thread.1.len(), 2) + thread.1 + args
        }),
{
    let bare = crate::record::record_bytes(level, timestamp, fmt, file, line, None, values);
    let whole = crate::record::record_bytes(
        level,
        timestamp,
        fmt,
        file,
        line,
        Some(thread),
        values,
    );
    let fixed = |total: nat, flags: nat|
        seq![1u8, 1u8] + crate::le::le(total, 2) + seq![
            level.byte() as u8,
        ] + crate::le::le(flags, 2) + seq![0u8] + crate::le::le(timestamp as nat, 8)
            + crate::le::le(fmt.addr as nat, 8) + crate::le::le(fmt.len as nat, 2) + crate::le::le(
            file.addr as nat,
            8,
        ) + crate::le::le(file.len as nat, 2) + crate::le::le(line as nat, 4);
    let size = 41 + values.len() + crate::encode::payloads(values).len();
    let count = seq![values.len() as u8];
    let tags = crate::encode::tags(values);
    let payloads = crate::encode::payloads(values);
    let front = fixed(size, 3);
    assert(bare =~= front + (count + tags + payloads));
    let front = fixed(size + 10 + thread.1.len(), 7);
    let id = crate::le::le(thread.0 as nat, 8);
    let len = crate::le::le(thread.1.len(), 2);
    assert(whole =~= front + id + len + thread.1 + (count + tags + payloads));
}

/// The tags and the payloads of arguments are those of each, in order.
pub proof fn arguments_are_laid_out(value: Value, rest: Seq<Value>)
    ensures
        crate::encode::tags(Seq::empty()) == Seq::<u8>::empty(),
        crate::encode::payloads(Seq::empty()) == Seq::<u8>::empty(),
        crate::encode::tags(seq![value] + rest) == seq![value.tag()] + crate::encode::tags(rest),
        crate::encode::payloads(seq![value] + rest) == value.payload() + crate::encode::payloads(
            rest,
        ),
{
    let all = seq![value] + rest;
    assert(all.skip(1) =~= rest);
    assert(crate::encode::tags(all) =~= seq![value.tag()] + crate::encode::tags(rest));
    assert(crate::encode::tags(Seq::empty()) =~= Seq::<u8>::empty());
}

/// Values are tagged by their type, in order, and encoded little-endian in as many bytes
/// as their type has. A boolean is one or zero, a string its length in two bytes and its
/// UTF-8.
pub proof fn values_are_encoded(
    a: u64,
    b: u32,
    c: u16,
    d: u8,
    g: bool,
    i: int,
    chars: Seq<char>,
)
    ensures
        Value::U64(a).tag() == 0 && Value::U64(a).payload() == crate::le::le(a as nat, 8),
        Value::F64(a).tag() == 2 && Value::F64(a).payload() == crate::le::le(a as nat, 8),
        Value::U32(b).tag() == 3 && Value::U32(b).payload() == crate::le::le(b as nat, 4),
        Value::F32(b).tag() == 5 && Value::F32(b).payload() == crate::le::le(b as nat, 4),
        Value::U16(c).tag() == 6 && Value::U16(c).payload() == crate::le::le(c as nat, 2),
        Value::U8(d).tag() == 8 && Value::U8(d).payload() == seq![d],
        Value::Bool(g).tag() == 10 && Value::Bool(g).payload() == seq![
            if g {
                1u8
            } else {
                0u8
            },
        ],
        Value::Str(chars).tag() == 11 && Value::Str(chars).payload() == crate::le::le(
            vstd::utf8::encode_utf8(chars).len() % 0x1_0000,
            2,
        ) + vstd::utf8::encode_utf8(chars),
        Value::I64(0).tag() == 1 && Value::I32(0).tag() == 4 && Value::I16(0).tag() == 7
            && Value::I8(0).tag() == 9,
        i64::MIN <= i <= i64::MAX ==> Value::I64(i as i64).payload() == crate::le::le(
            (i % 0x1_0000_0000_0000_0000) as nat,
            8,
        ),
        i32::MIN <= i <= i32::MAX ==> Value::I32(i as i32).payload() == crate::le::le(
            (i % 0x1_0000_0000) as nat,
            4,
        ),
        i16::MIN <= i <= i16::MAX ==> Value::I16(i as i16).payload() == crate::le::le(
            (i % 0x1_0000) as nat,
            2,
        ),
        i8::MIN <= i <= i8::MAX ==> Value::I8(i as i8).payload() == crate::le::le(
            (i % 0x100) as nat,
            1,
        ),
{
    crate::le::pow256_values();
}

/// A payload says what it was encoded from. A boolean is true unless its byte is zero, and
/// a string that is not UTF-8 is what replacement characters make of it.
pub proof fn payloads_say_their_value(v: Value, data: Seq<u8>)
    ensures
        crate::message::prefix_holds(v) ==> crate::message::decoded(
            v.tag(),
            match v {
                Value::Str(chars) => vstd::utf8::encode_utf8(chars),
                _ => v.payload(),
            },
        ) == v,
        data.len() > 0 ==> crate::message::decoded(10, data) == Value::Bool(data[0] != 0),
        vstd::utf8::valid_utf8(data) ==> crate::message::decoded(11, data) == Value::Str(
            vstd::utf8::decode_utf8(data),
        ),
        !vstd::utf8::valid_utf8(data) ==> crate::message::decoded(11, data) == Value::Str(
            crate::message::utf8_lossy(data),
        ),
{
    if crate::message::prefix_holds(v) {
        crate::message::value_round_trip(v, Seq::empty());
    }
}

/// Arguments are read in the order of their tags. Behind a tag that is not known nothing
/// can be read, and every argument from there on says so.
pub proof fn arguments_are_read_in_order(tag: u8, tags: Seq<u8>, rest: Seq<u8>)
    ensures
        crate::message::args_of(Seq::empty(), rest).len() == 0,
        tag <= 11 ==> crate::message::args_of(seq![tag] + tags, rest) == seq![
            Arg::Known(tag, crate::message::arg_data(tag, rest)),
        ] + crate::message::args_of(tags, crate::message::arg_rest(tag, rest)),
        tag > 11 ==> crate::message::args_of(seq![tag] + tags, rest).len() == tags.len() + 1,
        tag > 11 ==> forall|i: int|
            0 <= i < tags.len() + 1 ==> #[trigger] crate::message::args_of(
                seq![tag] + tags,
                rest,
            )[i] == Arg::Unknown((seq![tag] + tags)[i]),
{
    assert((seq![tag] + tags).skip(1) =~= tags);
}

/// A reference names what a string of the table starts with, where it has one of that
/// number that is long enough and does not split a character, and nothing otherwise.
pub proof fn references_name_strings(table: Seq<Seq<u8>>, r: StrRef)
    ensures
        ({
            let named = r.addr < table.len() && r.len <= table[r.addr as int].len()
                && vstd::utf8::is_char_boundary(table[r.addr as int], r.len as int);
            &&& named ==> crate::strings::resolved(table, r) == Some(
                table[r.addr as int].take(r.len as int),
            )
            &&& !named ==> crate::strings::resolved(table, r) is None
        }),
{
}

/// What is not there is made up for: a reference that names nothing gives an empty format
/// string and the file `<file>`, a thread name that is empty or not UTF-8 counts as none,
/// and a level byte that stands for no level counts as an error.
pub proof fn missing_parts_are_made_up_for(
    record: Seq<u8>,
    rest: Seq<u8>,
    table: Seq<Seq<u8>>,
)
    ensures
        crate::strings::resolved(table, crate::decode::str_ref(rest)) is None
            ==> crate::decode::format_section(1, rest, table).0.len() == 0 && (
        crate::decode::source_section(2, rest, table).0 matches Some((file, _)) && file
            == vstd::utf8::encode_utf8("<file>"@)),
        crate::decode::thread_section(4, rest).1 matches Some(name) ==> vstd::utf8::valid_utf8(
            name,
        ),
        crate::cursor::fixed_value(crate::cursor::fixed_rest(rest, 8), 2) == 0
            ==> crate::decode::thread_section(4, rest).1 is None,
        record.len() >= 16 && (record[4] == 0 || record[4] > 5) ==> crate::decode::fields_of(
            record,
            table,
        ).level == Level::Error,
        record.len() >= 16 && 1 <= record[4] <= 5 ==> crate::decode::fields_of(
            record,
            table,
        ).level.byte() == record[4],
{
    reveal(crate::decode::fields_of);
    assert(1u16 & 1u16 != 0) by (bit_vector);
    assert(2u16 & 2u16 != 0) by (bit_vector);
    assert(4u16 & 4u16 != 0) by (bit_vector);
    if record.len() >= 16 {
        reveal_with_fuel(crate::le::le_value, 2);
        let s = record.skip(4);
        assert(s.take(1)[0] == record[4]);
        assert(s.take(1).skip(1) =~= Seq::<u8>::empty());
        assert(crate::le::le_value(s.take(1)) == record[4]);
    }
}

/// Contracts speak of what is there: of a thread its id and the bytes of its name, and of a
/// ring its storage, its positions, whether it is live, and its strings.
pub proof fn views_leave_nothing_out(thread: ThreadMeta<'_>, ring: RingBuffer)
    ensures
        thread@ == (thread.id, vstd::utf8::encode_utf8(thread.name@)),
        crate::record::thread_view(Some(thread)) == Some(thread@),
        ring@.data == ring.data@,
        ring@.head == ring.head,
        ring@.tail == ring.tail,
        ring@.head_cache == ring.head_cache,
        ring@.live == ring.live,
        ring@.strings == ring.strings@,
{
}

/// A table only grows: what it held it holds at the same place.
pub proof fn tables_grow(before: Seq<Seq<u8>>, after: Seq<Seq<u8>>, i: int)
    requires
        crate::strings::grows(before, after),
        0 <= i < before.len(),
    ensures
        before.len() <= after.len(),
        after[i] == before[i],
{
    assert(after.take(before.len() as int)[i] == after[i]);
}

/// A count that does not fit is the largest that does.
pub proof fn counts_saturate(n: nat)
    ensures
        n <= usize::MAX ==> crate::encode::saturated(n) == n,
        n > usize::MAX ==> crate::encode::saturated(n) == usize::MAX,
{
}

/// Payloads have the size of their type: eight bytes for the first three tags, four for the
/// next three, two for the next two, and one for the next three.
pub proof fn payloads_are_sized(tag: u8)
    ensures
        crate::encode::fixed_size(tag) == (if tag <= 2 {
            8nat
        } else if tag <= 5 {
            4
        } else if tag <= 7 {
            2
        } else if tag <= 10 {
            1
        } else {
            0
        }),
{
}

/// What an argument takes from the payloads and what it leaves: as many bytes as its type
/// has, and for a string a length in two bytes and as many as that says.
pub proof fn arguments_take_their_bytes(tag: u8, rest: Seq<u8>)
    requires
        tag <= 11,
    ensures
        tag < 11 && rest.len() >= crate::encode::fixed_size(tag) ==> crate::message::arg_data(
            tag,
            rest,
        ) == rest.take(crate::encode::fixed_size(tag) as int) && crate::message::arg_rest(tag, rest)
            == rest.skip(crate::encode::fixed_size(tag) as int),
        tag == 11 && rest.len() >= 2 && rest.len() - 2 >= crate::le::le_value(rest.take(2)) ==> ({
            let n = crate::le::le_value(rest.take(2)) as int;
            &&& crate::message::arg_data(tag, rest) == rest.subrange(2, 2 + n)
            &&& crate::message::arg_rest(tag, rest) == rest.skip(2 + n)
        }),
{
    if tag == 11 && rest.len() >= 2 && rest.len() - 2 >= crate::le::le_value(rest.take(2)) {
        let n = crate::le::le_value(rest.take(2)) as int;
        assert(rest.skip(2).take(n) =~= rest.subrange(2, 2 + n));
        assert(rest.skip(2).skip(n) =~= rest.skip(2 + n));
    }
}

} // verus!

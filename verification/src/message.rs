//! The message of a record: its format string with the arguments in place of
//! the placeholders.

use crate::ascii::{CLOSE, GREATER, OPEN};
use crate::cursor::Cursor;
use crate::encode::{
    payload_size, Value, TAG_BOOL, TAG_F32, TAG_F64, TAG_I16, TAG_I32, TAG_I64, TAG_I8, TAG_STR,
    TAG_U16, TAG_U32, TAG_U64, TAG_U8,
};
use crate::format::{
    float_style, format_bool, format_i16, format_i32, format_i64, format_i8, format_str,
    format_u16, format_u32, format_u64, format_u8, format_with_spec, parse_spec_bytes, FloatStyle,
    FormatSpec,
};
use crate::le::get_le;
use crate::text::push_str;
use vstd::prelude::*;
use vstd::slice::slice_subrange;
use vstd::string::*;

verus! {

// ---- Arguments --------------------------------------------------------------

/// The bits of a float argument.
#[derive(Debug, Clone, Copy, PartialEq, Eq, Structural)]
pub enum FloatValue {
    /// A double-precision float.
    F64(u64),
    /// A single-precision float.
    F32(u32),
}

/// What std's `String::from_utf8_lossy` makes of bytes that are not UTF-8.
pub uninterp spec fn utf8_lossy(bytes: Seq<u8>) -> Seq<char>;

/// The text that `bytes` stand for.
pub open spec fn text_of(bytes: Seq<u8>) -> Seq<char> {
    if vstd::utf8::valid_utf8(bytes) {
        vstd::utf8::decode_utf8(bytes)
    } else {
        utf8_lossy(bytes)
    }
}

/// Calls `String::from_utf8_lossy`: the text itself where `bytes` are UTF-8.
/// Which replacement characters it substitutes elsewhere is named, not stated.
#[verifier::external_body]
fn from_utf8_lossy(bytes: &[u8]) -> (r: String)
    ensures
        r@ == (if vstd::utf8::valid_utf8(bytes@) {
            vstd::utf8::decode_utf8(bytes@)
        } else {
            utf8_lossy(bytes@)
        }),
{
    String::from_utf8_lossy(bytes).into_owned()
}

/// The value that the payload `data` of type `tag` holds; of a string, `data`
/// is what follows its length prefix.
pub open spec fn decoded(tag: u8, data: Seq<u8>) -> Value {
    let n = crate::le::le_value(data);
    if tag == TAG_U64 {
        Value::U64(n as u64)
    } else if tag == TAG_I64 {
        Value::I64(crate::le::signed(n, 8) as i64)
    } else if tag == TAG_F64 {
        Value::F64(n as u64)
    } else if tag == TAG_U32 {
        Value::U32(n as u32)
    } else if tag == TAG_I32 {
        Value::I32(crate::le::signed(n, 4) as i32)
    } else if tag == TAG_F32 {
        Value::F32(n as u32)
    } else if tag == TAG_U16 {
        Value::U16(n as u16)
    } else if tag == TAG_I16 {
        Value::I16(crate::le::signed(n, 2) as i16)
    } else if tag == TAG_U8 {
        Value::U8(data[0])
    } else if tag == TAG_I8 {
        Value::I8(crate::le::signed(data[0] as nat, 1) as i8)
    } else if tag == TAG_BOOL {
        Value::Bool(data[0] != 0)
    } else {
        Value::Str(text_of(data))
    }
}

/// How a value appears in the message; `float` is the text of a float in the
/// style that `spec` asks for.
pub open spec fn field(value: Value, spec: FormatSpec, float: Seq<char>) -> Seq<u8> {
    match value {
        Value::U64(v) => crate::format::unsigned_field(v as nat, spec),
        Value::U32(v) => crate::format::unsigned_field(v as nat, spec),
        Value::U16(v) => crate::format::unsigned_field(v as nat, spec),
        Value::U8(v) => crate::format::unsigned_field(v as nat, spec),
        Value::I64(v) => crate::format::signed_field(v as int, spec),
        Value::I32(v) => crate::format::signed_field(v as int, spec),
        Value::I16(v) => crate::format::signed_field(v as int, spec),
        Value::I8(v) => crate::format::signed_field(v as int, spec),
        Value::Bool(v) => crate::format::bool_field(v, spec),
        Value::Str(chars) => crate::format::str_field(chars, spec),
        Value::F64(_) | Value::F32(_) => crate::format::padded(
            vstd::utf8::encode_utf8(float),
            float.len(),
            spec,
        ),
    }
}

/// The float that `value` is, if it is one.
pub open spec fn float_of(value: Value) -> Option<FloatValue> {
    match value {
        Value::F64(bits) => Some(FloatValue::F64(bits)),
        Value::F32(bits) => Some(FloatValue::F32(bits)),
        _ => None,
    }
}

/// Whether `text` is what `float_text` may give for `value` under `spec`,
/// where `value` is a float.
pub open spec fn float_text_ok<F: Fn(FloatValue, FloatStyle) -> String>(
    float_text: &F,
    value: Value,
    spec: FormatSpec,
    text: String,
) -> bool {
    float_of(value) matches Some(f) ==> call_ensures(
        float_text,
        (f, crate::format::style_of(spec)),
        text,
    )
}

proof fn u64_as_signed(v: u64)
    ensures
        v as i64 == crate::le::signed(v as nat, 8),
{
    crate::le::pow256_values();
    assert(v < 0x8000_0000_0000_0000 ==> (v as i64) == v) by (bit_vector);
    assert(v >= 0x8000_0000_0000_0000 ==> (v as i64) == v - 0x1_0000_0000_0000_0000) by (bit_vector);
}

proof fn u32_as_signed(v: u32)
    ensures
        v as i32 == crate::le::signed(v as nat, 4),
{
    crate::le::pow256_values();
    assert(v < 0x8000_0000 ==> (v as i32) == v) by (bit_vector);
    assert(v >= 0x8000_0000 ==> (v as i32) == v - 0x1_0000_0000) by (bit_vector);
}

proof fn u16_as_signed(v: u16)
    ensures
        v as i16 == crate::le::signed(v as nat, 2),
{
    crate::le::pow256_values();
    assert(v < 0x8000 ==> (v as i16) == v) by (bit_vector);
    assert(v >= 0x8000 ==> (v as i16) == v - 0x1_0000) by (bit_vector);
}

proof fn u8_as_signed(v: u8)
    ensures
        v as i8 == crate::le::signed(v as nat, 1),
{
    crate::le::pow256_values();
    assert(v < 0x80 ==> (v as i8) == v) by (bit_vector);
    assert(v >= 0x80 ==> (v as i8) == v - 0x100) by (bit_vector);
}

/// The payload of `n` bytes holds a number below `256` to the power of `n`.
proof fn payload_bound(data: Seq<u8>)
    ensures
        crate::le::le_value(data) < crate::le::pow256(data.len()),
        crate::le::pow256(1) == 0x100,
        crate::le::pow256(2) == 0x1_0000,
        crate::le::pow256(4) == 0x1_0000_0000,
        crate::le::pow256(8) == 0x1_0000_0000_0000_0000,
{
    crate::le::le_of_le_value(data);
    crate::le::pow256_values();
}

/// Formats a `u64` payload.
pub fn fmt_u64(data: &[u8], spec: &FormatSpec, buf: &mut Vec<u8>)
    requires
        data@.len() == 8,
    ensures
        final(buf)@ == old(buf)@ + field(decoded(TAG_U64, data@), *spec, Seq::empty()),
{
    proof {
        payload_bound(data@);
    }
    format_u64(get_le(data), spec, buf);
}

/// Formats an `i64` payload.
pub fn fmt_i64(data: &[u8], spec: &FormatSpec, buf: &mut Vec<u8>)
    requires
        data@.len() == 8,
    ensures
        final(buf)@ == old(buf)@ + field(decoded(TAG_I64, data@), *spec, Seq::empty()),
{
    proof {
        payload_bound(data@);
    }
    let bits: u64 = get_le(data);
    proof {
        u64_as_signed(bits);
    }
    format_i64(bits as i64, spec, buf);
}

/// Formats a `u32` payload.
pub fn fmt_u32(data: &[u8], spec: &FormatSpec, buf: &mut Vec<u8>)
    requires
        data@.len() == 4,
    ensures
        final(buf)@ == old(buf)@ + field(decoded(TAG_U32, data@), *spec, Seq::empty()),
{
    proof {
        payload_bound(data@);
    }
    format_u32(get_le(data) as u32, spec, buf);
}

/// Formats an `i32` payload.
pub fn fmt_i32(data: &[u8], spec: &FormatSpec, buf: &mut Vec<u8>)
    requires
        data@.len() == 4,
    ensures
        final(buf)@ == old(buf)@ + field(decoded(TAG_I32, data@), *spec, Seq::empty()),
{
    proof {
        payload_bound(data@);
    }
    let bits: u32 = get_le(data) as u32;
    proof {
        u32_as_signed(bits);
    }
    format_i32(bits as i32, spec, buf);
}

/// Formats a `u16` payload.
pub fn fmt_u16(data: &[u8], spec: &FormatSpec, buf: &mut Vec<u8>)
    requires
        data@.len() == 2,
    ensures
        final(buf)@ == old(buf)@ + field(decoded(TAG_U16, data@), *spec, Seq::empty()),
{
    proof {
        payload_bound(data@);
    }
    format_u16(get_le(data) as u16, spec, buf);
}

/// Formats an `i16` payload.
pub fn fmt_i16(data: &[u8], spec: &FormatSpec, buf: &mut Vec<u8>)
    requires
        data@.len() == 2,
    ensures
        final(buf)@ == old(buf)@ + field(decoded(TAG_I16, data@), *spec, Seq::empty()),
{
    proof {
        payload_bound(data@);
    }
    let bits: u16 = get_le(data) as u16;
    proof {
        u16_as_signed(bits);
    }
    format_i16(bits as i16, spec, buf);
}

/// Formats a `u8` payload.
pub fn fmt_u8(data: &[u8], spec: &FormatSpec, buf: &mut Vec<u8>)
    requires
        data@.len() >= 1,
    ensures
        final(buf)@ == old(buf)@ + field(decoded(TAG_U8, data@), *spec, Seq::empty()),
{
    format_u8(data[0], spec, buf);
}

/// Formats an `i8` payload.
pub fn fmt_i8(data: &[u8], spec: &FormatSpec, buf: &mut Vec<u8>)
    requires
        data@.len() >= 1,
    ensures
        final(buf)@ == old(buf)@ + field(decoded(TAG_I8, data@), *spec, Seq::empty()),
{
    let bits: u8 = data[0];
    proof {
        u8_as_signed(bits);
    }
    format_i8(bits as i8, spec, buf);
}

/// Formats a `bool` payload.
pub fn fmt_bool(data: &[u8], spec: &FormatSpec, buf: &mut Vec<u8>)
    requires
        data@.len() >= 1,
    ensures
        final(buf)@ == old(buf)@ + field(decoded(TAG_BOOL, data@), *spec, Seq::empty()),
{
    format_bool(data[0] != 0, spec, buf);
}

/// Formats the bytes of a string; bytes that are not UTF-8 come out with
/// replacement characters.
pub fn fmt_str(data: &[u8], spec: &FormatSpec, buf: &mut Vec<u8>)
    ensures
        final(buf)@ == old(buf)@ + field(decoded(TAG_STR, data@), *spec, Seq::empty()),
{
    let text: String = from_utf8_lossy(data);
    format_str(text.as_str(), spec, buf);
}

/// Writes a float with `float_text` and pads it.
fn fmt_float<F: Fn(FloatValue, FloatStyle) -> String>(
    value: FloatValue,
    spec: &FormatSpec,
    float_text: &F,
    buf: &mut Vec<u8>,
) -> (text: Ghost<String>)
    requires
        call_requires(float_text, (value, crate::format::style_of(*spec))),
    ensures
        call_ensures(float_text, (value, crate::format::style_of(*spec)), text@),
        final(buf)@ == old(buf)@ + crate::format::padded(
            vstd::utf8::encode_utf8(text@@),
            text@@.len(),
            *spec,
        ),
{
    let text: String = float_text(value, float_style(spec));
    format_with_spec(text.as_str(), spec, buf);
    Ghost(text)
}

/// Formats a double-precision float payload; `float_text` gives the text before
/// padding.
pub fn fmt_f64<F: Fn(FloatValue, FloatStyle) -> String>(
    data: &[u8],
    spec: &FormatSpec,
    float_text: &F,
    buf: &mut Vec<u8>,
)
    requires
        data@.len() == 8,
        forall|v: FloatValue, s: FloatStyle| call_requires(float_text, (v, s)),
    ensures
        exists|text: String|
            #![auto]
            float_text_ok(float_text, decoded(TAG_F64, data@), *spec, text) && final(buf)@ == old(
                buf,
            )@ + field(decoded(TAG_F64, data@), *spec, text@),
{
    proof {
        payload_bound(data@);
    }
    let Ghost(text) = fmt_float(
        FloatValue::F64(get_le(data)),
        spec,
        float_text,
        buf,
    );
    assert(float_text_ok(float_text, decoded(TAG_F64, data@), *spec, text));
}

/// Formats a single-precision float payload; `float_text` gives the text before
/// padding.
pub fn fmt_f32<F: Fn(FloatValue, FloatStyle) -> String>(
    data: &[u8],
    spec: &FormatSpec,
    float_text: &F,
    buf: &mut Vec<u8>,
)
    requires
        data@.len() == 4,
        forall|v: FloatValue, s: FloatStyle| call_requires(float_text, (v, s)),
    ensures
        exists|text: String|
            #![auto]
            float_text_ok(float_text, decoded(TAG_F32, data@), *spec, text) && final(buf)@ == old(
                buf,
            )@ + field(decoded(TAG_F32, data@), *spec, text@),
{
    proof {
        payload_bound(data@);
    }
    let Ghost(text) = fmt_float(
        FloatValue::F32(get_le(data) as u32),
        spec,
        float_text,
        buf,
    );
    assert(float_text_ok(float_text, decoded(TAG_F32, data@), *spec, text));
}

/// An argument as a record holds it.
pub enum Arg {
    /// A known type tag and the bytes of its payload, without the length
    /// prefix of a string.
    Known(u8, Seq<u8>),
    /// A type tag that cannot be read: it is not known, or stands behind one
    /// that is not.
    Unknown(u8),
}

/// The payload that an argument of type `tag` takes from `rest`.
pub open spec fn arg_data(tag: u8, rest: Seq<u8>) -> Seq<u8> {
    if tag == TAG_STR {
        crate::cursor::front(
            crate::cursor::fixed_rest(rest, 2),
            crate::cursor::fixed_value(rest, 2),
        )
    } else {
        crate::cursor::front(rest, crate::encode::fixed_size(tag))
    }
}

/// What an argument of type `tag` leaves of `rest`.
pub open spec fn arg_rest(tag: u8, rest: Seq<u8>) -> Seq<u8> {
    if tag == TAG_STR {
        crate::cursor::behind(
            crate::cursor::fixed_rest(rest, 2),
            crate::cursor::fixed_value(rest, 2),
        )
    } else {
        crate::cursor::behind(rest, crate::encode::fixed_size(tag))
    }
}

/// The arguments whose tags are `tags` and whose payloads start `rest`. After
/// a tag that is not known nothing more can be read.
pub open spec fn args_of(tags: Seq<u8>, rest: Seq<u8>) -> Seq<Arg>
    decreases tags.len(),
{
    if tags.len() == 0 {
        Seq::empty()
    } else if tags[0] <= TAG_STR {
        seq![Arg::Known(tags[0], arg_data(tags[0], rest))] + args_of(
            tags.skip(1),
            arg_rest(tags[0], rest),
        )
    } else {
        tags.map_values(|tag: u8| Arg::Unknown(tag))
    }
}

/// Whether the payload of `arg` is as long as its type asks for.
pub open spec fn arg_complete(arg: Arg) -> bool {
    arg matches Arg::Known(tag, data) ==> tag == TAG_STR || data.len()
        == crate::encode::fixed_size(tag)
}

/// Whether the payloads of the first `n` arguments are as long as their types
/// ask for.
pub open spec fn args_complete(args: Seq<Arg>, n: nat) -> bool {
    forall|k: int| 0 <= k < n && k < args.len() ==> arg_complete(#[trigger] args[k])
}

/// The text for a tag that cannot be read.
pub open spec fn unknown_text(tag: u8) -> Seq<u8> {
    vstd::utf8::encode_utf8("<unknown tag 0x"@) + seq![
        crate::text::digit_byte((tag / 16) as int, true),
        crate::text::digit_byte((tag % 16) as int, true),
        GREATER,
    ]
}

/// The text of a placeholder's argument, where `float` is the text of a float
/// in the style that `spec` asks for.
pub open spec fn arg_text(arg: Arg, spec: FormatSpec, float: Seq<char>) -> Seq<u8> {
    match arg {
        Arg::Known(tag, data) => field(decoded(tag, data), spec, float),
        Arg::Unknown(tag) => unknown_text(tag),
    }
}

/// Whether `text` is what `float_text` may give for `arg` under `spec`, where
/// `arg` is a float.
pub open spec fn arg_text_ok<F: Fn(FloatValue, FloatStyle) -> String>(
    float_text: &F,
    arg: Arg,
    spec: FormatSpec,
    text: String,
) -> bool {
    arg matches Arg::Known(tag, data) ==> float_text_ok(
        float_text,
        decoded(tag, data),
        spec,
        text,
    )
}

/// Appends `<unknown tag 0xNN>` to `buf`.
pub fn write_unknown_tag(tag: u8, buf: &mut Vec<u8>)
    ensures
        final(buf)@ == old(buf)@ + unknown_text(tag),
{
    push_str(buf, "<unknown tag 0x");
    let high: u8 = tag / 16;
    let low: u8 = tag % 16;
    buf.push(
        if high < 10 {
            48 + high
        } else {
            55 + high
        },
    );
    buf.push(
        if low < 10 {
            48 + low
        } else {
            55 + low
        },
    );
    buf.push(GREATER);
    assert(buf@ =~= old(buf)@ + unknown_text(tag));
}

/// Appends the payload `data` of the known type `tag`.
fn format_payload<F: Fn(FloatValue, FloatStyle) -> String>(
    tag: u8,
    data: &[u8],
    spec: &FormatSpec,
    float_text: &F,
    buf: &mut Vec<u8>,
) -> (text: Ghost<String>)
    requires
        arg_complete(Arg::Known(tag, data@)),
        tag <= TAG_STR,
        forall|v: FloatValue, s: FloatStyle| call_requires(float_text, (v, s)),
    ensures
        float_text_ok(float_text, decoded(tag, data@), *spec, text@),
        final(buf)@ == old(buf)@ + field(decoded(tag, data@), *spec, text@@),
{
    let ghost plain: String = arbitrary();
    if tag == TAG_U64 {
        fmt_u64(data, spec, buf);
    } else if tag == TAG_I64 {
        fmt_i64(data, spec, buf);
    } else if tag == TAG_F64 {
        fmt_f64(data, spec, float_text, buf);
        return Ghost(
            choose|text: String|
                #![auto]
                float_text_ok(float_text, decoded(tag, data@), *spec, text) && buf@ == old(buf)@
                    + field(decoded(tag, data@), *spec, text@),
        );
    } else if tag == TAG_U32 {
        fmt_u32(data, spec, buf);
    } else if tag == TAG_I32 {
        fmt_i32(data, spec, buf);
    } else if tag == TAG_F32 {
        fmt_f32(data, spec, float_text, buf);
        return Ghost(
            choose|text: String|
                #![auto]
                float_text_ok(float_text, decoded(tag, data@), *spec, text) && buf@ == old(buf)@
                    + field(decoded(tag, data@), *spec, text@),
        );
    } else if tag == TAG_U16 {
        fmt_u16(data, spec, buf);
    } else if tag == TAG_I16 {
        fmt_i16(data, spec, buf);
    } else if tag == TAG_U8 {
        fmt_u8(data, spec, buf);
    } else if tag == TAG_I8 {
        fmt_i8(data, spec, buf);
    } else if tag == TAG_BOOL {
        fmt_bool(data, spec, buf);
    } else {
        fmt_str(data, spec, buf);
    }
    Ghost(plain)
}

/// Reads and formats one argument of type `tag` from the cursor. Returns
/// `false` for an unknown tag, in which case the cursor and `buf` are left
/// untouched. The ghost result is the text that a float was written with.
fn format_arg<F: Fn(FloatValue, FloatStyle) -> String>(
    tag: u8,
    spec: &FormatSpec,
    c: &mut Cursor<'_>,
    float_text: &F,
    buf: &mut Vec<u8>,
) -> (r: (bool, Ghost<String>))
    requires
        tag <= TAG_STR ==> arg_complete(Arg::Known(tag, arg_data(tag, old(c)@))),
        forall|v: FloatValue, s: FloatStyle| call_requires(float_text, (v, s)),
    ensures
        r.0 == (tag <= TAG_STR),
        r.0 ==> float_text_ok(float_text, decoded(tag, arg_data(tag, old(c)@)), *spec, r.1@),
        r.0 ==> final(buf)@ == old(buf)@ + field(
            decoded(tag, arg_data(tag, old(c)@)),
            *spec,
            r.1@@,
        ),
        r.0 ==> final(c)@ == arg_rest(tag, old(c)@),
        !r.0 ==> final(buf)@ == old(buf)@ && final(c)@ == old(c)@,
{
    if tag > TAG_STR {
        return (false, Ghost(arbitrary()));
    }
    let data: &[u8] = if tag == TAG_STR {
        let (data, _) = c.read_len_prefixed();
        data
    } else {
        c.read_bytes(payload_size(tag))
    };
    let text = format_payload(tag, data, spec, float_text, buf);
    (true, text)
}

// ---- Interleaving -----------------------------------------------------------

/// The position of the first `}` from `i` on, or the length.
pub open spec fn brace_at(fmt: Seq<u8>, i: int) -> int
    decreases fmt.len() - i,
{
    if 0 <= i < fmt.len() && fmt[i] != CLOSE {
        brace_at(fmt, i + 1)
    } else {
        i
    }
}

/// The position after the placeholder whose content starts at `start`.
pub open spec fn hole_end(fmt: Seq<u8>, start: int) -> int {
    let j = brace_at(fmt, start);
    if j < fmt.len() {
        j + 1
    } else {
        j
    }
}

/// The spec of the placeholder whose content starts at `start`.
pub open spec fn hole_spec(fmt: Seq<u8>, start: int) -> FormatSpec {
    crate::format::content_spec(fmt.subrange(start, brace_at(fmt, start)))
}

pub proof fn brace_at_bounds(fmt: Seq<u8>, i: int)
    requires
        0 <= i <= fmt.len(),
    ensures
        i <= brace_at(fmt, i) <= fmt.len(),
        forall|j: int| i <= j < brace_at(fmt, i) ==> #[trigger] fmt[j] != CLOSE,
        brace_at(fmt, i) < fmt.len() ==> fmt[brace_at(fmt, i)] == CLOSE,
    decreases fmt.len() - i,
{
    if i < fmt.len() && fmt[i] != CLOSE {
        brace_at_bounds(fmt, i + 1);
    }
}

/// The specs of the placeholders from position `i` on, in order.
pub open spec fn holes_from(fmt: Seq<u8>, i: int) -> Seq<FormatSpec>
    decreases fmt.len() - i,
{
    if i < 0 || i >= fmt.len() {
        Seq::empty()
    } else if fmt[i] == OPEN {
        if crate::format::holds(fmt, i + 1, OPEN) {
            holes_from(fmt, i + 2)
        } else {
            proof {
                brace_at_bounds(fmt, i + 1);
            }
            seq![hole_spec(fmt, i + 1)] + holes_from(fmt, hole_end(fmt, i + 1))
        }
    } else if fmt[i] == CLOSE {
        if i + 2 <= fmt.len() {
            holes_from(fmt, i + 2)
        } else {
            Seq::empty()
        }
    } else {
        holes_from(fmt, i + 1)
    }
}

/// The specs of the placeholders of `fmt`, in order.
pub open spec fn holes(fmt: Seq<u8>) -> Seq<FormatSpec> {
    holes_from(fmt, 0)
}

/// What stands in place of the placeholder number `k`.
pub open spec fn hole_text(k: int, spec: FormatSpec, args: Seq<Arg>, floats: Seq<String>) -> Seq<
    u8,
> {
    if k < args.len() {
        arg_text(args[k], spec, floats[k]@)
    } else {
        vstd::utf8::encode_utf8("<missing arg>"@)
    }
}

/// The message from position `i` of the format string on, where the next
/// placeholder is number `k`: literal text as it is, an escaped brace as one
/// brace, and a placeholder as its argument.
pub open spec fn message_from(
    fmt: Seq<u8>,
    i: int,
    k: int,
    args: Seq<Arg>,
    floats: Seq<String>,
) -> Seq<u8>
    decreases fmt.len() - i,
{
    if i < 0 || i >= fmt.len() {
        Seq::empty()
    } else if fmt[i] == OPEN {
        if crate::format::holds(fmt, i + 1, OPEN) {
            seq![OPEN] + message_from(fmt, i + 2, k, args, floats)
        } else {
            proof {
                brace_at_bounds(fmt, i + 1);
            }
            hole_text(k, hole_spec(fmt, i + 1), args, floats) + message_from(
                fmt,
                hole_end(fmt, i + 1),
                k + 1,
                args,
                floats,
            )
        }
    } else if fmt[i] == CLOSE {
        if i + 2 <= fmt.len() {
            seq![CLOSE] + message_from(fmt, i + 2, k, args, floats)
        } else {
            seq![CLOSE]
        }
    } else {
        seq![fmt[i]] + message_from(fmt, i + 1, k, args, floats)
    }
}

/// The message of a record with the format string `fmt` and the arguments
/// `args`; `floats[k]` is the text of argument `k` where that is a float.
pub open spec fn message(fmt: Seq<u8>, args: Seq<Arg>, floats: Seq<String>) -> Seq<u8> {
    message_from(fmt, 0, 0, args, floats)
}

/// Whether `floats` are texts that `float_text` may give for the arguments of
/// the placeholders `specs`.
pub open spec fn floats_ok<F: Fn(FloatValue, FloatStyle) -> String>(
    float_text: &F,
    specs: Seq<FormatSpec>,
    args: Seq<Arg>,
    floats: Seq<String>,
) -> bool {
    &&& floats.len() == specs.len()
    &&& forall|k: int|
        0 <= k < specs.len() && k < args.len() ==> arg_text_ok(
            float_text,
            args[k],
            specs[k],
            #[trigger] floats[k],
        )
}

proof fn args_of_len(tags: Seq<u8>, rest: Seq<u8>)
    ensures
        args_of(tags, rest).len() == tags.len(),
    decreases tags.len(),
{
    if tags.len() > 0 && tags[0] <= TAG_STR {
        args_of_len(tags.skip(1), arg_rest(tags[0], rest));
    }
}

/// Whether `full` holds `n` texts and starts with `part`.
spec fn extends(full: Seq<String>, part: Seq<String>, n: nat) -> bool {
    &&& full.len() == n
    &&& part.len() <= n
    &&& full.take(part.len() as int) == part
}

/// Finds the closing brace of the placeholder whose content starts at `start`.
fn find_brace(bytes: &[u8], start: usize) -> (j: usize)
    requires
        start <= bytes@.len(),
    ensures
        j == brace_at(bytes@, start as int),
        start <= j <= bytes@.len(),
{
    let mut j: usize = start;
    while j < bytes.len() && bytes[j] != CLOSE
        invariant
            start <= j <= bytes@.len(),
            brace_at(bytes@, start as int) == brace_at(bytes@, j as int),
        decreases bytes@.len() - j,
    {
        j = j + 1;
    }
    j
}

/// Whether `args` are the arguments of a record, of which the first `k` have
/// been used: `rest` starts with the payloads of the others, as long as no
/// unknown tag has come up.
spec fn args_at(args: Seq<Arg>, tags: Seq<u8>, k: int, parse_ok: bool, rest: Seq<u8>) -> bool {
    &&& args.len() == tags.len()
    &&& parse_ok && k <= tags.len() ==> args.skip(k) == args_of(tags.skip(k), rest)
    &&& !parse_ok ==> forall|j: int|
        k <= j < tags.len() ==> #[trigger] args[j] == Arg::Unknown(tags[j])
}

/// Writes the argument number `arg_idx` in place of its placeholder. Returns
/// whether the arguments behind it can be read.
fn write_hole<F: Fn(FloatValue, FloatStyle) -> String>(
    tags: &[u8],
    arg_idx: usize,
    parse_ok: bool,
    spec: &FormatSpec,
    c: &mut Cursor<'_>,
    float_text: &F,
    buf: &mut Vec<u8>,
    Ghost(args): Ghost<Seq<Arg>>,
) -> (r: (bool, Ghost<String>))
    requires
        args_at(args, tags@, arg_idx as int, parse_ok, old(c)@),
        arg_idx < args.len() ==> arg_complete(args[arg_idx as int]),
        forall|v: FloatValue, s: FloatStyle| call_requires(float_text, (v, s)),
    ensures
        args_at(args, tags@, arg_idx + 1, r.0, final(c)@),
        arg_idx < args.len() ==> arg_text_ok(float_text, args[arg_idx as int], *spec, r.1@),
        final(buf)@ == old(buf)@ + if arg_idx < args.len() {
            arg_text(args[arg_idx as int], *spec, r.1@@)
        } else {
            vstd::utf8::encode_utf8("<missing arg>"@)
        },
{
    let ghost k: int = arg_idx as int;
    if arg_idx >= tags.len() {
        push_str(buf, "<missing arg>");
        return (parse_ok, Ghost(arbitrary()));
    }
    let tag: u8 = tags[arg_idx];
    if !parse_ok {
        write_unknown_tag(tag, buf);
        return (false, Ghost(arbitrary()));
    }
    proof {
        assert(tags@.skip(k)[0] == tag);
        assert(args[k] == args.skip(k)[0]);
        assert(tags@.skip(k).skip(1) =~= tags@.skip(k + 1));
        assert(args.skip(k).skip(1) =~= args.skip(k + 1));
        if tag <= TAG_STR {
            assert(args.skip(k).skip(1) =~= args_of(tags@.skip(k).skip(1), arg_rest(tag, c@)));
        } else {
            assert forall|j: int| k <= j < tags@.len() implies #[trigger] args[j] == Arg::Unknown(
                tags@[j],
            ) by {
                assert(args[j] == args.skip(k)[j - k]);
                assert(tags@.skip(k)[j - k] == tags@[j]);
            }
        }
    }
    let (known, float) = format_arg(tag, spec, c, float_text, buf);
    if !known {
        write_unknown_tag(tag, buf);
    }
    (known, float)
}

/// A step moves from what is to come to what has been written.
proof fn message_step(total: Seq<u8>, before: Seq<u8>, step: Seq<u8>, rest: Seq<u8>)
    requires
        total == before + (step + rest),
    ensures
        total == (before + step) + rest,
{
    assert(before + (step + rest) =~= (before + step) + rest);
}

/// Walks the format string, substituting each `{...}` placeholder with the
/// next argument. Literal text and `{{`/`}}` escapes are copied through.
///
/// `tags` are the arguments' type tags and `c` stands at their payloads.
pub fn interleave<F: Fn(FloatValue, FloatStyle) -> String>(
    fmt: &str,
    tags: &[u8],
    c: Cursor<'_>,
    float_text: &F,
    buf: &mut Vec<u8>,
)
    requires
        args_complete(args_of(tags@, c@), holes(fmt.spec_bytes()).len()),
        forall|v: FloatValue, s: FloatStyle| call_requires(float_text, (v, s)),
    ensures
        exists|floats: Seq<String>|
            floats_ok(float_text, holes(fmt.spec_bytes()), args_of(tags@, c@), floats)
                && final(buf)@ == old(buf)@ + #[trigger] message(
                fmt.spec_bytes(),
                args_of(tags@, c@),
                floats,
            ),
{
    let bytes: &[u8] = fmt.as_bytes();
    let ghost f: Seq<u8> = bytes@;
    let ghost args: Seq<Arg> = args_of(tags@, c@);
    let ghost specs: Seq<FormatSpec> = holes(f);
    let ghost n: nat = specs.len();
    let ghost mut floats: Seq<String> = Seq::empty();
    let mut c = c;
    let mut i: usize = 0;
    let mut arg_idx: usize = 0;
    // Cleared on the first unknown tag: later arguments cannot be read then,
    // only reported.
    let mut parse_ok: bool = true;
    proof {
        args_of_len(tags@, c@);
        assert(specs.skip(0) =~= holes_from(f, 0));
        assert(args.skip(0) =~= args);
        assert(tags@.skip(0) =~= tags@);
    }
    while i < bytes.len()
        invariant
            i <= bytes@.len(),
            arg_idx <= i,
            bytes@ == f,
            f == fmt.spec_bytes(),
            specs == holes(f),
            n == specs.len(),
            floats.len() == arg_idx <= n,
            specs.skip(arg_idx as int) == holes_from(f, i as int),
            args_complete(args, n),
            args_at(args, tags@, arg_idx as int, parse_ok, c@),
            forall|v: FloatValue, s: FloatStyle| call_requires(float_text, (v, s)),
            forall|k: int|
                0 <= k < arg_idx && k < args.len() ==> arg_text_ok(
                    float_text,
                    args[k],
                    specs[k],
                    #[trigger] floats[k],
                ),
            forall|full: Seq<String>| #[trigger]
                extends(full, floats, n) ==> old(buf)@ + message(f, args, full) == buf@
                    + message_from(f, i as int, arg_idx as int, args, full),
        decreases bytes@.len() - i,
    {
        let ghost before = buf@;
        let ghost part = floats;
        let ghost at: int = i as int;
        let ghost k: int = arg_idx as int;
        if bytes[i] == OPEN && !(i + 1 < bytes.len() && bytes[i + 1] == OPEN) {
            let start: usize = i + 1;
            let j: usize = find_brace(bytes, start);
            let spec: FormatSpec = parse_spec_bytes(slice_subrange(bytes, start, j));
            i = if j < bytes.len() {
                j + 1
            } else {
                j
            };
            proof {
                assert(holes_from(f, at) == seq![spec] + holes_from(f, i as int));
                assert(specs.skip(k).len() == n - k);
                assert(specs[k] == specs.skip(k)[0]);
                assert(specs.skip(k).skip(1) =~= specs.skip(k + 1));
                assert(specs.skip(k).skip(1) =~= holes_from(f, i as int));
            }
            let (ok, Ghost(text)) = write_hole(
                tags,
                arg_idx,
                parse_ok,
                &spec,
                &mut c,
                float_text,
                buf,
                Ghost(args),
            );
            parse_ok = ok;
            arg_idx = arg_idx + 1;
            proof {
                floats = part.push(text);
                assert forall|full: Seq<String>| #[trigger] extends(full, floats, n) implies old(
                    buf,
                )@ + message(f, args, full) == buf@ + message_from(
                    f,
                    i as int,
                    arg_idx as int,
                    args,
                    full,
                ) by {
                    assert(full.take(k) =~= full.take(k + 1).take(k));
                    assert(floats.take(k) =~= part);
                    assert(extends(full, part, n));
                    assert(full[k] == full.take(k + 1)[k]);
                    message_step(
                        old(buf)@ + message(f, args, full),
                        before,
                        hole_text(k, spec, args, full),
                        message_from(f, i as int, k + 1, args, full),
                    );
                }
            }
        } else {
            // Literal text, or an escape. Only the `}}` escape is left of the
            // closing braces here: that of a placeholder was consumed with it.
            let b: u8 = bytes[i];
            buf.push(b);
            i = if b != OPEN && b != CLOSE {
                i + 1
            } else if bytes.len() - i >= 2 {
                i + 2
            } else {
                bytes.len()
            };
            proof {
                assert(buf@ =~= before + seq![b]);
                assert forall|full: Seq<String>| #[trigger] extends(full, floats, n) implies old(
                    buf,
                )@ + message(f, args, full) == buf@ + message_from(
                    f,
                    i as int,
                    k,
                    args,
                    full,
                ) by {
                    assert(message_from(f, at, k, args, full) =~= seq![b] + message_from(
                        f,
                        i as int,
                        k,
                        args,
                        full,
                    ));
                    message_step(
                        old(buf)@ + message(f, args, full),
                        before,
                        seq![b],
                        message_from(f, i as int, k, args, full),
                    );
                }
            }
        }
    }
    proof {
        assert(specs.skip(arg_idx as int).len() == 0);
        assert(floats.take(floats.len() as int) =~= floats);
        assert(extends(floats, floats, n));
        assert(buf@ + message_from(f, i as int, arg_idx as int, args, floats) =~= buf@);
        assert(floats_ok(float_text, specs, args, floats));
    }
}

// ---- Laws -------------------------------------------------------------------

/// Whether the length prefix of a string can hold its length.
pub open spec fn prefix_holds(v: Value) -> bool {
    v matches Value::Str(chars) ==> vstd::utf8::encode_utf8(chars).len() <= u16::MAX
}

/// A value as a record holds it.
pub open spec fn arg_of(v: Value) -> Arg {
    Arg::Known(
        v.tag(),
        match v {
            Value::Str(chars) => vstd::utf8::encode_utf8(chars),
            _ => v.payload(),
        },
    )
}

/// Numbers survive their bytes.
proof fn number_round_trip(v: nat, n: nat)
    requires
        v < crate::le::pow256(n),
    ensures
        crate::le::le(v, n).len() == n,
        crate::le::le_value(crate::le::le(v, n)) == v,
{
    crate::le::le_len(v, n);
    crate::le::le_value_of_le(v, n);
}

/// Reading an encoded value back gives the value, and leaves what follows it.
pub proof fn value_round_trip(v: Value, tail: Seq<u8>)
    requires
        prefix_holds(v),
    ensures
        v.tag() <= TAG_STR,
        arg_of(v) == Arg::Known(v.tag(), arg_data(v.tag(), v.payload() + tail)),
        arg_rest(v.tag(), v.payload() + tail) == tail,
        arg_of(v) matches Arg::Known(tag, data) && decoded(tag, data) == v,
        arg_complete(arg_of(v)),
{
    crate::encode::payload_len(v);
    crate::le::pow256_values();
    let all = v.payload() + tail;
    match v {
        Value::Str(chars) => {
            let bytes = vstd::utf8::encode_utf8(chars);
            let prefix = crate::le::le(bytes.len() % 0x1_0000, 2);
            number_round_trip(bytes.len(), 2);
            vstd::utf8::encode_utf8_valid_utf8(chars);
            vstd::utf8::encode_utf8_decode_utf8(chars);
            assert(all.take(2) =~= prefix);
            assert(all.skip(2) =~= bytes + tail);
            assert((bytes + tail).take(bytes.len() as int) =~= bytes);
            assert((bytes + tail).skip(bytes.len() as int) =~= tail);
        },
        _ => {
            let size = v.payload().len();
            assert(all.take(size as int) =~= v.payload());
            assert(all.skip(size as int) =~= tail);
            match v {
                Value::U64(n) => number_round_trip(n as nat, 8),
                Value::I64(n) => number_round_trip(crate::le::twos(n as int, 8), 8),
                Value::F64(n) => number_round_trip(n as nat, 8),
                Value::U32(n) => number_round_trip(n as nat, 4),
                Value::I32(n) => number_round_trip(crate::le::twos(n as int, 4), 4),
                Value::F32(n) => number_round_trip(n as nat, 4),
                Value::U16(n) => number_round_trip(n as nat, 2),
                Value::I16(n) => number_round_trip(crate::le::twos(n as int, 2), 2),
                Value::I8(n) => {
                    let u = crate::le::twos(n as int, 1);
                    number_round_trip(u, 1);
                    assert(v.payload().skip(1) =~= Seq::empty());
                    assert(crate::le::le_value(v.payload().skip(1)) == 0);
                },
                _ => {},
            }
        },
    }
}

/// Reading the arguments of a record back gives the logged values, in order,
/// each with a payload of the right length.
pub proof fn args_round_trip(values: Seq<Value>, tail: Seq<u8>)
    requires
        forall|k: int| 0 <= k < values.len() ==> prefix_holds(#[trigger] values[k]),
    ensures
        ({
            let args = args_of(
                crate::encode::tags(values),
                crate::encode::payloads(values) + tail,
            );
            &&& args == values.map_values(|v: Value| arg_of(v))
            &&& args_complete(args, args.len())
            &&& forall|k: int|
                0 <= k < values.len() ==> (#[trigger] args[k] matches Arg::Known(tag, data)
                    && decoded(tag, data) == values[k])
        }),
    decreases values.len(),
{
    let tags = crate::encode::tags(values);
    let all = crate::encode::payloads(values) + tail;
    let args = args_of(tags, all);
    if values.len() > 0 {
        let first = values[0];
        let rest = values.skip(1);
        value_round_trip(first, crate::encode::payloads(rest) + tail);
        assert(all =~= first.payload() + (crate::encode::payloads(rest) + tail));
        assert(tags.skip(1) =~= crate::encode::tags(rest));
        assert forall|k: int| 0 <= k < rest.len() implies prefix_holds(#[trigger] rest[k]) by {
            assert(rest[k] == values[k + 1]);
        }
        args_round_trip(rest, tail);
        let rest_args = args_of(
            crate::encode::tags(rest),
            crate::encode::payloads(rest) + tail,
        );
        assert(args =~= seq![arg_of(first)] + rest_args);
        assert forall|k: int| 0 <= k < values.len() implies (#[trigger] args[k] == arg_of(
            values[k],
        )) by {
            if k > 0 {
                assert(args[k] == rest_args[k - 1]);
                assert(rest[k - 1] == values[k]);
            }
        }
        assert(args =~= values.map_values(|v: Value| arg_of(v)));
    } else {
        assert(args =~= values.map_values(|v: Value| arg_of(v)));
    }
    assert forall|k: int| 0 <= k < values.len() implies (#[trigger] args[k] matches Arg::Known(
        tag,
        data,
    ) && decoded(tag, data) == values[k]) by {
        value_round_trip(values[k], Seq::empty());
    }
    assert forall|k: int| 0 <= k < args.len() implies arg_complete(#[trigger] args[k]) by {
        value_round_trip(values[k], Seq::empty());
    }
}

/// In a placeholder that validates, no brace closes it before its end.
pub proof fn valid_hole_end(fmt: Seq<u8>, start: int)
    requires
        0 <= start <= fmt.len(),
        crate::format::placeholder_end(fmt, start) is Ok,
    ensures
        crate::format::placeholder_end(fmt, start) == Ok::<int, crate::format::FmtFault>(
            hole_end(fmt, start),
        ),
{
    let end = crate::format::placeholder_end(fmt, start)->Ok_0;
    crate::format::placeholder_has_no_brace(fmt, start);
    brace_at_bounds(fmt, start);
    let j = brace_at(fmt, start);
    assert(j == end - 1) by {
        if j < end - 1 {
            assert(fmt[j] == CLOSE);
        }
        if j > end - 1 {
            assert(fmt[end - 1] != CLOSE);
        }
    }
}

/// A format string that validates with `n` placeholders has `n` placeholders
/// when it is interleaved with its arguments.
pub proof fn placeholders_are_holes(fmt: Seq<u8>)
    requires
        crate::format::placeholders(fmt) is Ok,
    ensures
        crate::format::placeholders(fmt) == Ok::<nat, crate::format::FmtFault>(holes(fmt).len()),
{
    placeholders_are_holes_from(fmt, 0);
}

proof fn placeholders_are_holes_from(fmt: Seq<u8>, i: int)
    requires
        0 <= i <= fmt.len(),
        crate::format::placeholders_from(fmt, i) is Ok,
    ensures
        crate::format::placeholders_from(fmt, i) == Ok::<nat, crate::format::FmtFault>(
            holes_from(fmt, i).len(),
        ),
    decreases fmt.len() - i,
{
    if i < fmt.len() {
        if fmt[i] == OPEN {
            if crate::format::holds(fmt, i + 1, OPEN) {
                placeholders_are_holes_from(fmt, i + 2);
            } else {
                valid_hole_end(fmt, i + 1);
                crate::format::placeholder_end_bounds(fmt, i + 1);
                placeholders_are_holes_from(fmt, hole_end(fmt, i + 1));
            }
        } else if fmt[i] == CLOSE {
            placeholders_are_holes_from(fmt, i + 2);
        } else {
            placeholders_are_holes_from(fmt, i + 1);
        }
    }
}

/// Where the number of arguments is the number of placeholders, the
/// placeholder number `k` is replaced by the value number `k`, written as the
/// placeholder asks for.
pub proof fn placeholders_get_their_values(
    fmt: Seq<u8>,
    values: Seq<Value>,
    tail: Seq<u8>,
    floats: Seq<String>,
)
    requires
        crate::format::placeholders(fmt) == Ok::<nat, crate::format::FmtFault>(values.len()),
        forall|k: int| 0 <= k < values.len() ==> prefix_holds(#[trigger] values[k]),
    ensures
        holes(fmt).len() == values.len(),
        forall|k: int, spec: FormatSpec|
            0 <= k < values.len() ==> #[trigger] hole_text(
                k,
                spec,
                args_of(crate::encode::tags(values), crate::encode::payloads(values) + tail),
                floats,
            ) == field(values[k], spec, floats[k]@),
{
    placeholders_are_holes(fmt);
    args_round_trip(values, tail);
    let args = args_of(crate::encode::tags(values), crate::encode::payloads(values) + tail);
    assert forall|k: int, spec: FormatSpec| 0 <= k < values.len() implies #[trigger] hole_text(
        k,
        spec,
        args,
        floats,
    ) == field(values[k], spec, floats[k]@) by {
        assert(args[k] is Known);
    }
}

// ---- One answer, one message ------------------------------------------------

/// Whether `float_text` always answers a float in a style alike.
pub open spec fn floats_alike<F: Fn(FloatValue, FloatStyle) -> String>(float_text: &F) -> bool {
    forall|v: FloatValue, s: FloatStyle, x: String, y: String|
        #![trigger call_ensures(float_text, (v, s), x), call_ensures(float_text, (v, s), y)]
        call_ensures(float_text, (v, s), x) && call_ensures(float_text, (v, s), y) ==> x@ == y@
}

/// A placeholder is replaced by one text.
proof fn hole_determined<F: Fn(FloatValue, FloatStyle) -> String>(
    float_text: &F,
    k: int,
    specs: Seq<FormatSpec>,
    args: Seq<Arg>,
    f: Seq<String>,
    g: Seq<String>,
)
    requires
        0 <= k < specs.len(),
        floats_alike(float_text),
        floats_ok(float_text, specs, args, f),
        floats_ok(float_text, specs, args, g),
    ensures
        hole_text(k, specs[k], args, f) == hole_text(k, specs[k], args, g),
{
    if k < args.len() {
        assert(arg_text_ok(float_text, args[k], specs[k], f[k]));
        assert(arg_text_ok(float_text, args[k], specs[k], g[k]));
    }
}

/// Where floats are always written alike, a record has one message.
pub proof fn message_determined<F: Fn(FloatValue, FloatStyle) -> String>(
    float_text: &F,
    fmt: Seq<u8>,
    args: Seq<Arg>,
    f: Seq<String>,
    g: Seq<String>,
)
    requires
        floats_alike(float_text),
        floats_ok(float_text, holes(fmt), args, f),
        floats_ok(float_text, holes(fmt), args, g),
    ensures
        message(fmt, args, f) == message(fmt, args, g),
{
    assert(holes(fmt).skip(0) =~= holes(fmt));
    message_determined_from(float_text, fmt, 0, 0, args, f, g);
}

proof fn message_determined_from<F: Fn(FloatValue, FloatStyle) -> String>(
    float_text: &F,
    fmt: Seq<u8>,
    i: int,
    k: int,
    args: Seq<Arg>,
    f: Seq<String>,
    g: Seq<String>,
)
    requires
        0 <= i,
        0 <= k <= holes(fmt).len(),
        holes_from(fmt, i) == holes(fmt).skip(k),
        floats_alike(float_text),
        floats_ok(float_text, holes(fmt), args, f),
        floats_ok(float_text, holes(fmt), args, g),
    ensures
        message_from(fmt, i, k, args, f) == message_from(fmt, i, k, args, g),
    decreases fmt.len() - i,
{
    if i < fmt.len() {
        if fmt[i] == OPEN {
            if crate::format::holds(fmt, i + 1, OPEN) {
                message_determined_from(float_text, fmt, i + 2, k, args, f, g);
            } else {
                brace_at_bounds(fmt, i + 1);
                let rest = holes_from(fmt, hole_end(fmt, i + 1));
                let here = holes_from(fmt, i);
                assert(here[0] == hole_spec(fmt, i + 1));
                assert(here.skip(1) =~= rest);
                assert(holes(fmt).skip(k).skip(1) =~= holes(fmt).skip(k + 1));
                assert(holes(fmt)[k] == holes(fmt).skip(k)[0]);
                hole_determined(float_text, k, holes(fmt), args, f, g);
                message_determined_from(
                    float_text,
                    fmt,
                    hole_end(fmt, i + 1),
                    k + 1,
                    args,
                    f,
                    g,
                );
            }
        } else if fmt[i] == CLOSE {
            if i + 2 <= fmt.len() {
                message_determined_from(float_text, fmt, i + 2, k, args, f, g);
            }
        } else {
            message_determined_from(float_text, fmt, i + 1, k, args, f, g);
        }
    }
}

// ---- Valid text -------------------------------------------------------------

/// What stands in place of a placeholder is text.
proof fn hole_is_text(k: int, spec: FormatSpec, args: Seq<Arg>, floats: Seq<String>)
    requires
        0 <= k,
        crate::format::fills_ascii(spec),
    ensures
        vstd::utf8::valid_utf8(hole_text(k, spec, args, floats)),
{
    if k < args.len() {
        match args[k] {
            Arg::Known(tag, data) => field_is_text(decoded(tag, data), spec, floats[k]@),
            Arg::Unknown(tag) => unknown_is_text(tag),
        }
    } else {
        vstd::utf8::encode_utf8_valid_utf8("<missing arg>"@);
    }
}

/// A value appears as text.
proof fn field_is_text(value: Value, spec: FormatSpec, float: Seq<char>)
    requires
        crate::format::fills_ascii(spec),
    ensures
        vstd::utf8::valid_utf8(field(value, spec, float)),
{
    match value {
        Value::U64(v) => crate::format::unsigned_is_text(v as nat, spec),
        Value::U32(v) => crate::format::unsigned_is_text(v as nat, spec),
        Value::U16(v) => crate::format::unsigned_is_text(v as nat, spec),
        Value::U8(v) => crate::format::unsigned_is_text(v as nat, spec),
        Value::I64(v) => crate::format::signed_is_text(v as int, spec),
        Value::I32(v) => crate::format::signed_is_text(v as int, spec),
        Value::I16(v) => crate::format::signed_is_text(v as int, spec),
        Value::I8(v) => crate::format::signed_is_text(v as int, spec),
        Value::Bool(v) => {
            let text = if v {
                "true"@
            } else {
                "false"@
            };
            vstd::utf8::encode_utf8_valid_utf8(text);
            crate::format::padded_is_text(vstd::utf8::encode_utf8(text), text.len(), spec);
        },
        Value::Str(chars) => crate::format::strings_are_text(chars, spec),
        Value::F64(_) | Value::F32(_) => {
            vstd::utf8::encode_utf8_valid_utf8(float);
            crate::format::padded_is_text(vstd::utf8::encode_utf8(float), float.len(), spec);
        },
    }
}

/// The text for an unknown tag is text.
proof fn unknown_is_text(tag: u8)
    ensures
        vstd::utf8::valid_utf8(unknown_text(tag)),
{
    let front = vstd::utf8::encode_utf8("<unknown tag 0x"@);
    let back = seq![
        crate::text::digit_byte((tag / 16) as int, true),
        crate::text::digit_byte((tag % 16) as int, true),
        GREATER,
    ];
    vstd::utf8::encode_utf8_valid_utf8("<unknown tag 0x"@);
    crate::text::ascii_is_text(back);
    vstd::utf8::valid_utf8_concat(front, back);
}

/// A placeholder that validates pads with ASCII.
proof fn valid_hole_fills_ascii(fmt: Seq<u8>, start: int)
    requires
        0 <= start <= fmt.len(),
        crate::format::placeholder_end(fmt, start) is Ok,
    ensures
        crate::format::fills_ascii(hole_spec(fmt, start)),
        fmt[hole_end(fmt, start) - 1] == CLOSE,
        start < hole_end(fmt, start) <= fmt.len(),
{
    crate::format::placeholder_end_bounds(fmt, start);
    valid_hole_end(fmt, start);
    brace_at_bounds(fmt, start);
    crate::format::name_end_bounds(fmt, start);
    let n = crate::format::name_end(fmt, start);
    if fmt[n] == crate::ascii::COLON {
        crate::format::body_positions(fmt, n + 1);
    }
    crate::format::valid_spec_fills_ascii(fmt, start, n, brace_at(fmt, start));
}

/// The message of a format string that validates is valid UTF-8, whatever the
/// arguments.
pub proof fn message_is_text(fmt: Seq<u8>, args: Seq<Arg>, floats: Seq<String>)
    requires
        vstd::utf8::valid_utf8(fmt),
        crate::format::placeholders(fmt) is Ok,
    ensures
        vstd::utf8::valid_utf8(message(fmt, args, floats)),
{
    assert(fmt.skip(0) =~= fmt);
    message_is_text_from(fmt, 0, 0, 0, args, floats);
    assert(fmt.subrange(0, 0) + message(fmt, args, floats) =~= message(fmt, args, floats));
}

/// The literal text from `a` to `i`, and the message from there on.
proof fn message_is_text_from(
    fmt: Seq<u8>,
    a: int,
    i: int,
    k: int,
    args: Seq<Arg>,
    floats: Seq<String>,
)
    requires
        0 <= a <= i <= fmt.len(),
        0 <= k,
        vstd::utf8::valid_utf8(fmt.skip(a)),
        crate::format::placeholders_from(fmt, i) is Ok,
    ensures
        vstd::utf8::valid_utf8(fmt.subrange(a, i) + message_from(fmt, i, k, args, floats)),
    decreases fmt.len() - i,
{
    let before = fmt.subrange(a, i);
    let rest = message_from(fmt, i, k, args, floats);
    if i == fmt.len() {
        assert(before + rest =~= fmt.skip(a));
    } else if fmt[i] == OPEN || fmt[i] == CLOSE {
        crate::text::text_splits(fmt.skip(a), i - a);
        assert(fmt.skip(a).take(i - a) =~= before);
        if crate::format::holds(fmt, i + 1, fmt[i]) {
            crate::text::text_splits(fmt.skip(a), i + 1 - a);
            assert(fmt.skip(a).skip(i + 2 - a) =~= fmt.skip(i + 2));
            message_is_text_from(fmt, i + 2, i + 2, k, args, floats);
            let after = message_from(fmt, i + 2, k, args, floats);
            assert(fmt.subrange(i + 2, i + 2) + after =~= after);
            crate::text::ascii_is_text(seq![fmt[i]]);
            vstd::utf8::valid_utf8_concat(seq![fmt[i]], after);
        } else {
            let end = hole_end(fmt, i + 1);
            valid_hole_end(fmt, i + 1);
            valid_hole_fills_ascii(fmt, i + 1);
            crate::text::text_splits(fmt.skip(a), end - 1 - a);
            assert(fmt.skip(a).skip(end - a) =~= fmt.skip(end));
            message_is_text_from(fmt, end, end, k + 1, args, floats);
            let after = message_from(fmt, end, k + 1, args, floats);
            assert(fmt.subrange(end, end) + after =~= after);
            let spec = hole_spec(fmt, i + 1);
            hole_is_text(k, spec, args, floats);
            vstd::utf8::valid_utf8_concat(hole_text(k, spec, args, floats), after);
        }
        vstd::utf8::valid_utf8_concat(before, rest);
    } else {
        message_is_text_from(fmt, a, i + 1, k, args, floats);
        let after = message_from(fmt, i + 1, k, args, floats);
        assert(before + rest =~= fmt.subrange(a, i + 1) + after);
    }
}

// ---- Escapes ----------------------------------------------------------------

/// `text` with every brace doubled.
pub open spec fn doubled(text: Seq<char>) -> Seq<char>
    decreases text.len(),
{
    if text.len() == 0 {
        Seq::empty()
    } else if text[0] == '{' || text[0] == '}' {
        seq![text[0], text[0]] + doubled(text.drop_first())
    } else {
        seq![text[0]] + doubled(text.drop_first())
    }
}

/// `bytes` with every brace doubled.
pub open spec fn doubled_bytes(bytes: Seq<u8>) -> Seq<u8>
    decreases bytes.len(),
{
    if bytes.len() == 0 {
        Seq::empty()
    } else if bytes[0] == OPEN || bytes[0] == CLOSE {
        seq![bytes[0], bytes[0]] + doubled_bytes(bytes.drop_first())
    } else {
        seq![bytes[0]] + doubled_bytes(bytes.drop_first())
    }
}

proof fn doubling_joins(a: Seq<u8>, b: Seq<u8>)
    ensures
        doubled_bytes(a + b) == doubled_bytes(a) + doubled_bytes(b),
    decreases a.len(),
{
    if a.len() == 0 {
        assert(a + b =~= b);
        assert(doubled_bytes(a) + doubled_bytes(b) =~= doubled_bytes(b));
    } else {
        doubling_joins(a.drop_first(), b);
        assert((a + b).drop_first() =~= a.drop_first() + b);
        assert(doubled_bytes(a + b) =~= doubled_bytes(a) + doubled_bytes(b));
    }
}

proof fn doubling_keeps_plain(bytes: Seq<u8>)
    requires
        forall|i: int| 0 <= i < bytes.len() ==> #[trigger] bytes[i] != OPEN && bytes[i] != CLOSE,
    ensures
        doubled_bytes(bytes) == bytes,
    decreases bytes.len(),
{
    if bytes.len() > 0 {
        doubling_keeps_plain(bytes.drop_first());
        assert(doubled_bytes(bytes) =~= bytes);
    }
}

/// Doubling the braces of a text doubles those of its bytes.
pub proof fn doubling_encodes(text: Seq<char>)
    ensures
        vstd::utf8::encode_utf8(doubled(text)) == doubled_bytes(vstd::utf8::encode_utf8(text)),
    decreases text.len(),
{
    if text.len() > 0 {
        let c = text[0];
        let one = vstd::utf8::encode_utf8(seq![c]);
        let rest = text.drop_first();
        doubling_encodes(rest);
        crate::text::character_bytes(c);
        assert(text =~= seq![c] + rest);
        crate::text::encoding_joins(seq![c], rest);
        doubling_joins(one, vstd::utf8::encode_utf8(rest));
        if c == '{' || c == '}' {
            assert(seq![c, c] =~= seq![c] + seq![c]);
            crate::text::encoding_joins(seq![c], seq![c]);
            crate::text::encoding_joins(seq![c, c], doubled(rest));
            reveal_with_fuel(doubled_bytes, 2);
            assert(one == seq![if c == '{' {
                OPEN
            } else {
                CLOSE
            }]);
            assert(one.drop_first() =~= Seq::<u8>::empty());
            assert(doubled_bytes(one) =~= one + one);
        } else {
            crate::text::encoding_joins(seq![c], doubled(rest));
            vstd::utf8::char_is_scalar(c);
            vstd::utf8::char_u32_cast(c, c as u32);
            doubling_keeps_plain(one);
        }
    }
}

/// What doubled braces come out as, behind other text.
proof fn doubled_from(
    front: Seq<u8>,
    bytes: Seq<u8>,
    k: int,
    args: Seq<Arg>,
    floats: Seq<String>,
)
    ensures
        ({
            let fmt = front + doubled_bytes(bytes);
            let i = front.len() as int;
            &&& crate::format::placeholders_from(fmt, i) == Ok::<nat, crate::format::FmtFault>(0)
            &&& holes_from(fmt, i) == Seq::<FormatSpec>::empty()
            &&& message_from(fmt, i, k, args, floats) == bytes
        }),
    decreases bytes.len(),
{
    let fmt = front + doubled_bytes(bytes);
    let i = front.len() as int;
    if bytes.len() == 0 {
        assert(message_from(fmt, i, k, args, floats) =~= bytes);
    } else {
        let b = bytes[0];
        let rest = bytes.drop_first();
        let step = if b == OPEN || b == CLOSE {
            seq![b, b]
        } else {
            seq![b]
        };
        doubled_from(front + step, rest, k, args, floats);
        assert(fmt =~= (front + step) + doubled_bytes(rest));
        assert(fmt[i] == b);
        if b == OPEN || b == CLOSE {
            assert(fmt[i + 1] == b);
        }
        assert(seq![b] + rest =~= bytes);
    }
}

/// A text with its braces doubled validates with no placeholder, and its message
/// is the text, whatever the arguments.
pub proof fn doubled_braces_come_out(text: Seq<char>, args: Seq<Arg>, floats: Seq<String>)
    ensures
        ({
            let fmt = vstd::utf8::encode_utf8(doubled(text));
            &&& crate::format::validation(fmt) == Ok::<int, crate::format::FmtFault>(0)
            &&& holes(fmt).len() == 0
            &&& message(fmt, args, floats) == vstd::utf8::encode_utf8(text)
        }),
{
    let bytes = vstd::utf8::encode_utf8(text);
    doubling_encodes(text);
    doubled_from(Seq::empty(), bytes, 0, args, floats);
    assert(Seq::<u8>::empty() + doubled_bytes(bytes) =~= doubled_bytes(bytes));
}

// ---- Filled format strings --------------------------------------------------

/// The format string `fmt` from position `i` on, with `texts[k]` and what
/// follows it in place of its placeholders, and single braces in place of
/// doubled ones.
pub open spec fn filled_from(fmt: Seq<u8>, i: int, k: int, texts: Seq<Seq<u8>>) -> Seq<u8>
    decreases fmt.len() - i,
{
    if i < 0 || i >= fmt.len() {
        Seq::empty()
    } else if (fmt[i] == OPEN || fmt[i] == CLOSE) && crate::format::holds(fmt, i + 1, fmt[i]) {
        seq![fmt[i]] + filled_from(fmt, i + 2, k, texts)
    } else if fmt[i] == OPEN {
        proof {
            brace_at_bounds(fmt, i + 1);
        }
        texts[k] + filled_from(fmt, hole_end(fmt, i + 1), k + 1, texts)
    } else {
        seq![fmt[i]] + filled_from(fmt, i + 1, k, texts)
    }
}

/// The format string `fmt` with `texts` in place of its placeholders.
pub open spec fn filled(fmt: Seq<u8>, texts: Seq<Seq<u8>>) -> Seq<u8> {
    filled_from(fmt, 0, 0, texts)
}

/// The texts of `values` in the placeholders `specs`, where `floats[k]` is the
/// text of value `k` where that is a float.
pub open spec fn texts_of(values: Seq<Value>, specs: Seq<FormatSpec>, floats: Seq<String>) -> Seq<
    Seq<u8>,
> {
    Seq::new(values.len(), |k: int| field(values[k], specs[k], floats[k]@))
}

/// The message of a format string that validates is that string, filled with
/// what stands in place of its placeholders.
pub proof fn message_is_filled(
    fmt: Seq<u8>,
    args: Seq<Arg>,
    floats: Seq<String>,
    texts: Seq<Seq<u8>>,
)
    requires
        crate::format::placeholders(fmt) is Ok,
        texts.len() == holes(fmt).len(),
        forall|k: int|
            0 <= k < texts.len() ==> #[trigger] texts[k] == hole_text(
                k,
                holes(fmt)[k],
                args,
                floats,
            ),
    ensures
        message(fmt, args, floats) == filled(fmt, texts),
{
    assert(holes(fmt).skip(0) =~= holes(fmt));
    message_is_filled_from(fmt, 0, 0, args, floats, texts);
}

proof fn message_is_filled_from(
    fmt: Seq<u8>,
    i: int,
    k: int,
    args: Seq<Arg>,
    floats: Seq<String>,
    texts: Seq<Seq<u8>>,
)
    requires
        0 <= i <= fmt.len(),
        0 <= k <= holes(fmt).len(),
        holes_from(fmt, i) == holes(fmt).skip(k),
        crate::format::placeholders_from(fmt, i) is Ok,
        texts.len() == holes(fmt).len(),
        forall|k: int|
            0 <= k < texts.len() ==> #[trigger] texts[k] == hole_text(
                k,
                holes(fmt)[k],
                args,
                floats,
            ),
    ensures
        message_from(fmt, i, k, args, floats) == filled_from(fmt, i, k, texts),
    decreases fmt.len() - i,
{
    if i < fmt.len() {
        if fmt[i] == OPEN {
            if crate::format::holds(fmt, i + 1, OPEN) {
                message_is_filled_from(fmt, i + 2, k, args, floats, texts);
            } else {
                let end = hole_end(fmt, i + 1);
                valid_hole_end(fmt, i + 1);
                crate::format::placeholder_end_bounds(fmt, i + 1);
                let here = holes_from(fmt, i);
                assert(here[0] == hole_spec(fmt, i + 1));
                assert(here.skip(1) =~= holes_from(fmt, end));
                assert(holes(fmt).skip(k).skip(1) =~= holes(fmt).skip(k + 1));
                assert(holes(fmt)[k] == holes(fmt).skip(k)[0]);
                assert(texts[k] == hole_text(k, holes(fmt)[k], args, floats));
                message_is_filled_from(fmt, end, k + 1, args, floats, texts);
            }
        } else if fmt[i] == CLOSE {
            message_is_filled_from(fmt, i + 2, k, args, floats, texts);
        } else {
            message_is_filled_from(fmt, i + 1, k, args, floats, texts);
        }
    }
}

} // verus!

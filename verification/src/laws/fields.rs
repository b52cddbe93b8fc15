//! Values in placeholders.

use crate::encode::Value;
use crate::format::{Align, FloatStyle, FormatSpec};
use vstd::prelude::*;
use vstd::string::*;

verus! {

/// Whether `full` is `bare` with `left` and `right` copies of `fill` around it.
spec fn surrounded(full: Seq<u8>, bare: Seq<u8>, fill: u8, left: int, right: int) -> bool {
    &&& full.len() == left + bare.len() + right
    &&& full.subrange(left, left + bare.len()) == bare
    &&& forall|i: int| 0 <= i < left ==> #[trigger] full[i] == fill
    &&& forall|i: int| left + bare.len() <= i < full.len() ==> #[trigger] full[i] == fill
}

/// Whether `full` is `bare` filled up to as many characters as the width of `spec`
/// asks for: behind it for `<` and where no alignment is given, in front of it for
/// `>`, and on both sides for `^`, with the odd one behind. The zero flag fills
/// with zeros, in front where no alignment is given.
spec fn filled_up(full: Seq<u8>, bare: Seq<u8>, spec: FormatSpec) -> bool {
    let chars = vstd::utf8::decode_utf8(bare).len();
    let missing: int = match spec.width {
        Some(w) if chars < w => w - chars,
        _ => 0,
    };
    let fill = if spec.zero_fill {
        0x30u8
    } else {
        spec.fill
    };
    match spec.align {
        Align::Left => surrounded(full, bare, fill, 0, missing),
        Align::Right => surrounded(full, bare, fill, missing, 0),
        Align::Center => surrounded(full, bare, fill, missing / 2, missing - missing / 2),
        Align::Unset => if spec.zero_fill {
            surrounded(full, bare, fill, missing, 0)
        } else {
            surrounded(full, bare, fill, 0, missing)
        },
    }
}

/// A width only pads: what appears in a placeholder with a width is what appears
/// in the same placeholder without it, filled up to as many characters as the width
/// asks for. The fill stands behind it for `<` and where no alignment is given, in
/// front of it for `>`, and on both sides for `^`, with the odd one behind. The zero
/// flag fills with zeros, in front where no alignment is given.
pub proof fn width_only_pads(value: Value, spec: FormatSpec, float: Seq<char>)
    ensures
        ({
            let bare = crate::message::field(value, FormatSpec { width: None, ..spec }, float);
            let full = crate::message::field(value, spec, float);
            let chars = vstd::utf8::decode_utf8(bare).len();
            let missing: int = match spec.width {
                Some(w) if chars < w => w - chars,
                _ => 0,
            };
            let left: int = match spec.align {
                Align::Left => 0,
                Align::Right => missing,
                Align::Center => missing / 2,
                Align::Unset => if spec.zero_fill {
                    missing
                } else {
                    0
                },
            };
            &&& vstd::utf8::valid_utf8(bare)
            &&& full.len() == bare.len() + missing
            &&& full.subrange(left, left + bare.len()) == bare
            &&& forall|i: int|
                0 <= i < full.len() && !(left <= i < left + bare.len()) ==> #[trigger] full[i] == (
                if spec.zero_fill {
                    0x30u8
                } else {
                    spec.fill
                })
        }),
{
    fields_filled_up(value, spec, float);
}

proof fn fields_filled_up(value: Value, spec: FormatSpec, float: Seq<char>)
    ensures
        ({
            let bare = crate::message::field(value, FormatSpec { width: None, ..spec }, float);
            &&& vstd::utf8::valid_utf8(bare)
            &&& filled_up(crate::message::field(value, spec, float), bare, spec)
        }),
{
    match value {
        Value::U64(v) => unsigned_padded(v as nat, spec),
        Value::U32(v) => unsigned_padded(v as nat, spec),
        Value::U16(v) => unsigned_padded(v as nat, spec),
        Value::U8(v) => unsigned_padded(v as nat, spec),
        Value::I64(v) => signed_padded(v as int, spec),
        Value::I32(v) => signed_padded(v as int, spec),
        Value::I16(v) => signed_padded(v as int, spec),
        Value::I8(v) => signed_padded(v as int, spec),
        Value::Bool(v) => text_padded(
            if v {
                "true"@
            } else {
                "false"@
            },
            spec,
        ),
        Value::Str(s) => {
            text_padded(crate::format::str_text(s, spec), spec);
            assert(crate::format::str_text(s, FormatSpec { width: None, ..spec })
                == crate::format::str_text(s, spec));
        },
        Value::F64(_) | Value::F32(_) => text_padded(float, spec),
    }
}

proof fn unsigned_padded(value: nat, spec: FormatSpec)
    ensures
        ({
            let bare = crate::format::unsigned_field(value, FormatSpec { width: None, ..spec });
            &&& vstd::utf8::valid_utf8(bare)
            &&& filled_up(crate::format::unsigned_field(value, spec), bare, spec)
        }),
{
    let text = crate::format::unsigned_text(value, spec);
    let radix = crate::format::radix_of(spec.type_char);
    crate::text::digits_are_ascii(value, radix, spec.type_char == Some(0x58u8));
    assert(crate::text::is_ascii(text));
    assert(crate::format::unsigned_text(value, FormatSpec { width: None, ..spec }) == text);
    ascii_counts(text);
    padding(text, text.len(), spec);
    padding(text, text.len(), FormatSpec { width: None, ..spec });
}

proof fn signed_padded(value: int, spec: FormatSpec)
    ensures
        ({
            let bare = crate::format::signed_field(value, FormatSpec { width: None, ..spec });
            &&& vstd::utf8::valid_utf8(bare)
            &&& filled_up(crate::format::signed_field(value, spec), bare, spec)
        }),
{
    let text = crate::format::signed_text(value, spec);
    let magnitude = if value < 0 {
        (-value) as nat
    } else {
        value as nat
    };
    crate::text::digits_are_ascii(magnitude, 10, false);
    assert(crate::text::is_ascii(text));
    assert(crate::format::signed_text(value, FormatSpec { width: None, ..spec }) == text);
    ascii_counts(text);
    padding(text, text.len(), spec);
    padding(text, text.len(), FormatSpec { width: None, ..spec });
}

proof fn text_padded(chars: Seq<char>, spec: FormatSpec)
    ensures
        ({
            let text = vstd::utf8::encode_utf8(chars);
            &&& vstd::utf8::valid_utf8(text)
            &&& crate::format::padded(text, chars.len(), FormatSpec { width: None, ..spec }) == text
            &&& filled_up(crate::format::padded(text, chars.len(), spec), text, spec)
        }),
{
    let text = vstd::utf8::encode_utf8(chars);
    vstd::utf8::encode_utf8_valid_utf8(chars);
    vstd::utf8::encode_utf8_decode_utf8(chars);
    padding(text, chars.len(), spec);
    padding(text, chars.len(), FormatSpec { width: None, ..spec });
}

/// ASCII has as many characters as bytes.
proof fn ascii_counts(s: Seq<u8>)
    requires
        crate::text::is_ascii(s),
    ensures
        vstd::utf8::valid_utf8(s),
        vstd::utf8::decode_utf8(s).len() == s.len(),
{
    let chars = Seq::new(s.len(), |i: int| s[i] as char);
    assert(vstd::utf8::is_ascii_chars(chars));
    vstd::utf8::is_ascii_chars_encode_utf8(chars);
    assert(vstd::utf8::encode_utf8(chars) =~= s) by {
        assert forall|i: int| 0 <= i < s.len() implies vstd::utf8::encode_utf8(chars)[i]
            == #[trigger] s[i] by {
            assert(chars[i] as u8 == s[i]);
        }
    }
    vstd::utf8::encode_utf8_valid_utf8(chars);
    vstd::utf8::encode_utf8_decode_utf8(chars);
}

proof fn padding(text: Seq<u8>, chars: nat, spec: FormatSpec)
    ensures
        vstd::utf8::decode_utf8(text).len() == chars ==> filled_up(
            crate::format::padded(text, chars, spec),
            text,
            spec,
        ),
        spec.width is None ==> crate::format::padded(text, chars, spec) == text,
{
    let full = crate::format::padded(text, chars, spec);
    let missing: int = match spec.width {
        Some(w) if chars < w => w - chars,
        _ => 0,
    };
    let left: int = match spec.align {
        Align::Left => 0,
        Align::Right => missing,
        Align::Center => missing / 2,
        Align::Unset => if spec.zero_fill {
            missing
        } else {
            0
        },
    };
    assert(full.subrange(left, left + text.len()) =~= text);
    if spec.width is None {
        assert(full =~= text);
    }
}

/// A boolean appears as `true` or `false`.
pub proof fn booleans_appear(value: bool, spec: FormatSpec, float: Seq<char>)
    requires
        spec.width is None,
    ensures
        crate::message::field(Value::Bool(value), spec, float) == (if value {
            seq![0x74u8, 0x72u8, 0x75u8, 0x65u8]
        } else {
            seq![0x66u8, 0x61u8, 0x6Cu8, 0x73u8, 0x65u8]
        }),
{
    let text = if value {
        "true"@
    } else {
        "false"@
    };
    reveal_strlit("true");
    reveal_strlit("false");
    assert(vstd::utf8::is_ascii_chars(text));
    vstd::utf8::is_ascii_chars_encode_utf8(text);
    padding(vstd::utf8::encode_utf8(text), text.len(), spec);
    assert(vstd::utf8::encode_utf8(text) =~= if value {
        seq![0x74u8, 0x72u8, 0x75u8, 0x65u8]
    } else {
        seq![0x66u8, 0x61u8, 0x6Cu8, 0x73u8, 0x65u8]
    });
}

/// A string appears as it is, cut to as many characters as the precision allows,
/// unless `?` asks for its debug form.
pub proof fn strings_appear(value: Seq<char>, spec: FormatSpec, float: Seq<char>)
    requires
        spec.width is None,
        spec.type_char != Some(0x3Fu8),
    ensures
        ({
            let text = crate::message::field(Value::Str(value), spec, float);
            &&& (spec.precision matches Some(p) ==> p >= value.len()) ==> text
                == vstd::utf8::encode_utf8(value)
            &&& spec.precision matches Some(p) ==> p < value.len() ==> text
                == vstd::utf8::encode_utf8(value.take(p as int))
        }),
{
    let text = crate::format::str_text(value, spec);
    padding(vstd::utf8::encode_utf8(text), text.len(), spec);
}

/// A string under `?` appears as its debug form, whole, and the alternate flag
/// asks for the alternate one.
pub proof fn strings_debug(value: Seq<char>, spec: FormatSpec, float: Seq<char>)
    requires
        spec.width is None,
        spec.type_char == Some(0x3Fu8),
    ensures
        crate::message::field(Value::Str(value), spec, float) == vstd::utf8::encode_utf8(
            if spec.alternate {
                crate::format::str_debug_alternate(value)
            } else {
                crate::format::str_debug(value)
            },
        ),
{
    let text = crate::format::str_text(value, spec);
    padding(vstd::utf8::encode_utf8(text), text.len(), spec);
}

/// A float appears as its text.
pub proof fn floats_appear(bits: u64, short: u32, spec: FormatSpec, float: Seq<char>)
    requires
        spec.width is None,
    ensures
        crate::message::field(Value::F64(bits), spec, float) == vstd::utf8::encode_utf8(float),
        crate::message::field(Value::F32(short), spec, float) == vstd::utf8::encode_utf8(float),
{
    padding(vstd::utf8::encode_utf8(float), float.len(), spec);
}

/// A placeholder passes its precision on to a float. `e` and `E` ask for an
/// exponent and `?` for the debug form, which takes no precision; every other
/// float is written in decimals. The alternate flag matters to the debug form
/// alone.
pub proof fn floats_keep_their_precision(spec: FormatSpec)
    ensures
        ({
            let style = crate::format::style_of(spec);
            &&& spec.type_char == Some(0x65u8) ==> style == FloatStyle::LowerExp(spec.precision)
            &&& spec.type_char == Some(0x45u8) ==> style == FloatStyle::UpperExp(spec.precision)
            &&& spec.type_char == Some(0x3Fu8) && spec.alternate ==> style
                == FloatStyle::DebugAlternate
            &&& spec.type_char == Some(0x3Fu8) && !spec.alternate ==> style == FloatStyle::Debug
            &&& spec.type_char != Some(0x65u8) && spec.type_char != Some(0x45u8) && spec.type_char
                != Some(0x3Fu8) ==> style == FloatStyle::Display(spec.precision)
        }),
{
}

/// An integer appears by its value alone: its type decides nothing but whether it
/// can be negative.
pub proof fn integers_appear(value: nat, signed: int, spec: FormatSpec, float: Seq<char>)
    ensures
        value <= u64::MAX ==> crate::message::field(Value::U64(value as u64), spec, float)
            == crate::format::unsigned_field(value, spec),
        value <= u32::MAX ==> crate::message::field(Value::U32(value as u32), spec, float)
            == crate::format::unsigned_field(value, spec),
        value <= u16::MAX ==> crate::message::field(Value::U16(value as u16), spec, float)
            == crate::format::unsigned_field(value, spec),
        value <= u8::MAX ==> crate::message::field(Value::U8(value as u8), spec, float)
            == crate::format::unsigned_field(value, spec),
        i64::MIN <= signed <= i64::MAX ==> crate::message::field(
            Value::I64(signed as i64),
            spec,
            float,
        ) == crate::format::signed_field(signed, spec),
        i32::MIN <= signed <= i32::MAX ==> crate::message::field(
            Value::I32(signed as i32),
            spec,
            float,
        ) == crate::format::signed_field(signed, spec),
        i16::MIN <= signed <= i16::MAX ==> crate::message::field(
            Value::I16(signed as i16),
            spec,
            float,
        ) == crate::format::signed_field(signed, spec),
        i8::MIN <= signed <= i8::MAX ==> crate::message::field(
            Value::I8(signed as i8),
            spec,
            float,
        ) == crate::format::signed_field(signed, spec),
{
}

} // verus!

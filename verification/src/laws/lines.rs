//! Log lines.

use crate::decode::{Fields, Layout, LogMetadata};
use crate::encode::Value;
use crate::format::{Align, FormatSpec};
use crate::level::Level;
use crate::pattern::{Field, LineParts};
use vstd::prelude::*;
use vstd::string::*;

verus! {

/// A line without a pattern is the timestamp, two spaces, the level, and then, where
/// they are asked for and there, the name of the thread, its id as `ThreadId(N)`, and
/// the source file with `:line`, each in front of a space, and last the message.
pub proof fn lines_show_their_fields(
    fields: Fields,
    ns: u64,
    floats: Seq<String>,
    timezone_offset: i32,
    metadata: LogMetadata,
)
    ensures
        crate::decode::line_of(fields, ns, floats, timezone_offset, Layout::Fields(metadata))
            == crate::timestamp::iso8601(ns, timezone_offset) + seq![0x20u8, 0x20u8]
            + vstd::utf8::encode_utf8(match fields.level {
                Level::Error => "ERROR"@,
                Level::Warn => "WARN"@,
                Level::Info => "INFO"@,
                Level::Debug => "DEBUG"@,
                Level::Trace => "TRACE"@,
            }) + seq![0x20u8] + (
        match fields.thread_name {
            Some(name) if metadata.thread_name => name + seq![0x20u8],
            _ => Seq::empty(),
        }) + (if metadata.thread_id {
            vstd::utf8::encode_utf8("ThreadId("@) + crate::text::decimal(fields.thread_id as nat)
                + seq![0x29u8, 0x20u8]
        } else {
            Seq::empty()
        }) + (match fields.source {
            Some((file, line)) if metadata.file && metadata.line_number => file + seq![0x3Au8]
                + crate::text::decimal(line as nat) + seq![0x20u8],
            Some((file, _)) if metadata.file => file + seq![0x20u8],
            _ => Seq::empty(),
        }) + crate::message::message(fields.fmt, fields.args(), floats),
{
    let line = crate::decode::line_of(
        fields,
        ns,
        floats,
        timezone_offset,
        Layout::Fields(metadata),
    );
    reveal_strlit(") ");
    assert(vstd::utf8::is_ascii_chars(") "@));
    vstd::utf8::is_ascii_chars_encode_utf8(") "@);
    assert(vstd::utf8::encode_utf8(") "@) =~= seq![0x29u8, 0x20u8]);
    super::levels::levels_are_named(fields.level);
    let head = crate::decode::line_head(fields.level, ns, timezone_offset);
    let name = crate::decode::name_field(fields.thread_name, metadata);
    let id = crate::decode::id_field(fields.thread_id, metadata);
    let source = crate::decode::source_field(fields.source, metadata);
    if let Some((file, l)) = fields.source {
        if metadata.file {
            if metadata.line_number {
                assert(source =~= file + seq![0x3Au8] + crate::text::decimal(l as nat)
                    + seq![0x20u8]);
            } else {
                assert(source =~= file + seq![0x20u8]);
            }
        }
    }
    let message = crate::message::message(fields.fmt, fields.args(), floats);
    assert(line =~= head + name + id + source + message);
}

/// Each field of a pattern shows what the record says, written as its spec asks
/// for: the name of the level, the file, the line, the id as `ThreadId(N)` and the
/// name of the thread, which is `<unnamed>` where it has none. A record without a
/// source has an empty file and line. The timestamp and the message are as they are.
pub proof fn pattern_fields_show(spec: FormatSpec, parts: LineParts)
    ensures
        crate::pattern::field_text(Field::Timestamp, spec, parts) == parts.timestamp,
        crate::pattern::field_text(Field::Message, spec, parts) == parts.message,
        crate::pattern::field_text(Field::Level, spec, parts) == crate::message::field(
            Value::Str(match parts.level {
                Level::Error => "ERROR"@,
                Level::Warn => "WARN"@,
                Level::Info => "INFO"@,
                Level::Debug => "DEBUG"@,
                Level::Trace => "TRACE"@,
            }),
            spec,
            Seq::empty(),
        ),
        crate::pattern::field_text(Field::File, spec, parts) == crate::message::field(
            Value::Str(
                match parts.source {
                    Some((file, _)) => file,
                    None => Seq::empty(),
                },
            ),
            spec,
            Seq::empty(),
        ),
        crate::pattern::field_text(Field::Line, spec, parts) == crate::message::field(
            match parts.source {
                Some((_, line)) => Value::U32(line),
                None => Value::Str(Seq::empty()),
            },
            spec,
            Seq::empty(),
        ),
        crate::pattern::field_text(Field::ThreadId, spec, parts) == crate::message::field(
            Value::Str(
                "ThreadId("@ + crate::text::decimal_chars(parts.thread_id as nat) + seq![')'],
            ),
            spec,
            Seq::empty(),
        ),
        crate::pattern::field_text(Field::ThreadName, spec, parts) == crate::message::field(
            Value::Str(
                match parts.thread_name {
                    Some(name) => name,
                    None => "<unnamed>"@,
                },
            ),
            spec,
            Seq::empty(),
        ),
{
    reveal_strlit("");
    assert(""@ =~= Seq::<char>::empty());
    reveal_strlit(")");
    assert(")"@ =~= seq![')']);
    super::levels::levels_are_named(parts.level);
}

/// A number as characters is the number as bytes.
pub proof fn decimal_characters(n: nat)
    ensures
        vstd::utf8::encode_utf8(crate::text::decimal_chars(n)) == crate::text::decimal(n),
    decreases n,
{
    if n < 10 {
        let c = crate::text::digit_char(n);
        crate::text::character_bytes(c);
        assert(crate::text::decimal(n) =~= seq![c as u8]);
    } else {
        decimal_characters(n / 10);
        let c = crate::text::digit_char(n % 10);
        crate::text::character_bytes(c);
        let front = crate::text::decimal_chars(n / 10);
        assert(crate::text::decimal_chars(n) =~= front + seq![c]);
        crate::text::encoding_joins(front, seq![c]);
        assert(crate::text::decimal(n) =~= crate::text::decimal(n / 10) + seq![c as u8]);
    }
}

/// The plain spec, which a placeholder without one has.
pub open spec fn unadorned() -> FormatSpec {
    FormatSpec {
        fill: 0x20,
        align: Align::Unset,
        zero_fill: false,
        width: None,
        precision: None,
        alternate: false,
        type_char: None,
    }
}

/// With a plain spec, the fields of a pattern are the bytes of what the record says.
pub proof fn plain_fields_show(parts: LineParts)
    ensures
        crate::pattern::field_text(Field::Level, unadorned(), parts) == vstd::utf8::encode_utf8(
            match parts.level {
                Level::Error => "ERROR"@,
                Level::Warn => "WARN"@,
                Level::Info => "INFO"@,
                Level::Debug => "DEBUG"@,
                Level::Trace => "TRACE"@,
            },
        ),
        parts.source matches Some((file, line)) ==> crate::pattern::field_text(
            Field::File,
            unadorned(),
            parts,
        ) == vstd::utf8::encode_utf8(file) && crate::pattern::field_text(
            Field::Line,
            unadorned(),
            parts,
        ) == crate::text::decimal(line as nat),
        parts.source is None ==> crate::pattern::field_text(Field::File, unadorned(), parts).len()
            == 0 && crate::pattern::field_text(Field::Line, unadorned(), parts).len() == 0,
        crate::pattern::field_text(Field::ThreadId, unadorned(), parts) == vstd::utf8::encode_utf8(
            "ThreadId("@,
        ) + crate::text::decimal(parts.thread_id as nat) + seq![0x29u8],
        crate::pattern::field_text(Field::ThreadName, unadorned(), parts)
            == vstd::utf8::encode_utf8(
            match parts.thread_name {
                Some(name) => name,
                None => "<unnamed>"@,
            },
        ),
{
    let spec = unadorned();
    pattern_fields_show(spec, parts);
    super::fields::strings_appear(match parts.level {
        Level::Error => "ERROR"@,
        Level::Warn => "WARN"@,
        Level::Info => "INFO"@,
        Level::Debug => "DEBUG"@,
        Level::Trace => "TRACE"@,
    }, spec, Seq::empty());
    super::fields::strings_appear(Seq::empty(), spec, Seq::empty());
    let name = match parts.thread_name {
        Some(name) => name,
        None => "<unnamed>"@,
    };
    super::fields::strings_appear(name, spec, Seq::empty());
    let digits = crate::text::decimal_chars(parts.thread_id as nat);
    let id = "ThreadId("@ + digits + seq![')'];
    super::fields::strings_appear(id, spec, Seq::empty());
    decimal_characters(parts.thread_id as nat);
    crate::text::encoding_joins("ThreadId("@, digits);
    crate::text::encoding_joins("ThreadId("@ + digits, seq![')']);
    crate::text::character_bytes(')');
    if let Some((file, line)) = parts.source {
        super::fields::strings_appear(file, spec, Seq::empty());
        let text = crate::format::unsigned_text(line as nat, spec);
        assert(text =~= crate::text::decimal(line as nat));
        assert(crate::format::padded(text, text.len(), spec) =~= text);
    }
}

/// The default pattern is accepted, and gives the timestamp, the name of the level,
/// the source file and line and the message, separated by single spaces.
pub proof fn default_lines(parts: LineParts, file: Seq<char>, line: u32)
    requires
        parts.source == Some((file, line)),
    ensures
        ({
            let s = vstd::utf8::encode_utf8("{timestamp} {level} {file}:{line} {message}"@);
            &&& crate::pattern::DEFAULT_LINE_PATTERN@
                == "{timestamp} {level} {file}:{line} {message}"@
            &&& crate::pattern::pattern_fault(s) is None
            &&& crate::pattern::line_from(s, 0, parts) == parts.timestamp + seq![0x20u8]
                + vstd::utf8::encode_utf8(match parts.level {
                    Level::Error => "ERROR"@,
                    Level::Warn => "WARN"@,
                    Level::Info => "INFO"@,
                    Level::Debug => "DEBUG"@,
                    Level::Trace => "TRACE"@,
                }) + seq![0x20u8]
                + vstd::utf8::encode_utf8(file) + seq![0x3Au8] + crate::text::decimal(line as nat)
                + seq![0x20u8] + parts.message
        }),
{
    crate::pattern::default_line(parts);
    plain_fields_show(parts);
}

} // verus!

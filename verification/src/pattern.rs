//! Log-line patterns.
//!
//! A pattern is text with placeholders `{timestamp}`, `{level}`, `{file}`,
//! `{line}`, `{thread_id}`, `{thread_name}` and `{message}`. Every placeholder
//! takes an optional format spec except `{timestamp}` and `{message}`, and
//! `{message}` occurs at most once.

use crate::ascii::{CLOSE, COLON, OPEN, SPACE};
use crate::format::{
    format_str, format_u64, parse_spec_bytes, parse_spec_const, FmtFault, FormatSpec,
};
use crate::level::Level;
use crate::text::{append_decimal, push_bytes, same_bytes};
use vstd::prelude::*;
use vstd::slice::slice_subrange;
use vstd::string::*;

verus! {

/// The pattern that is used unless another is configured.
pub const DEFAULT_LINE_PATTERN: &'static str = "{timestamp} {level} {file}:{line} {message}";

/// A field of a log line.
#[derive(Debug, Clone, Copy, PartialEq, Eq, Structural)]
pub enum Field {
    Timestamp,
    Level,
    File,
    Line,
    ThreadId,
    ThreadName,
    Message,
}

impl Field {
    /// The name of the field in a pattern.
    pub open spec fn name(self) -> Seq<char> {
        match self {
            Field::Timestamp => "timestamp"@,
            Field::Level => "level"@,
            Field::File => "file"@,
            Field::Line => "line"@,
            Field::ThreadId => "thread_id"@,
            Field::ThreadName => "thread_name"@,
            Field::Message => "message"@,
        }
    }

    /// Whether the field takes a format spec.
    pub open spec fn takes_spec(self) -> bool {
        self != Field::Timestamp && self != Field::Message
    }
}

/// The field whose name is `name`.
pub open spec fn field_named(name: Seq<u8>) -> Option<Field> {
    if name == vstd::utf8::encode_utf8(Field::Timestamp.name()) {
        Some(Field::Timestamp)
    } else if name == vstd::utf8::encode_utf8(Field::Level.name()) {
        Some(Field::Level)
    } else if name == vstd::utf8::encode_utf8(Field::File.name()) {
        Some(Field::File)
    } else if name == vstd::utf8::encode_utf8(Field::Line.name()) {
        Some(Field::Line)
    } else if name == vstd::utf8::encode_utf8(Field::ThreadId.name()) {
        Some(Field::ThreadId)
    } else if name == vstd::utf8::encode_utf8(Field::ThreadName.name()) {
        Some(Field::ThreadName)
    } else if name == vstd::utf8::encode_utf8(Field::Message.name()) {
        Some(Field::Message)
    } else {
        None
    }
}

/// Why a pattern is refused.
pub enum PatternFault {
    /// Its placeholders or their specs are malformed.
    Syntax(FmtFault),
    /// A placeholder names no field.
    UnknownField,
    /// A placeholder has a spec that its field does not take.
    SpecNotTaken,
    /// The message occurs more than once.
    RepeatedMessage,
}

impl PatternFault {
    /// The message that goes with the fault.
    pub open spec fn text(self) -> Seq<char> {
        match self {
            PatternFault::Syntax(f) => f.text(),
            PatternFault::UnknownField => "unknown field in log-line pattern"@,
            PatternFault::SpecNotTaken => "{timestamp} and {message} take no format spec"@,
            PatternFault::RepeatedMessage => "{message} may occur only once"@,
        }
    }
}

/// The field of the placeholder whose content starts at `start`, and the
/// position after its closing brace.
pub open spec fn field_at(s: Seq<u8>, start: int) -> Result<(Field, int), PatternFault> {
    let n = crate::format::name_end(s, start);
    if n >= s.len() {
        Err(PatternFault::Syntax(FmtFault::Unclosed))
    } else {
        match field_named(s.subrange(start, n)) {
            None => Err(PatternFault::UnknownField),
            Some(field) => if s[n] == CLOSE {
                Ok((field, n + 1))
            } else if !field.takes_spec() {
                Err(PatternFault::SpecNotTaken)
            } else {
                match crate::format::spec_body_end(s, n + 1) {
                    Err(f) => Err(PatternFault::Syntax(f)),
                    Ok(e) => if e >= s.len() {
                        Err(PatternFault::Syntax(FmtFault::Unclosed))
                    } else if s[e] != CLOSE {
                        Err(PatternFault::Syntax(FmtFault::Trailing))
                    } else {
                        Ok((field, e + 1))
                    },
                }
            },
        }
    }
}

/// A placeholder ends behind its start.
pub proof fn field_at_bounds(s: Seq<u8>, start: int)
    requires
        0 <= start <= s.len(),
    ensures
        field_at(s, start) matches Ok(r) ==> start < r.1 <= s.len(),
{
    crate::format::name_end_bounds(s, start);
    let n = crate::format::name_end(s, start);
    if n < s.len() && s[n] == COLON {
        crate::format::body_positions(s, n + 1);
    }
}

/// What is wrong with the pattern from position `i` on, where `seen` tells
/// whether the message has occurred; `None` where it is valid.
pub open spec fn pattern_fault_from(s: Seq<u8>, i: int, seen: bool) -> Option<PatternFault>
    decreases s.len() - i,
{
    if i < 0 || i >= s.len() {
        None
    } else if s[i] == OPEN {
        if crate::format::holds(s, i + 1, OPEN) {
            pattern_fault_from(s, i + 2, seen)
        } else {
            proof {
                field_at_bounds(s, i + 1);
            }
            match field_at(s, i + 1) {
                Err(f) => Some(f),
                Ok((field, end)) => if field == Field::Message && seen {
                    Some(PatternFault::RepeatedMessage)
                } else {
                    pattern_fault_from(s, end, seen || field == Field::Message)
                },
            }
        }
    } else if s[i] == CLOSE {
        if crate::format::holds(s, i + 1, CLOSE) {
            pattern_fault_from(s, i + 2, seen)
        } else {
            Some(PatternFault::Syntax(FmtFault::Unmatched))
        }
    } else {
        pattern_fault_from(s, i + 1, seen)
    }
}

/// What is wrong with a pattern; `None` where it is valid.
pub open spec fn pattern_fault(s: Seq<u8>) -> Option<PatternFault> {
    pattern_fault_from(s, 0, false)
}

/// Finds the field whose name is `name`.
fn find_field(name: &[u8]) -> (r: Option<Field>)
    ensures
        r == field_named(name@),
{
    if same_bytes(name, "timestamp".as_bytes()) {
        Some(Field::Timestamp)
    } else if same_bytes(name, "level".as_bytes()) {
        Some(Field::Level)
    } else if same_bytes(name, "file".as_bytes()) {
        Some(Field::File)
    } else if same_bytes(name, "line".as_bytes()) {
        Some(Field::Line)
    } else if same_bytes(name, "thread_id".as_bytes()) {
        Some(Field::ThreadId)
    } else if same_bytes(name, "thread_name".as_bytes()) {
        Some(Field::ThreadName)
    } else if same_bytes(name, "message".as_bytes()) {
        Some(Field::Message)
    } else {
        None
    }
}

/// Reads the placeholder whose content starts at `start`.
fn read_field(bytes: &[u8], start: usize) -> (r: Result<(Field, usize), &'static str>)
    requires
        start <= bytes@.len(),
    ensures
        match field_at(bytes@, start as int) {
            Ok((field, end)) => r matches Ok(got) && got.0 == field && got.1 == end,
            Err(f) => r matches Err(text) && text@ == f.text(),
        },
        r matches Ok(got) ==> start < got.1 <= bytes@.len(),
{
    proof {
        field_at_bounds(bytes@, start as int);
    }
    let n: usize = crate::format::skip_name(bytes, start);
    if n >= bytes.len() {
        return Err("unclosed '{': missing '}'");
    }
    let field: Field = match find_field(slice_subrange(bytes, start, n)) {
        Some(field) => field,
        None => return Err("unknown field in log-line pattern"),
    };
    if bytes[n] == CLOSE {
        return Ok((field, n + 1));
    }
    proof {
        crate::format::name_end_bounds(bytes@, start as int);
    }
    if field == Field::Timestamp || field == Field::Message {
        return Err("{timestamp} and {message} take no format spec");
    }
    match parse_spec_const(bytes, n + 1) {
        Err(text) => Err(text),
        Ok(end) => {
            if end >= bytes.len() {
                Err("unclosed '{': missing '}'")
            } else if bytes[end] != CLOSE {
                Err("trailing characters after format spec")
            } else {
                Ok((field, end + 1))
            }
        },
    }
}

/// Validates a log-line pattern. The error says what is wrong with it.
pub fn check_pattern(pattern: &str) -> (r: Result<(), &'static str>)
    ensures
        match pattern_fault(pattern.spec_bytes()) {
            None => r is Ok,
            Some(f) => r matches Err(text) && text@ == f.text(),
        },
{
    let bytes: &[u8] = pattern.as_bytes();
    let mut i: usize = 0;
    let mut seen: bool = false;
    while i < bytes.len()
        invariant
            i <= bytes@.len(),
            bytes@ == pattern.spec_bytes(),
            pattern_fault(bytes@) == pattern_fault_from(bytes@, i as int, seen),
        decreases bytes@.len() - i,
    {
        if bytes[i] == OPEN {
            if i + 1 < bytes.len() && bytes[i + 1] == OPEN {
                i = i + 2;
            } else {
                match read_field(bytes, i + 1) {
                    Err(text) => return Err(text),
                    Ok((field, end)) => {
                        if field == Field::Message {
                            if seen {
                                return Err("{message} may occur only once");
                            }
                            seen = true;
                        }
                        i = end;
                    },
                }
            }
        } else if bytes[i] == CLOSE {
            if i + 1 < bytes.len() && bytes[i + 1] == CLOSE {
                i = i + 2;
            } else {
                return Err("unmatched '}': use '}}' to escape a literal brace");
            }
        } else {
            i = i + 1;
        }
    }
    Ok(())
}

// ---- Lines ------------------------------------------------------------------

/// What a log line is made of.
pub struct LineParts {
    pub timestamp: Seq<u8>,
    pub level: Level,
    pub source: Option<(Seq<char>, u32)>,
    pub thread_id: u64,
    pub thread_name: Option<Seq<char>>,
    pub message: Seq<u8>,
}

/// A field as it appears in a line. A record without a source has an empty file
/// and line, and a thread without a name is `<unnamed>`.
pub open spec fn field_text(field: Field, spec: FormatSpec, parts: LineParts) -> Seq<u8> {
    match field {
        Field::Timestamp => parts.timestamp,
        Field::Level => crate::format::str_field(parts.level.name(), spec),
        Field::File => crate::format::str_field(
            match parts.source {
                Some((file, _)) => file,
                None => ""@,
            },
            spec,
        ),
        Field::Line => match parts.source {
            Some((_, line)) => crate::format::unsigned_field(line as nat, spec),
            None => crate::format::str_field(""@, spec),
        },
        Field::ThreadId => crate::format::str_field(
            "ThreadId("@ + crate::text::decimal_chars(parts.thread_id as nat) + ")"@,
            spec,
        ),
        Field::ThreadName => crate::format::str_field(
            match parts.thread_name {
                Some(name) => name,
                None => "<unnamed>"@,
            },
            spec,
        ),
        Field::Message => parts.message,
    }
}

/// The line that the pattern `s` makes of `parts`, from position `i` on: fields
/// in place of placeholders, single braces in place of doubled ones.
pub open spec fn line_from(s: Seq<u8>, i: int, parts: LineParts) -> Seq<u8>
    decreases s.len() - i,
{
    if i < 0 || i >= s.len() {
        Seq::empty()
    } else if (s[i] == OPEN || s[i] == CLOSE) && crate::format::holds(s, i + 1, s[i]) {
        seq![s[i]] + line_from(s, i + 2, parts)
    } else if s[i] == OPEN {
        proof {
            field_at_bounds(s, i + 1);
        }
        match field_at(s, i + 1) {
            Err(_) => Seq::empty(),
            Ok((field, end)) => field_text(
                field,
                crate::format::content_spec(s.subrange(i + 1, end - 1)),
                parts,
            ) + line_from(s, end, parts),
        }
    } else if s[i] == CLOSE {
        Seq::empty()
    } else {
        seq![s[i]] + line_from(s, i + 1, parts)
    }
}

/// What a log line is made of, as values.
pub struct LineTexts<'a> {
    pub timestamp: &'a [u8],
    pub level: Level,
    pub source: Option<(&'a str, u32)>,
    pub thread_id: u64,
    pub thread_name: Option<&'a str>,
    pub message: &'a [u8],
}

impl<'a> View for LineTexts<'a> {
    type V = LineParts;

    open spec fn view(&self) -> LineParts {
        LineParts {
            timestamp: self.timestamp@,
            level: self.level,
            source: match self.source {
                Some((file, line)) => Some((file@, line)),
                None => None,
            },
            thread_id: self.thread_id,
            thread_name: match self.thread_name {
                Some(name) => Some(name@),
                None => None,
            },
            message: self.message@,
        }
    }
}

/// Appends a field.
fn push_field(field: Field, spec: &FormatSpec, texts: &LineTexts<'_>, buf: &mut Vec<u8>)
    ensures
        final(buf)@ == old(buf)@ + field_text(field, *spec, texts@),
{
    match field {
        Field::Timestamp => push_bytes(buf, texts.timestamp),
        Field::Level => format_str(texts.level.as_str(), spec, buf),
        Field::File => match texts.source {
            Some((file, _)) => format_str(file, spec, buf),
            None => format_str("", spec, buf),
        },
        Field::Line => match texts.source {
            Some((_, line)) => format_u64(line as u64, spec, buf),
            None => format_str("", spec, buf),
        },
        Field::ThreadId => {
            let mut id: String = String::new();
            id.append("ThreadId(");
            append_decimal(&mut id, texts.thread_id);
            id.append(")");
            assert(id@ =~= "ThreadId("@ + crate::text::decimal_chars(texts.thread_id as nat)
                + ")"@);
            format_str(id.as_str(), spec, buf)
        },
        Field::ThreadName => match texts.thread_name {
            Some(name) => format_str(name, spec, buf),
            None => format_str("<unnamed>", spec, buf),
        },
        Field::Message => push_bytes(buf, texts.message),
    }
}

/// Appends the line that a valid pattern makes of `texts`.
pub fn push_line(pattern: &str, texts: &LineTexts<'_>, buf: &mut Vec<u8>)
    requires
        pattern_fault(pattern.spec_bytes()) is None,
    ensures
        final(buf)@ == old(buf)@ + line_from(pattern.spec_bytes(), 0, texts@),
{
    let bytes: &[u8] = pattern.as_bytes();
    let ghost parts = texts@;
    let ghost mut seen: bool = false;
    let mut i: usize = 0;
    assert(buf@ + line_from(bytes@, 0, parts) =~= old(buf)@ + line_from(bytes@, 0, parts));
    while i < bytes.len()
        invariant
            i <= bytes@.len(),
            bytes@ == pattern.spec_bytes(),
            parts == texts@,
            pattern_fault_from(bytes@, i as int, seen) is None,
            buf@ + line_from(bytes@, i as int, parts) == old(buf)@ + line_from(bytes@, 0, parts),
        decreases bytes@.len() - i,
    {
        let ghost before = buf@;
        let ghost at: int = i as int;
        let b: u8 = bytes[i];
        let doubled: bool = i + 1 < bytes.len() && bytes[i + 1] == b;
        if b == OPEN && !doubled {
            let (field, end) = match read_field(bytes, i + 1) {
                Ok(got) => got,
                Err(_) => {
                    assert(false);
                    return;
                },
            };
            let spec: FormatSpec = parse_spec_bytes(slice_subrange(bytes, i + 1, end - 1));
            push_field(field, &spec, texts, buf);
            proof {
                seen = seen || field == Field::Message;
                assert(buf@ + line_from(bytes@, end as int, parts) =~= before + line_from(
                    bytes@,
                    at,
                    parts,
                ));
            }
            i = end;
        } else {
            buf.push(b);
            i = if b == OPEN || b == CLOSE {
                i + 2
            } else {
                i + 1
            };
            assert(buf@ + line_from(bytes@, i as int, parts) =~= before + line_from(
                bytes@,
                at,
                parts,
            ));
        }
    }
    assert(buf@ + line_from(bytes@, i as int, parts) =~= buf@);
}

// ---- Laws -------------------------------------------------------------------

/// The names of the fields: lower-case letters and underscores, no two alike.
proof fn field_names(f: Field, g: Field)
    ensures
        f.name().len() > 0,
        forall|i: int| 0 <= i < f.name().len() ==> '_' <= #[trigger] f.name()[i] <= 'z',
        f != g ==> f.name() != g.name(),
{
    reveal_strlit("timestamp");
    reveal_strlit("level");
    reveal_strlit("file");
    reveal_strlit("line");
    reveal_strlit("thread_id");
    reveal_strlit("thread_name");
    reveal_strlit("message");
    if f != g && f.name().len() == g.name().len() {
        assert(f.name()[0] != g.name()[0] || f.name()[1] != g.name()[1]);
    }
}

/// Each field is found by its name.
pub proof fn fields_are_found(field: Field)
    ensures
        field_named(vstd::utf8::encode_utf8(field.name())) == Some(field),
{
    names_encode_apart(field, Field::Timestamp);
    names_encode_apart(field, Field::Level);
    names_encode_apart(field, Field::File);
    names_encode_apart(field, Field::Line);
    names_encode_apart(field, Field::ThreadId);
    names_encode_apart(field, Field::ThreadName);
    names_encode_apart(field, Field::Message);
}

/// No two fields have names with the same bytes.
proof fn names_encode_apart(f: Field, g: Field)
    ensures
        f != g ==> vstd::utf8::encode_utf8(f.name()) != vstd::utf8::encode_utf8(g.name()),
{
    field_names(f, g);
    vstd::utf8::encode_utf8_decode_utf8(f.name());
    vstd::utf8::encode_utf8_decode_utf8(g.name());
}

/// The bytes of a field's name are neither braces nor colons.
pub proof fn name_bytes_are_plain(field: Field)
    ensures
        ({
            let name = vstd::utf8::encode_utf8(field.name());
            &&& name.len() == field.name().len()
            &&& name.len() > 0
            &&& forall|i: int|
                0 <= i < name.len() ==> #[trigger] name[i] == field.name()[i] as u8 && name[i]
                    != COLON && name[i] != CLOSE && name[i] != OPEN && name[i] >= 0x5F
        }),
{
    field_names(field, field);
    let chars = field.name();
    assert(vstd::utf8::is_ascii_chars(chars));
    vstd::utf8::is_ascii_chars_encode_utf8(chars);
    let name = vstd::utf8::encode_utf8(chars);
    assert forall|i: int| 0 <= i < name.len() implies #[trigger] name[i] == chars[i] as u8 && name[i]
        != COLON && name[i] != CLOSE && name[i] != OPEN && name[i] >= 0x5F by {
        assert('_' <= chars[i] <= 'z');
    }
}

/// A run without colons and closing braces, in front of a closing brace, is a
/// name.
proof fn name_ends(s: Seq<u8>, i: int, n: int)
    requires
        0 <= i <= n < s.len(),
        s[n] == CLOSE,
        forall|j: int| i <= j < n ==> #[trigger] s[j] != COLON && s[j] != CLOSE,
    ensures
        crate::format::name_end(s, i) == n,
    decreases n - i,
{
    if i < n {
        name_ends(s, i + 1, n);
    }
}

/// Whether the placeholder of `field`, without a spec, stands at `i`.
spec fn stands_at(s: Seq<u8>, i: int, field: Field) -> bool {
    let n = field.name().len();
    &&& 0 <= i
    &&& i + n + 1 < s.len()
    &&& s[i] == OPEN
    &&& s[i + n + 1] == CLOSE
    &&& forall|j: int| 0 <= j < n ==> #[trigger] s[i + 1 + j] == field.name()[j] as u8
}

/// A placeholder without a spec is read as its field.
proof fn placeholder_read(s: Seq<u8>, i: int, field: Field)
    requires
        stands_at(s, i, field),
    ensures
        ({
            let end = i + field.name().len() + 2;
            &&& field_at(s, i + 1) == Ok::<(Field, int), PatternFault>((field, end))
            &&& !crate::format::holds(s, i + 1, OPEN)
            &&& crate::format::content_spec(s.subrange(i + 1, end - 1)) == FormatSpec::plain()
        }),
{
    let n = i + field.name().len() + 1;
    let name = vstd::utf8::encode_utf8(field.name());
    name_bytes_are_plain(field);
    assert forall|j: int| i + 1 <= j < n implies #[trigger] s[j] != COLON && s[j] != CLOSE && s[j]
        == name[j - i - 1] by {
        assert(s[i + 1 + (j - i - 1)] == field.name()[j - i - 1] as u8);
        assert(name[j - i - 1] == field.name()[j - i - 1] as u8);
    }
    name_ends(s, i + 1, n);
    let content = s.subrange(i + 1, n);
    assert(content =~= name);
    fields_are_found(field);
    crate::format::colon_missing(content, 0);
    assert(s[i + 1] == name[0]);
}

/// Whether `s` are the bytes of the default pattern.
spec fn is_default(s: Seq<u8>) -> bool {
    &&& s.len() == 43
    &&& stands_at(s, 0, Field::Timestamp)
    &&& s[11] == SPACE
    &&& stands_at(s, 12, Field::Level)
    &&& s[19] == SPACE
    &&& stands_at(s, 20, Field::File)
    &&& s[26] == COLON
    &&& stands_at(s, 27, Field::Line)
    &&& s[33] == SPACE
    &&& stands_at(s, 34, Field::Message)
}

/// What the default pattern holds, byte by byte.
proof fn default_bytes()
    ensures
        is_default(vstd::utf8::encode_utf8(DEFAULT_LINE_PATTERN@)),
        Field::Timestamp.name().len() == 9,
        Field::Level.name().len() == 5,
        Field::File.name().len() == 4,
        Field::Line.name().len() == 4,
        Field::Message.name().len() == 7,
{
    let chars = DEFAULT_LINE_PATTERN@;
    reveal_strlit("{timestamp} {level} {file}:{line} {message}");
    reveal_strlit("timestamp");
    reveal_strlit("level");
    reveal_strlit("file");
    reveal_strlit("line");
    reveal_strlit("message");
    assert(vstd::utf8::is_ascii_chars(chars));
    vstd::utf8::is_ascii_chars_encode_utf8(chars);
}

/// A placeholder of the default pattern, and what follows it.
proof fn field_step(s: Seq<u8>, i: int, field: Field, parts: LineParts, seen: bool)
    requires
        stands_at(s, i, field),
        !seen || field != Field::Message,
    ensures
        ({
            let end = i + field.name().len() + 2;
            &&& line_from(s, i, parts) == field_text(field, FormatSpec::plain(), parts) + line_from(
                s,
                end,
                parts,
            )
            &&& pattern_fault_from(s, i, seen) == pattern_fault_from(
                s,
                end,
                seen || field == Field::Message,
            )
        }),
{
    placeholder_read(s, i, field);
}

/// A byte of a pattern that is no brace, and what follows it.
proof fn plain_step(s: Seq<u8>, i: int, parts: LineParts, seen: bool)
    requires
        0 <= i < s.len(),
        s[i] != OPEN,
        s[i] != CLOSE,
    ensures
        line_from(s, i, parts) == seq![s[i]] + line_from(s, i + 1, parts),
        pattern_fault_from(s, i, seen) == pattern_fault_from(s, i + 1, seen),
{
}

/// Two parts of a line in front of the rest.
proof fn joined_left(a: Seq<u8>, b: Seq<u8>, rest: Seq<u8>)
    ensures
        a + (b + rest) == a + b + rest,
{
    assert(a + (b + rest) =~= a + b + rest);
}

/// The default pattern is valid, and the line that it makes of a record is its
/// timestamp, level, source location and message, separated by single spaces.
pub proof fn default_line(parts: LineParts)
    ensures
        ({
            let s = vstd::utf8::encode_utf8(DEFAULT_LINE_PATTERN@);
            let plain = FormatSpec::plain();
            &&& pattern_fault(s) is None
            &&& line_from(s, 0, parts) == parts.timestamp + seq![SPACE] + field_text(
                Field::Level,
                plain,
                parts,
            ) + seq![SPACE] + field_text(Field::File, plain, parts) + seq![COLON] + field_text(
                Field::Line,
                plain,
                parts,
            ) + seq![SPACE] + parts.message
        }),
{
    let s = vstd::utf8::encode_utf8(DEFAULT_LINE_PATTERN@);
    let plain = FormatSpec::plain();
    default_bytes();
    field_step(s, 0, Field::Timestamp, parts, false);
    plain_step(s, 11, parts, false);
    field_step(s, 12, Field::Level, parts, false);
    plain_step(s, 19, parts, false);
    field_step(s, 20, Field::File, parts, false);
    plain_step(s, 26, parts, false);
    field_step(s, 27, Field::Line, parts, false);
    plain_step(s, 33, parts, false);
    field_step(s, 34, Field::Message, parts, false);
    let level = field_text(Field::Level, plain, parts);
    let file = field_text(Field::File, plain, parts);
    let line = field_text(Field::Line, plain, parts);
    // From the left, what stands in front of each position.
    let p11 = parts.timestamp;
    joined_left(p11, seq![SPACE], line_from(s, 12, parts));
    let p12 = p11 + seq![SPACE];
    joined_left(p12, level, line_from(s, 19, parts));
    let p19 = p12 + level;
    joined_left(p19, seq![SPACE], line_from(s, 20, parts));
    let p20 = p19 + seq![SPACE];
    joined_left(p20, file, line_from(s, 26, parts));
    let p26 = p20 + file;
    joined_left(p26, seq![COLON], line_from(s, 27, parts));
    let p27 = p26 + seq![COLON];
    joined_left(p27, line, line_from(s, 33, parts));
    let p33 = p27 + line;
    joined_left(p33, seq![SPACE], line_from(s, 34, parts));
    let p34 = p33 + seq![SPACE];
    assert(line_from(s, 43, parts) =~= Seq::<u8>::empty());
    assert(parts.message + Seq::<u8>::empty() =~= parts.message);
    assert(line_from(s, 0, parts) == p34 + parts.message);
}

// ---- Valid text -------------------------------------------------------------

/// A field appears as text.
proof fn field_is_text(field: Field, spec: FormatSpec, parts: LineParts)
    requires
        crate::format::fills_ascii(spec),
        vstd::utf8::valid_utf8(parts.timestamp),
        vstd::utf8::valid_utf8(parts.message),
    ensures
        vstd::utf8::valid_utf8(field_text(field, spec, parts)),
{
    match field {
        Field::Timestamp | Field::Message => {},
        Field::Level => crate::format::strings_are_text(parts.level.name(), spec),
        Field::File => {
            let file = match parts.source {
                Some((file, _)) => file,
                None => ""@,
            };
            crate::format::strings_are_text(file, spec);
        },
        Field::Line => match parts.source {
            Some((_, line)) => crate::format::unsigned_is_text(line as nat, spec),
            None => crate::format::strings_are_text(""@, spec),
        },
        Field::ThreadId => crate::format::strings_are_text(
            "ThreadId("@ + crate::text::decimal_chars(parts.thread_id as nat) + ")"@,
            spec,
        ),
        Field::ThreadName => {
            let name = match parts.thread_name {
                Some(name) => name,
                None => "<unnamed>"@,
            };
            crate::format::strings_are_text(name, spec);
        },
    }
}

/// A placeholder that is read pads with ASCII and ends in a closing brace.
pub proof fn field_fills_ascii(s: Seq<u8>, start: int)
    requires
        0 <= start <= s.len(),
    ensures
        field_at(s, start) matches Ok((_, end)) ==> start < end <= s.len() && s[end - 1] == CLOSE
            && crate::format::fills_ascii(
            crate::format::content_spec(s.subrange(start, end - 1)),
        ),
{
    if let Ok((_, end)) = field_at(s, start) {
        let n = crate::format::name_end(s, start);
        field_at_bounds(s, start);
        crate::format::name_end_bounds(s, start);
        if s[n] == COLON {
            crate::format::body_positions(s, n + 1);
        }
        crate::format::valid_spec_fills_ascii(s, start, n, end - 1);
    }
}

/// The line that a valid pattern makes of texts is valid UTF-8.
pub proof fn pattern_line_is_text(s: Seq<u8>, parts: LineParts)
    requires
        vstd::utf8::valid_utf8(s),
        pattern_fault(s) is None,
        vstd::utf8::valid_utf8(parts.timestamp),
        vstd::utf8::valid_utf8(parts.message),
    ensures
        vstd::utf8::valid_utf8(line_from(s, 0, parts)),
{
    assert(s.skip(0) =~= s);
    line_is_text_from(s, 0, 0, false, parts);
    assert(s.subrange(0, 0) + line_from(s, 0, parts) =~= line_from(s, 0, parts));
}

/// The literal text from `a` to `i`, and the line from there on.
proof fn line_is_text_from(s: Seq<u8>, a: int, i: int, seen: bool, parts: LineParts)
    requires
        0 <= a <= i <= s.len(),
        vstd::utf8::valid_utf8(s.skip(a)),
        pattern_fault_from(s, i, seen) is None,
        vstd::utf8::valid_utf8(parts.timestamp),
        vstd::utf8::valid_utf8(parts.message),
    ensures
        vstd::utf8::valid_utf8(s.subrange(a, i) + line_from(s, i, parts)),
    decreases s.len() - i,
{
    let before = s.subrange(a, i);
    let rest = line_from(s, i, parts);
    if i == s.len() {
        assert(before + rest =~= s.skip(a));
    } else if s[i] == OPEN || s[i] == CLOSE {
        crate::text::text_splits(s.skip(a), i - a);
        assert(s.skip(a).take(i - a) =~= before);
        if crate::format::holds(s, i + 1, s[i]) {
            crate::text::text_splits(s.skip(a), i + 1 - a);
            assert(s.skip(a).skip(i + 2 - a) =~= s.skip(i + 2));
            line_is_text_from(s, i + 2, i + 2, seen, parts);
            let after = line_from(s, i + 2, parts);
            assert(s.subrange(i + 2, i + 2) + after =~= after);
            crate::text::ascii_is_text(seq![s[i]]);
            vstd::utf8::valid_utf8_concat(seq![s[i]], after);
        } else {
            field_fills_ascii(s, i + 1);
            let (field, end) = field_at(s, i + 1)->Ok_0;
            crate::text::text_splits(s.skip(a), end - 1 - a);
            assert(s.skip(a).skip(end - a) =~= s.skip(end));
            line_is_text_from(s, end, end, seen || field == Field::Message, parts);
            let after = line_from(s, end, parts);
            assert(s.subrange(end, end) + after =~= after);
            let spec = crate::format::content_spec(s.subrange(i + 1, end - 1));
            field_is_text(field, spec, parts);
            vstd::utf8::valid_utf8_concat(field_text(field, spec, parts), after);
        }
        vstd::utf8::valid_utf8_concat(before, rest);
    } else {
        line_is_text_from(s, a, i + 1, seen, parts);
        let after = line_from(s, i + 1, parts);
        assert(before + rest =~= s.subrange(a, i + 1) + after);
    }
}

} // verus!

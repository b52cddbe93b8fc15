//! Decoding a record into a log line.

use crate::ascii::{COLON, SPACE};
use crate::cursor::Cursor;
use crate::error::TicklogError;
use crate::format::FloatStyle;
use crate::level::Level;
use crate::message::{interleave, FloatValue};
use crate::pattern::{check_pattern, push_line, LineParts, LineTexts};
use crate::record::{
    ThreadView, FLAG_COMPLEX, FLAG_FORMAT, FLAG_PROCESS, FLAG_SOURCE, FLAG_THREAD,
};
use crate::strings::{StrRef, StrTable};
use crate::text::{append_u64, push_bytes, push_str};
use crate::timestamp::format_iso8601;
use vstd::prelude::*;
use vstd::string::*;

verus! {

/// Controls which optional fields appear in each formatted line.
#[derive(Debug, Clone, Copy, PartialEq, Eq, Structural)]
pub struct LogMetadata {
    /// Render the source file path.
    pub file: bool,
    /// Append `:line` after the file path.
    pub line_number: bool,
    /// Render the thread name. Default false.
    pub thread_name: bool,
    /// Render `ThreadId(N)`. Default false.
    pub thread_id: bool,
}

impl Default for LogMetadata {
    fn default() -> (r: Self)
        ensures
            r == (LogMetadata {
                file: true,
                line_number: true,
                thread_name: false,
                thread_id: false,
            }),
    {
        LogMetadata { file: true, line_number: true, thread_name: false, thread_id: false }
    }
}

/// How a record is laid out in a line.
#[derive(Debug)]
pub enum Layout {
    /// The timestamp, the level, the optional fields and the message.
    Fields(LogMetadata),
    /// A log-line pattern.
    Pattern(String),
}

impl Layout {
    /// Whether lines can be laid out in this way: a pattern has to be valid.
    pub open spec fn valid(self) -> bool {
        match self {
            Layout::Fields(_) => true,
            Layout::Pattern(pattern) => crate::pattern::pattern_fault(
                vstd::utf8::encode_utf8(pattern@),
            ) is None,
        }
    }

    /// The layout that the pattern `pattern` gives. A malformed one is refused.
    pub fn parse(pattern: &str) -> (r: Result<Layout, TicklogError>)
        ensures
            match crate::pattern::pattern_fault(pattern.spec_bytes()) {
                None => r matches Ok(Layout::Pattern(kept)) && kept@ == pattern@,
                Some(f) => r matches Err(TicklogError::InvalidFormatPattern(text)) && text@
                    == f.text(),
            },
    {
        match check_pattern(pattern) {
            Ok(_) => Ok(Layout::Pattern(pattern.to_owned())),
            Err(text) => Err(TicklogError::InvalidFormatPattern(text.to_owned())),
        }
    }
}

// ---- What a record says -----------------------------------------------------

/// What a record says.
pub struct Fields {
    pub level: Level,
    /// The raw counter value of the record's timestamp.
    pub tick: u64,
    /// The format string.
    pub fmt: Seq<u8>,
    /// The source file and line.
    pub source: Option<(Seq<u8>, u32)>,
    pub thread_id: u64,
    pub thread_name: Option<Seq<u8>>,
    /// The type tags of the arguments.
    pub tags: Seq<u8>,
    /// What follows the tags: the payloads of the arguments.
    pub payload: Seq<u8>,
}

/// The static string that `rest` starts with a reference to.
pub open spec fn str_ref(rest: Seq<u8>) -> StrRef {
    StrRef {
        addr: crate::cursor::fixed_value(rest, 8) as u64,
        len: crate::cursor::fixed_value(crate::cursor::fixed_rest(rest, 8), 2) as u16,
    }
}

/// What follows the reference to a static string.
pub open spec fn after_str_ref(rest: Seq<u8>) -> Seq<u8> {
    crate::cursor::fixed_rest(crate::cursor::fixed_rest(rest, 8), 2)
}

/// The format string and what follows its section. A reference that names no
/// string gives an empty one.
pub open spec fn format_section(flags: u16, rest: Seq<u8>, table: Seq<Seq<u8>>) -> (
    Seq<u8>,
    Seq<u8>,
) {
    if flags & FLAG_FORMAT != 0 {
        (
            match crate::strings::resolved(table, str_ref(rest)) {
                Some(fmt) => fmt,
                None => Seq::empty(),
            },
            after_str_ref(rest),
        )
    } else {
        (Seq::empty(), rest)
    }
}

/// The source location and what follows its section. A reference that names no
/// string gives `<file>`.
pub open spec fn source_section(flags: u16, rest: Seq<u8>, table: Seq<Seq<u8>>) -> (
    Option<(Seq<u8>, u32)>,
    Seq<u8>,
) {
    if flags & FLAG_SOURCE != 0 {
        let file = match crate::strings::resolved(table, str_ref(rest)) {
            Some(file) => file,
            None => vstd::utf8::encode_utf8("<file>"@),
        };
        let at_line = after_str_ref(rest);
        (
            Some((file, crate::cursor::fixed_value(at_line, 4) as u32)),
            crate::cursor::fixed_rest(at_line, 4),
        )
    } else {
        (None, rest)
    }
}

/// The thread id and name and what follows their section. An empty name, and
/// one that is not UTF-8, is none.
pub open spec fn thread_section(flags: u16, rest: Seq<u8>) -> (u64, Option<Seq<u8>>, Seq<u8>) {
    if flags & FLAG_THREAD != 0 {
        let at_name = crate::cursor::fixed_rest(rest, 8);
        let len = crate::cursor::fixed_value(at_name, 2);
        let name = crate::cursor::front(crate::cursor::fixed_rest(at_name, 2), len);
        (
            crate::cursor::fixed_value(rest, 8) as u64,
            if len > 0 && vstd::utf8::valid_utf8(name) {
                Some(name)
            } else {
                None
            },
            crate::cursor::behind(crate::cursor::fixed_rest(at_name, 2), len),
        )
    } else {
        (0, None, rest)
    }
}

/// What follows the process and complex-type sections, which are not rendered.
pub open spec fn after_skipped(flags: u16, rest: Seq<u8>) -> Seq<u8> {
    let at_complex = if flags & FLAG_PROCESS != 0 {
        crate::cursor::behind(rest, 4)
    } else {
        rest
    };
    if flags & FLAG_COMPLEX != 0 {
        crate::cursor::behind(at_complex, 8)
    } else {
        at_complex
    }
}

/// What `record` says, where its strings are those of `table`. A level byte
/// that stands for no level counts as an error.
#[verifier::opaque]
pub open spec fn fields_of(record: Seq<u8>, table: Seq<Seq<u8>>) -> Fields {
    let at_level = crate::cursor::behind(record, 4);
    let at_flags = crate::cursor::fixed_rest(at_level, 1);
    let flags = crate::cursor::fixed_value(at_flags, 2) as u16;
    let at_tick = crate::cursor::behind(crate::cursor::fixed_rest(at_flags, 2), 1);
    let (fmt, at_source) = format_section(
        flags,
        crate::cursor::fixed_rest(at_tick, 8),
        table,
    );
    let (source, at_thread) = source_section(flags, at_source, table);
    let (thread_id, thread_name, at_process) = thread_section(flags, at_thread);
    let at_args = after_skipped(flags, at_process);
    let n_args = crate::cursor::fixed_value(at_args, 1);
    let at_tags = crate::cursor::fixed_rest(at_args, 1);
    Fields {
        level: match Level::of_byte(crate::cursor::fixed_value(at_level, 1) as u8) {
            Some(level) => level,
            None => Level::Error,
        },
        tick: crate::cursor::fixed_value(at_tick, 8) as u64,
        fmt,
        source,
        thread_id,
        thread_name,
        tags: crate::cursor::front(at_tags, n_args),
        payload: crate::cursor::behind(at_tags, n_args),
    }
}

/// The flags of a record and what follows its header.
pub open spec fn behind_header(record: Seq<u8>) -> (u16, Seq<u8>) {
    let at_flags = crate::cursor::fixed_rest(crate::cursor::behind(record, 4), 1);
    let at_tick = crate::cursor::behind(crate::cursor::fixed_rest(at_flags, 2), 1);
    (
        crate::cursor::fixed_value(at_flags, 2) as u16,
        crate::cursor::fixed_rest(at_tick, 8),
    )
}

/// Whether the strings that a record refers to are in `table`.
#[verifier::opaque]
pub open spec fn refers_to(record: Seq<u8>, table: Seq<Seq<u8>>) -> bool {
    let (flags, rest) = behind_header(record);
    let at_source = if flags & FLAG_FORMAT != 0 {
        after_str_ref(rest)
    } else {
        rest
    };
    &&& flags & FLAG_FORMAT != 0 ==> crate::strings::resolved(table, str_ref(rest)) is Some
    &&& flags & FLAG_SOURCE != 0 ==> crate::strings::resolved(table, str_ref(at_source)) is Some
}

impl Fields {
    /// The arguments of the record.
    pub open spec fn args(self) -> Seq<crate::message::Arg> {
        crate::message::args_of(self.tags, self.payload)
    }

    /// Whether the payloads of the arguments that the format string asks for
    /// are as long as their types ask for.
    pub open spec fn complete(self) -> bool {
        crate::message::args_complete(self.args(), crate::message::holes(self.fmt).len())
    }
}

// ---- The line ---------------------------------------------------------------

/// The timestamp and level that a line starts with.
pub open spec fn line_head(level: Level, ns: u64, timezone_offset: i32) -> Seq<u8> {
    crate::timestamp::iso8601(ns, timezone_offset) + seq![SPACE, SPACE] + vstd::utf8::encode_utf8(
        level.name(),
    ) + seq![SPACE]
}

/// The thread name in a line.
pub open spec fn name_field(name: Option<Seq<u8>>, metadata: LogMetadata) -> Seq<u8> {
    match name {
        Some(name) if metadata.thread_name => name + seq![SPACE],
        _ => Seq::empty(),
    }
}

/// The thread id in a line.
pub open spec fn id_field(id: u64, metadata: LogMetadata) -> Seq<u8> {
    if metadata.thread_id {
        vstd::utf8::encode_utf8("ThreadId("@) + crate::text::decimal(id as nat)
            + vstd::utf8::encode_utf8(") "@)
    } else {
        Seq::empty()
    }
}

/// The source location in a line.
pub open spec fn source_field(source: Option<(Seq<u8>, u32)>, metadata: LogMetadata) -> Seq<u8> {
    match source {
        Some((file, line)) if metadata.file => file + (if metadata.line_number {
            seq![COLON] + crate::text::decimal(line as nat)
        } else {
            Seq::empty()
        }) + seq![SPACE],
        _ => Seq::empty(),
    }
}

/// The optional fields of a line: thread name, thread id, then source.
pub open spec fn line_fields(fields: Fields, metadata: LogMetadata) -> Seq<u8> {
    name_field(fields.thread_name, metadata) + id_field(fields.thread_id, metadata) + source_field(
        fields.source,
        metadata,
    )
}

/// What the line of a record is made of, where the record says `fields` and was
/// made `ns` nanoseconds after the epoch; `floats[k]` is the text of argument `k`
/// where that is a float.
pub open spec fn parts_of(fields: Fields, ns: u64, floats: Seq<String>, timezone_offset: i32) -> LineParts {
    LineParts {
        timestamp: crate::timestamp::iso8601(ns, timezone_offset),
        level: fields.level,
        source: match fields.source {
            Some((file, line)) => Some((vstd::utf8::decode_utf8(file), line)),
            None => None,
        },
        thread_id: fields.thread_id,
        thread_name: match fields.thread_name {
            Some(name) => Some(vstd::utf8::decode_utf8(name)),
            None => None,
        },
        message: crate::message::message(fields.fmt, fields.args(), floats),
    }
}

/// The line of a record that says `fields` and was made `ns` nanoseconds after
/// the epoch; `floats[k]` is the text of argument `k` where that is a float.
pub open spec fn line_of(
    fields: Fields,
    ns: u64,
    floats: Seq<String>,
    timezone_offset: i32,
    layout: Layout,
) -> Seq<u8> {
    match layout {
        Layout::Fields(metadata) => line_head(fields.level, ns, timezone_offset) + line_fields(
            fields,
            metadata,
        ) + crate::message::message(fields.fmt, fields.args(), floats),
        Layout::Pattern(pattern) => crate::pattern::line_from(
            vstd::utf8::encode_utf8(pattern@),
            0,
            parts_of(fields, ns, floats, timezone_offset),
        ),
    }
}

/// Whether `line` is a line of a record that says `fields`, where `clock` gives
/// the time of its counter value and `float_text` the texts of its floats.
pub open spec fn is_line<C: Fn(u64) -> u64, F: Fn(FloatValue, FloatStyle) -> String>(
    line: Seq<u8>,
    fields: Fields,
    timezone_offset: i32,
    layout: Layout,
    clock: &C,
    float_text: &F,
) -> bool {
    exists|ns: u64, floats: Seq<String>|
        call_ensures(clock, (fields.tick,), ns) && crate::message::floats_ok(
            float_text,
            crate::message::holes(fields.fmt),
            fields.args(),
            floats,
        ) && line == #[trigger] line_of(fields, ns, floats, timezone_offset, layout)
}

/// Calls `core::str::from_utf8`, which succeeds exactly on UTF-8 and then gives
/// the text of the bytes.
#[verifier::external_body]
fn from_utf8(bytes: &[u8]) -> (r: Option<&str>)
    ensures
        r is Some <==> vstd::utf8::valid_utf8(bytes@),
        r matches Some(s) ==> s@ == vstd::utf8::decode_utf8(bytes@),
{
    core::str::from_utf8(bytes).ok()
}

/// Reads the reference to a static string.
fn read_str_ref(c: &mut Cursor<'_>) -> (r: StrRef)
    ensures
        r == str_ref(old(c)@),
        final(c)@ == after_str_ref(old(c)@),
{
    let addr: u64 = c.read_u64();
    let len: u16 = c.read_u16();
    StrRef { addr, len }
}

/// A decoded record: what stands in front of the arguments, as values.
struct Decoded<'a> {
    level: Level,
    tick: u64,
    fmt: &'static str,
    source: Option<(&'static str, u32)>,
    thread_id: u64,
    thread_name: Option<&'a str>,
    tags: &'a [u8],
    payload: Cursor<'a>,
}

impl<'a> Decoded<'a> {
    /// Whether the values are those of `fields`.
    spec fn says(&self, fields: Fields) -> bool {
        &&& self.level == fields.level
        &&& self.tick == fields.tick
        &&& self.fmt.spec_bytes() == fields.fmt
        &&& match fields.source {
            Some((file, line)) => self.source matches Some(s) && s.0.spec_bytes() == file && s.1
                == line,
            None => self.source is None,
        }
        &&& self.thread_id == fields.thread_id
        &&& match fields.thread_name {
            Some(name) => self.thread_name matches Some(s) && s.spec_bytes() == name,
            None => self.thread_name is None,
        }
        &&& self.tags@ == fields.tags
        &&& self.payload@ == fields.payload
    }
}

/// Reads the header and the flagged sections of a record.
fn read_fields<'a>(record: &'a [u8], strings: &StrTable) -> (d: Decoded<'a>)
    ensures
        d.says(fields_of(record@, strings@)),
{
    proof {
        reveal(fields_of);
        vstd::utf8::encode_utf8_valid_utf8(Seq::<char>::empty());
        reveal_strlit("");
        assert(""@ =~= Seq::<char>::empty());
        assert("".spec_bytes() =~= Seq::<u8>::empty());
    }
    let mut c = Cursor::new(record);
    // Header. The version/type/total_size prefix frames the record and is of
    // no interest here.
    c.skip(4);
    let level_byte: u8 = c.read_u8();
    let flags: u16 = c.read_u16();
    c.skip(1);  // pad
    let tick: u64 = c.read_u64();
    let level: Level = match Level::from_u8(level_byte) {
        Some(level) => level,
        None => Level::Error,
    };
    // Flagged sections, in fixed order.
    let mut fmt: &'static str = "";
    if flags & FLAG_FORMAT != 0 {
        let r: StrRef = read_str_ref(&mut c);
        fmt = match strings.resolve(r) {
            Some(fmt) => fmt,
            None => "",
        };
    }
    let mut source: Option<(&'static str, u32)> = None;
    if flags & FLAG_SOURCE != 0 {
        let r: StrRef = read_str_ref(&mut c);
        let line: u32 = c.read_u32();
        let file: &'static str = match strings.resolve(r) {
            Some(file) => file,
            None => "<file>",
        };
        source = Some((file, line));
    }
    let mut thread_id: u64 = 0;
    let mut thread_name: Option<&'a str> = None;
    if flags & FLAG_THREAD != 0 {
        thread_id = c.read_u64();
        let (name, len) = c.read_len_prefixed();
        if len > 0 {
            thread_name = from_utf8(name);
            proof {
                if vstd::utf8::valid_utf8(name@) {
                    vstd::utf8::decode_utf8_encode_utf8(name@);
                }
            }
        }
    }
    if flags & FLAG_PROCESS != 0 {
        c.skip(4);
    }
    if flags & FLAG_COMPLEX != 0 {
        c.skip(8);
    }
    let n_args: u8 = c.read_u8();
    let tags: &'a [u8] = c.read_bytes(n_args as usize);
    Decoded { level, tick, fmt, source, thread_id, thread_name, tags, payload: c }
}

/// Appends the thread name.
fn push_name(name: Option<&str>, metadata: &LogMetadata, buf: &mut Vec<u8>)
    ensures
        final(buf)@ == old(buf)@ + name_field(
            match name {
                Some(s) => Some(s.spec_bytes()),
                None => None,
            },
            *metadata,
        ),
{
    if metadata.thread_name {
        if let Some(name) = name {
            push_str(buf, name);
            buf.push(SPACE);
            assert(buf@ =~= old(buf)@ + (name.spec_bytes() + seq![SPACE]));
            return ;
        }
    }
    assert(buf@ =~= old(buf)@ + Seq::empty());
}

/// Appends the thread id.
fn push_id(id: u64, metadata: &LogMetadata, buf: &mut Vec<u8>)
    ensures
        final(buf)@ == old(buf)@ + id_field(id, *metadata),
{
    if metadata.thread_id {
        push_str(buf, "ThreadId(");
        append_u64(id, buf);
        push_str(buf, ") ");
    }
    assert(buf@ =~= old(buf)@ + id_field(id, *metadata));
}

/// Appends the source location.
fn push_source(source: Option<(&str, u32)>, metadata: &LogMetadata, buf: &mut Vec<u8>)
    ensures
        final(buf)@ == old(buf)@ + source_field(
            match source {
                Some(s) => Some((s.0.spec_bytes(), s.1)),
                None => None,
            },
            *metadata,
        ),
{
    if metadata.file {
        if let Some((file, line)) = source {
            push_str(buf, file);
            if metadata.line_number {
                buf.push(COLON);
                append_u64(line as u64, buf);
            }
            buf.push(SPACE);
            assert(buf@ =~= old(buf)@ + source_field(Some((file.spec_bytes(), line)), *metadata));
            return ;
        }
    }
    assert(buf@ =~= old(buf)@ + Seq::empty());
}

/// Appends the optional fields of a line.
fn push_fields(d: &Decoded<'_>, metadata: &LogMetadata, buf: &mut Vec<u8>, Ghost(fields): Ghost<
    Fields,
>)
    requires
        d.says(fields),
    ensures
        final(buf)@ == old(buf)@ + line_fields(fields, *metadata),
{
    push_name(d.thread_name, metadata, buf);
    push_id(d.thread_id, metadata, buf);
    push_source(d.source, metadata, buf);
    assert(buf@ =~= old(buf)@ + line_fields(fields, *metadata));
}

/// Appends the message of a record.
fn push_message<F: Fn(FloatValue, FloatStyle) -> String>(
    d: Decoded<'_>,
    float_text: &F,
    buf: &mut Vec<u8>,
    Ghost(fields): Ghost<Fields>,
) -> (floats: Ghost<Seq<String>>)
    requires
        d.says(fields),
        fields.complete(),
        forall|v: FloatValue, s: FloatStyle| call_requires(float_text, (v, s)),
    ensures
        crate::message::floats_ok(
            float_text,
            crate::message::holes(fields.fmt),
            fields.args(),
            floats@,
        ),
        final(buf)@ == old(buf)@ + crate::message::message(fields.fmt, fields.args(), floats@),
{
    interleave(d.fmt, d.tags, d.payload, float_text, buf);
    Ghost(
        choose|floats: Seq<String>|
            crate::message::floats_ok(
                float_text,
                crate::message::holes(fields.fmt),
                fields.args(),
                floats,
            ) && buf@ == old(buf)@ + #[trigger] crate::message::message(
                fields.fmt,
                fields.args(),
                floats,
            ),
    )
}

/// Decodes one encoded record and appends its line in `layout` to `buf`.
///
/// The line carries no trailing newline: the sink terminates lines itself.
/// `clock` converts the record's counter value to nanoseconds since the epoch
/// and `float_text` writes a float in a style. Unknown argument tags produce a
/// placeholder text.
pub fn format_record<C: Fn(u64) -> u64, F: Fn(FloatValue, FloatStyle) -> String>(
    record: &[u8],
    strings: &StrTable,
    timezone_offset: i32,
    layout: &Layout,
    clock: &C,
    float_text: &F,
    buf: &mut Vec<u8>,
)
    requires
        timezone_offset != i32::MIN,
        layout.valid(),
        fields_of(record@, strings@).complete(),
        forall|tick: u64| call_requires(clock, (tick,)),
        forall|v: FloatValue, s: FloatStyle| call_requires(float_text, (v, s)),
    ensures
        exists|line: Seq<u8>|
            final(buf)@ == old(buf)@ + line && #[trigger] is_line(
                line,
                fields_of(record@, strings@),
                timezone_offset,
                *layout,
                clock,
                float_text,
            ),
{
    let ghost fields = fields_of(record@, strings@);
    let ghost start = buf@;
    let d = read_fields(record, strings);
    let ns: u64 = clock(d.tick);
    match layout {
        Layout::Fields(metadata) => {
            // Timestamp and level prefix.
            format_iso8601(ns, timezone_offset, buf);
            buf.push(SPACE);
            buf.push(SPACE);
            push_str(buf, d.level.as_str());
            buf.push(SPACE);
            assert(buf@ =~= start + line_head(fields.level, ns, timezone_offset));
            push_fields(&d, metadata, buf, Ghost(fields));
            // Interleave the format string with the arguments.
            let Ghost(floats) = push_message(d, float_text, buf, Ghost(fields));
            proof {
                let line = line_of(fields, ns, floats, timezone_offset, *layout);
                assert(buf@ =~= start + line);
                assert(is_line(line, fields, timezone_offset, *layout, clock, float_text));
            }
        },
        Layout::Pattern(pattern) => {
            let mut timestamp: Vec<u8> = Vec::new();
            format_iso8601(ns, timezone_offset, &mut timestamp);
            let mut message: Vec<u8> = Vec::new();
            let level: Level = d.level;
            let source: Option<(&'static str, u32)> = d.source;
            let thread_id: u64 = d.thread_id;
            let thread_name: Option<&str> = d.thread_name;
            let Ghost(floats) = push_message(d, float_text, &mut message, Ghost(fields));
            let texts = LineTexts {
                timestamp: timestamp.as_slice(),
                level,
                source,
                thread_id,
                thread_name,
                message: message.as_slice(),
            };
            push_line(pattern.as_str(), &texts, buf);
            proof {
                let parts = parts_of(fields, ns, floats, timezone_offset);
                assert(texts@.timestamp =~= parts.timestamp);
                assert(texts@.message =~= parts.message);
                if let Some((file, _)) = source {
                    vstd::utf8::encode_utf8_decode_utf8(file@);
                }
                if let Some(name) = thread_name {
                    vstd::utf8::encode_utf8_decode_utf8(name@);
                }
                assert(texts@ == parts);
                let line = line_of(fields, ns, floats, timezone_offset, *layout);
                assert(is_line(line, fields, timezone_offset, *layout, clock, float_text));
            }
        },
    }
}

/// Decodes one encoded record and appends a formatted line with the optional
/// fields of `metadata` to `buf`. See [`format_record`].
pub fn decode_and_format<C: Fn(u64) -> u64, F: Fn(FloatValue, FloatStyle) -> String>(
    record: &[u8],
    strings: &StrTable,
    timezone_offset: i32,
    metadata: &LogMetadata,
    clock: &C,
    float_text: &F,
    buf: &mut Vec<u8>,
)
    requires
        timezone_offset != i32::MIN,
        fields_of(record@, strings@).complete(),
        forall|tick: u64| call_requires(clock, (tick,)),
        forall|v: FloatValue, s: FloatStyle| call_requires(float_text, (v, s)),
    ensures
        exists|line: Seq<u8>|
            final(buf)@ == old(buf)@ + line && #[trigger] is_line(
                line,
                fields_of(record@, strings@),
                timezone_offset,
                Layout::Fields(*metadata),
                clock,
                float_text,
            ),
{
    let layout = Layout::Fields(*metadata);
    format_record(record, strings, timezone_offset, &layout, clock, float_text, buf);
}

// ---- Laws -------------------------------------------------------------------

/// Reading a number back from the front of a sequence.
proof fn reads_back(v: nat, n: nat, tail: Seq<u8>)
    requires
        v < crate::le::pow256(n),
    ensures
        crate::cursor::fixed_value(crate::le::le(v, n) + tail, n) == v,
        crate::cursor::fixed_rest(crate::le::le(v, n) + tail, n) == tail,
{
    let s = crate::le::le(v, n) + tail;
    crate::le::le_len(v, n);
    crate::le::le_value_of_le(v, n);
    assert(s.take(n as int) =~= crate::le::le(v, n));
    assert(s.skip(n as int) =~= tail);
}

/// Reading a byte back from the front of a sequence.
proof fn reads_back_byte(b: u8, tail: Seq<u8>)
    ensures
        crate::cursor::fixed_value(seq![b] + tail, 1) == b,
        crate::cursor::fixed_rest(seq![b] + tail, 1) == tail,
        crate::cursor::behind(seq![b] + tail, 1) == tail,
{
    let s = seq![b] + tail;
    reveal_with_fuel(crate::le::le_value, 2);
    assert(s.take(1) =~= seq![b]);
    assert(seq![b].skip(1) =~= Seq::<u8>::empty());
    assert(s.skip(1) =~= tail);
}

/// Reading the reference to a static string back.
proof fn reads_back_str_ref(r: StrRef, tail: Seq<u8>)
    ensures
        ({
            let s = crate::le::le(r.addr as nat, 8) + (crate::le::le(r.len as nat, 2) + tail);
            str_ref(s) == r && after_str_ref(s) == tail
        }),
{
    crate::le::pow256_values();
    reads_back(r.addr as nat, 8, crate::le::le(r.len as nat, 2) + tail);
    reads_back(r.len as nat, 2, tail);
}

proof fn assoc(a: Seq<u8>, b: Seq<u8>, c: Seq<u8>)
    ensures
        (a + b) + c == a + (b + c),
{
    assert((a + b) + c =~= a + (b + c));
}

/// What follows the frame of an assembled record: the level and all behind it.
spec fn behind_frame(
    level: Level,
    timestamp: u64,
    fmt: StrRef,
    file: StrRef,
    line: u32,
    thread: Option<ThreadView>,
    n: nat,
    args: Seq<u8>,
) -> Seq<u8> {
    seq![level.byte()] + (crate::le::le(crate::record::record_flags(thread), 2) + (seq![0u8] + (
    crate::le::le(timestamp as nat, 8) + (crate::le::le(fmt.addr as nat, 8) + (crate::le::le(
        fmt.len as nat,
        2,
    ) + (crate::le::le(file.addr as nat, 8) + (crate::le::le(file.len as nat, 2) + (crate::le::le(
        line as nat,
        4,
    ) + (crate::record::thread_bytes(thread) + (seq![n as u8] + args))))))))))
}

/// An assembled record is its frame and what follows that.
proof fn record_behind_frame(
    level: Level,
    timestamp: u64,
    fmt: StrRef,
    file: StrRef,
    line: u32,
    thread: Option<ThreadView>,
    values: Seq<crate::encode::Value>,
)
    ensures
        ({
            let args = crate::encode::tags(values) + crate::encode::payloads(values);
            let total = crate::record::record_len(values, thread);
            let record = crate::record::record_bytes(
                level,
                timestamp,
                fmt,
                file,
                line,
                thread,
                values,
            );
            &&& record.len() == total
            &&& record.take(4) == seq![crate::record::VERSION, crate::record::LOG_RECORD]
                + crate::le::le(total, 2)
            &&& crate::cursor::behind(record, 4) == behind_frame(
                level,
                timestamp,
                fmt,
                file,
                line,
                thread,
                values.len(),
                args,
            )
        }),
{
    let total = crate::record::record_len(values, thread);
    let n = values.len();
    let tags = crate::encode::tags(values);
    let payloads = crate::encode::payloads(values);
    let flags = crate::le::le(crate::record::record_flags(thread), 2);
    let section = crate::record::thread_bytes(thread);
    let record = crate::record::record_bytes(level, timestamp, fmt, file, line, thread, values);
    let front = crate::record::record_front(total, level, timestamp, fmt, file, line, thread, n);
    crate::record::record_front_len(total, level, timestamp, fmt, file, line, thread, n);
    let p0 = seq![crate::record::VERSION, crate::record::LOG_RECORD] + crate::le::le(total, 2);
    let p1 = p0 + seq![level.byte()];
    let p2 = p1 + flags;
    let p3 = p2 + seq![0u8];
    let p4 = p3 + crate::le::le(timestamp as nat, 8);
    let p5 = p4 + crate::le::le(fmt.addr as nat, 8);
    let p6 = p5 + crate::le::le(fmt.len as nat, 2);
    let p7 = p6 + crate::le::le(file.addr as nat, 8);
    let p8 = p7 + crate::le::le(file.len as nat, 2);
    let p9 = p8 + crate::le::le(line as nat, 4);
    let p10 = p9 + section;
    assert(front == p10 + seq![n as u8]);
    let t11 = tags + payloads;
    assoc(front, tags, payloads);
    let t10 = seq![n as u8] + t11;
    assoc(p10, seq![n as u8], t11);
    let t9 = section + t10;
    assoc(p9, section, t10);
    let t8 = crate::le::le(line as nat, 4) + t9;
    assoc(p8, crate::le::le(line as nat, 4), t9);
    let t7 = crate::le::le(file.len as nat, 2) + t8;
    assoc(p7, crate::le::le(file.len as nat, 2), t8);
    let t6 = crate::le::le(file.addr as nat, 8) + t7;
    assoc(p6, crate::le::le(file.addr as nat, 8), t7);
    let t5 = crate::le::le(fmt.len as nat, 2) + t6;
    assoc(p5, crate::le::le(fmt.len as nat, 2), t6);
    let t4 = crate::le::le(fmt.addr as nat, 8) + t5;
    assoc(p4, crate::le::le(fmt.addr as nat, 8), t5);
    let t3 = crate::le::le(timestamp as nat, 8) + t4;
    assoc(p3, crate::le::le(timestamp as nat, 8), t4);
    let t2 = seq![0u8] + t3;
    assoc(p2, seq![0u8], t3);
    let t1 = flags + t2;
    assoc(p1, flags, t2);
    let t0 = seq![level.byte()] + t1;
    assoc(p0, seq![level.byte()], t1);
    assert(record == p0 + t0);
    crate::le::le_len(total, 2);
    assert(p0.len() == 4);
    assert((p0 + t0).skip(4) =~= t0);
    assert((p0 + t0).take(4) =~= p0);
}

/// The name of a thread as a record shows it: an empty one is none.
pub open spec fn shown_name(name: Seq<u8>) -> Option<Seq<u8>> {
    if name.len() > 0 {
        Some(name)
    } else {
        None
    }
}

/// The thread id that a record shows; one without a thread shows `0`.
pub open spec fn shown_id(thread: Option<ThreadView>) -> u64 {
    match thread {
        Some((id, _)) => id,
        None => 0,
    }
}

/// The thread name that a record shows.
pub open spec fn shown_thread(thread: Option<ThreadView>) -> Option<Seq<u8>> {
    match thread {
        Some((_, name)) => shown_name(name),
        None => None,
    }
}

/// Reading the thread section back.
proof fn reads_back_thread(thread: Option<ThreadView>, tail: Seq<u8>)
    requires
        thread matches Some((id, name)) ==> name.len() <= u16::MAX && vstd::utf8::valid_utf8(name),
    ensures
        thread_section(
            crate::record::record_flags(thread) as u16,
            crate::record::thread_bytes(thread) + tail,
        ) == (shown_id(thread), shown_thread(thread), tail),
{
    assert(7u16 & FLAG_THREAD != 0 && 3u16 & FLAG_THREAD == 0) by (bit_vector);
    let s = crate::record::thread_bytes(thread) + tail;
    match thread {
        Some((id, name)) => {
            crate::le::pow256_values();
            let at_len = crate::le::le(name.len(), 2) + (name + tail);
            assert(s =~= crate::le::le(id as nat, 8) + at_len);
            reads_back(id as nat, 8, at_len);
            reads_back(name.len(), 2, name + tail);
            assert((name + tail).take(name.len() as int) =~= name);
            assert((name + tail).skip(name.len() as int) =~= tail);
        },
        None => {
            assert(s =~= tail);
        },
    }
}

/// What a record with a format and a source section says, from what stands in
/// front of and behind each section.
proof fn sections_make_fields(
    record: Seq<u8>,
    table: Seq<Seq<u8>>,
    flags: u16,
    at_flags: Seq<u8>,
    at_pad: Seq<u8>,
    at_tick: Seq<u8>,
    at_format: Seq<u8>,
    at_source: Seq<u8>,
    at_line: Seq<u8>,
    at_thread: Seq<u8>,
    thread: (u64, Option<Seq<u8>>),
    at_args: Seq<u8>,
    args: Seq<u8>,
)
    requires
        flags == 3 || flags == 7,
        crate::cursor::fixed_rest(crate::cursor::behind(record, 4), 1) == at_flags,
        crate::cursor::fixed_value(at_flags, 2) == flags,
        crate::cursor::fixed_rest(at_flags, 2) == at_pad,
        crate::cursor::behind(at_pad, 1) == at_tick,
        crate::cursor::fixed_rest(at_tick, 8) == at_format,
        after_str_ref(at_format) == at_source,
        after_str_ref(at_source) == at_line,
        crate::cursor::fixed_rest(at_line, 4) == at_thread,
        thread_section(flags, at_thread) == (thread.0, thread.1, at_args),
        crate::cursor::fixed_rest(at_args, 1) == args,
        crate::strings::resolved(table, str_ref(at_format)) is Some,
        crate::strings::resolved(table, str_ref(at_source)) is Some,
    ensures
        refers_to(record, table),
        fields_of(record, table) == (Fields {
            level: match Level::of_byte(
                crate::cursor::fixed_value(crate::cursor::behind(record, 4), 1) as u8,
            ) {
                Some(level) => level,
                None => Level::Error,
            },
            tick: crate::cursor::fixed_value(at_tick, 8) as u64,
            fmt: crate::strings::resolved(table, str_ref(at_format))->Some_0,
            source: Some(
                (
                    crate::strings::resolved(table, str_ref(at_source))->Some_0,
                    crate::cursor::fixed_value(at_line, 4) as u32,
                ),
            ),
            thread_id: thread.0,
            thread_name: thread.1,
            tags: crate::cursor::front(args, crate::cursor::fixed_value(at_args, 1)),
            payload: crate::cursor::behind(args, crate::cursor::fixed_value(at_args, 1)),
        }),
{
    reveal(fields_of);
    reveal(refers_to);
    assert(3u16 & FLAG_FORMAT != 0 && 3u16 & FLAG_SOURCE != 0 && 3u16 & FLAG_PROCESS == 0 && 3u16
        & FLAG_COMPLEX == 0) by (bit_vector);
    assert(7u16 & FLAG_FORMAT != 0 && 7u16 & FLAG_SOURCE != 0 && 7u16 & FLAG_PROCESS == 0 && 7u16
        & FLAG_COMPLEX == 0) by (bit_vector);
}

/// What an assembled record says is what it was assembled from: its level,
/// timestamp, format string, source location, thread and arguments.
#[verifier::spinoff_prover]
#[verifier::rlimit(40)]
pub proof fn record_round_trip(
    level: Level,
    timestamp: u64,
    fmt: StrRef,
    file: StrRef,
    line: u32,
    thread: Option<ThreadView>,
    values: Seq<crate::encode::Value>,
    table: Seq<Seq<u8>>,
)
    requires
        values.len() <= crate::record::MAX_ARGS,
        crate::record::record_len(values, thread) <= crate::record::MAX_RECORD_SIZE,
        crate::strings::resolved(table, fmt) is Some,
        crate::strings::resolved(table, file) is Some,
        thread matches Some((id, name)) ==> vstd::utf8::valid_utf8(name),
    ensures
        ({
            let total = crate::record::record_len(values, thread);
            let record = crate::record::record_bytes(
                level,
                timestamp,
                fmt,
                file,
                line,
                thread,
                values,
            );
            let fields = fields_of(record, table);
            &&& record.len() == total
            &&& record.take(4) == seq![crate::record::VERSION, crate::record::LOG_RECORD]
                + crate::le::le(total, 2)
            &&& refers_to(record, table)
            &&& fields == (Fields {
                level,
                tick: timestamp,
                fmt: crate::strings::resolved(table, fmt)->Some_0,
                source: Some((crate::strings::resolved(table, file)->Some_0, line)),
                thread_id: shown_id(thread),
                thread_name: shown_thread(thread),
                tags: crate::encode::tags(values),
                payload: crate::encode::payloads(values),
            })
        }),
{
    let tags = crate::encode::tags(values);
    let payloads = crate::encode::payloads(values);
    let n = values.len();
    let record = crate::record::record_bytes(level, timestamp, fmt, file, line, thread, values);
    let flags = crate::record::record_flags(thread);
    crate::le::pow256_values();
    record_behind_frame(level, timestamp, fmt, file, line, thread, values);
    // What follows each section, from the last to the first.
    let args = tags + payloads;
    let at_args = seq![n as u8] + args;
    let at_thread = crate::record::thread_bytes(thread) + at_args;
    let at_line = crate::le::le(line as nat, 4) + at_thread;
    let at_source = crate::le::le(file.addr as nat, 8) + (crate::le::le(file.len as nat, 2)
        + at_line);
    let at_format = crate::le::le(fmt.addr as nat, 8) + (crate::le::le(fmt.len as nat, 2)
        + at_source);
    let at_tick = crate::le::le(timestamp as nat, 8) + at_format;
    let at_pad = seq![0u8] + at_tick;
    let at_flags = crate::le::le(flags, 2) + at_pad;
    reads_back_byte(level.byte(), at_flags);
    reads_back(flags, 2, at_pad);
    reads_back_byte(0, at_tick);
    reads_back(timestamp as nat, 8, at_format);
    reads_back_str_ref(fmt, at_source);
    reads_back_str_ref(file, at_line);
    reads_back(line as nat, 4, at_thread);
    reads_back_thread(thread, at_args);
    reads_back_byte(n as u8, args);
    sections_make_fields(
        record,
        table,
        flags as u16,
        at_flags,
        at_pad,
        at_tick,
        at_format,
        at_source,
        at_line,
        at_thread,
        (shown_id(thread), shown_thread(thread)),
        at_args,
        args,
    );
    assert(args.take(n as int) =~= tags);
    assert(args.skip(n as int) =~= payloads);
    crate::level::level_round_trip(level, 0);
}

/// What a record says stays the same when the table of strings grows.
pub proof fn fields_stable(record: Seq<u8>, table: Seq<Seq<u8>>, grown: Seq<Seq<u8>>)
    requires
        crate::strings::grows(table, grown),
        refers_to(record, table),
    ensures
        fields_of(record, grown) == fields_of(record, table),
        refers_to(record, grown),
{
    reveal(fields_of);
    reveal(refers_to);
    let (flags, rest) = behind_header(record);
    let at_source = if flags & FLAG_FORMAT != 0 {
        after_str_ref(rest)
    } else {
        rest
    };
    if flags & FLAG_FORMAT != 0 {
        crate::strings::resolved_stable(table, grown, str_ref(rest));
    }
    if flags & FLAG_SOURCE != 0 {
        crate::strings::resolved_stable(table, grown, str_ref(at_source));
    }
}

/// No payload is longer than all of them.
proof fn payload_within(values: Seq<crate::encode::Value>, k: int)
    requires
        0 <= k < values.len(),
    ensures
        values[k].payload().len() <= crate::encode::payloads(values).len(),
    decreases values.len(),
{
    if k > 0 {
        payload_within(values.skip(1), k - 1);
        assert(values.skip(1)[k - 1] == values[k]);
    }
}

/// A record that fits its format holds strings that fit their length prefixes.
pub proof fn prefixes_hold(values: Seq<crate::encode::Value>)
    requires
        crate::record::record_len(values, None) <= crate::record::MAX_RECORD_SIZE,
    ensures
        forall|k: int|
            0 <= k < values.len() ==> crate::message::prefix_holds(#[trigger] values[k]),
{
    assert forall|k: int| 0 <= k < values.len() implies crate::message::prefix_holds(
        #[trigger] values[k],
    ) by {
        payload_within(values, k);
        crate::encode::payload_len(values[k]);
    }
}

/// Every assembled record is complete, whatever its format string asks for:
/// it can be decoded.
pub proof fn assembled_is_complete(
    level: Level,
    timestamp: u64,
    fmt: StrRef,
    file: StrRef,
    line: u32,
    thread: Option<ThreadView>,
    values: Seq<crate::encode::Value>,
    table: Seq<Seq<u8>>,
)
    requires
        values.len() <= crate::record::MAX_ARGS,
        crate::record::record_len(values, thread) <= crate::record::MAX_RECORD_SIZE,
        crate::strings::resolved(table, fmt) is Some,
        crate::strings::resolved(table, file) is Some,
        thread matches Some((id, name)) ==> vstd::utf8::valid_utf8(name),
    ensures
        fields_of(
            crate::record::record_bytes(level, timestamp, fmt, file, line, thread, values),
            table,
        ).complete(),
{
    record_round_trip(level, timestamp, fmt, file, line, thread, values, table);
    prefixes_hold(values);
    crate::message::args_round_trip(values, Seq::empty());
    let payloads = crate::encode::payloads(values);
    assert(payloads + Seq::<u8>::empty() =~= payloads);
}

/// Where a logged record's format string has as many placeholders as there are
/// values, the placeholder number `k` of its line shows the value number `k`.
pub proof fn logged_values_appear(
    level: Level,
    timestamp: u64,
    fmt: StrRef,
    file: StrRef,
    line: u32,
    thread: Option<ThreadView>,
    values: Seq<crate::encode::Value>,
    table: Seq<Seq<u8>>,
    floats: Seq<String>,
)
    requires
        values.len() <= crate::record::MAX_ARGS,
        crate::record::record_len(values, thread) <= crate::record::MAX_RECORD_SIZE,
        crate::strings::resolved(table, fmt) is Some,
        crate::strings::resolved(table, file) is Some,
        thread matches Some((id, name)) ==> vstd::utf8::valid_utf8(name),
        crate::format::placeholders(crate::strings::resolved(table, fmt)->Some_0) == Ok::<
            nat,
            crate::format::FmtFault,
        >(values.len()),
    ensures
        ({
            let fields = fields_of(
                crate::record::record_bytes(level, timestamp, fmt, file, line, thread, values),
                table,
            );
            &&& crate::message::holes(fields.fmt).len() == values.len()
            &&& forall|k: int, spec: crate::format::FormatSpec|
                0 <= k < values.len() ==> #[trigger] crate::message::hole_text(
                    k,
                    spec,
                    fields.args(),
                    floats,
                ) == crate::message::field(values[k], spec, floats[k]@)
        }),
{
    record_round_trip(level, timestamp, fmt, file, line, thread, values, table);
    prefixes_hold(values);
    let payloads = crate::encode::payloads(values);
    assert(payloads + Seq::<u8>::empty() =~= payloads);
    crate::message::placeholders_get_their_values(
        crate::strings::resolved(table, fmt)->Some_0,
        values,
        Seq::empty(),
        floats,
    );
}

/// A line with the optional fields that are shown by default: timestamp, level,
/// source location and message.
pub open spec fn default_text(
    level: Level,
    ns: u64,
    timezone_offset: i32,
    file: Seq<u8>,
    line: u32,
    message: Seq<u8>,
) -> Seq<u8> {
    crate::timestamp::iso8601(ns, timezone_offset) + seq![SPACE, SPACE] + vstd::utf8::encode_utf8(
        level.name(),
    ) + seq![SPACE] + file + seq![COLON] + crate::text::decimal(line as nat) + seq![SPACE] + message
}

/// The line of an assembled record shows what the record was assembled from. With
/// the default fields it is the timestamp, the level, the source file and line,
/// and the format string with the value number `k` in place of its placeholder
/// number `k`, written as that asks for.
pub proof fn assembled_line<C: Fn(u64) -> u64, F: Fn(FloatValue, FloatStyle) -> String>(
    text: Seq<u8>,
    level: Level,
    timestamp: u64,
    fmt: StrRef,
    file: StrRef,
    line: u32,
    thread: Option<ThreadView>,
    values: Seq<crate::encode::Value>,
    table: Seq<Seq<u8>>,
    timezone_offset: i32,
    clock: &C,
    float_text: &F,
)
    requires
        values.len() <= crate::record::MAX_ARGS,
        crate::record::record_len(values, thread) <= crate::record::MAX_RECORD_SIZE,
        crate::strings::resolved(table, fmt) is Some,
        crate::strings::resolved(table, file) is Some,
        thread matches Some((id, name)) ==> vstd::utf8::valid_utf8(name),
        crate::format::placeholders(crate::strings::resolved(table, fmt)->Some_0) == Ok::<
            nat,
            crate::format::FmtFault,
        >(values.len()),
        is_line(
            text,
            fields_of(
                crate::record::record_bytes(level, timestamp, fmt, file, line, thread, values),
                table,
            ),
            timezone_offset,
            Layout::Fields(
                LogMetadata {
                    file: true,
                    line_number: true,
                    thread_name: false,
                    thread_id: false,
                },
            ),
            clock,
            float_text,
        ),
    ensures
        ({
            let shown = crate::strings::resolved(table, fmt)->Some_0;
            let specs = crate::message::holes(shown);
            exists|ns: u64, floats: Seq<String>|
                call_ensures(clock, (timestamp,), ns) && (forall|k: int|
                    0 <= k < values.len() ==> crate::message::float_text_ok(
                        float_text,
                        values[k],
                        specs[k],
                        #[trigger] floats[k],
                    )) && text == #[trigger] default_text(
                    level,
                    ns,
                    timezone_offset,
                    crate::strings::resolved(table, file)->Some_0,
                    line,
                    crate::message::filled(
                        shown,
                        crate::message::texts_of(values, specs, floats),
                    ),
                )
        }),
{
    let record = crate::record::record_bytes(level, timestamp, fmt, file, line, thread, values);
    let fields = fields_of(record, table);
    let metadata = LogMetadata {
        file: true,
        line_number: true,
        thread_name: false,
        thread_id: false,
    };
    let layout = Layout::Fields(metadata);
    let shown = crate::strings::resolved(table, fmt)->Some_0;
    let source = crate::strings::resolved(table, file)->Some_0;
    let specs = crate::message::holes(shown);
    record_round_trip(level, timestamp, fmt, file, line, thread, values, table);
    prefixes_hold(values);
    let payloads = crate::encode::payloads(values);
    assert(payloads + Seq::<u8>::empty() =~= payloads);
    crate::message::args_round_trip(values, Seq::empty());
    let (ns, floats) = choose|ns: u64, floats: Seq<String>|
        call_ensures(clock, (fields.tick,), ns) && crate::message::floats_ok(
            float_text,
            specs,
            fields.args(),
            floats,
        ) && text == #[trigger] line_of(fields, ns, floats, timezone_offset, layout);
    logged_values_appear(level, timestamp, fmt, file, line, thread, values, table, floats);
    let texts = crate::message::texts_of(values, specs, floats);
    assert forall|k: int| 0 <= k < texts.len() implies #[trigger] texts[k]
        == crate::message::hole_text(k, specs[k], fields.args(), floats) by {}
    crate::message::message_is_filled(shown, fields.args(), floats, texts);
    assert forall|k: int| 0 <= k < values.len() implies crate::message::float_text_ok(
        float_text,
        values[k],
        specs[k],
        #[trigger] floats[k],
    ) by {
        assert(crate::message::arg_text_ok(float_text, fields.args()[k], specs[k], floats[k]));
    }
    assert(text =~= default_text(
        level,
        ns,
        timezone_offset,
        source,
        line,
        crate::message::filled(shown, texts),
    ));
}

/// Whether `clock` always answers a counter value alike.
pub open spec fn clock_alike<C: Fn(u64) -> u64>(clock: &C) -> bool {
    forall|t: u64, x: u64, y: u64|
        #![trigger call_ensures(clock, (t,), x), call_ensures(clock, (t,), y)]
        call_ensures(clock, (t,), x) && call_ensures(clock, (t,), y) ==> x == y
}

/// Where the clock and the texts of floats are always answered alike, a record
/// has one line.
pub proof fn line_determined<C: Fn(u64) -> u64, F: Fn(FloatValue, FloatStyle) -> String>(
    a: Seq<u8>,
    b: Seq<u8>,
    fields: Fields,
    timezone_offset: i32,
    layout: Layout,
    clock: &C,
    float_text: &F,
)
    requires
        clock_alike(clock),
        crate::message::floats_alike(float_text),
        is_line(a, fields, timezone_offset, layout, clock, float_text),
        is_line(b, fields, timezone_offset, layout, clock, float_text),
    ensures
        a == b,
{
    let specs = crate::message::holes(fields.fmt);
    let (x, f) = choose|ns: u64, floats: Seq<String>|
        call_ensures(clock, (fields.tick,), ns) && crate::message::floats_ok(
            float_text,
            specs,
            fields.args(),
            floats,
        ) && a == #[trigger] line_of(fields, ns, floats, timezone_offset, layout);
    let (y, g) = choose|ns: u64, floats: Seq<String>|
        call_ensures(clock, (fields.tick,), ns) && crate::message::floats_ok(
            float_text,
            specs,
            fields.args(),
            floats,
        ) && b == #[trigger] line_of(fields, ns, floats, timezone_offset, layout);
    assert(x == y);
    crate::message::message_determined(float_text, fields.fmt, fields.args(), f, g);
}

// ---- Valid text -------------------------------------------------------------

impl Fields {
    /// Whether the strings of the record are valid UTF-8.
    pub open spec fn are_text(self) -> bool {
        &&& vstd::utf8::valid_utf8(self.fmt)
        &&& self.source matches Some((file, _)) ==> vstd::utf8::valid_utf8(file)
        &&& self.thread_name matches Some(name) ==> vstd::utf8::valid_utf8(name)
    }
}

/// The strings of a record are valid UTF-8, where those of the table are.
pub proof fn fields_are_text(record: Seq<u8>, table: Seq<Seq<u8>>)
    requires
        crate::strings::holds_text(table),
    ensures
        fields_of(record, table).are_text(),
{
    reveal(fields_of);
    let (flags, rest) = behind_header(record);
    let at_source = format_section(flags, rest, table).1;
    crate::text::ascii_is_text(Seq::empty());
    vstd::utf8::encode_utf8_valid_utf8("<file>"@);
    crate::strings::resolved_is_text(table, str_ref(rest));
    crate::strings::resolved_is_text(table, str_ref(at_source));
}

/// The fields of a line in front of its message are text.
proof fn front_is_text(fields: Fields, ns: u64, timezone_offset: i32, metadata: LogMetadata)
    requires
        fields.are_text(),
    ensures
        vstd::utf8::valid_utf8(
            line_head(fields.level, ns, timezone_offset) + line_fields(fields, metadata),
        ),
{
    let stamp = crate::timestamp::iso8601(ns, timezone_offset);
    let level = vstd::utf8::encode_utf8(fields.level.name());
    crate::timestamp::timestamp_is_ascii(ns, timezone_offset);
    crate::text::ascii_is_text(stamp);
    crate::text::ascii_is_text(seq![SPACE, SPACE]);
    crate::text::ascii_is_text(seq![SPACE]);
    crate::text::ascii_is_text(Seq::empty());
    vstd::utf8::encode_utf8_valid_utf8(fields.level.name());
    vstd::utf8::valid_utf8_concat(stamp, seq![SPACE, SPACE]);
    vstd::utf8::valid_utf8_concat(stamp + seq![SPACE, SPACE], level);
    vstd::utf8::valid_utf8_concat(stamp + seq![SPACE, SPACE] + level, seq![SPACE]);
    if let Some(name) = fields.thread_name {
        vstd::utf8::valid_utf8_concat(name, seq![SPACE]);
    }
    let open = vstd::utf8::encode_utf8("ThreadId("@);
    let id = crate::text::decimal(fields.thread_id as nat);
    let close = vstd::utf8::encode_utf8(") "@);
    vstd::utf8::encode_utf8_valid_utf8("ThreadId("@);
    vstd::utf8::encode_utf8_valid_utf8(") "@);
    crate::text::digits_are_ascii(fields.thread_id as nat, 10, false);
    crate::text::ascii_is_text(id);
    vstd::utf8::valid_utf8_concat(open, id);
    vstd::utf8::valid_utf8_concat(open + id, close);
    if let Some((file, line)) = fields.source {
        let digits = crate::text::decimal(line as nat);
        let number = if metadata.line_number {
            seq![COLON] + digits
        } else {
            Seq::empty()
        };
        crate::text::digits_are_ascii(line as nat, 10, false);
        crate::text::ascii_is_text(number);
        vstd::utf8::valid_utf8_concat(file, number);
        vstd::utf8::valid_utf8_concat(file + number, seq![SPACE]);
    }
    let name = name_field(fields.thread_name, metadata);
    let thread = id_field(fields.thread_id, metadata);
    let source = source_field(fields.source, metadata);
    vstd::utf8::valid_utf8_concat(name, thread);
    vstd::utf8::valid_utf8_concat(name + thread, source);
    vstd::utf8::valid_utf8_concat(
        line_head(fields.level, ns, timezone_offset),
        line_fields(fields, metadata),
    );
}

/// The line of a record is valid UTF-8, where its format string validates and
/// the strings that it refers to are UTF-8. Its arguments may hold anything.
pub proof fn line_is_text<C: Fn(u64) -> u64, F: Fn(FloatValue, FloatStyle) -> String>(
    line: Seq<u8>,
    record: Seq<u8>,
    table: Seq<Seq<u8>>,
    timezone_offset: i32,
    layout: Layout,
    clock: &C,
    float_text: &F,
)
    requires
        crate::strings::holds_text(table),
        layout.valid(),
        crate::format::placeholders(fields_of(record, table).fmt) is Ok,
        is_line(line, fields_of(record, table), timezone_offset, layout, clock, float_text),
    ensures
        vstd::utf8::valid_utf8(line),
{
    let fields = fields_of(record, table);
    fields_are_text(record, table);
    let (ns, floats) = choose|ns: u64, floats: Seq<String>|
        call_ensures(clock, (fields.tick,), ns) && crate::message::floats_ok(
            float_text,
            crate::message::holes(fields.fmt),
            fields.args(),
            floats,
        ) && line == #[trigger] line_of(fields, ns, floats, timezone_offset, layout);
    let message = crate::message::message(fields.fmt, fields.args(), floats);
    crate::message::message_is_text(fields.fmt, fields.args(), floats);
    match layout {
        Layout::Fields(metadata) => {
            front_is_text(fields, ns, timezone_offset, metadata);
            vstd::utf8::valid_utf8_concat(
                line_head(fields.level, ns, timezone_offset) + line_fields(fields, metadata),
                message,
            );
        },
        Layout::Pattern(pattern) => {
            vstd::utf8::encode_utf8_valid_utf8(pattern@);
            crate::timestamp::timestamp_is_ascii(ns, timezone_offset);
            crate::text::ascii_is_text(crate::timestamp::iso8601(ns, timezone_offset));
            crate::pattern::pattern_line_is_text(
                vstd::utf8::encode_utf8(pattern@),
                parts_of(fields, ns, floats, timezone_offset),
            );
        },
    }
}

} // verus!

//! The log record format.
//!
//! Layout constants are shared by the producer (which assembles records here)
//! and the drain (which decodes them), so the two sides cannot drift. The
//! record is a fixed 16-byte header followed by flagged sections:
//!
//! ```text
//! header:  version u8 | type u8 | total_size u16 | level u8 | flags u16 | pad u8 | timestamp u64
//! format:  fmt_ref u64 | fmt_len u16                          (FLAG_FORMAT)
//! source:  file_ref u64 | file_len u16 | line u32             (FLAG_SOURCE)
//! thread:  id u64 | name_len u16 | name bytes                 (FLAG_THREAD)
//! args:    count u8 | tag u8 * count | payload bytes * count
//! ```
//!
//! The format and source strings are `&'static str` that are referred to, not
//! copied.

use crate::encode::LoggableArgs;
use crate::le::put_le;
use crate::level::Level;
use crate::strings::StrRef;
use vstd::prelude::*;
use vstd::slice::*;
use vstd::string::*;

verus! {

/// Record format version written in byte 0 of every header.
pub const VERSION: u8 = 0x01;

/// Record type: a normal encoded log record.
pub const LOG_RECORD: u8 = 1;

/// Record type: filler written before a ring wrap so no record straddles the
/// physical end of the buffer.
pub const END_OF_BUFFER: u8 = 2;

/// Fixed record header size in bytes: version, type, total_size, level, flags,
/// pad, timestamp.
pub const HEADER_SIZE: usize = 16;

/// Encoded size of the format section: an 8-byte reference and a 2-byte length.
pub const FORMAT_SECTION_SIZE: usize = 10;

/// Encoded size of the source section: an 8-byte reference, a 2-byte length,
/// and a 4-byte line number.
pub const SOURCE_SECTION_SIZE: usize = 14;

/// Encoded size of the thread section without the name: an 8-byte id and a
/// 2-byte name length.
pub const THREAD_SECTION_BASE_SIZE: usize = 10;

/// Size of the argument count byte that precedes the tags and payloads.
pub const COUNT_SIZE: usize = 1;

/// Total size of a record's fixed sections, before any arguments: header,
/// format, source, and the count byte.
pub const BASE_RECORD_SIZE: usize = 41;

/// Flag bit: the format-string section is present.
pub const FLAG_FORMAT: u16 = 0x01;

/// Flag bit: the source-location section is present.
pub const FLAG_SOURCE: u16 = 0x02;

/// Flag bit: the thread section is present.
pub const FLAG_THREAD: u16 = 0x04;

/// Flag bit: the process section is present.
pub const FLAG_PROCESS: u16 = 0x08;

/// Flag bit: the complex-type section is present.
pub const FLAG_COMPLEX: u16 = 0x10;

/// Largest record the u16 `total_size` header field can frame. A record that
/// would encode larger than this is dropped rather than truncated.
pub const MAX_RECORD_SIZE: usize = 65_535;

/// Largest number of arguments that the count byte can hold.
pub const MAX_ARGS: usize = 255;

/// The thread that logs a record.
#[derive(Debug, Clone, Copy)]
pub struct ThreadMeta<'a> {
    pub id: u64,
    pub name: &'a str,
}

/// The id and the name, in bytes, of a thread.
pub type ThreadView = (u64, Seq<u8>);

impl<'a> View for ThreadMeta<'a> {
    type V = ThreadView;

    open spec fn view(&self) -> ThreadView {
        (self.id, self.name.spec_bytes())
    }
}

/// An optional thread, as contracts speak of it.
pub open spec fn thread_view(thread: Option<ThreadMeta<'_>>) -> Option<ThreadView> {
    match thread {
        Some(t) => Some(t@),
        None => None,
    }
}

/// The bytes of the thread section: the id, the length of the name, the name. A
/// record without a thread has no such section.
pub open spec fn thread_bytes(thread: Option<ThreadView>) -> Seq<u8> {
    match thread {
        Some((id, name)) => crate::le::le(id as nat, 8) + crate::le::le(name.len(), 2) + name,
        None => Seq::empty(),
    }
}

/// The size of the thread section.
pub open spec fn thread_len(thread: Option<ThreadView>) -> nat {
    match thread {
        Some((id, name)) => THREAD_SECTION_BASE_SIZE as nat + name.len(),
        None => 0,
    }
}

/// The flags of a record: it has a format and a source section, and a thread
/// section where there is a thread.
pub open spec fn record_flags(thread: Option<ThreadView>) -> nat {
    if thread is Some {
        7
    } else {
        3
    }
}

/// The thread section is as long as it should be.
pub proof fn thread_bytes_len(thread: Option<ThreadView>)
    ensures
        thread_bytes(thread).len() == thread_len(thread),
{
    if let Some((id, name)) = thread {
        crate::le::le_len(id as nat, 8);
        crate::le::le_len(name.len(), 2);
    }
}

/// The size of a record of `thread` with the arguments `values`.
pub open spec fn record_len(values: Seq<crate::encode::Value>, thread: Option<ThreadView>) -> nat {
    BASE_RECORD_SIZE as nat + thread_len(thread) + values.len() + crate::encode::payloads(
        values,
    ).len()
}

/// The bytes of a record in front of its argument tags.
pub open spec fn record_front(
    total: nat,
    level: Level,
    timestamp: u64,
    fmt: StrRef,
    file: StrRef,
    line: u32,
    thread: Option<ThreadView>,
    n_args: nat,
) -> Seq<u8> {
    seq![VERSION, LOG_RECORD] + crate::le::le(total, 2) + seq![level.byte()] + crate::le::le(
        record_flags(thread),
        2,
    ) + seq![0u8] + crate::le::le(timestamp as nat, 8) + crate::le::le(fmt.addr as nat, 8)
        + crate::le::le(fmt.len as nat, 2) + crate::le::le(file.addr as nat, 8) + crate::le::le(
        file.len as nat,
        2,
    ) + crate::le::le(line as nat, 4) + thread_bytes(thread) + seq![n_args as u8]
}

/// The bytes of a record.
pub open spec fn record_bytes(
    level: Level,
    timestamp: u64,
    fmt: StrRef,
    file: StrRef,
    line: u32,
    thread: Option<ThreadView>,
    values: Seq<crate::encode::Value>,
) -> Seq<u8> {
    record_front(
        record_len(values, thread),
        level,
        timestamp,
        fmt,
        file,
        line,
        thread,
        values.len(),
    )
        + crate::encode::tags(values) + crate::encode::payloads(values)
}

/// The total size of a record with `n_args` arguments of `args_bytes` bytes and a
/// thread section of `thread_bytes` bytes, or `None` where the record format
/// cannot hold it: the count byte, the string lengths or the size field would
/// overflow.
pub fn record_size(
    n_args: usize,
    args_bytes: usize,
    fmt_len: usize,
    file_len: usize,
    thread_bytes: usize,
) -> (r: Option<usize>)
    ensures
        r is Some <==> n_args <= MAX_ARGS && fmt_len <= u16::MAX && file_len <= u16::MAX
            && BASE_RECORD_SIZE + thread_bytes + n_args + args_bytes <= MAX_RECORD_SIZE,
        r matches Some(total) ==> total == BASE_RECORD_SIZE + thread_bytes + n_args + args_bytes,
{
    if n_args > MAX_ARGS || fmt_len > 65_535 || file_len > 65_535 || args_bytes > MAX_RECORD_SIZE
        || thread_bytes > MAX_RECORD_SIZE {
        return None;
    }
    let total: usize = BASE_RECORD_SIZE + thread_bytes + n_args + args_bytes;
    if total > MAX_RECORD_SIZE {
        return None;
    }
    Some(total)
}

/// Overwrites `n` bytes of `buf` from `pos` on with the lowest `n` bytes of `v`
/// and returns the position after them.
fn put_at(buf: &mut [u8], pos: usize, v: u64, n: usize) -> (next: usize)
    requires
        pos + n <= old(buf)@.len(),
    ensures
        next == pos + n,
        final(buf)@.len() == old(buf)@.len(),
        final(buf)@.take(next as int) == old(buf)@.take(pos as int) + crate::le::le(
            v as nat,
            n as nat,
        ),
        forall|j: int| next <= j < old(buf)@.len() ==> #[trigger] final(buf)@[j] == old(buf)@[j],
{
    let size: usize = buf.len();
    {
        let (_, tail) = buf.split_at_mut(pos);
        put_le(tail, v, n);
    }
    proof {
        crate::le::le_len(v as nat, n as nat);
        assert(buf@.take(pos + n) =~= old(buf)@.take(pos as int) + crate::le::le(
            v as nat,
            n as nat,
        ));
        assert(pos + n <= size);
    }
    pos + n
}

/// Overwrites the bytes of `buf` from `pos` on with `bytes` and returns the
/// position after them.
fn put_bytes_at(buf: &mut [u8], pos: usize, bytes: &[u8]) -> (next: usize)
    requires
        pos + bytes@.len() <= old(buf)@.len(),
    ensures
        next == pos + bytes@.len(),
        final(buf)@.len() == old(buf)@.len(),
        final(buf)@.take(next as int) == old(buf)@.take(pos as int) + bytes@,
        forall|j: int| next <= j < old(buf)@.len() ==> #[trigger] final(buf)@[j] == old(buf)@[j],
{
    let size: usize = buf.len();
    let n: usize = bytes.len();
    let mut i: usize = 0;
    assert(bytes@.take(0) =~= Seq::<u8>::empty());
    assert(buf@.take(pos as int) =~= old(buf)@.take(pos as int) + bytes@.take(0));
    while i < n
        invariant
            i <= n == bytes@.len(),
            pos + n <= size == buf@.len(),
            size == old(buf)@.len(),
            buf@.take(pos + i) == old(buf)@.take(pos as int) + bytes@.take(i as int),
            forall|j: int| pos + i <= j < size ==> #[trigger] buf@[j] == old(buf)@[j],
        decreases n - i,
    {
        let ghost before = buf@;
        buf[pos + i] = bytes[i];
        i = i + 1;
        proof {
            assert(buf@.take(pos + i) =~= before.take(pos + i - 1).push(bytes@[i - 1]));
            assert(bytes@.take(i as int) =~= bytes@.take(i - 1).push(bytes@[i - 1]));
            assert(buf@.take(pos + i) =~= old(buf)@.take(pos as int) + bytes@.take(i as int));
        }
    }
    assert(bytes@.take(n as int) =~= bytes@);
    pos + n
}

/// The fixed sections take [`BASE_RECORD_SIZE`] bytes, and the thread section
/// comes on top of them.
pub proof fn record_front_len(
    total: nat,
    level: Level,
    timestamp: u64,
    fmt: StrRef,
    file: StrRef,
    line: u32,
    thread: Option<ThreadView>,
    n_args: nat,
)
    ensures
        record_front(total, level, timestamp, fmt, file, line, thread, n_args).len()
            == BASE_RECORD_SIZE + thread_len(thread),
{
    thread_bytes_len(thread);
    crate::le::le_len(total, 2);
    crate::le::le_len(record_flags(thread), 2);
    crate::le::le_len(timestamp as nat, 8);
    crate::le::le_len(fmt.addr as nat, 8);
    crate::le::le_len(fmt.len as nat, 2);
    crate::le::le_len(file.addr as nat, 8);
    crate::le::le_len(file.len as nat, 2);
    crate::le::le_len(line as nat, 4);
}

/// Writes the sections of a record in front of its arguments to the front of
/// `dst`, and returns the position after them.
fn assemble_front(
    dst: &mut [u8],
    level: Level,
    timestamp: u64,
    fmt: StrRef,
    file: StrRef,
    line: u32,
    thread: Option<ThreadMeta<'_>>,
    n_args: u8,
) -> (next: usize)
    requires
        BASE_RECORD_SIZE + thread_len(thread_view(thread)) <= old(dst)@.len() <= MAX_RECORD_SIZE,
    ensures
        next == BASE_RECORD_SIZE + thread_len(thread_view(thread)),
        final(dst)@ == record_front(
            old(dst)@.len(),
            level,
            timestamp,
            fmt,
            file,
            line,
            thread_view(thread),
            n_args as nat,
        ) + old(dst)@.skip(next as int),
{
    let total: usize = dst.len();
    let level_u8: u8 = level.to_u8();
    let ghost shown = thread_view(thread);
    proof {
        crate::le::byte_le(VERSION);
        crate::le::byte_le(LOG_RECORD);
        crate::le::byte_le(level_u8);
        crate::le::byte_le(0);
        crate::le::byte_le(n_args);
        record_front_len(total as nat, level, timestamp, fmt, file, line, shown, n_args as nat);
        assert(dst@.take(0) =~= Seq::<u8>::empty());
    }
    let flags: u64 = match thread {
        Some(_) => 7,  // FLAG_FORMAT | FLAG_SOURCE | FLAG_THREAD
        None => 3,  // FLAG_FORMAT | FLAG_SOURCE
    };
    // Header
    let pos: usize = put_at(dst, 0, VERSION as u64, 1);
    let pos: usize = put_at(dst, pos, LOG_RECORD as u64, 1);
    let pos: usize = put_at(dst, pos, total as u64, 2);
    let pos: usize = put_at(dst, pos, level_u8 as u64, 1);
    let pos: usize = put_at(dst, pos, flags, 2);
    let pos: usize = put_at(dst, pos, 0, 1);  // pad
    let pos: usize = put_at(dst, pos, timestamp, 8);
    // Format section
    let pos: usize = put_at(dst, pos, fmt.addr, 8);
    let pos: usize = put_at(dst, pos, fmt.len as u64, 2);
    // Source section
    let pos: usize = put_at(dst, pos, file.addr, 8);
    let pos: usize = put_at(dst, pos, file.len as u64, 2);
    let pos: usize = put_at(dst, pos, line as u64, 4);
    let ghost fixed = dst@.take(pos as int);
    // Thread section
    let pos: usize = match thread {
        Some(t) => {
            let name: &[u8] = t.name.as_bytes();
            let pos: usize = put_at(dst, pos, t.id, 8);
            let pos: usize = put_at(dst, pos, name.len() as u64, 2);
            let pos: usize = put_bytes_at(dst, pos, name);
            assert(dst@.take(pos as int) =~= fixed + thread_bytes(shown));
            pos
        },
        None => {
            assert(dst@.take(pos as int) =~= fixed + thread_bytes(shown));
            pos
        },
    };
    // Count byte
    let pos: usize = put_at(dst, pos, n_args as u64, 1);
    proof {
        let front = record_front(
            total as nat,
            level,
            timestamp,
            fmt,
            file,
            line,
            shown,
            n_args as nat,
        );
        assert(dst@.take(pos as int) =~= front);
        assert(pos == BASE_RECORD_SIZE + thread_len(shown));
        assert(dst@ =~= dst@.take(pos as int) + dst@.skip(pos as int));
        assert(dst@.skip(pos as int) =~= old(dst)@.skip(pos as int));
    }
    pos
}

/// Assembles a record in `dst`, which is as long as the record: the fixed
/// sections (header, format, source), the thread section where there is a
/// thread, then the arguments' tags and payloads.
pub fn assemble_for<A: LoggableArgs>(
    dst: &mut [u8],
    level: Level,
    timestamp: u64,
    fmt: StrRef,
    file: StrRef,
    line: u32,
    thread: Option<ThreadMeta<'_>>,
    args: &A,
)
    requires
        args.values().len() <= MAX_ARGS,
        old(dst)@.len() == record_len(args.values(), thread_view(thread)),
        record_len(args.values(), thread_view(thread)) <= MAX_RECORD_SIZE,
    ensures
        final(dst)@ == record_bytes(
            level,
            timestamp,
            fmt,
            file,
            line,
            thread_view(thread),
            args.values(),
        ),
{
    let n_args: usize = args.args_count();
    let ghost shown = thread_view(thread);
    proof {
        record_front_len(dst@.len(), level, timestamp, fmt, file, line, shown, n_args as nat);
    }
    let front: usize = assemble_front(
        dst,
        level,
        timestamp,
        fmt,
        file,
        line,
        thread,
        n_args as u8,
    );
    let mut tag: usize = 0;
    let mut pay: usize = n_args;
    {
        let (_, tail) = dst.split_at_mut(front);
        args.write_args(tail, &mut tag, &mut pay);
    }
    proof {
        assert(dst@ =~= record_bytes(level, timestamp, fmt, file, line, shown, args.values()));
    }
}

/// Assembles a record without a thread section in `dst`. See [`assemble_for`].
pub fn assemble<A: LoggableArgs>(
    dst: &mut [u8],
    level: Level,
    timestamp: u64,
    fmt: StrRef,
    file: StrRef,
    line: u32,
    args: &A,
)
    requires
        args.values().len() <= MAX_ARGS,
        old(dst)@.len() == record_len(args.values(), None),
        record_len(args.values(), None) <= MAX_RECORD_SIZE,
    ensures
        final(dst)@ == record_bytes(level, timestamp, fmt, file, line, None, args.values()),
{
    assemble_for(dst, level, timestamp, fmt, file, line, None, args);
}

} // verus!

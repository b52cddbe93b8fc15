//! Per-thread ring buffer ownership and the registry of rings.
//!
//! Each thread holds a [`ThreadSlot`] with its [`ThreadBuf`], which is created
//! on first use. How a thread reaches its ring is the type parameter `R`.

use crate::drain::RingEntry;
use crate::error::TicklogError;
use crate::record::{ThreadMeta, ThreadView, THREAD_SECTION_BASE_SIZE};
use crate::text::parse_decimal;
use vstd::prelude::*;
use vstd::slice::slice_subrange;
use vstd::string::*;

verus! {

/// Maximum length of a cached thread name, in bytes. Names longer than this
/// are truncated to avoid bloating every record from the thread.
pub const MAX_THREAD_NAME_LEN: usize = 256;

/// A thread's ring buffer and cached metadata, which is set once at creation
/// and never changes.
pub struct ThreadBuf<R> {
    /// The ring buffer this thread writes records into.
    pub ring: R,
    /// Cached stable thread identifier.
    pub thread_id: u64,
    /// Cached thread name.
    pub thread_name: String,
    /// Encoded size of the thread section for this thread.
    pub thread_section_size: u16,
}

/// The last character boundary of `bytes` up to `end`.
pub open spec fn boundary_before(bytes: Seq<u8>, end: int) -> int
    decreases end,
{
    if end <= 0 || vstd::utf8::is_char_boundary(bytes, end) {
        end
    } else {
        boundary_before(bytes, end - 1)
    }
}

/// A thread name as it is cached: cut to [`MAX_THREAD_NAME_LEN`] bytes without
/// splitting a character.
pub open spec fn cached_name(name: Seq<u8>) -> Seq<u8> {
    if name.len() > MAX_THREAD_NAME_LEN {
        name.take(boundary_before(name, MAX_THREAD_NAME_LEN as int))
    } else {
        name
    }
}

/// The name of a thread that has none.
pub const UNNAMED: &'static str = "<unnamed>";

/// The name that a thread goes by.
pub open spec fn known_name(name: Option<String>) -> Seq<char> {
    match name {
        Some(s) => s@,
        None => UNNAMED@,
    }
}

pub proof fn boundary_before_bounds(bytes: Seq<u8>, end: int)
    requires
        vstd::utf8::valid_utf8(bytes),
        0 <= end <= bytes.len(),
    ensures
        0 <= boundary_before(bytes, end) <= end,
        vstd::utf8::is_char_boundary(bytes, boundary_before(bytes, end)),
    decreases end,
{
    vstd::utf8::is_char_boundary_start_end_of_seq(bytes);
    if end > 0 && !vstd::utf8::is_char_boundary(bytes, end) {
        boundary_before_bounds(bytes, end - 1);
    }
}

/// A cached name is short, starts the name, and is text.
pub proof fn cached_name_is_text(name: Seq<char>)
    ensures
        ({
            let bytes = vstd::utf8::encode_utf8(name);
            &&& cached_name(bytes).len() <= MAX_THREAD_NAME_LEN
            &&& cached_name(bytes) == bytes.take(cached_name(bytes).len() as int)
            &&& vstd::utf8::valid_utf8(cached_name(bytes))
        }),
{
    let bytes = vstd::utf8::encode_utf8(name);
    vstd::utf8::encode_utf8_valid_utf8(name);
    if bytes.len() > MAX_THREAD_NAME_LEN {
        let end = boundary_before(bytes, MAX_THREAD_NAME_LEN as int);
        boundary_before_bounds(bytes, MAX_THREAD_NAME_LEN as int);
        vstd::utf8::valid_utf8_split(bytes, end);
        assert(bytes.take(end) =~= bytes.subrange(0, end));
    } else {
        assert(bytes.take(bytes.len() as int) =~= bytes);
    }
}

/// Cuts a thread name to [`MAX_THREAD_NAME_LEN`] bytes, walking back from the
/// limit to a character boundary.
pub fn truncate_name(name: String) -> (r: String)
    ensures
        vstd::utf8::encode_utf8(r@) == cached_name(vstd::utf8::encode_utf8(name@)),
{
    let text: &str = name.as_str();
    if text.as_bytes().len() <= MAX_THREAD_NAME_LEN {
        return name;
    }
    proof {
        vstd::utf8::encode_utf8_valid_utf8(name@);
        boundary_before_bounds(text.spec_bytes(), MAX_THREAD_NAME_LEN as int);
    }
    let mut end: usize = MAX_THREAD_NAME_LEN;
    while !text.is_char_boundary(end)
        invariant
            vstd::utf8::valid_utf8(text.spec_bytes()),
            end <= text.spec_bytes().len(),
            boundary_before(text.spec_bytes(), end as int) == boundary_before(
                text.spec_bytes(),
                MAX_THREAD_NAME_LEN as int,
            ),
        decreases end,
    {
        proof {
            vstd::utf8::is_char_boundary_start_end_of_seq(text.spec_bytes());
        }
        end = end - 1;
    }
    let (front, _) = text.split_at(end);
    proof {
        assert(text.spec_bytes().subrange(0, end as int) =~= text.spec_bytes().take(end as int));
    }
    front.to_owned()
}

impl<R> ThreadBuf<R> {
    /// Creates the buffer of a thread that writes to `ring`. A thread without a
    /// name goes by [`UNNAMED`].
    pub fn new(ring: R, thread_id: u64, thread_name: Option<String>) -> (tb: ThreadBuf<R>)
        ensures
            tb.ring == ring,
            tb.thread_id == thread_id,
            vstd::utf8::encode_utf8(tb.thread_name@) == cached_name(
                vstd::utf8::encode_utf8(known_name(thread_name)),
            ),
            tb.thread_section_size == crate::record::thread_len(Some(tb.thread())),
    {
        proof {
            cached_name_is_text(known_name(thread_name));
        }
        let name: String = match thread_name {
            Some(name) => name,
            None => UNNAMED.to_owned(),
        };
        let cached: String = truncate_name(name);
        let len: usize = cached.as_str().as_bytes().len();
        ThreadBuf {
            ring,
            thread_id,
            thread_name: cached,
            thread_section_size: (THREAD_SECTION_BASE_SIZE + len) as u16,
        }
    }

    /// The id and the name of the thread.
    pub open spec fn thread(&self) -> ThreadView {
        (self.thread_id, vstd::utf8::encode_utf8(self.thread_name@))
    }

    /// The thread as its records show it.
    pub fn meta(&self) -> (r: ThreadMeta<'_>)
        ensures
            r@ == self.thread(),
    {
        ThreadMeta { id: self.thread_id, name: self.thread_name.as_str() }
    }
}

/// The number in the text `ThreadId(N)`; `0` for any other text.
pub open spec fn thread_number(text: Seq<u8>) -> u64 {
    let front = vstd::utf8::encode_utf8("ThreadId("@);
    let n = front.len() as int;
    if text.len() > n && text.take(n) == front && text.last() == crate::ascii::PAREN_CLOSE {
        match crate::text::decimal_value(text.subrange(n, text.len() - 1)) {
            Some(v) => v,
            None => 0,
        }
    } else {
        0
    }
}

/// Extracts a stable `u64` identifier from the `Debug` text of a thread id, such
/// as `ThreadId(2)`.
///
/// Returns `0` if the text has another form.
pub fn parse_thread_id(text: &str) -> (id: u64)
    ensures
        id == thread_number(text.spec_bytes()),
{
    let bytes: &[u8] = text.as_bytes();
    let front: &[u8] = "ThreadId(".as_bytes();
    let n: usize = front.len();
    if bytes.len() <= n || bytes[bytes.len() - 1] != crate::ascii::PAREN_CLOSE {
        return 0;
    }
    let mut i: usize = 0;
    while i < n
        invariant
            i <= n < bytes@.len(),
            n == front@.len(),
            bytes@ == text.spec_bytes(),
            front@ == "ThreadId(".spec_bytes(),
            forall|j: int| 0 <= j < i ==> bytes@[j] == front@[j],
        decreases n - i,
    {
        if bytes[i] != front[i] {
            assert(bytes@.take(n as int)[i as int] != front@[i as int]);
            return 0;
        }
        i = i + 1;
    }
    assert(bytes@.take(n as int) =~= front@);
    match parse_decimal(slice_subrange(bytes, n, bytes.len() - 1)) {
        Some(v) => v,
        None => 0,
    }
}

/// Per-thread state: the ring buffer plus a re-entrancy flag.
pub struct ThreadSlot<R> {
    /// Set while the thread is logging. A re-entrant call observes it set and
    /// is refused.
    pub active: bool,
    /// The thread's buffer.
    pub buf: Option<ThreadBuf<R>>,
}

/// Whether `buf` was created from `made`.
pub open spec fn made_from<R>(buf: Option<ThreadBuf<R>>, made: (R, u64, Option<String>)) -> bool {
    buf matches Some(tb) && tb.ring == made.0 && tb.thread_id == made.1 && vstd::utf8::encode_utf8(
        tb.thread_name@,
    ) == cached_name(vstd::utf8::encode_utf8(known_name(made.2))) && tb.thread_section_size
        == crate::record::thread_len(Some(tb.thread()))
}

impl<R> ThreadSlot<R> {
    /// The state of a thread that has not logged yet.
    pub fn new() -> (slot: ThreadSlot<R>)
        ensures
            !slot.active,
            slot.buf is None,
    {
        ThreadSlot { active: false, buf: None }
    }

    /// Starts a logging call. Returns `false`, and leaves the slot as it is, if
    /// one is already running on this thread.
    pub fn enter(&mut self) -> (entered: bool)
        ensures
            entered == !old(self).active,
            final(self).active,
            final(self).buf == old(self).buf,
    {
        if self.active {
            return false;
        }
        self.active = true;
        true
    }

    /// Ends a logging call, also one that panics.
    pub fn leave(&mut self)
        ensures
            !final(self).active,
            final(self).buf == old(self).buf,
    {
        self.active = false;
    }

    /// Creates the thread's buffer with what `make` gives, its ring, thread id
    /// and thread name, unless it has one already: `make` is called only where
    /// the thread has no buffer.
    pub fn prepare<M: FnOnce() -> (R, u64, Option<String>)>(&mut self, make: M)
        requires
            old(self).buf is None ==> call_requires(make, ()),
        ensures
            final(self).active == old(self).active,
            final(self).buf is Some,
            old(self).buf is Some ==> final(self).buf == old(self).buf,
            old(self).buf is None ==> exists|made: (R, u64, Option<String>)| #[trigger]
                call_ensures(make, (), made) && made_from(final(self).buf, made),
    {
        if self.buf.is_none() {
            let made = make();
            let ghost given = made;
            let (ring, thread_id, thread_name) = made;
            self.buf = Some(ThreadBuf::new(ring, thread_id, thread_name));
            assert(made_from(self.buf, given));
        }
    }
}

/// Registers a ring buffer.
pub fn register_ring(registry: &mut Vec<RingEntry>, entry: RingEntry)
    ensures
        final(registry)@ == old(registry)@.push(entry),
{
    registry.push(entry);
}

/// Prepares the calling thread for logging by creating its buffer up front,
/// moving the one-time, first-log allocation off a latency-sensitive path.
///
/// Calling it more than once on a thread is a no-op: `make` is called only where
/// the thread has no buffer yet, and not before initialization. Threads that skip
/// it are prepared lazily on their first log call instead.
///
/// Returns [`TicklogError::NotInitialized`] if ticklog has not been initialized
/// yet.
pub fn warm_up<R, M: FnOnce() -> (R, u64, Option<String>)>(
    initialized: bool,
    slot: &mut ThreadSlot<R>,
    make: M,
) -> (r: Result<(), TicklogError>)
    requires
        initialized && !old(slot).active && old(slot).buf is None ==> call_requires(make, ()),
    ensures
        if initialized {
            r is Ok
        } else {
            r matches Err(e) && e is NotInitialized
        },
        final(slot).active == old(slot).active,
        !initialized || old(slot).active || old(slot).buf is Some ==> final(slot).buf == old(
            slot,
        ).buf,
        initialized && !old(slot).active && old(slot).buf is None ==> exists|
            made: (R, u64, Option<String>),
        | #[trigger]
            call_ensures(make, (), made) && made_from(final(slot).buf, made),
{
    if !initialized {
        return Err(TicklogError::NotInitialized);
    }
    if slot.enter() {
        slot.prepare(make);
        slot.leave();
    }
    Ok(())
}

} // verus!

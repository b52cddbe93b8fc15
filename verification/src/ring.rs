//! The ring buffer between a logging thread and the drain.
//!
//! Positions in the ring count bytes since its creation and never wrap; the
//! byte at position `p` is stored at offset `p % capacity`. The producer owns
//! `head`, the drain owns `tail`, and the records in `[tail, head)` wait to be
//! drained. Every record starts at a multiple of [`SLOT_SIZE`] and does not
//! straddle the physical end of the buffer: where it would, a filler record
//! takes up the rest.

use crate::le::put_le;
use crate::record::{END_OF_BUFFER, HEADER_SIZE, LOG_RECORD, VERSION};
use crate::strings::StrTable;
use vstd::arithmetic::div_mod::*;
use vstd::prelude::*;
use vstd::slice::*;

verus! {

/// Records start at multiples of this many bytes.
pub const SLOT_SIZE: usize = 64;

/// The smallest ring: one that admits a record of any size wherever its head
/// stands.
pub const MIN_RING_SIZE: usize = 131_072;

/// The ring size that is used unless another is configured.
pub const DEFAULT_RING_SIZE: usize = 1_048_576;

/// The last position that the head may reach.
pub const MAX_HEAD: u64 = 0xFFFF_FFFF_FFFE_0000;

/// `n` rounded up to a multiple of `unit`.
pub open spec fn rounded_up(n: int, unit: int) -> int {
    (n + unit - 1) / unit * unit
}

/// Rounds `n` up to a multiple of `unit`.
pub fn align_up(n: u64, unit: u64) -> (r: u64)
    requires
        unit > 0,
        n + unit - 1 <= u64::MAX,
    ensures
        r == rounded_up(n as int, unit as int),
        n <= r < n + unit,
        (r as int) % (unit as int) == 0,
{
    proof {
        let x = n + unit - 1;
        lemma_fundamental_div_mod(x, unit as int);
        lemma_mod_bound(x, unit as int);
        assert(unit * (x / (unit as int)) == x / (unit as int) * unit) by (nonlinear_arith);
        lemma_mod_multiples_basic(x / (unit as int), unit as int);
    }
    (n + (unit - 1)) / unit * unit
}

// ---- Frames -----------------------------------------------------------------

/// What the drain finds at a position of the ring.
pub enum Frame {
    /// Nothing has been written there.
    Empty,
    /// The frame cannot be trusted: its version, type or size is not one that
    /// the producer writes.
    Corrupt { version: u8, rectype: u8, size: u16 },
    /// Filler up to the physical end of the buffer.
    Filler { size: u16 },
    /// A record.
    Record { record: Seq<u8> },
}

/// The version, type and size that `s` starts with.
pub open spec fn frame_prefix(s: Seq<u8>) -> (u8, u8, u16) {
    let at_type = crate::cursor::fixed_rest(s, 1);
    let at_size = crate::cursor::fixed_rest(at_type, 1);
    (
        crate::cursor::fixed_value(s, 1) as u8,
        crate::cursor::fixed_value(at_type, 1) as u8,
        crate::cursor::fixed_value(at_size, 2) as u16,
    )
}

/// The frame that starts `s`, the bytes from some offset to the physical end.
pub open spec fn frame_of(s: Seq<u8>) -> Frame {
    let (version, rectype, size) = frame_prefix(s);
    if size == 0 {
        Frame::Empty
    } else if version != VERSION || (rectype != LOG_RECORD && rectype != END_OF_BUFFER) || size
        < HEADER_SIZE || size > s.len() {
        Frame::Corrupt { version, rectype, size }
    } else if rectype == END_OF_BUFFER {
        Frame::Filler { size }
    } else {
        Frame::Record { record: s.take(size as int) }
    }
}

/// The bytes from position `pos` to the physical end of the buffer.
pub open spec fn bytes_at(data: Seq<u8>, pos: int) -> Seq<u8> {
    data.skip(pos % data.len() as int)
}

/// The outcome of draining: the records in order, the position after them, and
/// the frame that stopped it where that was corrupt.
pub struct Walk {
    pub records: Seq<Seq<u8>>,
    pub end: int,
    pub corrupt: Option<(u8, u8, u16)>,
}

/// Draining from `pos` to `head`: an empty frame ends it, a corrupt one ends it
/// and gives up everything up to `head`, filler is skipped.
pub open spec fn walk(data: Seq<u8>, pos: int, head: int) -> Walk
    decreases
            (if pos < head {
                head - pos
            } else {
                0
            }),
{
    if pos >= head {
        Walk { records: Seq::empty(), end: pos, corrupt: None }
    } else {
        match frame_of(bytes_at(data, pos)) {
            Frame::Empty => Walk { records: Seq::empty(), end: pos, corrupt: None },
            Frame::Corrupt { version, rectype, size } => Walk {
                records: Seq::empty(),
                end: head,
                corrupt: Some((version, rectype, size)),
            },
            Frame::Filler { size } => {
                proof {
                    rounded_up_grows(size as int);
                }
                walk(data, pos + rounded_up(size as int, 64), head)
            },
            Frame::Record { record } => {
                proof {
                    rounded_up_grows(record.len() as int);
                }
                let rest = walk(data, pos + rounded_up(record.len() as int, 64), head);
                Walk {
                    records: seq![record] + rest.records,
                    end: rest.end,
                    corrupt: rest.corrupt,
                }
            },
        }
    }
}

/// Rounding a positive size up to whole slots.
pub proof fn rounded_up_grows(size: int)
    ensures
        size <= rounded_up(size, 64) < size + 64,
        rounded_up(size, 64) % 64 == 0,
        size > 0 ==> rounded_up(size, 64) >= 64,
{
}

/// Whether the frames from `pos` on lead to `head` exactly, without a corrupt
/// one.
pub open spec fn framed(data: Seq<u8>, pos: int, head: int) -> bool {
    let w = walk(data, pos, head);
    pos <= head && w.end == head && w.corrupt is None
}

// ---- The ring ---------------------------------------------------------------

/// A ring buffer that one thread writes records to and the drain empties.
pub struct RingBuffer {
    /// The storage.
    pub data: Vec<u8>,
    /// The position after the last published record.
    pub head: u64,
    /// The position of the first record that has not been drained.
    pub tail: u64,
    /// The head as the drain last saw it.
    pub head_cache: u64,
    /// Whether the producer may still write records.
    pub live: bool,
    /// The static strings that the records refer to.
    pub strings: StrTable,
}

/// What a ring holds.
pub struct RingState {
    pub data: Seq<u8>,
    pub head: u64,
    pub tail: u64,
    pub head_cache: u64,
    pub live: bool,
    pub strings: Seq<Seq<u8>>,
}

impl View for RingBuffer {
    type V = RingState;

    open spec fn view(&self) -> RingState {
        RingState {
            data: self.data@,
            head: self.head,
            tail: self.tail,
            head_cache: self.head_cache,
            live: self.live,
            strings: self.strings@,
        }
    }
}

impl RingState {
    /// Whether the ring is as its operations keep it.
    pub open spec fn wf(self) -> bool {
        &&& self.data.len() >= MIN_RING_SIZE
        &&& self.data.len() % 64 == 0
        &&& self.head % 64 == 0
        &&& self.head <= MAX_HEAD
        &&& self.tail <= MAX_HEAD + 0x1_0000
        &&& self.head_cache <= self.head
    }

    /// The ring that the producer writes to, once it has got back the space that
    /// the copy `drained` of it has freed.
    pub open spec fn settled(self, drained: RingState) -> RingState {
        RingState { tail: drained.tail, head_cache: drained.head_cache, ..self }
    }

    /// A copy of a ring, brought up to date with `shared`, the ring that the
    /// producer writes to.
    pub open spec fn refreshed(self, shared: RingState) -> RingState {
        shared.settled(self)
    }
}

/// Room for one record: `len` bytes at `offset` of the storage. Publishing it
/// moves the head to `next`.
#[derive(Debug, Clone, Copy, PartialEq, Eq, Structural)]
pub struct Slot {
    pub offset: usize,
    pub len: usize,
    pub next: u64,
}

/// The first four bytes of the filler that takes up `size` bytes.
pub open spec fn filler_prefix(size: nat) -> Seq<u8> {
    seq![VERSION, END_OF_BUFFER] + crate::le::le(size, 2)
}

/// `data` with `bytes` from `offset` on.
pub open spec fn overwritten(data: Seq<u8>, offset: int, bytes: Seq<u8>) -> Seq<u8> {
    data.take(offset) + bytes + data.skip(offset + bytes.len())
}

impl RingBuffer {
    /// Whether the ring is as its operations keep it.
    pub open spec fn wf(&self) -> bool {
        self@.wf()
    }

    /// The bytes that wait to be drained.
    pub open spec fn used(&self) -> int {
        if self.tail <= self.head {
            self.head - self.tail
        } else {
            0
        }
    }

    /// The offset of the head.
    pub open spec fn head_offset(&self) -> int {
        (self.head as int) % (self.data@.len() as int)
    }

    /// The filler that a record of `len` bytes needs in front of it.
    pub open spec fn filler(&self, len: nat) -> int {
        let room = self.data@.len() - self.head_offset();
        if rounded_up(len as int, 64) <= room {
            0
        } else {
            room
        }
    }

    /// The head after a record of `len` bytes has been published.
    pub open spec fn next_head(&self, len: nat) -> int {
        self.head + self.filler(len) + rounded_up(len as int, 64)
    }

    /// Whether there is room for a record of `len` bytes: it and its filler
    /// overwrite nothing that waits to be drained.
    pub open spec fn admits(&self, len: nat) -> bool {
        &&& self.used() + self.filler(len) + rounded_up(len as int, 64) <= self.data@.len()
        &&& self.next_head(len) <= MAX_HEAD
    }

    /// The slot for a record of `len` bytes.
    pub open spec fn slot_for(&self, len: nat, slot: Slot) -> bool {
        &&& slot.len == len
        &&& slot.offset == if self.filler(len) == 0 {
            self.head_offset()
        } else {
            0
        }
        &&& slot.next == self.next_head(len)
    }

    /// The storage once room for a record of `len` bytes is reserved.
    pub open spec fn reserved(&self, len: nat) -> Seq<u8> {
        if self.filler(len) == 0 {
            self.data@
        } else {
            overwritten(self.data@, self.head_offset(), filler_prefix(self.filler(len) as nat))
        }
    }

    /// Creates an empty ring of `size` bytes.
    pub fn new(size: usize) -> (ring: RingBuffer)
        requires
            size >= MIN_RING_SIZE,
            size % 64 == 0,
        ensures
            ring.wf(),
            ring.data@.len() == size,
            ring.head == 0,
            ring.tail == 0,
            ring.head_cache == 0,
            ring.live,
            ring.strings@ == Seq::<Seq<u8>>::empty(),
    {
        let data: Vec<u8> = vec![0u8; size];
        RingBuffer { data, head: 0, tail: 0, head_cache: 0, live: true, strings: StrTable::new() }
    }

    /// Reserves room for a record of `len` bytes. Returns `None`, and leaves
    /// the ring as it is, where there is none.
    pub fn reserve(&mut self, len: usize) -> (r: Option<Slot>)
        requires
            old(self).wf(),
            0 < len <= crate::record::MAX_RECORD_SIZE,
        ensures
            final(self).wf(),
            r is Some <==> old(self).admits(len as nat),
            r is None ==> *final(self) == *old(self),
            r matches Some(slot) ==> old(self).slot_for(len as nat, slot) && slot.offset + slot.len
                <= final(self).data@.len() && final(self).data@ == old(self).reserved(len as nat),
            final(self).head == old(self).head,
            final(self).tail == old(self).tail,
            final(self).head_cache == old(self).head_cache,
            final(self).live == old(self).live,
            final(self).strings == old(self).strings,
    {
        let cap: u64 = self.data.len() as u64;
        let aligned: u64 = align_up(len as u64, SLOT_SIZE as u64);
        let offset: u64 = self.head % cap;
        let room: u64 = cap - offset;
        proof {
            head_aligned(self.head as int, cap as int);
        }
        let filler: u64 = if aligned <= room {
            0
        } else {
            room
        };
        let used: u64 = if self.tail <= self.head {
            self.head - self.tail
        } else {
            0
        };
        if used > cap || filler + aligned > cap - used || filler + aligned > MAX_HEAD - self.head {
            return None;
        }
        let next: u64 = self.head + filler + aligned;
        if filler == 0 {
            return Some(Slot { offset: offset as usize, len, next });
        }
        proof {
            filler_prefix_len(filler as nat);
        }
        {
            let (_, tail) = self.data.as_mut_slice().split_at_mut(offset as usize);
            put_filler(tail, filler as u16);
        }
        proof {
            assert(self.data@ =~= old(self).reserved(len as nat));
        }
        Some(Slot { offset: 0, len, next })
    }

    /// The bytes of a slot.
    pub fn slot_mut(&mut self, slot: Slot) -> (bytes: &mut [u8])
        requires
            slot.offset + slot.len <= old(self).data@.len(),
        ensures
            bytes@ == old(self).data@.subrange(slot.offset as int, slot.offset + slot.len),
            final(bytes)@.len() == slot.len ==> final(self).data@ == overwritten(
                old(self).data@,
                slot.offset as int,
                final(bytes)@,
            ),
            final(self).head == old(self).head,
            final(self).tail == old(self).tail,
            final(self).head_cache == old(self).head_cache,
            final(self).live == old(self).live,
            final(self).strings == old(self).strings,
    {
        let (_, tail) = self.data.as_mut_slice().split_at_mut(slot.offset);
        let (bytes, _) = tail.split_at_mut(slot.len);
        bytes
    }

    /// Copies `bytes` to the slot.
    pub fn write(&mut self, slot: Slot, bytes: &[u8])
        requires
            slot.offset + slot.len <= old(self).data@.len(),
            bytes@.len() == slot.len,
        ensures
            final(self).data@ == overwritten(old(self).data@, slot.offset as int, bytes@),
            final(self).head == old(self).head,
            final(self).tail == old(self).tail,
            final(self).head_cache == old(self).head_cache,
            final(self).live == old(self).live,
            final(self).strings == old(self).strings,
    {
        let ghost start = self.data@;
        let size: usize = self.data.len();
        let n: usize = bytes.len();
        let mut i: usize = 0;
        assert(start =~= overwritten(start, slot.offset as int, bytes@.take(0)));
        while i < n
            invariant
                i <= n == bytes@.len(),
                n == slot.len,
                slot.offset + slot.len <= start.len() == size,
                start == old(self).data@,
                self.data@ == overwritten(start, slot.offset as int, bytes@.take(i as int)),
                self.head == old(self).head,
                self.tail == old(self).tail,
                self.head_cache == old(self).head_cache,
                self.live == old(self).live,
                self.strings == old(self).strings,
            decreases n - i,
        {
            self.data[slot.offset + i] = bytes[i];
            i = i + 1;
            assert(self.data@ =~= overwritten(
                start,
                slot.offset as int,
                bytes@.take(i as int),
            ));
        }
        assert(bytes@.take(n as int) =~= bytes@);
    }

    /// Publishes the record in the slot: it waits to be drained from now on.
    pub fn publish(&mut self, slot: Slot)
        requires
            old(self).wf(),
            slot.next % 64 == 0,
            old(self).head <= slot.next <= MAX_HEAD,
        ensures
            final(self).wf(),
            final(self).head == slot.next,
            final(self).data == old(self).data,
            final(self).tail == old(self).tail,
            final(self).head_cache == old(self).head_cache,
            final(self).live == old(self).live,
            final(self).strings == old(self).strings,
    {
        self.head = slot.next;
    }

    /// Brings a copy of a ring up to date with `shared`, the ring that the
    /// producer writes to. What the drain owns stays as it is.
    pub fn refresh(&mut self, shared: &RingBuffer)
        ensures
            final(self)@ == old(self)@.refreshed(shared@),
    {
        self.data = copy_bytes(shared.data.as_slice());
        self.head = shared.head;
        self.live = shared.live;
        self.strings = shared.strings.duplicate();
    }

    /// Copies the ring.
    pub fn duplicate(&self) -> (r: RingBuffer)
        ensures
            r@ == self@,
    {
        RingBuffer {
            data: copy_bytes(self.data.as_slice()),
            head: self.head,
            tail: self.tail,
            head_cache: self.head_cache,
            live: self.live,
            strings: self.strings.duplicate(),
        }
    }

    /// Gives the space that a drained copy has freed back to the producer.
    pub fn settle(&mut self, drained: &RingBuffer)
        ensures
            final(self)@ == old(self)@.settled(drained@),
    {
        self.tail = drained.tail;
        self.head_cache = drained.head_cache;
    }

    /// Marks the producer as gone: no more records will be written.
    pub fn retire(&mut self)
        requires
            old(self).wf(),
        ensures
            final(self).wf(),
            !final(self).live,
            final(self).data == old(self).data,
            final(self).head == old(self).head,
            final(self).tail == old(self).tail,
            final(self).head_cache == old(self).head_cache,
            final(self).strings == old(self).strings,
    {
        self.live = false;
    }
}

/// An aligned position has an aligned offset.
pub proof fn head_aligned(head: int, cap: int)
    requires
        cap > 0,
        cap % 64 == 0,
        head % 64 == 0,
    ensures
        0 <= head % cap < cap,
        (head % cap) % 64 == 0,
        cap - head % cap >= 64,
{
    lemma_mod_bound(head, cap);
    lemma_mod_mod(head, 64, cap / 64);
    assert(64 * (cap / 64) == cap);
}

proof fn filler_prefix_len(size: nat)
    ensures
        filler_prefix(size).len() == 4,
{
    crate::le::le_len(size, 2);
}

/// Copies bytes.
fn copy_bytes(bytes: &[u8]) -> (r: Vec<u8>)
    ensures
        r@ == bytes@,
{
    let mut r: Vec<u8> = Vec::new();
    crate::text::push_bytes(&mut r, bytes);
    assert(r@ =~= bytes@);
    r
}

/// Writes the first four bytes of a filler record.
fn put_filler(buf: &mut [u8], size: u16)
    requires
        old(buf)@.len() >= 4,
    ensures
        final(buf)@ == filler_prefix(size as nat) + old(buf)@.skip(4),
{
    proof {
        filler_prefix_len(size as nat);
    }
    {
        let (_, tail) = buf.split_at_mut(2);
        put_le(tail, size as u64, 2);
    }
    buf[0] = VERSION;
    buf[1] = END_OF_BUFFER;
    assert(buf@ =~= filler_prefix(size as nat) + old(buf)@.skip(4));
}

// ---- Laws -------------------------------------------------------------------

/// Positions less than a ring apart have different offsets.
proof fn offsets_differ(p: int, q: int, cap: int)
    requires
        cap > 0,
        0 < q - p < cap,
    ensures
        p % cap != q % cap,
{
    if p % cap == q % cap {
        lemma_fundamental_div_mod(p, cap);
        lemma_fundamental_div_mod(q, cap);
        let k = q / cap - p / cap;
        assert(q - p == cap * k) by (nonlinear_arith)
            requires
                q - p == cap * (q / cap) - cap * (p / cap),
                k == q / cap - p / cap,
        ;
        assert(false) by (nonlinear_arith)
            requires
                q - p == cap * k,
                0 < q - p < cap,
                cap > 0,
        ;
    }
}

/// The offset of a position behind `p` that does not pass the physical end.
proof fn offset_adds(p: int, j: int, cap: int)
    requires
        cap > 0,
        0 <= j,
        p % cap + j < cap,
    ensures
        (p + j) % cap == p % cap + j,
{
    lemma_fundamental_div_mod(p, cap);
    lemma_mod_bound(p, cap);
    assert(cap * (p / cap) == (p / cap) * cap) by (nonlinear_arith);
    lemma_fundamental_div_mod_converse(p + j, cap, p / cap, p % cap + j);
}

/// Whether two storages agree on the bytes at the positions from `from` to `to`.
spec fn agree(a: Seq<u8>, b: Seq<u8>, from: int, to: int) -> bool {
    &&& a.len() == b.len()
    &&& a.len() > 0
    &&& forall|p: int|
        from <= p < to ==> #[trigger] a[p % (a.len() as int)] == b[p % (a.len() as int)]
}

/// The frame at `pos` is the same in storages that agree on its bytes.
proof fn frame_stable(a: Seq<u8>, b: Seq<u8>, pos: int, len: int)
    requires
        4 <= len,
        agree(a, b, pos, pos + len),
        len <= bytes_at(a, pos).len(),
    ensures
        bytes_at(a, pos).take(len) == bytes_at(b, pos).take(len),
        frame_prefix(bytes_at(a, pos)) == frame_prefix(bytes_at(b, pos)),
{
    let cap = a.len() as int;
    let o = pos % cap;
    lemma_mod_bound(pos, cap);
    let x = bytes_at(a, pos);
    let y = bytes_at(b, pos);
    assert forall|j: int| 0 <= j < len implies #[trigger] x[j] == y[j] by {
        offset_adds(pos, j, cap);
        assert(a[(pos + j) % cap] == b[(pos + j) % cap]);
    }
    assert(x.take(len) =~= y.take(len));
    assert(x.take(1) =~= y.take(1));
    assert(x.skip(1).take(1) =~= y.skip(1).take(1));
    assert(x.skip(1).skip(1).take(2) =~= y.skip(1).skip(1).take(2));
}

/// Draining goes by the bytes between its ends alone.
proof fn walk_stable(a: Seq<u8>, b: Seq<u8>, pos: int, head: int)
    requires
        framed(a, pos, head),
        agree(a, b, pos, head),
        pos % 64 == 0,
        a.len() % 64 == 0,
    ensures
        walk(b, pos, head) == walk(a, pos, head),
    decreases head - pos,
{
    if pos < head {
        let cap = a.len() as int;
        lemma_mod_bound(pos, cap);
        head_aligned(pos, cap);
        match frame_of(bytes_at(a, pos)) {
            Frame::Filler { size } => {
                rounded_up_grows(size as int);
                walk_moves_on(a, pos + rounded_up(size as int, 64), head);
                frame_stable(a, b, pos, size as int);
                walk_stable(a, b, pos + rounded_up(size as int, 64), head);
            },
            Frame::Record { record } => {
                let size = record.len() as int;
                rounded_up_grows(size);
                walk_moves_on(a, pos + rounded_up(size, 64), head);
                frame_stable(a, b, pos, size);
                walk_stable(a, b, pos + rounded_up(size, 64), head);
            },
            _ => {},
        }
    }
}

/// Draining never ends in front of where it starts.
proof fn walk_moves_on(data: Seq<u8>, pos: int, head: int)
    ensures
        walk(data, pos, head).end >= pos,
    decreases
            (if pos < head {
                head - pos
            } else {
                0
            }),
{
    if pos < head {
        match frame_of(bytes_at(data, pos)) {
            Frame::Filler { size } => {
                rounded_up_grows(size as int);
                walk_moves_on(data, pos + rounded_up(size as int, 64), head);
            },
            Frame::Record { record } => {
                rounded_up_grows(record.len() as int);
                walk_moves_on(data, pos + rounded_up(record.len() as int, 64), head);
            },
            _ => {},
        }
    }
}

/// Draining further gives what draining in two parts gives.
proof fn walk_splits(data: Seq<u8>, pos: int, mid: int, head: int)
    requires
        framed(data, pos, mid),
        mid <= head,
    ensures
        ({
            let first = walk(data, pos, mid);
            let second = walk(data, mid, head);
            walk(data, pos, head) == (Walk {
                records: first.records + second.records,
                end: second.end,
                corrupt: second.corrupt,
            })
        }),
    decreases mid - pos,
{
    let second = walk(data, mid, head);
    if pos < mid {
        match frame_of(bytes_at(data, pos)) {
            Frame::Filler { size } => {
                rounded_up_grows(size as int);
                walk_moves_on(data, pos + rounded_up(size as int, 64), mid);
                walk_splits(data, pos + rounded_up(size as int, 64), mid, head);
            },
            Frame::Record { record } => {
                let next = pos + rounded_up(record.len() as int, 64);
                rounded_up_grows(record.len() as int);
                walk_moves_on(data, next, mid);
                walk_splits(data, next, mid, head);
                let rest = walk(data, next, mid);
                assert(seq![record] + (rest.records + second.records) =~= (seq![record]
                    + rest.records) + second.records);
            },
            _ => {},
        }
    } else {
        assert(Seq::<Seq<u8>>::empty() + second.records =~= second.records);
    }
}

/// Whether `record` is framed as the producer frames records: its header holds
/// its size.
pub open spec fn is_record(record: Seq<u8>) -> bool {
    &&& HEADER_SIZE <= record.len() <= crate::record::MAX_RECORD_SIZE
    &&& frame_prefix(record) == (VERSION, LOG_RECORD, record.len() as u16)
}

/// A framed record is found where it was written.
proof fn record_found(s: Seq<u8>, record: Seq<u8>)
    requires
        is_record(record),
        record.len() <= s.len(),
        s.take(record.len() as int) == record,
    ensures
        frame_of(s) == (Frame::Record { record }),
{
    assert(s.take(1) =~= record.take(1));
    assert(s.skip(1).take(1) =~= record.skip(1).take(1));
    assert(s.skip(1).skip(1).take(2) =~= record.skip(1).skip(1).take(2));
}

/// The frame prefix that four bytes hold.
pub proof fn prefix_found(s: Seq<u8>, rectype: u8, size: nat)
    requires
        size <= u16::MAX,
        s.len() >= 4,
        s.take(4) == seq![VERSION, rectype] + crate::le::le(size, 2),
    ensures
        frame_prefix(s) == (VERSION, rectype, size as u16),
{
    crate::le::le_len(size, 2);
    crate::le::pow256_values();
    crate::le::le_value_of_le(size, 2);
    reveal_with_fuel(crate::le::le_value, 2);
    let p = seq![VERSION, rectype] + crate::le::le(size, 2);
    assert(s.take(1) =~= p.take(1));
    assert(p.take(1) =~= seq![VERSION]);
    assert(seq![VERSION].skip(1) =~= Seq::<u8>::empty());
    assert(s.skip(1).take(1) =~= p.skip(1).take(1));
    assert(p.skip(1).take(1) =~= seq![rectype]);
    assert(seq![rectype].skip(1) =~= Seq::<u8>::empty());
    assert(s.skip(1).skip(1).take(2) =~= p.skip(1).skip(1).take(2));
    assert(p.skip(1).skip(1).take(2) =~= crate::le::le(size, 2));
}

/// A filler is found where it was written.
proof fn filler_found(s: Seq<u8>, size: nat)
    requires
        HEADER_SIZE <= size <= s.len(),
        size <= u16::MAX,
        s.take(4) == filler_prefix(size),
    ensures
        frame_of(s) == (Frame::Filler { size: size as u16 }),
{
    prefix_found(s, END_OF_BUFFER, size);
}

/// Where a slot starts: behind the filler, at its offset.
pub proof fn slot_start(ring: &RingBuffer, len: nat, slot: Slot)
    requires
        ring.wf(),
        0 < len <= crate::record::MAX_RECORD_SIZE,
        ring.admits(len),
        ring.slot_for(len, slot),
    ensures
        (slot.next - rounded_up(len as int, 64)) % (ring.data@.len() as int) == slot.offset,
        slot.next - rounded_up(len as int, 64) == ring.head + ring.filler(len),
        slot.offset + len <= ring.data@.len(),
        slot.offset + rounded_up(len as int, 64) <= ring.data@.len(),
        0 <= ring.filler(len) <= 65_472,
        ring.filler(len) % 64 == 0,
        ring.head < slot.next,
        slot.next % 64 == 0,
        ring.tail <= ring.head && ring.filler(len) > 0 ==> len <= ring.head_offset(),
{
    let cap = ring.data@.len() as int;
    let head = ring.head as int;
    let start = slot.next - rounded_up(len as int, 64);
    rounded_up_grows(len as int);
    head_aligned(head, cap);
    if ring.filler(len) > 0 {
        lemma_fundamental_div_mod(head, cap);
        assert(start == (head / cap + 1) * cap) by (nonlinear_arith)
            requires
                start == cap * (head / cap) + cap,
        ;
        lemma_mod_multiples_basic(head / cap + 1, cap);
    }
}

/// What a slot and the filler in front of it hold once a record is written.
proof fn slot_bytes(ring: &RingBuffer, record: Seq<u8>, slot: Slot, data: Seq<u8>)
    requires
        ring.wf(),
        ring.tail <= ring.head,
        0 < record.len() <= crate::record::MAX_RECORD_SIZE,
        ring.admits(record.len()),
        ring.slot_for(record.len(), slot),
        data == overwritten(ring.reserved(record.len()), slot.offset as int, record),
    ensures
        data.len() == ring.data@.len(),
        bytes_at(data, ring.head + ring.filler(record.len())).len() >= record.len(),
        bytes_at(data, ring.head + ring.filler(record.len())).take(record.len() as int) == record,
        ring.filler(record.len()) > 0 ==> bytes_at(data, ring.head as int).len() == ring.filler(
            record.len(),
        ) && bytes_at(data, ring.head as int).take(4) == filler_prefix(
            ring.filler(record.len()) as nat,
        ),
{
    let len = record.len();
    let cap = ring.data@.len() as int;
    slot_start(ring, len, slot);
    lemma_mod_bound(ring.head as int, cap);
    filler_prefix_len(ring.filler(len) as nat);
    let start = ring.head + ring.filler(len);
    assert(data.skip(slot.offset as int).take(len as int) =~= record);
    if ring.filler(len) > 0 {
        assert(data.skip(ring.head_offset()).take(4) =~= filler_prefix(ring.filler(len) as nat));
    }
}

/// Reserving room and writing to it keeps the size of the storage.
pub proof fn writing_keeps_size(ring: &RingBuffer, record: Seq<u8>, slot: Slot)
    requires
        ring.wf(),
        0 < record.len() <= crate::record::MAX_RECORD_SIZE,
        ring.admits(record.len()),
        ring.slot_for(record.len(), slot),
    ensures
        overwritten(ring.reserved(record.len()), slot.offset as int, record).len()
            == ring.data@.len(),
{
    slot_start(ring, record.len(), slot);
    head_aligned(ring.head as int, ring.data@.len() as int);
    filler_prefix_len(ring.filler(record.len()) as nat);
}

/// Reserving room and writing a record to it leaves what waits to be drained as
/// it is.
proof fn writing_keeps_pending(ring: &RingBuffer, record: Seq<u8>, slot: Slot, data: Seq<u8>)
    requires
        ring.wf(),
        ring.tail <= ring.head,
        0 < record.len() <= crate::record::MAX_RECORD_SIZE,
        ring.admits(record.len()),
        ring.slot_for(record.len(), slot),
        data == overwritten(ring.reserved(record.len()), slot.offset as int, record),
    ensures
        agree(ring.data@, data, ring.tail as int, ring.head as int),
{
    let len = record.len();
    let cap = ring.data@.len() as int;
    let head = ring.head as int;
    let start = head + ring.filler(len);
    let off = head % cap;
    slot_start(ring, len, slot);
    lemma_mod_bound(head, cap);
    rounded_up_grows(len as int);
    filler_prefix_len(ring.filler(len) as nat);
    slot_bytes(ring, record, slot, data);
    assert forall|p: int| ring.tail <= p < ring.head implies #[trigger] ring.data@[p % cap]
        == data[p % cap] by {
        let o = p % cap;
        lemma_mod_bound(p, cap);
        // Neither the filler nor the record reaches the offset of `p`.
        if ring.filler(len) > 0 && off <= o < off + 4 {
            offset_adds(head, o - off, cap);
            offsets_differ(p, head + (o - off), cap);
        }
        if slot.offset <= o < slot.offset + len {
            offset_adds(start, o - slot.offset, cap);
            offsets_differ(p, start + (o - slot.offset), cap);
        }
    }
}

/// Draining one record and no more.
proof fn walk_record(data: Seq<u8>, pos: int, record: Seq<u8>)
    requires
        frame_of(bytes_at(data, pos)) == (Frame::Record { record }),
        record.len() > 0,
    ensures
        walk(data, pos, pos + rounded_up(record.len() as int, 64)) == (Walk {
            records: seq![record],
            end: pos + rounded_up(record.len() as int, 64),
            corrupt: None,
        }),
{
    let next = pos + rounded_up(record.len() as int, 64);
    rounded_up_grows(record.len() as int);
    assert(walk(data, next, next).records =~= Seq::<Seq<u8>>::empty());
    assert(seq![record] + Seq::<Seq<u8>>::empty() =~= seq![record]);
}

/// Draining past a filler.
proof fn walk_filler(data: Seq<u8>, pos: int, size: u16, head: int)
    requires
        frame_of(bytes_at(data, pos)) == (Frame::Filler { size }),
        size > 0,
        size % 64 == 0,
        pos < head,
    ensures
        walk(data, pos, head) == walk(data, pos + size, head),
{
    rounded_up_grows(size as int);
    assert(rounded_up(size as int, 64) == size);
}

/// Draining what was written to a slot gives the record.
proof fn slot_drains(ring: &RingBuffer, record: Seq<u8>, slot: Slot, data: Seq<u8>)
    requires
        ring.wf(),
        ring.tail <= ring.head,
        is_record(record),
        ring.admits(record.len()),
        ring.slot_for(record.len(), slot),
        data == overwritten(ring.reserved(record.len()), slot.offset as int, record),
    ensures
        walk(data, ring.head as int, slot.next as int) == (Walk {
            records: seq![record],
            end: slot.next as int,
            corrupt: None,
        }),
{
    let head = ring.head as int;
    let size = ring.filler(record.len());
    slot_start(ring, record.len(), slot);
    slot_bytes(ring, record, slot, data);
    record_found(bytes_at(data, head + size), record);
    walk_record(data, head + size, record);
    if size > 0 {
        filler_found(bytes_at(data, head), size as nat);
        walk_filler(data, head, size as u16, slot.next as int);
    }
}

/// Records come out in the order they were written, each once and unchanged:
/// writing a framed record to its slot and publishing it appends it to what
/// waits to be drained, from the tail on or from any record `from` behind it.
pub proof fn publish_appends(
    ring: &RingBuffer,
    record: Seq<u8>,
    slot: Slot,
    data: Seq<u8>,
    from: int,
)
    requires
        ring.wf(),
        ring.tail <= from,
        from % 64 == 0,
        framed(ring.data@, from, ring.head as int),
        is_record(record),
        ring.admits(record.len()),
        ring.slot_for(record.len(), slot),
        data == overwritten(ring.reserved(record.len()), slot.offset as int, record),
    ensures
        framed(data, from, slot.next as int),
        walk(data, from, slot.next as int).records == walk(
            ring.data@,
            from,
            ring.head as int,
        ).records.push(record),
        slot.next % 64 == 0,
        ring.head < slot.next <= MAX_HEAD,
        data.len() == ring.data@.len(),
{
    let head = ring.head as int;
    let next = slot.next as int;
    let pending = walk(ring.data@, from, head).records;
    slot_start(ring, record.len(), slot);
    slot_bytes(ring, record, slot, data);
    writing_keeps_pending(ring, record, slot, data);
    slot_drains(ring, record, slot, data);
    walk_stable(ring.data@, data, from, head);
    walk_splits(data, from, head, next);
    assert(pending + seq![record] =~= pending.push(record));
}

/// A ring with nothing in it admits a record of any size.
pub proof fn empty_ring_admits(ring: &RingBuffer, len: nat)
    requires
        ring.wf(),
        ring.tail == ring.head,
        0 < len <= crate::record::MAX_RECORD_SIZE,
        ring.head <= MAX_HEAD - MIN_RING_SIZE,
    ensures
        ring.admits(len),
{
    rounded_up_grows(len as int);
    head_aligned(ring.head as int, ring.data@.len() as int);
}

} // verus!

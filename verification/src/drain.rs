//! The drain: consumes encoded records from every ring buffer and hands
//! formatted log lines to the sink.

use crate::cursor::Cursor;
use crate::decode::{format_record, Layout, LogMetadata};
use crate::format::FloatStyle;
use crate::level::Level;
use crate::message::FloatValue;
use crate::record::{END_OF_BUFFER, HEADER_SIZE, LOG_RECORD, VERSION};
use crate::ring::{align_up, RingBuffer, RingState, MAX_HEAD, SLOT_SIZE};
use crate::sink::tap::{Heard, Turn};
use crate::sink::{LogSink, Tap};
use crate::strings::StrTable;
use std::io;
use vstd::prelude::*;
use vstd::slice::slice_subrange;

verus! {

/// Something that went wrong while draining. It is reported; draining goes on.
#[derive(Debug)]
pub enum Notice {
    /// The sink refused a line.
    SinkFailed(io::Error),
    /// A frame could not be trusted and everything up to the head was discarded.
    Corrupt { version: u8, rectype: u8, size: u16 },
}

/// Whether `t` is the turn in which a sink was offered `record`: its line at its
/// level, which was passed exactly where the maximum level that the sink
/// reported admits it. The line is valid UTF-8 where the format string of the
/// record validates.
pub open spec fn turn_of<S: LogSink, C: Fn(u64) -> u64, F: Fn(FloatValue, FloatStyle) -> String>(
    t: Turn<S>,
    record: Seq<u8>,
    table: Seq<Seq<u8>>,
    timezone_offset: i32,
    layout: Layout,
    clock: &C,
    float_text: &F,
) -> bool {
    let fields = crate::decode::fields_of(record, table);
    &&& t.fair()
    &&& t.heard.level == fields.level
    &&& crate::decode::is_line(
        t.heard.line,
        fields,
        timezone_offset,
        layout,
        clock,
        float_text,
    )
    &&& crate::format::placeholders(fields.fmt) is Ok ==> vstd::utf8::valid_utf8(t.heard.line)
}

/// Whether `new` are the turns in which a sink was offered `records`, one each
/// and in order.
pub open spec fn turns_of<S: LogSink, C: Fn(u64) -> u64, F: Fn(FloatValue, FloatStyle) -> String>(
    new: Seq<Turn<S>>,
    records: Seq<Seq<u8>>,
    table: Seq<Seq<u8>>,
    timezone_offset: i32,
    layout: Layout,
    clock: &C,
    float_text: &F,
) -> bool {
    &&& new.len() == records.len()
    &&& forall|i: int|
        0 <= i < new.len() ==> turn_of(
            #[trigger] new[i],
            records[i],
            table,
            timezone_offset,
            layout,
            clock,
            float_text,
        )
}

/// The notices that report what went wrong: the errors that the sink replied,
/// in order, and then the corrupt frame where there was one.
pub open spec fn notices_of(errors: Seq<io::Error>, corrupt: Option<(u8, u8, u16)>) -> Seq<Notice> {
    let failed = errors.map_values(|e: io::Error| Notice::SinkFailed(e));
    match corrupt {
        None => failed,
        Some((version, rectype, size)) => failed.push(Notice::Corrupt { version, rectype, size }),
    }
}

/// The notices of a sink's turns.
pub open spec fn notices_in<S>(turns: Seq<Turn<S>>, corrupt: Option<(u8, u8, u16)>) -> Seq<Notice> {
    notices_of(crate::sink::tap::errors_of(crate::sink::tap::heard_in(turns)), corrupt)
}

/// The head that draining goes up to: the cached one, or the current one where
/// the drain has caught up with that.
pub open spec fn head_seen(ring: RingState) -> u64 {
    if ring.tail == ring.head_cache {
        ring.head
    } else {
        ring.head_cache
    }
}

/// Whether there is anything to process in a ring.
pub open spec fn has_work(ring: RingState) -> bool {
    ring.tail != head_seen(ring)
}

/// What one pass over a ring walks over.
pub open spec fn pass_over(ring: RingState) -> crate::ring::Walk {
    crate::ring::walk(ring.data, ring.tail as int, head_seen(ring) as int)
}

/// Whether every record that the next pass meets can be decoded.
pub open spec fn decodable(ring: RingState) -> bool {
    forall|i: int|
        0 <= i < pass_over(ring).records.len() ==> crate::decode::fields_of(
            #[trigger] pass_over(ring).records[i],
            ring.strings,
        ).complete()
}

/// What a pass leaves of a ring: the space of what it walked over is free again.
pub open spec fn after_pass(ring: RingState) -> RingState {
    if has_work(ring) {
        RingState { tail: pass_over(ring).end as u64, head_cache: head_seen(ring), ..ring }
    } else {
        ring
    }
}

/// The level byte of a framed record.
fn record_level(record: &[u8], Ghost(table): Ghost<Seq<Seq<u8>>>) -> (level: Level)
    requires
        record@.len() >= HEADER_SIZE,
    ensures
        level == crate::decode::fields_of(record@, table).level,
{
    proof {
        let s = record@.skip(4);
        reveal(crate::decode::fields_of);
        reveal_with_fuel(crate::le::le_value, 2);
        assert(s.take(1)[0] == record@[4]);
        assert(s.take(1).skip(1) =~= Seq::<u8>::empty());
    }
    match Level::from_u8(record[4]) {
        Some(level) => level,
        None => Level::Error,
    }
}

/// What the drain does at a position of the ring.
enum Step {
    /// Nothing more is published in this ring.
    Stop,
    /// The frame cannot be trusted.
    Resync { version: u8, rectype: u8, size: u16 },
    /// Filler: go on at the position.
    Skip(u64),
    /// A record of `len` bytes at `offset`: deliver it and go on at `next`.
    Record { offset: usize, len: usize, next: u64 },
}

/// Whether `step` is what draining from `pos` to `head` starts with.
spec fn starts(data: Seq<u8>, pos: int, head: int, step: Step) -> bool {
    let here = crate::ring::walk(data, pos, head);
    match step {
        Step::Stop => here == (crate::ring::Walk {
            records: Seq::empty(),
            end: pos,
            corrupt: None,
        }),
        Step::Resync { version, rectype, size } => here == (crate::ring::Walk {
            records: Seq::empty(),
            end: head,
            corrupt: Some((version, rectype, size)),
        }),
        Step::Skip(next) => pos < next <= pos + 0x1_0000 && here == crate::ring::walk(
            data,
            next as int,
            head,
        ),
        Step::Record { offset, len, next } => {
            let rest = crate::ring::walk(data, next as int, head);
            &&& pos < next <= pos + 0x1_0000
            &&& offset + len <= data.len()
            &&& HEADER_SIZE <= len
            &&& here == (crate::ring::Walk {
                records: seq![data.subrange(offset as int, offset + len)] + rest.records,
                end: rest.end,
                corrupt: rest.corrupt,
            })
        },
    }
}

/// Reads the frame at `pos` and decides what to do there.
fn next_step(data: &[u8], pos: u64, head: u64) -> (step: Step)
    requires
        data@.len() > 0,
        pos < head <= MAX_HEAD,
    ensures
        starts(data@, pos as int, head as int, step),
{
    let cap: usize = data.len();
    let offset: usize = (pos % (cap as u64)) as usize;
    let bytes: &[u8] = slice_subrange(data, offset, cap);
    assert(bytes@ =~= crate::ring::bytes_at(data@, pos as int));
    let mut c = Cursor::new(bytes);
    let version: u8 = c.read_u8();
    let rectype: u8 = c.read_u8();
    let size: u16 = c.read_u16();
    assert((version, rectype, size) == crate::ring::frame_prefix(bytes@));
    if size == 0 {
        return Step::Stop;
    }
    // Do not trust the size to slice or to advance the tail unless the frame is
    // one that the producer writes.
    if version != VERSION || (rectype != LOG_RECORD && rectype != END_OF_BUFFER) || (size as usize)
        < HEADER_SIZE || (size as usize) > bytes.len() {
        return Step::Resync { version, rectype, size };
    }
    let next: u64 = pos + align_up(size as u64, SLOT_SIZE as u64);
    if rectype == END_OF_BUFFER {
        return Step::Skip(next);
    }
    assert(bytes@.take(size as int) =~= data@.subrange(offset as int, offset + size));
    Step::Record { offset, len: size as usize, next }
}

/// Offers the line of one record to the sink. The ghost result is the turn.
fn deliver<S: LogSink, C: Fn(u64) -> u64, F: Fn(FloatValue, FloatStyle) -> String>(
    record: &[u8],
    strings: &StrTable,
    sink: &mut Tap<S>,
    timezone_offset: i32,
    layout: &Layout,
    clock: &C,
    float_text: &F,
    buf: &mut Vec<u8>,
    notices: &mut Vec<Notice>,
) -> (t: Ghost<Turn<S>>)
    requires
        record@.len() >= HEADER_SIZE,
        timezone_offset != i32::MIN,
        layout.valid(),
        crate::decode::fields_of(record@, strings@).complete(),
        forall|tick: u64| call_requires(clock, (tick,)),
        forall|v: FloatValue, s: FloatStyle| call_requires(float_text, (v, s)),
    ensures
        turn_of(t@, record@, strings@, timezone_offset, *layout, clock, float_text),
        t@.before == old(sink).held(),
        t@.after == final(sink).held(),
        final(sink).turns() == old(sink).turns().push(t@),
        final(notices)@ == match t@.heard.reply {
            Some(Err(e)) => old(notices)@.push(Notice::SinkFailed(e)),
            _ => old(notices)@,
        },
{
    let ghost fields = crate::decode::fields_of(record@, strings@);
    let level: Level = record_level(record, Ghost(strings@));
    buf.clear();
    let ghost blank = buf@;
    format_record(record, strings, timezone_offset, layout, clock, float_text, buf);
    proof {
        let line = choose|line: Seq<u8>|
            buf@ == blank + line && #[trigger] crate::decode::is_line(
                line,
                fields,
                timezone_offset,
                *layout,
                clock,
                float_text,
            );
        assert(buf@ =~= line);
        if crate::format::placeholders(fields.fmt) is Ok {
            crate::strings::table_holds_text(strings);
            crate::decode::line_is_text(
                line,
                record@,
                strings@,
                timezone_offset,
                *layout,
                clock,
                float_text,
            );
        }
    }
    let r: Option<io::Result<()>> = sink.offer(buf.as_slice(), level);
    let ghost turn = sink.turns().last();
    match r {
        Some(Err(e)) => notices.push(Notice::SinkFailed(e)),
        _ => {},
    }
    Ghost(turn)
}

/// One more record and its turn.
proof fn turns_push<S: LogSink, C: Fn(u64) -> u64, F: Fn(FloatValue, FloatStyle) -> String>(
    new: Seq<Turn<S>>,
    records: Seq<Seq<u8>>,
    t: Turn<S>,
    record: Seq<u8>,
    table: Seq<Seq<u8>>,
    timezone_offset: i32,
    layout: Layout,
    clock: &C,
    float_text: &F,
)
    requires
        turns_of(new, records, table, timezone_offset, layout, clock, float_text),
        turn_of(t, record, table, timezone_offset, layout, clock, float_text),
    ensures
        turns_of(
            new.push(t),
            records.push(record),
            table,
            timezone_offset,
            layout,
            clock,
            float_text,
        ),
{
}

/// One more turn, and its notice where the sink replied an error.
proof fn notices_push<S: LogSink>(first: S, new: Seq<Turn<S>>, t: Turn<S>)
    requires
        crate::sink::tap::leads(first, new, t.before),
    ensures
        crate::sink::tap::leads(first, new.push(t), t.after),
        notices_in(new.push(t), None) == match t.heard.reply {
            Some(Err(e)) => notices_in(new, None).push(Notice::SinkFailed(e)),
            _ => notices_in(new, None),
        },
{
    crate::sink::tap::leads_push(first, new, t);
    if let Some(Err(e)) = t.heard.reply {
        assert(notices_in(new.push(t), None) =~= notices_in(new, None).push(Notice::SinkFailed(e)));
    }
}

/// Whether `whole` is `done` and then what draining from `pos` on gives.
spec fn splits(
    whole: crate::ring::Walk,
    done: Seq<Seq<u8>>,
    data: Seq<u8>,
    pos: int,
    head: int,
) -> bool {
    let rest = crate::ring::walk(data, pos, head);
    whole == (crate::ring::Walk {
        records: done + rest.records,
        end: rest.end,
        corrupt: rest.corrupt,
    })
}

/// Drains one ring: hands every record up to the head to `sink` and frees its
/// space. Returns whether there was anything to process. What goes wrong is
/// appended to `notices`.
pub fn drain_ring<
    S: LogSink,
    C: Fn(u64) -> u64,
    F: Fn(FloatValue, FloatStyle) -> String,
>(
    ring: &mut RingBuffer,
    sink: &mut Tap<S>,
    timezone_offset: i32,
    layout: &Layout,
    clock: &C,
    float_text: &F,
    buf: &mut Vec<u8>,
    notices: &mut Vec<Notice>,
) -> (worked: bool)
    requires
        old(ring).wf(),
        timezone_offset != i32::MIN,
        layout.valid(),
        decodable(old(ring)@),
        forall|tick: u64| call_requires(clock, (tick,)),
        forall|v: FloatValue, s: FloatStyle| call_requires(float_text, (v, s)),
    ensures
        worked == has_work(old(ring)@),
        final(ring)@ == after_pass(old(ring)@),
        final(ring).wf(),
        exists|new: Seq<Turn<S>>|
            #![trigger old(sink).turns() + new]
            final(sink).turns() == old(sink).turns() + new && crate::sink::tap::leads(
                old(sink).held(),
                new,
                final(sink).held(),
            ) && turns_of(
                new,
                pass_over(old(ring)@).records,
                old(ring).strings@,
                timezone_offset,
                *layout,
                clock,
                float_text,
            ) && final(notices)@ == old(notices)@ + notices_in(
                new,
                pass_over(old(ring)@).corrupt,
            ),
{
    let ghost mut new: Seq<Turn<S>> = Seq::empty();
    proof {
        assert(sink.turns() =~= old(sink).turns() + new);
        assert(crate::sink::tap::heard_in(new) =~= Seq::<Heard>::empty());
        assert(notices_in(new, None) =~= Seq::<Notice>::empty());
        assert(notices@ =~= old(notices)@ + notices_in(new, None));
    }
    let mut tail: u64 = ring.tail;
    let mut head_cache: u64 = ring.head_cache;
    // Look at the head only when the cache says we have caught up.
    if tail == head_cache {
        head_cache = ring.head;
        if tail == head_cache {
            assert(turns_of(
                new,
                pass_over(old(ring)@).records,
                old(ring).strings@,
                timezone_offset,
                *layout,
                clock,
                float_text,
            ));
            return false;
        }
    }
    let ghost before: RingBuffer = *ring;
    let ghost whole = pass_over(before@);
    let ghost head: int = head_cache as int;
    let ghost mut done: Seq<Seq<u8>> = Seq::empty();
    let ghost mut corrupt: Option<(u8, u8, u16)> = None;
    assert(done + whole.records =~= whole.records);
    let mut running: bool = true;
    while running && tail < head_cache
        invariant
            *ring == before,
            before == *old(ring),
            before.wf(),
            head == head_cache == head_seen(before@),
            head <= MAX_HEAD,
            tail <= MAX_HEAD + 0x1_0000,
            whole == pass_over(before@),
            running ==> corrupt is None && splits(whole, done, before.data@, tail as int, head),
            !running ==> whole.records == done && whole.end == tail && whole.corrupt == corrupt,
            timezone_offset != i32::MIN,
            layout.valid(),
            decodable(before@),
            forall|tick: u64| call_requires(clock, (tick,)),
            forall|v: FloatValue, s: FloatStyle| call_requires(float_text, (v, s)),
            sink.turns() == old(sink).turns() + new,
            crate::sink::tap::leads(old(sink).held(), new, sink.held()),
            notices@ == old(notices)@ + notices_in(new, corrupt),
            turns_of(
                new,
                done,
                before.strings@,
                timezone_offset,
                *layout,
                clock,
                float_text,
            ),
        decreases
                (if running {
                    1int
                } else {
                    0int
                }),
                (if tail < head_cache {
                    head_cache - tail
                } else {
                    0int
                }),
    {
        let ghost here = crate::ring::walk(before.data@, tail as int, head);
        match next_step(ring.data.as_slice(), tail, head_cache) {
            Step::Stop => {
                running = false;
                assert(done + here.records =~= done);
            },
            Step::Resync { version, rectype, size } => {
                notices.push(Notice::Corrupt { version, rectype, size });
                tail = head_cache;
                running = false;
                proof {
                    corrupt = Some((version, rectype, size));
                    assert(done + here.records =~= done);
                    assert(notices@ =~= old(notices)@ + notices_in(new, corrupt));
                }
            },
            Step::Skip(next) => {
                tail = next;
            },
            Step::Record { offset, len, next } => {
                let data: &[u8] = ring.data.as_slice();
                assert(offset + len <= data.len());
                let record: &[u8] = slice_subrange(data, offset, offset + len);
                proof {
                    assert(here.records[0] == record@);
                    assert(whole.records[done.len() as int] == record@);
                }
                let Ghost(t) = deliver(
                    record,
                    &ring.strings,
                    sink,
                    timezone_offset,
                    layout,
                    clock,
                    float_text,
                    buf,
                    notices,
                );
                tail = next;
                proof {
                    let rest = crate::ring::walk(before.data@, next as int, head);
                    assert(done + (seq![record@] + rest.records) =~= done.push(record@)
                        + rest.records);
                    notices_push(old(sink).held(), new, t);
                    assert(notices@ =~= old(notices)@ + notices_in(new.push(t), None));
                    turns_push(
                        new,
                        done,
                        t,
                        record@,
                        before.strings@,
                        timezone_offset,
                        *layout,
                        clock,
                        float_text,
                    );
                    assert(sink.turns() =~= old(sink).turns() + new.push(t));
                    new = new.push(t);
                    done = done.push(record@);
                }
            },
        }
    }
    proof {
        if running {
            let rest = crate::ring::walk(before.data@, tail as int, head);
            assert(done + rest.records =~= done);
        }
    }
    ring.tail = tail;
    ring.head_cache = head_cache;
    true
}

// ---- The drain over all rings -----------------------------------------------

/// A ring and the number that tells it from the others.
pub struct RingEntry {
    pub id: u64,
    pub ring: RingBuffer,
}

/// What a ring entry holds.
pub struct EntryState {
    pub id: u64,
    pub ring: RingState,
}

impl View for RingEntry {
    type V = EntryState;

    open spec fn view(&self) -> EntryState {
        EntryState { id: self.id, ring: self.ring@ }
    }
}

/// What a list of rings holds.
pub open spec fn states(entries: Seq<RingEntry>) -> Seq<EntryState> {
    entries.map_values(|e: RingEntry| e@)
}

/// Sequences one after the other.
pub open spec fn joined<A>(parts: Seq<Seq<A>>) -> Seq<A>
    decreases parts.len(),
{
    if parts.len() == 0 {
        Seq::empty()
    } else {
        joined(parts.drop_last()) + parts.last()
    }
}

/// Whether every ring is well formed and the next pass over it can decode what
/// it meets.
pub open spec fn all_ready(entries: Seq<EntryState>) -> bool {
    forall|i: int|
        0 <= i < entries.len() ==> (#[trigger] entries[i]).ring.wf() && decodable(entries[i].ring)
}

/// Whether there is anything to process in any ring.
pub open spec fn any_work(entries: Seq<EntryState>) -> bool {
    exists|i: int| 0 <= i < entries.len() && has_work((#[trigger] entries[i]).ring)
}

/// Whether `parts` are the turns and `told` the notices of one pass over
/// each of `entries`, in order.
pub open spec fn passes_of<S: LogSink, C: Fn(u64) -> u64, F: Fn(FloatValue, FloatStyle) -> String>(
    parts: Seq<Seq<Turn<S>>>,
    told: Seq<Seq<Notice>>,
    entries: Seq<EntryState>,
    timezone_offset: i32,
    layout: Layout,
    clock: &C,
    float_text: &F,
) -> bool {
    &&& parts.len() == entries.len()
    &&& told.len() == entries.len()
    &&& forall|i: int|
        0 <= i < entries.len() ==> #[trigger] pass_of(
            parts[i],
            told[i],
            entries[i].ring,
            timezone_offset,
            layout,
            clock,
            float_text,
        )
}

/// Whether `new` are the turns and `told` the notices of one pass over
/// `ring`.
pub open spec fn pass_of<S: LogSink, C: Fn(u64) -> u64, F: Fn(FloatValue, FloatStyle) -> String>(
    new: Seq<Turn<S>>,
    told: Seq<Notice>,
    ring: RingState,
    timezone_offset: i32,
    layout: Layout,
    clock: &C,
    float_text: &F,
) -> bool {
    &&& turns_of(
        new,
        pass_over(ring).records,
        ring.strings,
        timezone_offset,
        layout,
        clock,
        float_text,
    )
    &&& told == notices_in(new, pass_over(ring).corrupt)
}

/// The drain state: the sink, formatting configuration, and the drain's private
/// list of ring buffers.
pub struct Drain<S> {
    pub sink: Tap<S>,
    pub timezone_offset: i32,
    pub layout: Layout,
    pub rings: Vec<RingEntry>,
}

impl<S: LogSink> Drain<S> {
    /// Creates a drain without rings.
    pub fn new(sink: S, timezone_offset: i32, metadata: LogMetadata) -> (d: Drain<S>)
        ensures
            d.sink.held() == sink,
            d.sink.turns() == Seq::<Turn<S>>::empty(),
            d.timezone_offset == timezone_offset,
            d.layout == Layout::Fields(metadata),
            d.rings@.len() == 0,
    {
        Drain { sink: Tap::new(sink), timezone_offset, layout: Layout::Fields(metadata), rings: Vec::new() }
    }

    /// Creates a drain without rings whose lines are laid out by `layout`.
    pub fn with_layout(sink: S, timezone_offset: i32, layout: Layout) -> (d: Drain<S>)
        ensures
            d.sink.held() == sink,
            d.sink.turns() == Seq::<Turn<S>>::empty(),
            d.timezone_offset == timezone_offset,
            d.layout == layout,
            d.rings@.len() == 0,
    {
        Drain { sink: Tap::new(sink), timezone_offset, layout, rings: Vec::new() }
    }

    /// Drains every ring once, handing over all records published since the
    /// last pass. Returns whether any ring had anything to process.
    pub fn poll_once<C: Fn(u64) -> u64, F: Fn(FloatValue, FloatStyle) -> String>(
        &mut self,
        clock: &C,
        float_text: &F,
        buf: &mut Vec<u8>,
        notices: &mut Vec<Notice>,
    ) -> (had_work: bool)
        requires
            old(self).timezone_offset != i32::MIN,
            old(self).layout.valid(),
            all_ready(states(old(self).rings@)),
            forall|tick: u64| call_requires(clock, (tick,)),
            forall|v: FloatValue, s: FloatStyle| call_requires(float_text, (v, s)),
        ensures
            had_work == any_work(states(old(self).rings@)),
            states(final(self).rings@) == states(old(self).rings@).map_values(
                |e: EntryState| EntryState { id: e.id, ring: after_pass(e.ring) },
            ),
            final(self).timezone_offset == old(self).timezone_offset,
            final(self).layout == old(self).layout,
            exists|parts: Seq<Seq<Turn<S>>>, told: Seq<Seq<Notice>>|
                #![trigger joined(parts), joined(told)]
                final(self).sink.turns() == old(self).sink.turns() + joined(parts)
                    && crate::sink::tap::leads(
                    old(self).sink.held(),
                    joined(parts),
                    final(self).sink.held(),
                ) && final(notices)@ == old(notices)@ + joined(told) && passes_of(
                    parts,
                    told,
                    states(old(self).rings@),
                    old(self).timezone_offset,
                    old(self).layout,
                    clock,
                    float_text,
                ),
    {
        let ghost before = states(self.rings@);
        let ghost mut parts: Seq<Seq<Turn<S>>> = Seq::empty();
        let ghost mut told: Seq<Seq<Notice>> = Seq::empty();
        let mut had_work: bool = false;
        let mut i: usize = 0;
        proof {
            assert(self.sink.turns() =~= old(self).sink.turns() + joined(parts));
            assert(notices@ =~= old(notices)@ + joined(told));
        }
        while i < self.rings.len()
            invariant
                i <= self.rings@.len(),
                before == states(old(self).rings@),
                before.len() == self.rings@.len(),
                self.timezone_offset == old(self).timezone_offset,
                self.layout == old(self).layout,
                self.timezone_offset != i32::MIN,
                self.layout.valid(),
                all_ready(before),
                forall|tick: u64| call_requires(clock, (tick,)),
                forall|v: FloatValue, s: FloatStyle| call_requires(float_text, (v, s)),
                forall|j: int| i <= j < before.len() ==> (#[trigger] self.rings@[j])@ == before[j],
                forall|j: int|
                    0 <= j < i ==> (#[trigger] self.rings@[j])@ == (EntryState {
                        id: before[j].id,
                        ring: after_pass(before[j].ring),
                    }),
                had_work == exists|j: int| 0 <= j < i && has_work((#[trigger] before[j]).ring),
                parts.len() == i,
                told.len() == i,
                forall|j: int|
                    0 <= j < i ==> #[trigger] pass_of(
                        parts[j],
                        told[j],
                        before[j].ring,
                        self.timezone_offset,
                        self.layout,
                        clock,
                        float_text,
                    ),
                self.sink.turns() == old(self).sink.turns() + joined(parts),
                crate::sink::tap::leads(old(self).sink.held(), joined(parts), self.sink.held()),
                notices@ == old(notices)@ + joined(told),
            decreases before.len() - i,
        {
            let ghost handed = self.sink.turns();
            let ghost state = self.sink.held();
            let ghost noticed = notices@;
            assert(self.rings@[i as int]@ == before[i as int]);
            let worked: bool = drain_ring(
                &mut self.rings[i].ring,
                &mut self.sink,
                self.timezone_offset,
                &self.layout,
                clock,
                float_text,
                buf,
                notices,
            );
            if worked {
                had_work = true;
            }
            proof {
                let (new, more) = choose|new: Seq<Turn<S>>, more: Seq<Notice>|
                    #![trigger handed + new, noticed + more]
                    self.sink.turns() == handed + new && crate::sink::tap::leads(
                        state,
                        new,
                        self.sink.held(),
                    ) && notices@ == noticed + more && pass_of(
                        new,
                        more,
                        before[i as int].ring,
                        self.timezone_offset,
                        self.layout,
                        clock,
                        float_text,
                    );
                assert(parts.push(new).drop_last() =~= parts);
                assert(told.push(more).drop_last() =~= told);
                crate::sink::tap::leads_on(
                    old(self).sink.held(),
                    joined(parts),
                    state,
                    new,
                    self.sink.held(),
                );
                assert(self.sink.turns() =~= old(self).sink.turns() + joined(
                    parts.push(new),
                ));
                assert(notices@ =~= old(notices)@ + joined(told.push(more)));
                parts = parts.push(new);
                told = told.push(more);
            }
            i = i + 1;
        }
        proof {
            assert(states(self.rings@) =~= before.map_values(
                |e: EntryState| EntryState { id: e.id, ring: after_pass(e.ring) },
            ));
            assert(passes_of(
                parts,
                told,
                before,
                self.timezone_offset,
                self.layout,
                clock,
                float_text,
            ));
        }
        had_work
    }
}

// ---- Following the registry -------------------------------------------------

/// The first ring with the number `id` from position `from` on, or the length.
pub open spec fn position(entries: Seq<EntryState>, id: u64, from: int) -> int
    decreases entries.len() - from,
{
    if 0 <= from < entries.len() && entries[from].id != id {
        position(entries, id, from + 1)
    } else {
        from
    }
}

/// `entries` brought up to date with one registered ring: its copy refreshed
/// where there is one, otherwise a copy appended.
pub open spec fn adopted_one(entries: Seq<EntryState>, e: EntryState) -> Seq<EntryState> {
    let j = position(entries, e.id, 0);
    if j < entries.len() {
        entries.update(
            j,
            EntryState { id: e.id, ring: entries[j].ring.refreshed(e.ring) },
        )
    } else {
        entries.push(e)
    }
}

/// `entries` brought up to date with all registered rings.
pub open spec fn adopted(entries: Seq<EntryState>, registry: Seq<EntryState>) -> Seq<EntryState>
    decreases registry.len(),
{
    if registry.len() == 0 {
        entries
    } else {
        adopted_one(adopted(entries, registry.drop_last()), registry.last())
    }
}

/// `entries` with the one at `i` replaced by the last.
pub open spec fn swap_removed(entries: Seq<EntryState>, i: int) -> Seq<EntryState> {
    entries.update(i, entries.last()).drop_last()
}

/// The rings that stay when the dead ones from position `i` on are dropped.
pub open spec fn kept(entries: Seq<EntryState>, i: int) -> Seq<EntryState>
    decreases entries.len() - i,
{
    if i < 0 || i >= entries.len() {
        entries
    } else if entries[i].ring.live {
        kept(entries, i + 1)
    } else {
        kept(swap_removed(entries, i), i)
    }
}

/// The dead rings from position `i` on, in the order they are dropped.
pub open spec fn dead(entries: Seq<EntryState>, i: int) -> Seq<EntryState>
    decreases entries.len() - i,
{
    if i < 0 || i >= entries.len() {
        Seq::empty()
    } else if entries[i].ring.live {
        dead(entries, i + 1)
    } else {
        seq![entries[i]] + dead(swap_removed(entries, i), i)
    }
}

/// The registered rings whose producers have not exited.
pub open spec fn living(registry: Seq<EntryState>) -> Seq<EntryState> {
    registry.filter(|e: EntryState| e.ring.live)
}

/// Drops the rings whose producers have exited from the registry.
pub fn forget_dead(registry: &mut Vec<RingEntry>)
    ensures
        states(final(registry)@) == living(states(old(registry)@)),
{
    let ghost before = states(registry@);
    let ghost live = |e: EntryState| e.ring.live;
    let mut i: usize = 0;
    let ghost mut seen: int = 0;
    proof {
        assert(before.skip(0) =~= before);
        assert(before.take(0) =~= Seq::<EntryState>::empty());
        reveal(Seq::filter);
    }
    while i < registry.len()
        invariant
            i <= registry@.len(),
            before == states(old(registry)@),
            0 <= seen <= before.len(),
            registry@.len() - i == before.len() - seen,
            live == |e: EntryState| e.ring.live,
            states(registry@).take(i as int) == before.take(seen).filter(live),
            states(registry@).skip(i as int) == before.skip(seen),
        decreases registry@.len() - i,
    {
        let ghost now = states(registry@);
        proof {
            assert(before.take(seen + 1).drop_last() =~= before.take(seen));
            assert(before[seen] == before.skip(seen)[0]);
            assert(now[i as int] == now.skip(i as int)[0]);
            assert(before.skip(seen).skip(1) =~= before.skip(seen + 1));
            reveal(Seq::filter);
        }
        if registry[i].ring.live {
            i = i + 1;
            proof {
                assert(now.take(i as int) =~= now.take(i - 1).push(now[i - 1]));
                assert(now.skip(i as int) =~= now.skip(i - 1).skip(1));
            }
        } else {
            let _ = registry.remove(i);
            proof {
                let next = states(registry@);
                assert(next.take(i as int) =~= now.take(i as int));
                assert(next.skip(i as int) =~= now.skip(i as int).skip(1));
            }
        }
        proof {
            seen = seen + 1;
        }
    }
    proof {
        assert(before.take(seen) =~= before);
        assert(states(registry@).take(i as int) =~= states(registry@));
    }
}

impl<S: LogSink> Drain<S> {
    /// The position of the ring with the number `id`, or the length.
    fn find(&self, id: u64) -> (j: usize)
        ensures
            j == position(states(self.rings@), id, 0),
            j <= self.rings@.len(),
    {
        let mut j: usize = 0;
        while j < self.rings.len() && self.rings[j].id != id
            invariant
                j <= self.rings@.len(),
                position(states(self.rings@), id, 0) == position(states(self.rings@), id, j as int),
            decreases self.rings@.len() - j,
        {
            j = j + 1;
        }
        j
    }

    /// Adds copies of the registered rings that are not tracked yet and brings
    /// the others up to date.
    pub fn adopt(&mut self, registry: &Vec<RingEntry>)
        ensures
            states(final(self).rings@) == adopted(states(old(self).rings@), states(registry@)),
            final(self).sink == old(self).sink,
            final(self).timezone_offset == old(self).timezone_offset,
            final(self).layout == old(self).layout,
    {
        let ghost before = states(self.rings@);
        let mut i: usize = 0;
        assert(states(registry@).take(0) =~= Seq::<EntryState>::empty());
        while i < registry.len()
            invariant
                i <= registry@.len(),
                before == states(old(self).rings@),
                states(self.rings@) == adopted(before, states(registry@).take(i as int)),
                self.sink == old(self).sink,
                self.timezone_offset == old(self).timezone_offset,
                self.layout == old(self).layout,
            decreases registry@.len() - i,
        {
            let ghost now = states(self.rings@);
            let ghost e = registry@[i as int]@;
            proof {
                let next = states(registry@).take(i + 1);
                assert(next.drop_last() =~= states(registry@).take(i as int));
                assert(next.last() == e);
            }
            let j: usize = self.find(registry[i].id);
            if j < self.rings.len() {
                self.rings[j].ring.refresh(&registry[i].ring);
            } else {
                let copy = RingEntry { id: registry[i].id, ring: registry[i].ring.duplicate() };
                self.rings.push(copy);
            }
            proof {
                position_found(now, e.id, 0);
                assert(states(self.rings@) =~= adopted_one(now, e));
            }
            i = i + 1;
        }
        assert(states(registry@).take(i as int) =~= states(registry@));
    }
}

/// What is found at a ring's position.
pub proof fn position_found(entries: Seq<EntryState>, id: u64, from: int)
    requires
        0 <= from <= entries.len(),
    ensures
        from <= position(entries, id, from) <= entries.len(),
        position(entries, id, from) < entries.len() ==> entries[position(entries, id, from)].id
            == id,
        forall|j: int| from <= j < position(entries, id, from) ==> #[trigger] entries[j].id != id,
    decreases entries.len() - from,
{
    if from < entries.len() && entries[from].id != id {
        position_found(entries, id, from + 1);
    }
}

/// Dropping a ring leaves the others ready.
proof fn dead_ready(entries: Seq<EntryState>, i: int)
    requires
        0 <= i < entries.len(),
        all_ready(entries),
    ensures
        all_ready(swap_removed(entries, i)),
{
    assert forall|j: int| 0 <= j < swap_removed(entries, i).len() implies (
    #[trigger] swap_removed(entries, i)[j]).ring.wf() && decodable(
        swap_removed(entries, i)[j].ring,
    ) by {
        if j == i {
            assert(swap_removed(entries, i)[j] == entries[entries.len() - 1]);
        } else {
            assert(swap_removed(entries, i)[j] == entries[j]);
        }
    }
}

impl<S: LogSink> Drain<S> {
    /// Gives each ring whose producer has exited one last pass before dropping
    /// it, so that every record it published is handed over.
    pub fn retire_dead<C: Fn(u64) -> u64, F: Fn(FloatValue, FloatStyle) -> String>(
        &mut self,
        clock: &C,
        float_text: &F,
        buf: &mut Vec<u8>,
        notices: &mut Vec<Notice>,
    )
        requires
            old(self).timezone_offset != i32::MIN,
            old(self).layout.valid(),
            all_ready(states(old(self).rings@)),
            forall|tick: u64| call_requires(clock, (tick,)),
            forall|v: FloatValue, s: FloatStyle| call_requires(float_text, (v, s)),
        ensures
            states(final(self).rings@) == kept(states(old(self).rings@), 0),
            final(self).timezone_offset == old(self).timezone_offset,
            final(self).layout == old(self).layout,
            exists|parts: Seq<Seq<Turn<S>>>, told: Seq<Seq<Notice>>|
                #![trigger joined(parts), joined(told)]
                final(self).sink.turns() == old(self).sink.turns() + joined(parts)
                    && crate::sink::tap::leads(
                    old(self).sink.held(),
                    joined(parts),
                    final(self).sink.held(),
                ) && final(notices)@ == old(notices)@ + joined(told) && passes_of(
                    parts,
                    told,
                    dead(states(old(self).rings@), 0),
                    old(self).timezone_offset,
                    old(self).layout,
                    clock,
                    float_text,
                ),
    {
        let ghost before = states(self.rings@);
        let ghost mut gone: Seq<EntryState> = Seq::empty();
        let ghost mut parts: Seq<Seq<Turn<S>>> = Seq::empty();
        let ghost mut told: Seq<Seq<Notice>> = Seq::empty();
        let mut i: usize = 0;
        proof {
            assert(self.sink.turns() =~= old(self).sink.turns() + joined(parts));
            assert(notices@ =~= old(notices)@ + joined(told));
            assert(gone + dead(before, 0) =~= dead(before, 0));
        }
        while i < self.rings.len()
            invariant
                i <= self.rings@.len(),
                before == states(old(self).rings@),
                self.timezone_offset == old(self).timezone_offset,
                self.layout == old(self).layout,
                self.timezone_offset != i32::MIN,
                self.layout.valid(),
                all_ready(states(self.rings@)),
                forall|tick: u64| call_requires(clock, (tick,)),
                forall|v: FloatValue, s: FloatStyle| call_requires(float_text, (v, s)),
                kept(before, 0) == kept(states(self.rings@), i as int),
                dead(before, 0) == gone + dead(states(self.rings@), i as int),
                passes_of(
                    parts,
                    told,
                    gone,
                    self.timezone_offset,
                    self.layout,
                    clock,
                    float_text,
                ),
                self.sink.turns() == old(self).sink.turns() + joined(parts),
                crate::sink::tap::leads(old(self).sink.held(), joined(parts), self.sink.held()),
                notices@ == old(notices)@ + joined(told),
            decreases self.rings@.len() - i,
        {
            let ghost now = states(self.rings@);
            let ghost e = now[i as int];
            if self.rings[i].ring.live {
                i = i + 1;
            } else {
                let ghost handed = self.sink.turns();
                let ghost state = self.sink.held();
                let ghost noticed = notices@;
                let mut entry: RingEntry = self.rings.swap_remove(i);
                proof {
                    assert(entry@ == e);
                    assert(states(self.rings@) =~= swap_removed(now, i as int));
                    dead_ready(now, i as int);
                }
                let _ = drain_ring(
                    &mut entry.ring,
                    &mut self.sink,
                    self.timezone_offset,
                    &self.layout,
                    clock,
                    float_text,
                    buf,
                    notices,
                );
                proof {
                    let (new, more) = choose|new: Seq<Turn<S>>, more: Seq<Notice>|
                        #![trigger handed + new, noticed + more]
                        self.sink.turns() == handed + new && crate::sink::tap::leads(
                            state,
                            new,
                            self.sink.held(),
                        ) && notices@ == noticed + more && pass_of(
                            new,
                            more,
                            e.ring,
                            self.timezone_offset,
                            self.layout,
                            clock,
                            float_text,
                        );
                    assert(parts.push(new).drop_last() =~= parts);
                    assert(told.push(more).drop_last() =~= told);
                    crate::sink::tap::leads_on(
                        old(self).sink.held(),
                        joined(parts),
                        state,
                        new,
                        self.sink.held(),
                    );
                    assert(self.sink.turns() =~= old(self).sink.turns() + joined(
                        parts.push(new),
                    ));
                    assert(notices@ =~= old(notices)@ + joined(told.push(more)));
                    assert(gone + (seq![e] + dead(states(self.rings@), i as int)) =~= gone.push(e)
                        + dead(states(self.rings@), i as int));
                    passes_push(
                        parts,
                        told,
                        gone,
                        new,
                        more,
                        e,
                        self.timezone_offset,
                        self.layout,
                        clock,
                        float_text,
                    );
                    parts = parts.push(new);
                    told = told.push(more);
                    gone = gone.push(e);
                }
            }
        }
        assert(gone + dead(states(self.rings@), i as int) =~= gone);
    }

    /// Syncs the drain's rings with the registry: adds newly registered rings,
    /// brings the others up to date, drops dead rings from the registry, and
    /// gives each one last pass before dropping it here.
    pub fn sync_rings<C: Fn(u64) -> u64, F: Fn(FloatValue, FloatStyle) -> String>(
        &mut self,
        registry: &mut Vec<RingEntry>,
        clock: &C,
        float_text: &F,
        buf: &mut Vec<u8>,
        notices: &mut Vec<Notice>,
    )
        requires
            old(self).timezone_offset != i32::MIN,
            old(self).layout.valid(),
            all_ready(adopted(states(old(self).rings@), states(old(registry)@))),
            forall|tick: u64| call_requires(clock, (tick,)),
            forall|v: FloatValue, s: FloatStyle| call_requires(float_text, (v, s)),
        ensures
            states(final(registry)@) == living(states(old(registry)@)),
            states(final(self).rings@) == kept(
                adopted(states(old(self).rings@), states(old(registry)@)),
                0,
            ),
            final(self).timezone_offset == old(self).timezone_offset,
            final(self).layout == old(self).layout,
            exists|parts: Seq<Seq<Turn<S>>>, told: Seq<Seq<Notice>>|
                #![trigger joined(parts), joined(told)]
                final(self).sink.turns() == old(self).sink.turns() + joined(parts)
                    && crate::sink::tap::leads(
                    old(self).sink.held(),
                    joined(parts),
                    final(self).sink.held(),
                ) && final(notices)@ == old(notices)@ + joined(told) && passes_of(
                    parts,
                    told,
                    dead(adopted(states(old(self).rings@), states(old(registry)@)), 0),
                    old(self).timezone_offset,
                    old(self).layout,
                    clock,
                    float_text,
                ),
    {
        self.adopt(registry);
        forget_dead(registry);
        self.retire_dead(clock, float_text, buf, notices);
    }

    /// Flushes the sink. Called when the drain goes idle and once more at
    /// shutdown.
    pub fn flush_sink(&mut self) -> (r: io::Result<()>)
        ensures
            final(self).rings == old(self).rings,
            final(self).timezone_offset == old(self).timezone_offset,
            final(self).layout == old(self).layout,
            final(self).sink.turns() == old(self).sink.turns(),
            exists|s: &mut S|
                #![trigger call_ensures(S::flush, (s,), r)]
                *s == old(self).sink.held() && *final(s) == final(self).sink.held() && call_ensures(
                    S::flush,
                    (s,),
                    r,
                ),
    {
        self.sink.flush()
    }
}

/// Dropping dead rings leaves the others ready.
proof fn kept_ready(entries: Seq<EntryState>, i: int)
    requires
        0 <= i <= entries.len(),
        all_ready(entries),
    ensures
        all_ready(kept(entries, i)),
    decreases entries.len() - i,
{
    if i < entries.len() {
        if entries[i].ring.live {
            kept_ready(entries, i + 1);
        } else {
            dead_ready(entries, i);
            kept_ready(swap_removed(entries, i), i);
        }
    }
}

/// Dropping dead rings leaves the others as they are.
pub proof fn kept_among(entries: Seq<EntryState>, i: int)
    requires
        0 <= i <= entries.len(),
    ensures
        forall|j: int|
            0 <= j < kept(entries, i).len() ==> entries.contains(#[trigger] kept(entries, i)[j]),
    decreases entries.len() - i,
{
    if i < entries.len() {
        if entries[i].ring.live {
            kept_among(entries, i + 1);
            assert(kept(entries, i) == kept(entries, i + 1));
        } else {
            let rest = swap_removed(entries, i);
            kept_among(rest, i);
            assert forall|j: int| 0 <= j < kept(rest, i).len() implies entries.contains(
                #[trigger] kept(rest, i)[j],
            ) by {
                let e = kept(rest, i)[j];
                let k = choose|k: int| 0 <= k < rest.len() && rest[k] == e;
                if k == i {
                    assert(entries[entries.len() - 1] == e);
                } else {
                    assert(entries[k] == e);
                }
            }
            assert(kept(entries, i) == kept(rest, i));
        }
    } else {
        assert forall|j: int| 0 <= j < kept(entries, i).len() implies entries.contains(
            #[trigger] kept(entries, i)[j],
        ) by {
            assert(entries[j] == kept(entries, i)[j]);
        }
    }
}

/// Sequences of sequences one after the other.
proof fn joined_on<A>(a: Seq<Seq<A>>, b: Seq<Seq<A>>)
    ensures
        joined(a + b) == joined(a) + joined(b),
    decreases b.len(),
{
    if b.len() == 0 {
        assert(a + b =~= a);
        assert(joined(a) + joined(b) =~= joined(a));
    } else {
        joined_on(a, b.drop_last());
        assert((a + b).drop_last() =~= a + b.drop_last());
        assert((a + b).last() == b.last());
        assert(joined(a) + joined(b) =~= joined(a) + joined(b.drop_last()) + b.last());
    }
}

/// Whether `new` are the turns and `told` the notices of one pass over each of
/// `entries`, in order.
pub open spec fn drained<S: LogSink, C: Fn(u64) -> u64, F: Fn(FloatValue, FloatStyle) -> String>(
    new: Seq<Turn<S>>,
    told: Seq<Notice>,
    entries: Seq<EntryState>,
    timezone_offset: i32,
    layout: Layout,
    clock: &C,
    float_text: &F,
) -> bool {
    exists|parts: Seq<Seq<Turn<S>>>, tolds: Seq<Seq<Notice>>|
        #![trigger joined(parts), joined(tolds)]
        new == joined(parts) && told == joined(tolds) && passes_of(
            parts,
            tolds,
            entries,
            timezone_offset,
            layout,
            clock,
            float_text,
        )
}

/// Passes after passes.
proof fn passes_on<S: LogSink, C: Fn(u64) -> u64, F: Fn(FloatValue, FloatStyle) -> String>(
    parts: Seq<Seq<Turn<S>>>,
    tolds: Seq<Seq<Notice>>,
    entries: Seq<EntryState>,
    parts2: Seq<Seq<Turn<S>>>,
    tolds2: Seq<Seq<Notice>>,
    entries2: Seq<EntryState>,
    timezone_offset: i32,
    layout: Layout,
    clock: &C,
    float_text: &F,
)
    requires
        passes_of(parts, tolds, entries, timezone_offset, layout, clock, float_text),
        passes_of(parts2, tolds2, entries2, timezone_offset, layout, clock, float_text),
    ensures
        drained(
            joined(parts) + joined(parts2),
            joined(tolds) + joined(tolds2),
            entries + entries2,
            timezone_offset,
            layout,
            clock,
            float_text,
        ),
{
    let p = parts + parts2;
    let t = tolds + tolds2;
    let es = entries + entries2;
    joined_on(parts, parts2);
    joined_on(tolds, tolds2);
    assert forall|i: int| 0 <= i < es.len() implies #[trigger] pass_of(
        p[i],
        t[i],
        es[i].ring,
        timezone_offset,
        layout,
        clock,
        float_text,
    ) by {
        if i < entries.len() {
            assert(pass_of(
                parts[i],
                tolds[i],
                entries[i].ring,
                timezone_offset,
                layout,
                clock,
                float_text,
            ));
        } else {
            let k = i - entries.len();
            assert(pass_of(
                parts2[k],
                tolds2[k],
                entries2[k].ring,
                timezone_offset,
                layout,
                clock,
                float_text,
            ));
        }
    }
    assert(passes_of(p, t, es, timezone_offset, layout, clock, float_text));
}

impl<S: LogSink> Drain<S> {
    /// The last pass before the drain exits: picks up any last records, also of
    /// rings whose producers have exited since the last sync, and then flushes
    /// the sink, so that nothing is left waiting or buffered. Returns what the
    /// flush gave.
    pub fn finish<C: Fn(u64) -> u64, F: Fn(FloatValue, FloatStyle) -> String>(
        &mut self,
        registry: &mut Vec<RingEntry>,
        clock: &C,
        float_text: &F,
        buf: &mut Vec<u8>,
        notices: &mut Vec<Notice>,
    ) -> (r: io::Result<()>)
        requires
            old(self).timezone_offset != i32::MIN,
            old(self).layout.valid(),
            all_ready(adopted(states(old(self).rings@), states(old(registry)@))),
            forall|tick: u64| call_requires(clock, (tick,)),
            forall|v: FloatValue, s: FloatStyle| call_requires(float_text, (v, s)),
        ensures
            states(final(registry)@) == living(states(old(registry)@)),
            states(final(self).rings@) == kept(
                adopted(states(old(self).rings@), states(old(registry)@)),
                0,
            ).map_values(|e: EntryState| EntryState { id: e.id, ring: after_pass(e.ring) }),
            final(self).timezone_offset == old(self).timezone_offset,
            final(self).layout == old(self).layout,
            // Nothing waits in any ring.
            crate::log::all_healthy(adopted(states(old(self).rings@), states(old(registry)@)))
                ==> forall|i: int|
                0 <= i < final(self).rings@.len() ==> crate::log::waiting(
                    (#[trigger] final(self).rings@[i]).ring@,
                ).len() == 0,
            // Every record was offered, and the flush came last.
            exists|new: Seq<Turn<S>>, told: Seq<Notice>, s: &mut S|
                #![trigger old(self).sink.turns() + new, old(notices)@ + told, call_ensures(
                    S::flush,
                    (s,),
                    r,
                )]
                final(self).sink.turns() == old(self).sink.turns() + new && final(notices)@ == old(
                    notices,
                )@ + told && crate::sink::tap::leads(old(self).sink.held(), new, *s) && *final(s)
                    == final(self).sink.held() && call_ensures(S::flush, (s,), r) && drained(
                    new,
                    told,
                    dead(adopted(states(old(self).rings@), states(old(registry)@)), 0) + kept(
                        adopted(states(old(self).rings@), states(old(registry)@)),
                        0,
                    ),
                    old(self).timezone_offset,
                    old(self).layout,
                    clock,
                    float_text,
                ),
    {
        let ghost entries = adopted(states(self.rings@), states(registry@));
        let ghost turns0 = self.sink.turns();
        let ghost held0 = self.sink.held();
        let ghost told0 = notices@;
        self.sync_rings(registry, clock, float_text, buf, notices);
        let ghost turns1 = self.sink.turns();
        let ghost held1 = self.sink.held();
        let ghost told1 = notices@;
        proof {
            kept_ready(entries, 0);
        }
        let _ = self.poll_once(clock, float_text, buf, notices);
        let ghost turns2 = self.sink.turns();
        let ghost held2 = self.sink.held();
        let ghost told2 = notices@;
        let r: io::Result<()> = self.flush_sink();
        proof {
            let (parts, tolds) = choose|parts: Seq<Seq<Turn<S>>>, tolds: Seq<Seq<Notice>>|
                #![trigger joined(parts), joined(tolds)]
                turns1 == turns0 + joined(parts) && crate::sink::tap::leads(
                    held0,
                    joined(parts),
                    held1,
                ) && told1 == told0 + joined(tolds) && passes_of(
                    parts,
                    tolds,
                    dead(entries, 0),
                    self.timezone_offset,
                    self.layout,
                    clock,
                    float_text,
                );
            let (parts2, tolds2) = choose|parts2: Seq<Seq<Turn<S>>>, tolds2: Seq<Seq<Notice>>|
                #![trigger joined(parts2), joined(tolds2)]
                turns2 == turns1 + joined(parts2) && crate::sink::tap::leads(
                    held1,
                    joined(parts2),
                    held2,
                ) && told2 == told1 + joined(tolds2) && passes_of(
                    parts2,
                    tolds2,
                    kept(entries, 0),
                    self.timezone_offset,
                    self.layout,
                    clock,
                    float_text,
                );
            let new = joined(parts) + joined(parts2);
            let told = joined(tolds) + joined(tolds2);
            crate::sink::tap::leads_on(held0, joined(parts), held1, joined(parts2), held2);
            passes_on(
                parts,
                tolds,
                dead(entries, 0),
                parts2,
                tolds2,
                kept(entries, 0),
                self.timezone_offset,
                self.layout,
                clock,
                float_text,
            );
            assert(self.sink.turns() =~= turns0 + new);
            assert(notices@ =~= told0 + told);
            if crate::log::all_healthy(entries) {
                kept_among(entries, 0);
                assert(states(self.rings@).len() == kept(entries, 0).len());
                assert forall|i: int| 0 <= i < self.rings@.len() implies crate::log::waiting(
                    (#[trigger] self.rings@[i]).ring@,
                ).len() == 0 by {
                    let e = kept(entries, 0)[i];
                    assert(states(self.rings@)[i].ring == after_pass(e.ring));
                    assert(entries.contains(e));
                    crate::log::healthy_ring_drains(e.ring);
                }
            }
        }
        r
    }
}

/// One more ring and the pass over it.
proof fn passes_push<S: LogSink, C: Fn(u64) -> u64, F: Fn(FloatValue, FloatStyle) -> String>(
    parts: Seq<Seq<Turn<S>>>,
    told: Seq<Seq<Notice>>,
    entries: Seq<EntryState>,
    new: Seq<Turn<S>>,
    more: Seq<Notice>,
    e: EntryState,
    timezone_offset: i32,
    layout: Layout,
    clock: &C,
    float_text: &F,
)
    requires
        passes_of(parts, told, entries, timezone_offset, layout, clock, float_text),
        pass_of(new, more, e.ring, timezone_offset, layout, clock, float_text),
    ensures
        passes_of(
            parts.push(new),
            told.push(more),
            entries.push(e),
            timezone_offset,
            layout,
            clock,
            float_text,
        ),
{
    let p = parts.push(new);
    let t = told.push(more);
    let es = entries.push(e);
    assert forall|i: int| 0 <= i < es.len() implies #[trigger] pass_of(
        p[i],
        t[i],
        es[i].ring,
        timezone_offset,
        layout,
        clock,
        float_text,
    ) by {
        if i < entries.len() {
            assert(pass_of(
                parts[i],
                told[i],
                entries[i].ring,
                timezone_offset,
                layout,
                clock,
                float_text,
            ));
        }
    }
}

// ---- Laws -------------------------------------------------------------------

proof fn swap_removed_multiset(entries: Seq<EntryState>, i: int)
    requires
        0 <= i < entries.len(),
    ensures
        swap_removed(entries, i).to_multiset().insert(entries[i]) == entries.to_multiset(),
{
    let last = entries.last();
    let swapped = entries.update(i, last);
    assert(swapped =~= swap_removed(entries, i).push(last));
    swap_removed(entries, i).to_multiset_ensures();
    entries.to_multiset_ensures();
    entries.drop_last().to_multiset_ensures();
    assert(entries =~= entries.drop_last().push(last));
    if i < entries.len() - 1 {
        vstd::seq_lib::to_multiset_update(entries.drop_last(), i, last);
        assert(swap_removed(entries, i) =~= entries.drop_last().update(i, last));
        assert(swap_removed(entries, i).to_multiset().insert(entries[i])
            =~= entries.to_multiset());
    } else {
        assert(swap_removed(entries, i) =~= entries.drop_last());
    }
}

/// Every ring is either kept or dropped after one last pass, exactly by whether
/// its producer is live.
pub proof fn retiring_partitions(entries: Seq<EntryState>)
    ensures
        forall|j: int|
            0 <= j < kept(entries, 0).len() ==> (#[trigger] kept(entries, 0)[j]).ring.live,
        forall|j: int|
            0 <= j < dead(entries, 0).len() ==> !(#[trigger] dead(entries, 0)[j]).ring.live,
        kept(entries, 0).to_multiset().add(dead(entries, 0).to_multiset())
            == entries.to_multiset(),
{
    retiring_partitions_from(entries, 0);
}

proof fn retiring_partitions_from(entries: Seq<EntryState>, i: int)
    requires
        0 <= i <= entries.len(),
        forall|j: int| 0 <= j < i ==> (#[trigger] entries[j]).ring.live,
    ensures
        forall|j: int|
            0 <= j < kept(entries, i).len() ==> (#[trigger] kept(entries, i)[j]).ring.live,
        forall|j: int|
            0 <= j < dead(entries, i).len() ==> !(#[trigger] dead(entries, i)[j]).ring.live,
        kept(entries, i).to_multiset().add(dead(entries, i).to_multiset())
            == entries.to_multiset(),
    decreases entries.len() - i,
{
    if i >= entries.len() {
        Seq::<EntryState>::empty().to_multiset_ensures();
        assert(dead(entries, i).to_multiset() =~= vstd::multiset::Multiset::empty());
        assert(kept(entries, i).to_multiset().add(dead(entries, i).to_multiset())
            =~= entries.to_multiset());
    } else if entries[i].ring.live {
        retiring_partitions_from(entries, i + 1);
    } else {
        let rest = swap_removed(entries, i);
        retiring_partitions_from(rest, i);
        swap_removed_multiset(entries, i);
        let d = dead(rest, i);
        vstd::seq_lib::lemma_multiset_commutative(seq![entries[i]], d);
        d.to_multiset_ensures();
        Seq::<EntryState>::empty().to_multiset_ensures();
        assert(seq![entries[i]] =~= Seq::empty().push(entries[i]));
        assert(kept(entries, i).to_multiset().add(dead(entries, i).to_multiset())
            =~= entries.to_multiset());
    }
}

/// Whether no two rings have the same number.
pub open spec fn distinct(entries: Seq<EntryState>) -> bool {
    forall|i: int, j: int|
        0 <= i < j < entries.len() ==> #[trigger] entries[i].id != #[trigger] entries[j].id
}

/// No ring is tracked twice, however often it is registered.
pub proof fn adopting_keeps_distinct(entries: Seq<EntryState>, registry: Seq<EntryState>)
    requires
        distinct(entries),
    ensures
        distinct(adopted(entries, registry)),
        forall|k: int|
            0 <= k < registry.len() ==> exists|j: int|
                0 <= j < adopted(entries, registry).len() && (#[trigger] adopted(
                    entries,
                    registry,
                )[j]).id == (#[trigger] registry[k]).id,
    decreases registry.len(),
{
    if registry.len() > 0 {
        let front = registry.drop_last();
        let e = registry.last();
        let now = adopted(entries, front);
        let next = adopted(entries, registry);
        adopting_keeps_distinct(entries, front);
        position_found(now, e.id, 0);
        let at = position(now, e.id, 0);
        assert(next[at].id == e.id);
        assert forall|k: int| 0 <= k < registry.len() implies exists|j: int|
            0 <= j < next.len() && (#[trigger] next[j]).id == (#[trigger] registry[k]).id by {
            if k < front.len() {
                assert(front[k] == registry[k]);
                let j = choose|j: int|
                    0 <= j < now.len() && (#[trigger] now[j]).id == front[k].id;
                assert(next[j].id == now[j].id);
            }
        }
    }
}

/// Whether a pass over `ring` may give its sink the turns `turns`, leave `left` of
/// the ring and report `worked`: what [`drain_ring`] promises of one pass.
pub open spec fn passed<S: LogSink, C: Fn(u64) -> u64, F: Fn(FloatValue, FloatStyle) -> String>(
    ring: RingState,
    turns: Seq<Turn<S>>,
    left: RingState,
    worked: bool,
    timezone_offset: i32,
    layout: Layout,
    clock: &C,
    float_text: &F,
) -> bool {
    &&& worked == has_work(ring)
    &&& left == after_pass(ring)
    &&& turns_of(
        turns,
        pass_over(ring).records,
        ring.strings,
        timezone_offset,
        layout,
        clock,
        float_text,
    )
}

/// What a sink replies neither stops the drain nor makes it try again. Where the
/// clock and the texts of floats are always answered alike, two sinks that report
/// the same levels get the same lines at the same levels from rings that hold the
/// same, whatever each of them refuses, and the two passes leave the same of the
/// rings and report alike whether there was work.
pub proof fn replies_change_nothing<
    S: LogSink,
    T: LogSink,
    C: Fn(u64) -> u64,
    F: Fn(FloatValue, FloatStyle) -> String,
>(
    ring: RingState,
    a: Seq<Turn<S>>,
    left_a: RingState,
    worked_a: bool,
    b: Seq<Turn<T>>,
    left_b: RingState,
    worked_b: bool,
    timezone_offset: i32,
    layout: Layout,
    clock: &C,
    float_text: &F,
)
    requires
        crate::decode::clock_alike(clock),
        crate::message::floats_alike(float_text),
        passed(ring, a, left_a, worked_a, timezone_offset, layout, clock, float_text),
        passed(ring, b, left_b, worked_b, timezone_offset, layout, clock, float_text),
        forall|i: int|
            0 <= i < a.len() ==> (#[trigger] a[i]).heard.max == b[i].heard.max,
    ensures
        left_a == left_b,
        worked_a == worked_b,
        a.len() == b.len(),
        forall|i: int|
            0 <= i < a.len() ==> (#[trigger] a[i]).heard.line == b[i].heard.line
                && a[i].heard.level == b[i].heard.level && (a[i].heard.reply is Some
                <==> b[i].heard.reply is Some),
{
    assert forall|i: int| 0 <= i < a.len() implies (#[trigger] a[i]).heard.line == b[i].heard.line
        && a[i].heard.level == b[i].heard.level && (a[i].heard.reply is Some
        <==> b[i].heard.reply is Some) by {
        let record = pass_over(ring).records[i];
        let fields = crate::decode::fields_of(record, ring.strings);
        assert(turn_of(a[i], record, ring.strings, timezone_offset, layout, clock, float_text));
        assert(turn_of(b[i], record, ring.strings, timezone_offset, layout, clock, float_text));
        crate::decode::line_determined(
            a[i].heard.line,
            b[i].heard.line,
            fields,
            timezone_offset,
            layout,
            clock,
            float_text,
        );
    }
}

} // verus!

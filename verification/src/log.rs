//! The logging entry points: whether a record is logged, and writing it to the
//! calling thread's ring.
//!
//! A logging call checks the level ceiling and, only if the record passes,
//! evaluates its arguments and calls [`dispatch`].

use crate::builder::Backpressure;
use crate::drain::EntryState;
use crate::encode::LoggableArgs;
use crate::level::Level;
use crate::record::{
    assemble_for, record_size, ThreadMeta, ThreadView, THREAD_SECTION_BASE_SIZE,
};
use crate::ring::{RingBuffer, RingState, Slot};
use crate::strings::StrRef;
use vstd::prelude::*;
use vstd::string::*;

verus! {

/// Whether a record at `level` is logged under `ceiling`; with no ceiling
/// nothing is.
pub open spec fn admitted(level: Level, ceiling: Option<Level>) -> bool {
    ceiling matches Some(c) && level.byte() <= c.byte()
}

/// Returns whether a record at `level` passes the current level ceiling. `None`
/// stands for logging that is disabled.
pub fn enabled(level: Level, ceiling: Option<Level>) -> (r: bool)
    ensures
        r == admitted(level, ceiling),
        // Nothing is logged without a ceiling, and under one what is at least as
        // severe.
        ceiling is None ==> !r,
        ceiling == Some(Level::Error) ==> (r <==> level == Level::Error),
        ceiling == Some(Level::Warn) ==> (r <==> level == Level::Error || level == Level::Warn),
        ceiling == Some(Level::Info) ==> (r <==> level != Level::Debug && level != Level::Trace),
        ceiling == Some(Level::Debug) ==> (r <==> level != Level::Trace),
        ceiling == Some(Level::Trace) ==> r,
{
    match ceiling {
        Some(c) => level <= c,
        None => false,
    }
}

/// What became of a record.
#[derive(Debug, Clone, Copy, PartialEq, Eq, Structural)]
pub enum Outcome {
    /// It waits to be drained.
    Written,
    /// It was discarded.
    Discarded,
    /// There is no room for it yet, and the caller asked to wait for some.
    Full,
}

/// Whether the record format can hold a record.
pub open spec fn fits(
    fmt: Seq<u8>,
    file: Seq<u8>,
    thread: ThreadView,
    values: Seq<crate::encode::Value>,
) -> bool {
    &&& values.len() <= crate::record::MAX_ARGS
    &&& fmt.len() <= u16::MAX
    &&& file.len() <= u16::MAX
    &&& crate::record::record_len(values, Some(thread)) <= crate::record::MAX_RECORD_SIZE
}

/// What a record that was logged says.
pub open spec fn logged(
    level: Level,
    tick: u64,
    fmt: Seq<u8>,
    file: Seq<u8>,
    line: u32,
    thread: ThreadView,
    values: Seq<crate::encode::Value>,
) -> crate::decode::Fields {
    crate::decode::Fields {
        level,
        tick,
        fmt,
        source: Some((file, line)),
        thread_id: thread.0,
        thread_name: crate::decode::shown_name(thread.1),
        tags: crate::encode::tags(values),
        payload: crate::encode::payloads(values),
    }
}

/// Whether a record in a ring can be decoded, also after the ring's table of
/// strings has grown: it is framed, complete, and refers to strings of the
/// table.
pub open spec fn sound(record: Seq<u8>, table: Seq<Seq<u8>>) -> bool {
    &&& crate::ring::is_record(record)
    &&& crate::decode::fields_of(record, table).complete()
    &&& crate::decode::refers_to(record, table)
}

/// Whether a ring is as logging and draining keep it: the drain has seen the
/// records up to the tail, and all that wait are sound.
pub open spec fn healthy(ring: RingState) -> bool {
    &&& ring.wf()
    &&& ring.tail == ring.head_cache
    &&& records_kept(ring, ring.tail as int)
    &&& forall|i: int|
        0 <= i < waiting(ring).len() ==> sound(#[trigger] waiting(ring)[i], ring.strings)
}

/// The records that wait to be drained, in the order they were logged.
pub open spec fn waiting(ring: RingState) -> Seq<Seq<u8>> {
    records_from(ring, ring.tail as int)
}

/// The records from position `from` on.
pub open spec fn records_from(ring: RingState, from: int) -> Seq<Seq<u8>> {
    crate::ring::walk(ring.data, from, ring.head as int).records
}

/// Whether `after` is `before` with `record` appended to what waits, from the
/// tail on and from any record behind it.
pub open spec fn appended(before: RingState, after: RingState, record: Seq<u8>) -> bool {
    &&& after.wf()
    &&& after.tail == before.tail
    &&& after.head_cache == before.head_cache
    &&& after.live == before.live
    &&& after.data.len() == before.data.len()
    &&& before.head < after.head
    &&& crate::strings::grows(before.strings, after.strings)
    &&& forall|from: int| #[trigger]
        records_kept(before, from) ==> records_kept(after, from) && records_from(after, from)
            == records_from(before, from).push(record)
}

/// Whether the records from position `from` on lead to the head, and none of
/// them has been given back to the producer.
pub open spec fn records_kept(ring: RingState, from: int) -> bool {
    &&& ring.tail <= from
    &&& from % 64 == 0
    &&& crate::ring::framed(ring.data, from, ring.head as int)
}

/// An assembled record is sound where its strings are in the table.
proof fn record_is_sound(
    level: Level,
    tick: u64,
    fmt: StrRef,
    file: StrRef,
    line: u32,
    thread: ThreadView,
    values: Seq<crate::encode::Value>,
    table: Seq<Seq<u8>>,
)
    requires
        values.len() <= crate::record::MAX_ARGS,
        crate::record::record_len(values, Some(thread)) <= crate::record::MAX_RECORD_SIZE,
        crate::strings::resolved(table, fmt) is Some,
        crate::strings::resolved(table, file) is Some,
        vstd::utf8::valid_utf8(thread.1),
    ensures
        ({
            let record = crate::record::record_bytes(level, tick, fmt, file, line, Some(thread), values);
            &&& sound(record, table)
            &&& record.len() == crate::record::record_len(values, Some(thread))
            &&& crate::decode::fields_of(record, table) == logged(
                level,
                tick,
                crate::strings::resolved(table, fmt)->Some_0,
                crate::strings::resolved(table, file)->Some_0,
                line,
                thread,
                values,
            )
        }),
{
    let record = crate::record::record_bytes(level, tick, fmt, file, line, Some(thread), values);
    crate::decode::record_round_trip(level, tick, fmt, file, line, Some(thread), values, table);
    crate::decode::assembled_is_complete(level, tick, fmt, file, line, Some(thread), values, table);
    crate::ring::prefix_found(record, crate::record::LOG_RECORD, record.len());
}

/// Appending a sound record keeps a ring healthy.
pub proof fn appending_keeps_healthy(before: RingState, after: RingState, record: Seq<u8>)
    requires
        healthy(before),
        appended(before, after, record),
        sound(record, after.strings),
    ensures
        healthy(after),
        waiting(after) == waiting(before).push(record),
{
    assert(records_kept(before, before.tail as int));
    assert forall|i: int| 0 <= i < waiting(after).len() implies sound(
        #[trigger] waiting(after)[i],
        after.strings,
    ) by {
        if i < waiting(before).len() {
            assert(sound(waiting(before)[i], before.strings));
            crate::decode::fields_stable(waiting(before)[i], before.strings, after.strings);
        }
    }
}

/// A new ring is healthy and holds nothing.
pub proof fn new_ring_is_healthy(ring: RingState)
    requires
        ring.wf(),
        ring.head == 0,
        ring.tail == 0,
        ring.head_cache == 0,
    ensures
        healthy(ring),
        waiting(ring).len() == 0,
{
}

/// A healthy ring can be drained: every record that waits is met, in order and
/// without a corrupt frame, and afterwards the ring is healthy and holds
/// nothing. Nothing that was logged is lost.
pub proof fn healthy_ring_drains(ring: RingState)
    requires
        healthy(ring),
    ensures
        crate::drain::decodable(ring),
        crate::drain::pass_over(ring).records == waiting(ring),
        crate::drain::pass_over(ring).corrupt is None,
        healthy(crate::drain::after_pass(ring)),
        waiting(crate::drain::after_pass(ring)).len() == 0,
{
    let after = crate::drain::after_pass(ring);
    assert(after.tail == after.head);
    assert(crate::drain::head_seen(ring) == ring.head);
    assert forall|i: int| 0 <= i < crate::drain::pass_over(ring).records.len() implies
        crate::decode::fields_of(
        #[trigger] crate::drain::pass_over(ring).records[i],
        ring.strings,
    ).complete() by {
        assert(sound(waiting(ring)[i], ring.strings));
    }
}

/// A drain may work on a copy of a ring while the producer goes on logging: what
/// is appended meanwhile waits behind what the copy holds, and is still there,
/// sound and in order, once the producer gets back the space that the copy has
/// freed.
pub proof fn appending_passes_copies(
    before: RingState,
    after: RingState,
    drained: RingState,
    record: Seq<u8>,
)
    requires
        appended(before, after, record),
        sound(record, after.strings),
        before.tail <= drained.tail,
        healthy(before.settled(drained)),
    ensures
        healthy(after.settled(drained)),
        waiting(after.settled(drained)) == waiting(before.settled(drained)).push(record),
{
    let from = drained.tail as int;
    assert(records_kept(before.settled(drained), from));
    assert(records_kept(before, from));
    let old_ring = before.settled(drained);
    let new_ring = after.settled(drained);
    assert forall|f: int| #[trigger] records_kept(old_ring, f) implies records_kept(new_ring, f)
        && records_from(new_ring, f) == records_from(old_ring, f).push(record) by {
        assert(records_kept(before, f));
    }
    appending_keeps_healthy(old_ring, new_ring, record);
}

/// Whether `rings` are the states of a ring to which `records` were logged one
/// after the other.
pub open spec fn logged_to(rings: Seq<RingState>, records: Seq<Seq<u8>>) -> bool {
    &&& rings.len() == records.len() + 1
    &&& forall|i: int|
        0 <= i < records.len() ==> appended(rings[i], rings[i + 1], #[trigger] records[i]) && sound(
            records[i],
            rings[i + 1].strings,
        )
}

/// Nothing is lost and nothing comes twice. A drain takes a copy of a ring and
/// hands over all that waits in it, in order, while the producer logs `records`.
/// Once the producer gets back the space that the drain has freed, exactly
/// `records` wait, in order, and the ring can be drained again.
pub proof fn nothing_is_lost(rings: Seq<RingState>, records: Seq<Seq<u8>>)
    requires
        healthy(rings[0]),
        logged_to(rings, records),
    ensures
        crate::drain::pass_over(rings[0]).records == waiting(rings[0]),
        healthy(rings.last().settled(crate::drain::after_pass(rings[0]))),
        waiting(rings.last().settled(crate::drain::after_pass(rings[0]))) == records,
        rings.last().tail == rings[0].tail,
    decreases records.len(),
{
    let first = rings[0];
    let drained = crate::drain::after_pass(first);
    healthy_ring_drains(first);
    if records.len() == 0 {
        assert(first.settled(drained) == drained);
        assert(waiting(drained) =~= records);
    } else {
        let n = records.len() - 1;
        let early = rings.drop_last();
        let some = records.drop_last();
        assert forall|i: int| 0 <= i < some.len() implies appended(
            early[i],
            early[i + 1],
            #[trigger] some[i],
        ) && sound(some[i], early[i + 1].strings) by {
            assert(some[i] == records[i]);
        }
        nothing_is_lost(early, some);
        assert(records[n] == records.last());
        assert(appended(rings[n], rings[n + 1], records[n]));
        assert(early.last() == rings[n]);
        appending_passes_copies(rings[n], rings[n + 1], drained, records[n]);
        assert(some.push(records[n]) =~= records);
    }
}

/// A copy that a drain has emptied and the producer has been told of is, brought
/// up to date, the producer's ring.
pub proof fn refreshed_is_shared(local: RingState, shared: RingState)
    ensures
        local.refreshed(shared.settled(local)) == shared.settled(local),
{
}

/// Whether all rings are as logging and draining keep them.
pub open spec fn all_healthy(entries: Seq<EntryState>) -> bool {
    forall|i: int| 0 <= i < entries.len() ==> healthy((#[trigger] entries[i]).ring)
}

/// Whether the producer of the ring `e` has been told of all that the drain has
/// consumed of it.
pub open spec fn in_step(entries: Seq<EntryState>, e: EntryState) -> bool {
    forall|i: int|
        0 <= i < entries.len() && (#[trigger] entries[i]).id == e.id ==> entries[i].ring.tail
            == e.ring.tail && entries[i].ring.head_cache == e.ring.head_cache
}

/// A drain that follows healthy rings can always make its next pass: the copies
/// that it takes of them are healthy too.
pub proof fn adopting_keeps_healthy(entries: Seq<EntryState>, registry: Seq<EntryState>)
    requires
        all_healthy(entries),
        all_healthy(registry),
        crate::drain::distinct(registry),
        forall|k: int| 0 <= k < registry.len() ==> in_step(entries, #[trigger] registry[k]),
    ensures
        all_healthy(crate::drain::adopted(entries, registry)),
        crate::drain::all_ready(crate::drain::adopted(entries, registry)),
        forall|e: EntryState|
            in_step(entries, e) && (forall|k: int|
                0 <= k < registry.len() ==> (#[trigger] registry[k]).id != e.id)
                ==> #[trigger] in_step(crate::drain::adopted(entries, registry), e),
    decreases registry.len(),
{
    let next = crate::drain::adopted(entries, registry);
    if registry.len() > 0 {
        let front = registry.drop_last();
        let e = registry.last();
        let now = crate::drain::adopted(entries, front);
        assert forall|k: int| 0 <= k < front.len() implies in_step(
            entries,
            #[trigger] front[k],
        ) by {
            assert(front[k] == registry[k]);
        }
        adopting_keeps_healthy(entries, front);
        assert(e == registry[registry.len() - 1]);
        assert(in_step(now, e));
        crate::drain::position_found(now, e.id, 0);
        let at = crate::drain::position(now, e.id, 0);
        if at < now.len() {
            assert(now[at].ring.refreshed(e.ring) == e.ring);
        }
        assert forall|i: int| 0 <= i < next.len() implies healthy((#[trigger] next[i]).ring) by {
            if i < now.len() && i != at {
                assert(next[i] == now[i]);
            }
        }
        assert forall|f: EntryState|
            in_step(entries, f) && (forall|k: int|
                0 <= k < registry.len() ==> (#[trigger] registry[k]).id != f.id) implies #[trigger] in_step(
            next,
            f,
        ) by {
            assert forall|k: int| 0 <= k < front.len() implies (#[trigger] front[k]).id != f.id by {
                assert(front[k] == registry[k]);
            }
            assert(in_step(now, f));
            assert forall|i: int| 0 <= i < next.len() && (#[trigger] next[i]).id == f.id implies
                next[i].ring.tail == f.ring.tail && next[i].ring.head_cache
                == f.ring.head_cache by {
                if i < now.len() && i != at {
                    assert(next[i] == now[i]);
                }
            }
        }
    }
    assert forall|i: int| 0 <= i < next.len() implies (#[trigger] next[i]).ring.wf()
        && crate::drain::decodable(next[i].ring) by {
        healthy_ring_drains(next[i].ring);
    }
}

/// Logs one record to the calling thread's ring: reserves room, reads the
/// clock, assembles the record in place and publishes it.
///
/// A record that the record format cannot hold is discarded, not truncated.
/// Where the ring is full, the policy decides: the record is discarded, or the
/// caller is told to try again. The clock is read only for a record that is
/// written.
pub fn dispatch<A: LoggableArgs, C: FnOnce() -> u64>(
    ring: &mut RingBuffer,
    policy: Backpressure,
    level: Level,
    fmt: &'static str,
    file: &'static str,
    line: u32,
    thread: ThreadMeta<'_>,
    args: &A,
    clock: C,
) -> (r: Outcome)
    requires
        old(ring).wf(),
        fits(fmt.spec_bytes(), file.spec_bytes(), thread@, args.values()) && old(ring).admits(
            crate::record::record_len(args.values(), Some(thread@)),
        ) ==> call_requires(clock, ()),
    ensures
        final(ring).wf(),
        r is Written <==> fits(fmt.spec_bytes(), file.spec_bytes(), thread@, args.values())
            && old(ring).admits(crate::record::record_len(args.values(), Some(thread@))),
        r is Full <==> fits(fmt.spec_bytes(), file.spec_bytes(), thread@, args.values()) && !old(
            ring,
        ).admits(crate::record::record_len(args.values(), Some(thread@))) && policy == Backpressure::Block,
        policy == Backpressure::Drop ==> !(r is Full),
        policy == Backpressure::Block ==> (r is Discarded <==> !fits(
            fmt.spec_bytes(),
            file.spec_bytes(),
            thread@,
            args.values(),
        )),
        !(r is Written) ==> *final(ring) == *old(ring),
        r is Written ==> final(ring).head == old(ring).next_head(
            crate::record::record_len(args.values(), Some(thread@)),
        ),
        r is Written ==> exists|tick: u64, record: Seq<u8>| #[trigger]
            call_ensures(clock, (), tick) && #[trigger] appended(old(ring)@, final(ring)@, record)
                && sound(record, final(ring).strings@) && crate::decode::fields_of(
                record,
                final(ring).strings@,
            ) == logged(
                level,
                tick,
                fmt.spec_bytes(),
                file.spec_bytes(),
                line,
                thread@,
                args.values(),
            ),
        healthy(old(ring)@) ==> healthy(final(ring)@),
{
    let ghost values = args.values();
    let ghost before = *ring;
    let total: usize = match record_size(
        args.args_count(),
        args.args_encoded_size(),
        fmt.as_bytes().len(),
        file.as_bytes().len(),
        THREAD_SECTION_BASE_SIZE.saturating_add(thread.name.as_bytes().len()),
    ) {
        Some(total) => total,
        None => return Outcome::Discarded,
    };
    let slot: Slot = match ring.reserve(total) {
        Some(slot) => slot,
        None => {
            return match policy {
                Backpressure::Drop => Outcome::Discarded,
                Backpressure::Block => Outcome::Full,
            };
        },
    };
    let tick: u64 = clock();
    let fmt_ref: StrRef = ring.strings.intern(fmt);
    let ghost with_fmt = ring.strings@;
    let file_ref: StrRef = ring.strings.intern(file);
    let ghost record = crate::record::record_bytes(
        level,
        tick,
        fmt_ref,
        file_ref,
        line,
        Some(thread@),
        values,
    );
    {
        let dst: &mut [u8] = ring.slot_mut(slot);
        assemble_for(dst, level, tick, fmt_ref, file_ref, line, Some(thread), args);
    }
    proof {
        let table = ring.strings@;
        crate::strings::interned_resolves(with_fmt, table, fmt_ref, fmt@);
        assert(table.take(table.len() as int) =~= table);
        crate::strings::interned_resolves(table, table, file_ref, file@);
        crate::strings::grows_twice(before.strings@, with_fmt, table);
        vstd::utf8::encode_utf8_valid_utf8(thread.name@);
        record_is_sound(level, tick, fmt_ref, file_ref, line, thread@, values, table);
        crate::ring::slot_start(&before, record.len(), slot);
        crate::ring::writing_keeps_size(&before, record, slot);
    }
    ring.publish(slot);
    proof {
        assert forall|from: int| #[trigger] records_kept(before@, from) implies records_kept(
            ring@,
            from,
        ) && records_from(ring@, from) == records_from(before@, from).push(record) by {
            crate::ring::publish_appends(&before, record, slot, ring.data@, from);
        }
        assert(appended(before@, ring@, record));
        if healthy(before@) {
            appending_keeps_healthy(before@, ring@, record);
        }
    }
    Outcome::Written
}

} // verus!

//! Draining: what is handed over, in which order, and what is reported.

use crate::decode::Layout;
use crate::drain::{EntryState, Notice};
use crate::format::FloatStyle;
use crate::message::FloatValue;
use crate::ring::{Frame, RingState};
use crate::sink::tap::Turn;
use crate::sink::LogSink;
use std::io;
use vstd::prelude::*;

verus! {

/// The notices of a pass are the errors that the sink replied, in order, and then the
/// corrupt frame where there was one.
pub proof fn notices_report(errors: Seq<io::Error>, corrupt: Option<(u8, u8, u16)>, i: int)
    ensures
        ({
            let told = crate::drain::notices_of(errors, corrupt);
            &&& told.len() == errors.len() + if corrupt is Some {
                1int
            } else {
                0int
            }
            &&& 0 <= i < errors.len() ==> told[i] == Notice::SinkFailed(errors[i])
            &&& corrupt matches Some((version, rectype, size)) ==> told[errors.len() as int]
                == (Notice::Corrupt { version, rectype, size })
        }),
{
}

/// A turn in which a sink was offered a record carries the level of the record and a
/// line of it, and the sink was passed the line exactly where the level that it
/// reported admits it.
pub proof fn turns_carry_records<
    S: LogSink,
    C: Fn(u64) -> u64,
    F: Fn(FloatValue, FloatStyle) -> String,
>(
    t: Turn<S>,
    record: Seq<u8>,
    table: Seq<Seq<u8>>,
    timezone_offset: i32,
    layout: Layout,
    clock: &C,
    float_text: &F,
)
    requires
        crate::drain::turn_of(t, record, table, timezone_offset, layout, clock, float_text),
    ensures
        t.heard.level == crate::decode::fields_of(record, table).level,
        crate::decode::is_line(
            t.heard.line,
            crate::decode::fields_of(record, table),
            timezone_offset,
            layout,
            clock,
            float_text,
        ),
        t.heard.reply is Some <==> t.heard.level.byte() <= t.heard.max.byte(),
        call_ensures(S::max_level, (&t.before,), t.heard.max),
        t.heard.reply is None ==> t.after == t.before,
        crate::format::placeholders(crate::decode::fields_of(record, table).fmt) is Ok
            ==> vstd::utf8::valid_utf8(t.heard.line),
{
}

/// Records are handed over one turn each, in order.
pub proof fn records_are_handed_over_in_order<
    S: LogSink,
    C: Fn(u64) -> u64,
    F: Fn(FloatValue, FloatStyle) -> String,
>(
    turns: Seq<Turn<S>>,
    records: Seq<Seq<u8>>,
    table: Seq<Seq<u8>>,
    timezone_offset: i32,
    layout: Layout,
    clock: &C,
    float_text: &F,
    i: int,
)
    requires
        crate::drain::turns_of(
            turns,
            records,
            table,
            timezone_offset,
            layout,
            clock,
            float_text,
        ),
        0 <= i < records.len(),
    ensures
        turns.len() == records.len(),
        crate::drain::turn_of(
            turns[i],
            records[i],
            table,
            timezone_offset,
            layout,
            clock,
            float_text,
        ),
{
}

/// A pass goes over what waits from the tail on, up to the head as it was last seen, or
/// as it is where the drain has caught up with that. What it went over is free again,
/// and nothing else of the ring changes.
pub proof fn passes_go_from_tail_to_head(ring: RingState)
    ensures
        ({
            let head = if ring.tail == ring.head_cache {
                ring.head
            } else {
                ring.head_cache
            };
            let left = crate::drain::after_pass(ring);
            &&& crate::drain::pass_over(ring) == crate::ring::walk(
                ring.data,
                ring.tail as int,
                head as int,
            )
            &&& crate::drain::has_work(ring) <==> ring.tail != head
            &&& left.data == ring.data && left.head == ring.head && left.live == ring.live
                && left.strings == ring.strings
            &&& ring.tail == head ==> left == ring
            &&& ring.tail != head ==> left.head_cache == head && left.tail
                == crate::drain::pass_over(ring).end as u64
        }),
{
}

/// What stands at a position of a ring: nothing where the size is zero, and otherwise
/// a record or a filler of that size, unless the version is not 1, the type neither a
/// record nor a filler, or the size less than a header or more than what is left in
/// front of the physical end.
pub proof fn frames_are_checked(s: Seq<u8>)
    requires
        s.len() >= 4,
    ensures
        ({
            let size = s[2] + 256 * s[3];
            let sound = s[0] == 1 && (s[1] == 1 || s[1] == 2) && 16 <= size <= s.len();
            &&& size == 0 ==> crate::ring::frame_of(s) is Empty
            &&& size != 0 && !sound ==> crate::ring::frame_of(s) == (Frame::Corrupt {
                version: s[0],
                rectype: s[1],
                size: size as u16,
            })
            &&& size != 0 && sound && s[1] == 1 ==> crate::ring::frame_of(s) == (Frame::Record {
                record: s.take(size),
            })
            &&& size != 0 && sound && s[1] == 2 ==> crate::ring::frame_of(s) == (Frame::Filler {
                size: size as u16,
            })
        }),
{
    reveal_with_fuel(crate::le::le_value, 3);
    let a = s.take(1);
    let rest = s.skip(1);
    let b = rest.take(1);
    let at_size = rest.skip(1);
    let c = at_size.take(2);
    assert(a.skip(1) =~= Seq::<u8>::empty());
    assert(b.skip(1) =~= Seq::<u8>::empty());
    assert(c.skip(1).skip(1) =~= Seq::<u8>::empty());
    assert(a[0] == s[0] && b[0] == s[1] && c[0] == s[2] && c.skip(1)[0] == s[3]);
    assert(crate::le::le_value(a) == s[0]);
    assert(crate::le::le_value(b) == s[1]);
    assert(crate::le::le_value(c.skip(1)) == s[3]);
    assert(crate::le::le_value(c) == s[2] + 256 * s[3]);
}

/// Draining goes from frame to frame: a record is handed over, a filler is skipped, and
/// both take up whole slots of 64 bytes. It ends at the head, at a frame that has not
/// been written, or at a corrupt one, which gives up all that waits behind it.
pub proof fn draining_goes_from_frame_to_frame(data: Seq<u8>, pos: int, head: int)
    ensures
        ({
            let w = crate::ring::walk(data, pos, head);
            let frame = crate::ring::frame_of(data.skip(pos % data.len() as int));
            &&& pos >= head ==> w.records.len() == 0 && w.end == pos && w.corrupt is None
            &&& pos < head && frame is Empty ==> w.records.len() == 0 && w.end == pos && w.corrupt
                is None
            &&& pos < head ==> (frame matches Frame::Corrupt { version, rectype, size }
                ==> w.records.len() == 0 && w.end == head && w.corrupt == Some(
                (version, rectype, size),
            ))
            &&& pos < head ==> (frame matches Frame::Filler { size } ==> w == crate::ring::walk(
                data,
                pos + (size + 63) / 64 * 64,
                head,
            ))
            &&& pos < head ==> (frame matches Frame::Record { record } ==> {
                let rest = crate::ring::walk(data, pos + (record.len() + 63) / 64 * 64, head);
                w.records == seq![record] + rest.records && w.end == rest.end && w.corrupt
                    == rest.corrupt
            })
        }),
{
}

/// Where rings are brought up to date with one that is registered, the copy of it takes
/// over what its producer has written, keeps how far it has been drained, and no other
/// ring changes. A ring that is new is copied as it is, behind the others.
pub proof fn registered_rings_are_followed(entries: Seq<EntryState>, e: EntryState, j: int)
    ensures
        ({
            let next = crate::drain::adopted_one(entries, e);
            let known = exists|i: int| 0 <= i < entries.len() && #[trigger] entries[i].id == e.id;
            &&& !known ==> next == entries.push(e)
            &&& known ==> next.len() == entries.len()
            &&& known && 0 <= j < entries.len() && entries[j].id != e.id ==> next[j] == entries[j]
            &&& known && 0 <= j < entries.len() && entries[j].id == e.id && (forall|i: int|
                0 <= i < j ==> #[trigger] entries[i].id != e.id) ==> {
                let copy = next[j].ring;
                &&& next[j].id == e.id
                &&& copy.tail == entries[j].ring.tail
                &&& copy.head_cache == entries[j].ring.head_cache
                &&& copy.data == e.ring.data
                &&& copy.head == e.ring.head
                &&& copy.live == e.ring.live
                &&& copy.strings == e.ring.strings
            }
        }),
{
    crate::drain::position_found(entries, e.id, 0);
    let at = crate::drain::position(entries, e.id, 0);
    if at < entries.len() {
        assert(entries[at].id == e.id);
    }
}

/// Rings are brought up to date one after the other.
pub proof fn registries_are_followed(
    entries: Seq<EntryState>,
    registry: Seq<EntryState>,
    e: EntryState,
)
    ensures
        crate::drain::adopted(entries, Seq::empty()) == entries,
        crate::drain::adopted(entries, registry.push(e)) == crate::drain::adopted_one(
            crate::drain::adopted(entries, registry),
            e,
        ),
{
    assert(registry.push(e).drop_last() =~= registry);
}

/// What several passes hand over is what each hands over, one after the other.
pub proof fn passes_follow<T>(parts: Seq<Seq<T>>, part: Seq<T>)
    ensures
        crate::drain::joined(Seq::<Seq<T>>::empty()) == Seq::<T>::empty(),
        crate::drain::joined(parts.push(part)) == crate::drain::joined(parts) + part,
{
    assert(parts.push(part).drop_last() =~= parts);
}

/// The space that a drain has freed goes back to the producer, and nothing else of its
/// ring changes.
pub proof fn space_goes_back(ring: RingState, drained: RingState)
    ensures
        ({
            let settled = ring.settled(drained);
            &&& settled.tail == drained.tail
            &&& settled.head_cache == drained.head_cache
            &&& settled.data == ring.data
            &&& settled.head == ring.head
            &&& settled.live == ring.live
            &&& settled.strings == ring.strings
        }),
{
}

/// A drain goes over every ring, in order: what it hands over is what each ring has
/// waiting, ring by ring, and what it reports is what went wrong with each.
pub proof fn every_ring_is_gone_over<
    S: LogSink,
    C: Fn(u64) -> u64,
    F: Fn(FloatValue, FloatStyle) -> String,
>(
    new: Seq<Turn<S>>,
    told: Seq<Notice>,
    entries: Seq<EntryState>,
    timezone_offset: i32,
    layout: Layout,
    clock: &C,
    float_text: &F,
)
    requires
        crate::drain::drained(new, told, entries, timezone_offset, layout, clock, float_text),
    ensures
        exists|parts: Seq<Seq<Turn<S>>>, tolds: Seq<Seq<Notice>>|
            #![trigger crate::drain::joined(parts), crate::drain::joined(tolds)]
            new == crate::drain::joined(parts) && told == crate::drain::joined(tolds) && parts.len()
                == entries.len() && tolds.len() == entries.len() && forall|i: int|
                0 <= i < entries.len() ==> crate::drain::turns_of(
                    #[trigger] parts[i],
                    crate::drain::pass_over(entries[i].ring).records,
                    entries[i].ring.strings,
                    timezone_offset,
                    layout,
                    clock,
                    float_text,
                ) && tolds[i] == crate::drain::notices_of(
                    crate::sink::tap::errors_of(crate::sink::tap::heard_in(parts[i])),
                    crate::drain::pass_over(entries[i].ring).corrupt,
                ),
{
    let (parts, tolds) = choose|parts: Seq<Seq<Turn<S>>>, tolds: Seq<Seq<Notice>>|
        #![trigger crate::drain::joined(parts), crate::drain::joined(tolds)]
        new == crate::drain::joined(parts) && told == crate::drain::joined(tolds)
            && crate::drain::passes_of(
            parts,
            tolds,
            entries,
            timezone_offset,
            layout,
            clock,
            float_text,
        );
    assert forall|i: int| 0 <= i < entries.len() implies crate::drain::turns_of(
        #[trigger] parts[i],
        crate::drain::pass_over(entries[i].ring).records,
        entries[i].ring.strings,
        timezone_offset,
        layout,
        clock,
        float_text,
    ) && tolds[i] == crate::drain::notices_of(
        crate::sink::tap::errors_of(crate::sink::tap::heard_in(parts[i])),
        crate::drain::pass_over(entries[i].ring).corrupt,
    ) by {
        assert(crate::drain::pass_of(
            parts[i],
            tolds[i],
            entries[i].ring,
            timezone_offset,
            layout,
            clock,
            float_text,
        ));
    }
}

/// There is work where any ring has some, and contracts speak of every ring that is there.
pub proof fn work_is_found(entries: Seq<EntryState>, rings: Seq<crate::drain::RingEntry>, i: int)
    ensures
        0 <= i < entries.len() && crate::drain::has_work(entries[i].ring)
            ==> crate::drain::any_work(entries),
        crate::drain::any_work(entries) ==> exists|j: int|
            0 <= j < entries.len() && crate::drain::has_work((#[trigger] entries[j]).ring),
        crate::drain::states(rings).len() == rings.len(),
        0 <= i < rings.len() ==> crate::drain::states(rings)[i].id == rings[i].id
            && crate::drain::states(rings)[i].ring == rings[i].ring@,
{
}

/// The rings that are kept in a registry are those that are live, in order.
pub proof fn live_rings_are_kept(registry: Seq<EntryState>, e: EntryState)
    ensures
        crate::drain::living(Seq::empty()).len() == 0,
        e.ring.live ==> crate::drain::living(registry.push(e)) == crate::drain::living(
            registry,
        ).push(e),
        !e.ring.live ==> crate::drain::living(registry.push(e)) == crate::drain::living(registry),
{
    reveal(Seq::filter);
    assert(registry.push(e).drop_last() =~= registry);
    let live = |x: EntryState| x.ring.live;
    assert(Seq::<EntryState>::empty().filter(live).len() == 0);
}

/// The notices of turns are those of the errors that were replied in them.
pub proof fn turns_are_reported<S>(turns: Seq<Turn<S>>, corrupt: Option<(u8, u8, u16)>)
    ensures
        crate::drain::notices_in(turns, corrupt) == crate::drain::notices_of(
            crate::sink::tap::errors_of(crate::sink::tap::heard_in(turns)),
            corrupt,
        ),
{
}

/// A copy of a ring that is brought up to date takes over what the producer has written and
/// keeps how far it has been drained.
pub proof fn copies_are_refreshed(copy: RingState, shared: RingState)
    ensures
        ({
            let fresh = copy.refreshed(shared);
            &&& fresh.tail == copy.tail
            &&& fresh.head_cache == copy.head_cache
            &&& fresh.data == shared.data
            &&& fresh.head == shared.head
            &&& fresh.live == shared.live
            &&& fresh.strings == shared.strings
        }),
{
}

/// Passes over rings hand over what each ring has waiting, and report what went wrong with
/// each.
pub proof fn passes_hand_over_each_ring<
    S: LogSink,
    C: Fn(u64) -> u64,
    F: Fn(FloatValue, FloatStyle) -> String,
>(
    parts: Seq<Seq<Turn<S>>>,
    told: Seq<Seq<Notice>>,
    entries: Seq<EntryState>,
    timezone_offset: i32,
    layout: Layout,
    clock: &C,
    float_text: &F,
    i: int,
)
    requires
        crate::drain::passes_of(parts, told, entries, timezone_offset, layout, clock, float_text),
        0 <= i < entries.len(),
    ensures
        parts.len() == entries.len(),
        told.len() == entries.len(),
        crate::drain::turns_of(
            parts[i],
            crate::drain::pass_over(entries[i].ring).records,
            entries[i].ring.strings,
            timezone_offset,
            layout,
            clock,
            float_text,
        ),
        told[i] == crate::drain::notices_of(
            crate::sink::tap::errors_of(crate::sink::tap::heard_in(parts[i])),
            crate::drain::pass_over(entries[i].ring).corrupt,
        ),
{
    assert(crate::drain::pass_of(
        parts[i],
        told[i],
        entries[i].ring,
        timezone_offset,
        layout,
        clock,
        float_text,
    ));
}

} // verus!

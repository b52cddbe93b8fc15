//! [`FanOut`]: dispatches one record to several sinks.

use super::tap::{Heard, Journal, Tap};
use super::LogSink;
use crate::level::Level;
use std::io;
use vstd::prelude::*;

verus! {

/// A list of sinks, as contracts speak of it.
pub trait Entries: Sized {
    /// What each sink has heard, in the order the sinks were added.
    spec fn heard(&self) -> Seq<Seq<Heard>>;

    /// Whether the sink number `i` may report `max` as its maximum level.
    spec fn may_report(&self, i: int, max: Level) -> bool;
}

/// Whether `after` is what becomes of the sinks `before` when a record comes in:
/// each was offered the line, and passed it exactly where the maximum level that
/// it reported admits it.
pub open spec fn dispatched<E: Entries>(before: E, after: E, line: Seq<u8>, level: Level) -> bool {
    &&& after.heard().len() == before.heard().len()
    &&& forall|i: int|
        0 <= i < before.heard().len() ==> #[trigger] dispatched_to(
            before,
            i,
            after.heard()[i],
            line,
            level,
        )
}

/// Whether the sink number `i` of `before` was offered what it should be, where
/// `after` is what it has heard then.
pub open spec fn dispatched_to<E: Entries>(
    before: E,
    i: int,
    after: Seq<Heard>,
    line: Seq<u8>,
    level: Level,
) -> bool {
    &&& after.len() > 0
    &&& after == before.heard()[i].push(after.last())
    &&& after.last().line == line
    &&& after.last().level == level
    &&& after.last().fair()
    &&& before.may_report(i, after.last().max)
}

/// What each sink has heard last.
pub open spec fn last_heard(heard: Seq<Seq<Heard>>) -> Seq<Heard> {
    heard.map_values(|h: Seq<Heard>| h.last())
}

/// The sinks of a [`FanOut`]: `()` holds none and `(E, Tap<S>)` appends a sink of
/// type `S` to `E`.
pub trait SinkList: Entries + Send + 'static {
    /// Offers `line` to each sink, in the order in which they were added, and
    /// collects the errors that they reply. The calls are noted in `journal`.
    fn accept_all(
        &mut self,
        line: &[u8],
        level: Level,
        journal: &mut Journal,
        failures: &mut Vec<io::Error>,
    )
        ensures
            dispatched(*old(self), *final(self), line@, level),
            final(journal)@ == old(journal)@ + last_heard(final(self).heard()),
            final(failures)@ == old(failures)@ + super::tap::errors_of(
                last_heard(final(self).heard()),
            ),
    ;

    /// Flushes each sink and collects the errors.
    fn flush_all(&mut self, failures: &mut Vec<io::Error>)
        ensures
            final(self).heard() == old(self).heard(),
            old(failures)@.len() <= final(failures)@.len() <= old(failures)@.len() + old(
                self,
            ).heard().len(),
            final(failures)@.take(old(failures)@.len() as int) == old(failures)@,
    ;
}

impl Entries for () {
    open spec fn heard(&self) -> Seq<Seq<Heard>> {
        Seq::empty()
    }

    open spec fn may_report(&self, i: int, max: Level) -> bool {
        false
    }
}

impl SinkList for () {
    fn accept_all(
        &mut self,
        line: &[u8],
        level: Level,
        journal: &mut Journal,
        failures: &mut Vec<io::Error>,
    ) {
        assert(last_heard(self.heard()) =~= Seq::<Heard>::empty());
        assert(journal@ =~= old(journal)@ + last_heard(self.heard()));
        assert(failures@ =~= old(failures)@ + super::tap::errors_of(last_heard(self.heard())));
    }

    fn flush_all(&mut self, failures: &mut Vec<io::Error>) {
        assert(failures@.take(failures@.len() as int) =~= failures@);
    }
}

impl<E: Entries, S: LogSink> Entries for (E, Tap<S>) {
    open spec fn heard(&self) -> Seq<Seq<Heard>> {
        self.0.heard().push(super::tap::heard_in(self.1.turns()))
    }

    open spec fn may_report(&self, i: int, max: Level) -> bool {
        if i == self.0.heard().len() {
            call_ensures(S::max_level, (&self.1.held(),), max)
        } else {
            self.0.may_report(i, max)
        }
    }
}

impl<E: SinkList, S: LogSink> SinkList for (E, Tap<S>) {
    fn accept_all(
        &mut self,
        line: &[u8],
        level: Level,
        journal: &mut Journal,
        failures: &mut Vec<io::Error>,
    )
        ensures
            // The sinks that were added earlier have had their own call.
            exists|e: &mut E, j: &mut Journal, f: &mut Vec<io::Error>|
                #![trigger call_ensures(E::accept_all, (e, line, level, j, f), ())]
                *e == old(self).0 && *final(e) == final(self).0 && *j == *old(journal) && *f == *old(
                    failures,
                ) && call_ensures(E::accept_all, (e, line, level, j, f), ()),
            final(self).1.turns().len() == old(self).1.turns().len() + 1,
            final(self).1.turns().last().before == old(self).1.held(),
            final(self).1.turns().last().after == final(self).1.held(),
            // An error that is kept is one that the sink returned.
            final(self).1.turns().last().heard.reply matches Some(reply) ==> exists|s: &mut S|
                #![trigger call_ensures(S::accept, (s, line, level), reply)]
                *s == old(self).1.held() && *final(s) == final(self).1.held() && call_ensures(
                    S::accept,
                    (s, line, level),
                    reply,
                ),
    {
        let ghost before = self.heard();
        let ghost n = self.0.heard().len();
        let ghost held = failures@;
        let ghost had = self.1.turns();
        let ghost told = journal@;
        self.0.accept_all(line, level, journal, failures);
        let ghost listed = failures@;
        match self.1.offer_in_turn(line, level, journal) {
            Some(Err(e)) => failures.push(e),
            _ => {},
        }
        proof {
            let after = self.heard();
            let turn = self.1.turns().last();
            let mine = super::tap::heard_in(self.1.turns());
            assert(mine =~= super::tap::heard_in(had).push(turn.heard));
            assert(mine.last() == turn.heard);
            assert(last_heard(after) =~= last_heard(self.0.heard()).push(turn.heard));
            assert(last_heard(after).drop_last() =~= last_heard(self.0.heard()));
            assert(failures@ =~= held + super::tap::errors_of(last_heard(after)));
            assert(journal@ =~= told + last_heard(after));
            assert forall|i: int| 0 <= i < before.len() implies #[trigger] dispatched_to(
                *old(self),
                i,
                self.heard()[i],
                line@,
                level,
            ) by {
                if i < n {
                    assert(dispatched_to(old(self).0, i, self.0.heard()[i], line@, level));
                }
            }
        }
    }

    fn flush_all(&mut self, failures: &mut Vec<io::Error>)
        ensures
            exists|e: &mut E, f: &mut Vec<io::Error>, s: &mut S, r: io::Result<()>|
                #![trigger call_ensures(E::flush_all, (e, f), ()), call_ensures(S::flush, (s,), r)]
                *e == old(self).0 && *final(e) == final(self).0 && *f == *old(failures)
                    && call_ensures(E::flush_all, (e, f), ()) && *s == old(self).1.held() && *final(
                    s
                ) == final(self).1.held() && call_ensures(S::flush, (s,), r) && final(failures)@
                    == (match r {
                    Ok(_) => final(f)@,
                    Err(e) => final(f)@.push(e),
                }),
    {
        let ghost held = failures@;
        self.0.flush_all(failures);
        let ghost listed = failures@;
        match self.1.flush() {
            Ok(_) => {},
            Err(e) => failures.push(e),
        }
        assert(failures@.take(held.len() as int) =~= listed.take(held.len() as int));
    }
}

/// A sink that dispatches to multiple inner sinks.
///
/// Each inner sink receives records at or below its own
/// [`max_level`](LogSink::max_level), and the sinks are called in the order in
/// which they were added. If an inner sink returns an error, the error is kept for [`FanOut::take_failures`] and dispatch continues to the
/// remaining sinks.
pub struct FanOut<E> {
    pub entries: E,
    /// What the inner sinks have heard, in the order in which they were called.
    pub order: Journal,
    /// Errors of the inner sinks that have not been taken yet.
    pub failures: Vec<io::Error>,
}

impl FanOut<()> {
    /// Creates an empty fan-out sink.
    pub fn new() -> (r: FanOut<()>)
        ensures
            r.entries.heard() == Seq::<Seq<Heard>>::empty(),
            r.order@ == Seq::<Heard>::empty(),
            r.failures@.len() == 0,
    {
        FanOut { entries: (), order: Journal::new(), failures: Vec::new() }
    }
}

impl Default for FanOut<()> {
    /// Creates an empty fan-out sink, the same as [`FanOut::new`].
    fn default() -> (r: FanOut<()>)
        ensures
            r.entries.heard() == Seq::<Seq<Heard>>::empty(),
            r.order@ == Seq::<Heard>::empty(),
            r.failures@.len() == 0,
    {
        FanOut::new()
    }
}

impl<E: SinkList> FanOut<E> {
    /// Adds a sink to the fan-out set.
    pub fn add<S: LogSink>(self, sink: S) -> (r: FanOut<(E, Tap<S>)>)
        ensures
            r.entries.0 == self.entries,
            r.entries.1.held() == sink,
            r.entries.heard() == self.entries.heard().push(Seq::empty()),
            r.order == self.order,
            r.failures == self.failures,
    {
        let tap = Tap::new(sink);
        assert(super::tap::heard_in(tap.turns()) =~= Seq::<Heard>::empty());
        FanOut { entries: (self.entries, tap), order: self.order, failures: self.failures }
    }

    /// Takes the errors that inner sinks have returned since the last call, in
    /// order.
    pub fn take_failures(&mut self) -> (r: Vec<io::Error>)
        ensures
            r@ == old(self).failures@,
            final(self).failures@.len() == 0,
            final(self).entries == old(self).entries,
            final(self).order == old(self).order,
    {
        let mut taken: Vec<io::Error> = Vec::new();
        std::mem::swap(&mut taken, &mut self.failures);
        taken
    }
}

impl<E: SinkList> LogSink for FanOut<E> {
    fn accept(&mut self, line: &[u8], level: Level) -> (r: io::Result<()>)
        ensures
            r is Ok,
            dispatched(old(self).entries, final(self).entries, line@, level),
            // The sinks were called in the order in which they were added.
            final(self).order@ == old(self).order@ + last_heard(final(self).entries.heard()),
            final(self).failures@ == old(self).failures@ + super::tap::errors_of(
                last_heard(final(self).entries.heard()),
            ),
            exists|e: &mut E, j: &mut Journal, f: &mut Vec<io::Error>|
                #![trigger call_ensures(E::accept_all, (e, line, level, j, f), ())]
                *e == old(self).entries && *final(e) == final(self).entries && *j == old(self).order
                    && *final(j) == final(self).order && *f == old(self).failures && *final(f)
                    == final(self).failures && call_ensures(
                    E::accept_all,
                    (e, line, level, j, f),
                    (),
                ),
    {
        self.entries.accept_all(line, level, &mut self.order, &mut self.failures);
        Ok(())
    }

    fn max_level(&self) -> (r: Level)
        ensures
            r == Level::Trace,
    {
        Level::Trace
    }

    fn flush(&mut self) -> (r: io::Result<()>)
        ensures
            r is Ok,
            final(self).entries.heard() == old(self).entries.heard(),
            final(self).order == old(self).order,
            old(self).failures@.len() <= final(self).failures@.len() <= old(self).failures@.len()
                + old(self).entries.heard().len(),
            final(self).failures@.take(old(self).failures@.len() as int) == old(self).failures@,
            exists|e: &mut E, f: &mut Vec<io::Error>|
                #![trigger call_ensures(E::flush_all, (e, f), ())]
                *e == old(self).entries && *final(e) == final(self).entries && *f == old(
                    self,
                ).failures && *final(f) == final(self).failures && call_ensures(
                    E::flush_all,
                    (e, f),
                    (),
                ),
    {
        self.entries.flush_all(&mut self.failures);
        Ok(())
    }
}

} // verus!

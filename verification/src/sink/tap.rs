//! [`Tap`]: a sink together with the record of what it was offered.

use super::LogSink;
use crate::level::Level;
use std::io;
use vstd::prelude::*;

verus! {

/// Whether a sink with the maximum level `max` is passed records at `level`.
pub open spec fn passes(level: Level, max: Level) -> bool {
    level.byte() <= max.byte()
}

/// What a sink was offered and what it replied.
pub struct Heard {
    pub line: Seq<u8>,
    pub level: Level,
    /// The maximum level that the sink reported.
    pub max: Level,
    /// What the sink replied where the line was passed to it.
    pub reply: Option<io::Result<()>>,
}

impl Heard {
    /// Whether the line was passed exactly where the reported level admits it.
    pub open spec fn fair(self) -> bool {
        self.reply is Some <==> passes(self.level, self.max)
    }
}

/// One turn of a sink: what it was offered and what it replied, and its state
/// before and after that.
pub struct Turn<S> {
    pub before: S,
    pub after: S,
    pub heard: Heard,
}

impl<S: LogSink> Turn<S> {
    /// Whether the sink in its state `before` may report the level that it was
    /// asked for, the line was passed exactly where that admits it, and a sink
    /// that was passed nothing is as it was.
    pub open spec fn fair(self) -> bool {
        &&& call_ensures(S::max_level, (&self.before,), self.heard.max)
        &&& self.heard.fair()
        &&& self.heard.reply is None ==> self.after == self.before
    }
}

/// Whether `turns`, one after the other, took a sink from `first` to `last`.
pub open spec fn leads<S>(first: S, turns: Seq<Turn<S>>, last: S) -> bool
    decreases turns.len(),
{
    if turns.len() == 0 {
        first == last
    } else {
        turns.last().after == last && leads(first, turns.drop_last(), turns.last().before)
    }
}

/// The errors that a sink replied, in order.
pub open spec fn errors_of(heard: Seq<Heard>) -> Seq<io::Error>
    decreases heard.len(),
{
    if heard.len() == 0 {
        Seq::empty()
    } else {
        match heard.last().reply {
            Some(Err(e)) => errors_of(heard.drop_last()).push(e),
            _ => errors_of(heard.drop_last()),
        }
    }
}

/// What a sink heard in `turns`.
pub open spec fn heard_in<S>(turns: Seq<Turn<S>>) -> Seq<Heard> {
    turns.map_values(|t: Turn<S>| t.heard)
}

/// One more turn.
pub proof fn leads_push<S>(first: S, turns: Seq<Turn<S>>, turn: Turn<S>)
    requires
        leads(first, turns, turn.before),
    ensures
        leads(first, turns.push(turn), turn.after),
        heard_in(turns.push(turn)) == heard_in(turns).push(turn.heard),
        errors_of(heard_in(turns.push(turn))) == match turn.heard.reply {
            Some(Err(e)) => errors_of(heard_in(turns)).push(e),
            _ => errors_of(heard_in(turns)),
        },
{
    assert(turns.push(turn).drop_last() =~= turns);
    assert(heard_in(turns.push(turn)) =~= heard_in(turns).push(turn.heard));
    assert(heard_in(turns).push(turn.heard).drop_last() =~= heard_in(turns));
}

/// Turns after turns.
pub proof fn leads_on<S>(first: S, a: Seq<Turn<S>>, mid: S, b: Seq<Turn<S>>, last: S)
    requires
        leads(first, a, mid),
        leads(mid, b, last),
    ensures
        leads(first, a + b, last),
    decreases b.len(),
{
    if b.len() == 0 {
        assert(a + b =~= a);
    } else {
        leads_on(first, a, mid, b.drop_last(), b.last().before);
        assert((a + b).drop_last() =~= a + b.drop_last());
        assert((a + b).last() == b.last());
    }
}

/// What the sinks of a list have heard, in the order in which they were called.
/// Only [`Tap::offer_in_turn`] adds to it, so its order is the order of the calls.
pub struct Journal {
    heard: Ghost<Seq<Heard>>,
}

impl View for Journal {
    type V = Seq<Heard>;

    closed spec fn view(&self) -> Seq<Heard> {
        self.heard@
    }
}

impl Journal {
    /// A journal of no calls.
    pub fn new() -> (j: Journal)
        ensures
            j@ == Seq::<Heard>::empty(),
    {
        Journal { heard: Ghost(Seq::empty()) }
    }
}

/// A sink together with the record of what it was offered. Only
/// [`Tap::offer`] adds to the record, so every turn in it was taken.
pub struct Tap<S> {
    sink: S,
    turns: Ghost<Seq<Turn<S>>>,
}

impl<S> Tap<S> {
    /// The sink.
    pub closed spec fn held(&self) -> S {
        self.sink
    }

    /// The turns that the sink has had, in order.
    pub closed spec fn turns(&self) -> Seq<Turn<S>> {
        self.turns@
    }
}

impl<S: LogSink> Tap<S> {
    /// Holds a sink that has been offered nothing yet.
    pub fn new(sink: S) -> (t: Tap<S>)
        ensures
            t.held() == sink,
            t.turns() == Seq::<Turn<S>>::empty(),
    {
        Tap { sink, turns: Ghost(Seq::empty()) }
    }

    /// Offers a line to the sink: asks for its maximum level and passes the
    /// line exactly where that admits it. Returns what the sink replied.
    pub fn offer(&mut self, line: &[u8], level: Level) -> (r: Option<io::Result<()>>)
        ensures
            exists|max: Level|
                #![trigger call_ensures(S::max_level, (&old(self).held(),), max)]
                call_ensures(S::max_level, (&old(self).held(),), max) && (r is Some <==> passes(
                    level,
                    max,
                )) && final(self).turns() == old(self).turns().push(
                    (Turn {
                        before: old(self).held(),
                        after: final(self).held(),
                        heard: Heard { line: line@, level, max, reply: r },
                    }),
                ),
            r is None ==> final(self).held() == old(self).held(),
            r matches Some(reply) ==> exists|s: &mut S|
                #![trigger call_ensures(S::accept, (s, line, level), reply)]
                *s == old(self).held() && *final(s) == final(self).held() && call_ensures(
                    S::accept,
                    (s, line, level),
                    reply,
                ),
    {
        let ghost before = self.sink;
        let max: Level = self.sink.max_level();
        let r: Option<io::Result<()>> = if level <= max {
            Some(self.sink.accept(line, level))
        } else {
            None
        };
        proof {
            let turn = Turn {
                before,
                after: self.sink,
                heard: Heard { line: line@, level, max, reply: r },
            };
            self.turns@ = self.turns@.push(turn);
            assert(call_ensures(S::max_level, (&old(self).held(),), max));
            assert(self.turns() =~= old(self).turns().push(turn));
        }
        r
    }

    /// Offers a line to the sink, as [`Tap::offer`] does, and notes the call in
    /// `journal`.
    pub fn offer_in_turn(&mut self, line: &[u8], level: Level, journal: &mut Journal) -> (r: Option<
        io::Result<()>,
    >)
        ensures
            exists|max: Level|
                #![trigger call_ensures(S::max_level, (&old(self).held(),), max)]
                call_ensures(S::max_level, (&old(self).held(),), max) && (r is Some <==> passes(
                    level,
                    max,
                )) && final(self).turns() == old(self).turns().push(
                    (Turn {
                        before: old(self).held(),
                        after: final(self).held(),
                        heard: Heard { line: line@, level, max, reply: r },
                    }),
                ),
            r is None ==> final(self).held() == old(self).held(),
            r matches Some(reply) ==> exists|s: &mut S|
                #![trigger call_ensures(S::accept, (s, line, level), reply)]
                *s == old(self).held() && *final(s) == final(self).held() && call_ensures(
                    S::accept,
                    (s, line, level),
                    reply,
                ),
            final(journal)@ == old(journal)@.push(final(self).turns().last().heard),
    {
        let r: Option<io::Result<()>> = self.offer(line, level);
        proof {
            journal.heard@ = journal.heard@.push(self.turns().last().heard);
        }
        r
    }

    /// Flushes the sink.
    pub fn flush(&mut self) -> (r: io::Result<()>)
        ensures
            final(self).turns() == old(self).turns(),
            exists|s: &mut S|
                #![trigger call_ensures(S::flush, (s,), r)]
                *s == old(self).held() && *final(s) == final(self).held() && call_ensures(
                    S::flush,
                    (s,),
                    r,
                ),
    {
        self.sink.flush()
    }
}

} // verus!

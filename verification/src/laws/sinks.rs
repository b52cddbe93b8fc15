//! What sinks are given and what they write.

use crate::level::Level;
use crate::sink::console::ColorMode;
use crate::sink::fan_out::Entries;
use crate::sink::tap::{Heard, Turn};
use std::io;
use vstd::prelude::*;

verus! {

/// A console gets the line and a newline. Colored, the line stands between the
/// sequence that sets the color of its level and the one that resets it.
pub proof fn consoles_get_lines(line: Seq<u8>, level: Level)
    ensures
        crate::sink::console::rendered(line, level, false) == line + seq![0x0Au8],
        crate::sink::console::rendered(line, level, true) == crate::sink::console::color_sequence(level) + line + seq![0x1Bu8, 0x5Bu8, 0x30u8, 0x6Du8] + seq![0x0Au8],
        crate::sink::console::color_sequence(level) == seq![0x1Bu8, 0x5Bu8] + (match level {
            // Bright red, yellow, green, cyan and bright black.
            Level::Error => seq![0x39u8, 0x31u8],
            Level::Warn => seq![0x33u8, 0x33u8],
            Level::Info => seq![0x33u8, 0x32u8],
            Level::Debug => seq![0x33u8, 0x36u8],
            Level::Trace => seq![0x39u8, 0x30u8],
        })
            + seq![0x6Du8],
        crate::ascii::NEWLINE == 0x0A,
{
    let set = crate::sink::console::color_sequence(level);
    assert(set =~= seq![0x1Bu8, 0x5Bu8] + (match level {
            // Bright red, yellow, green, cyan and bright black.
            Level::Error => seq![0x39u8, 0x31u8],
            Level::Warn => seq![0x33u8, 0x33u8],
            Level::Info => seq![0x33u8, 0x32u8],
            Level::Debug => seq![0x33u8, 0x36u8],
            Level::Trace => seq![0x39u8, 0x30u8],
        }) + seq![0x6Du8]);
    assert(crate::sink::console::reset_code() =~= seq![0x1Bu8, 0x5Bu8, 0x30u8, 0x6Du8]);
}

/// Lines are always colored, never, or exactly where the stream is a terminal.
pub proof fn modes_color(terminal: bool)
    ensures
        crate::sink::console::colored(ColorMode::Always, terminal),
        !crate::sink::console::colored(ColorMode::Never, terminal),
        crate::sink::console::colored(ColorMode::Auto, terminal) == terminal,
{
}

/// What a sink heard is fair where the line was passed to it exactly where its level
/// admits it.
pub proof fn fair_is_by_level(heard: Heard)
    ensures
        heard.fair() <==> (heard.reply is Some <==> heard.level.byte() <= heard.max.byte()),
{
}

/// The errors of a sink are the errors that it replied, in order.
pub proof fn errors_follow(heard: Seq<Heard>, h: Heard, e: io::Error)
    ensures
        crate::sink::tap::errors_of(Seq::empty()) == Seq::<io::Error>::empty(),
        h.reply == Some::<io::Result<()>>(Err(e)) ==> crate::sink::tap::errors_of(heard.push(h))
            == crate::sink::tap::errors_of(heard).push(e),
        !(h.reply matches Some(Err(_))) ==> crate::sink::tap::errors_of(heard.push(h))
            == crate::sink::tap::errors_of(heard),
{
    assert(heard.push(h).drop_last() =~= heard);
}

/// Turns lead on where each starts as the one before it ended.
pub proof fn turns_follow<S>(first: S, turns: Seq<Turn<S>>, turn: Turn<S>, last: S)
    ensures
        crate::sink::tap::leads(first, Seq::<Turn<S>>::empty(), last) <==> first == last,
        crate::sink::tap::leads(first, turns.push(turn), last) <==> turn.after == last
            && crate::sink::tap::leads(first, turns, turn.before),
        crate::sink::tap::heard_in(turns.push(turn)) == crate::sink::tap::heard_in(turns).push(
            turn.heard,
        ),
        crate::sink::tap::heard_in(turns).len() == turns.len(),
{
    assert(turns.push(turn).drop_last() =~= turns);
    assert(crate::sink::tap::heard_in(turns.push(turn)) =~= crate::sink::tap::heard_in(turns).push(
        turn.heard,
    ));
}

/// What each sink of a list has heard last, in the order of the list.
pub proof fn last_is_last(heard: Seq<Seq<Heard>>, i: int)
    requires
        0 <= i < heard.len(),
    ensures
        crate::sink::fan_out::last_heard(heard).len() == heard.len(),
        crate::sink::fan_out::last_heard(heard)[i] == heard[i][heard[i].len() - 1],
{
}

/// A line is offered to every sink of a list once: each has heard the line at its
/// level behind what it had heard before, and was passed it exactly where the level
/// that it reported admits it.
pub proof fn lists_are_offered_once<E: crate::sink::fan_out::Entries>(
    before: E,
    after: E,
    line: Seq<u8>,
    level: Level,
    i: int,
)
    requires
        crate::sink::fan_out::dispatched(before, after, line, level),
        0 <= i < before.heard().len(),
    ensures
        after.heard().len() == before.heard().len(),
        after.heard()[i].len() == before.heard()[i].len() + 1,
        after.heard()[i].take(before.heard()[i].len() as int) == before.heard()[i],
        ({
            let h = after.heard()[i][before.heard()[i].len() as int];
            &&& h.line == line
            &&& h.level == level
            &&& h.reply is Some <==> level.byte() <= h.max.byte()
            &&& before.may_report(i, h.max)
        }),
{
    assert(crate::sink::fan_out::dispatched_to(before, i, after.heard()[i], line, level));
    assert(after.heard()[i].take(before.heard()[i].len() as int) =~= before.heard()[i]);
}

/// A list of sinks speaks of each of its sinks, in the order in which they were added.
pub proof fn lists_speak_of_each<E: crate::sink::fan_out::Entries, S: crate::sink::LogSink>(
    list: E,
    tap: crate::sink::Tap<S>,
    i: int,
    max: Level,
)
    ensures
        ({
            let both = (list, tap);
            let n = list.heard().len();
            &&& both.heard().len() == n + 1
            &&& 0 <= i < n ==> both.heard()[i] == list.heard()[i]
            &&& both.heard()[n as int] == crate::sink::tap::heard_in(tap.turns())
            &&& 0 <= i < n ==> both.may_report(i, max) == list.may_report(i, max)
            &&& both.may_report(n as int, max) == call_ensures(
                S::max_level,
                (&tap.held(),),
                max,
            )
        }),
{
}

/// A growing buffer takes every write and keeps it.
pub proof fn buffers_keep_what_is_written(buf: Vec<u8>)
    ensures
        <Vec<u8> as crate::sink::writer::Output>::infallible(),
        crate::sink::writer::Output::written(&buf) == buf@,
{
}

} // verus!

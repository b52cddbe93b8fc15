//! Levels, and what they let through.

use crate::level::Level;
use core::cmp::Ordering;
use vstd::prelude::*;
use vstd::string::*;

verus! {

/// Levels are numbered by severity, and a number stands for a level exactly where
/// it is that of one.
pub proof fn levels_are_numbered(level: Level, b: u8)
    ensures
        Level::Error.byte() == 1,
        Level::Warn.byte() == 2,
        Level::Info.byte() == 3,
        Level::Debug.byte() == 4,
        Level::Trace.byte() == 5,
        Level::of_byte(b) == Some(level) <==> b == level.byte(),
        Level::of_byte(b) is None <==> b == 0 || b > 5,
{
}

/// Levels compare by severity, the most severe first.
pub proof fn levels_compare(a: Level, b: Level)
    ensures
        ({
            let order = vstd::std_specs::cmp::PartialOrdSpec::partial_cmp_spec(&a, &b);
            &&& a.byte() < b.byte() ==> order == Some(Ordering::Less)
            &&& a == b ==> order == Some(Ordering::Equal)
            &&& a.byte() > b.byte() ==> order == Some(Ordering::Greater)
        }),
{
}

/// Each level goes by its name.
pub proof fn levels_are_named(level: Level)
    ensures
        level == Level::Error ==> level.name() == "ERROR"@,
        level == Level::Warn ==> level.name() == "WARN"@,
        level == Level::Info ==> level.name() == "INFO"@,
        level == Level::Debug ==> level.name() == "DEBUG"@,
        level == Level::Trace ==> level.name() == "TRACE"@,
{
}

/// Under a ceiling a record is logged exactly where its level is at least as
/// severe, and without one nothing is.
pub proof fn ceilings_hold(level: Level, ceiling: Level)
    ensures
        crate::log::admitted(level, Some(ceiling)) <==> level.byte() <= ceiling.byte(),
        crate::log::admitted(level, Some(Level::Error)) <==> level == Level::Error,
        crate::log::admitted(level, Some(Level::Warn)) <==> level == Level::Error || level
            == Level::Warn,
        crate::log::admitted(level, Some(Level::Info)) <==> level != Level::Debug && level
            != Level::Trace,
        crate::log::admitted(level, Some(Level::Debug)) <==> level != Level::Trace,
        crate::log::admitted(level, Some(Level::Trace)),
        !crate::log::admitted(level, None),
{
}

/// A sink is passed a record exactly where the level is at least as severe as the
/// maximum level that it reports.
pub proof fn sinks_are_limited(level: Level, max: Level)
    ensures
        crate::sink::tap::passes(level, max) <==> level.byte() <= max.byte(),
        crate::sink::tap::passes(level, Level::Error) <==> level == Level::Error,
        crate::sink::tap::passes(level, Level::Warn) <==> level == Level::Error || level
            == Level::Warn,
        crate::sink::tap::passes(level, Level::Info) <==> level != Level::Debug && level
            != Level::Trace,
        crate::sink::tap::passes(level, Level::Debug) <==> level != Level::Trace,
        crate::sink::tap::passes(level, Level::Trace),
{
}

} // verus!

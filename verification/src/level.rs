//! Severity levels.

use core::cmp::Ordering;
use vstd::prelude::*;
use vstd::string::*;

verus! {

/// The severity of a log message, ordered from most severe
/// ([`Error`](Level::Error)) to least severe ([`Trace`](Level::Trace)).
#[derive(Clone, Copy, Debug, PartialEq, Eq, Ord, Structural)]
pub enum Level {
    /// A serious failure.
    Error,
    /// A recoverable problem or unexpected condition.
    Warn,
    /// A normal, noteworthy event.
    Info,
    /// Detailed information useful while debugging.
    Debug,
    /// Very fine-grained tracing.
    Trace,
}

impl Level {
    /// The byte that stands for the level: `1` for the most severe.
    pub open spec fn byte(self) -> u8 {
        match self {
            Level::Error => 1,
            Level::Warn => 2,
            Level::Info => 3,
            Level::Debug => 4,
            Level::Trace => 5,
        }
    }

    /// The name of the level.
    pub open spec fn name(self) -> Seq<char> {
        match self {
            Level::Error => "ERROR"@,
            Level::Warn => "WARN"@,
            Level::Info => "INFO"@,
            Level::Debug => "DEBUG"@,
            Level::Trace => "TRACE"@,
        }
    }

    /// The level that a byte stands for.
    pub open spec fn of_byte(b: u8) -> Option<Level> {
        if b == 1 {
            Some(Level::Error)
        } else if b == 2 {
            Some(Level::Warn)
        } else if b == 3 {
            Some(Level::Info)
        } else if b == 4 {
            Some(Level::Debug)
        } else if b == 5 {
            Some(Level::Trace)
        } else {
            None
        }
    }

    /// Returns the static string representation of this level.
    pub fn as_str(self) -> (r: &'static str)
        ensures
            r@ == self.name(),
    {
        match self {
            Level::Error => "ERROR",
            Level::Warn => "WARN",
            Level::Info => "INFO",
            Level::Debug => "DEBUG",
            Level::Trace => "TRACE",
        }
    }

    /// Returns the name of this level as an owned string.
    pub fn to_string(&self) -> (r: String)
        ensures
            r@ == self.name(),
    {
        self.as_str().to_owned()
    }

    /// Returns the `u8` that stands for this level.
    pub fn to_u8(self) -> (r: u8)
        ensures
            r == self.byte(),
    {
        match self {
            Level::Error => 1,
            Level::Warn => 2,
            Level::Info => 3,
            Level::Debug => 4,
            Level::Trace => 5,
        }
    }

    /// Convert from a `u8` value. Returns `None` for values outside `1..=5`.
    pub fn from_u8(b: u8) -> (r: Option<Level>)
        ensures
            r == Level::of_byte(b),
    {
        match b {
            1 => Some(Level::Error),
            2 => Some(Level::Warn),
            3 => Some(Level::Info),
            4 => Some(Level::Debug),
            5 => Some(Level::Trace),
            _ => None,
        }
    }
}

impl PartialOrd for Level {
    fn partial_cmp(&self, other: &Level) -> (r: Option<Ordering>) {
        let a: u8 = self.to_u8();
        let b: u8 = other.to_u8();
        if a < b {
            Some(Ordering::Less)
        } else if a == b {
            Some(Ordering::Equal)
        } else {
            Some(Ordering::Greater)
        }
    }
}

impl vstd::std_specs::cmp::PartialOrdSpecImpl for Level {
    open spec fn obeys_partial_cmp_spec() -> bool {
        true
    }

    open spec fn partial_cmp_spec(&self, other: &Level) -> Option<Ordering> {
        if self.byte() < other.byte() {
            Some(Ordering::Less)
        } else if self.byte() == other.byte() {
            Some(Ordering::Equal)
        } else {
            Some(Ordering::Greater)
        }
    }
}

/// A level survives its byte, only the bytes `1..=5` stand for levels, and no
/// two levels share one.
pub proof fn level_round_trip(level: Level, b: u8)
    ensures
        Level::of_byte(level.byte()) == Some(level),
        Level::of_byte(b) is Some <==> 1 <= b <= 5,
        Level::of_byte(b) matches Some(l) ==> l.byte() == b,
{
}

} // verus!

//! Traits and adapters for log output destinations.
//!
//! A [`LogSink`] is the final recipient of formatted log lines. There are two
//! concrete sinks, [`ConsoleSink`] and [`WriterSink`], a level-filtering
//! adapter ([`WithLevel`]) and a multi-sink fan-out ([`FanOut`]).

use crate::level::Level;
use std::io;
use vstd::prelude::*;

pub mod console;
pub mod fan_out;
pub mod tap;
pub mod writer;

pub use console::{ColorMode, ConsoleSink};
pub use fan_out::FanOut;
pub use tap::{Journal, Tap};
pub use writer::WriterSink;

verus! {

/// std's I/O error. What it holds is not modelled.
#[verifier::external_type_specification]
#[verifier::external_body]
pub struct ExIoError(std::io::Error);

/// A destination for formatted log lines.
///
/// The `line` passed to [`accept`](LogSink::accept) has no trailing newline.
/// To use a byte output as a sink, wrap it in [`WriterSink`].
pub trait LogSink: Send + 'static {
    /// Writes a formatted log line to this sink.
    ///
    /// `line` is valid UTF-8, as the line of every record is whose format string
    /// validates. No trailing newline is included; sinks that
    /// require one must append it.
    fn accept(&mut self, line: &[u8], level: Level) -> (r: io::Result<()>);

    /// Maximum [`Level`] this sink accepts.
    ///
    /// Records with a level strictly greater than this value are not passed
    /// to [`accept`](LogSink::accept). The default is [`Level::Trace`]
    /// (accepts all levels).
    fn max_level(&self) -> (r: Level)
        default_ensures
            r == Level::Trace,
    {
        Level::Trace
    }

    /// Flushes any buffered output to the underlying destination.
    ///
    /// Called when logging goes idle and once more at shutdown, so a buffered
    /// sink never holds a record indefinitely. The default is a no-op, for
    /// sinks that do not buffer.
    fn flush(&mut self) -> (r: io::Result<()>)
        default_ensures
            r is Ok,
    {
        Ok(())
    }
}

/// A [`LogSink`] adapter that overrides the maximum level of an inner sink.
pub struct WithLevel<S> {
    pub sink: S,
    pub level: Level,
}

impl<S: LogSink> LogSink for WithLevel<S> {
    fn accept(&mut self, line: &[u8], level: Level) -> (r: io::Result<()>)
        ensures
            final(self).level == old(self).level,
            exists|s: &mut S|
                #![auto]
                *s == old(self).sink && *final(s) == final(self).sink && call_ensures(
                    S::accept,
                    (s, line, level),
                    r,
                ),
    {
        self.sink.accept(line, level)
    }

    fn max_level(&self) -> (r: Level)
        ensures
            r == self.level,
    {
        self.level
    }

    fn flush(&mut self) -> (r: io::Result<()>)
        ensures
            final(self).level == old(self).level,
            exists|s: &mut S|
                #![auto]
                *s == old(self).sink && *final(s) == final(self).sink && call_ensures(
                    S::flush,
                    (s,),
                    r,
                ),
    {
        self.sink.flush()
    }
}

/// Extension trait for [`LogSink`] providing per-sink level filtering.
pub trait LogSinkExt: LogSink + Sized {
    /// Wraps this sink in a [`WithLevel`] adapter that limits accepted
    /// records to `level` and below.
    fn with_max_level(self, level: Level) -> (r: WithLevel<Self>)
        ensures
            r.sink == self,
            r.level == level,
    {
        WithLevel { sink: self, level }
    }
}

impl<T: LogSink + Sized> LogSinkExt for T {

}

} // verus!

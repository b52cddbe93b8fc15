//! [`ConsoleSink`]: writes log lines to a stream, optionally colored by level.
//!
//! Colors are applied per level via ANSI SGR codes; [`ColorMode::Auto`] (the
//! default) enables them only when the stream is a terminal, so redirected
//! output stays plain.

use super::writer::Output;
use super::LogSink;
use crate::ascii::{BRACKET_OPEN, NEWLINE};
use crate::level::Level;
use crate::text::push_bytes;
use std::io;
use vstd::prelude::*;

verus! {

/// The byte that starts an ANSI escape sequence.
pub const ESCAPE: u8 = 0x1B;

/// The byte that ends an ANSI SGR sequence.
pub const SGR_END: u8 = 0x6D;

/// The ANSI SGR reset sequence, which follows a colored line.
pub open spec fn reset_code() -> Seq<u8> {
    seq![ESCAPE, BRACKET_OPEN, 0x30, SGR_END]
}

/// The ANSI SGR code of a level's color: bright red, yellow, green, cyan,
/// bright black.
pub open spec fn color_number(level: Level) -> (u8, u8) {
    match level {
        Level::Error => (0x39, 0x31),
        Level::Warn => (0x33, 0x33),
        Level::Info => (0x33, 0x32),
        Level::Debug => (0x33, 0x36),
        Level::Trace => (0x39, 0x30),
    }
}

/// The ANSI SGR sequence that sets a level's color.
pub open spec fn color_sequence(level: Level) -> Seq<u8> {
    let (tens, ones) = color_number(level);
    seq![ESCAPE, BRACKET_OPEN, tens, ones, SGR_END]
}

/// A line as it goes to the stream.
pub open spec fn rendered(line: Seq<u8>, level: Level, color: bool) -> Seq<u8> {
    if color {
        color_sequence(level) + line + reset_code() + seq![NEWLINE]
    } else {
        line + seq![NEWLINE]
    }
}

/// No two levels share a color.
pub proof fn colors_differ(a: Level, b: Level)
    requires
        a != b,
    ensures
        color_sequence(a) != color_sequence(b),
{
    assert(color_sequence(a)[2] != color_sequence(b)[2] || color_sequence(a)[3] != color_sequence(
        b,
    )[3]);
}

/// Returns the ANSI SGR color-set sequence for `level`: ERROR bright red, WARN
/// yellow, INFO green, DEBUG cyan, TRACE bright black (gray).
pub fn color_code(level: Level) -> (r: [u8; 5])
    ensures
        r@ == color_sequence(level),
{
    let (tens, ones): (u8, u8) = match level {
        Level::Error => (0x39, 0x31),
        Level::Warn => (0x33, 0x33),
        Level::Info => (0x33, 0x32),
        Level::Debug => (0x33, 0x36),
        Level::Trace => (0x39, 0x30),
    };
    let r: [u8; 5] = [ESCAPE, BRACKET_OPEN, tens, ones, SGR_END];
    assert(r@ =~= color_sequence(level));
    r
}

/// When [`ConsoleSink`] applies ANSI colors.
#[derive(Debug, Clone, Copy, PartialEq, Eq, Structural)]
pub enum ColorMode {
    /// Color only when the target stream is a terminal (the default).
    Auto,
    /// Always color, even when the stream is redirected to a file or pipe.
    Always,
    /// Never color.
    Never,
}

impl Default for ColorMode {
    fn default() -> (r: Self)
        ensures
            r == ColorMode::Auto,
    {
        ColorMode::Auto
    }
}

/// Whether a mode colors a stream.
pub open spec fn colored(mode: ColorMode, terminal: bool) -> bool {
    match mode {
        ColorMode::Always => true,
        ColorMode::Never => false,
        ColorMode::Auto => terminal,
    }
}

/// Resolves a [`ColorMode`] against a stream's terminal status into a concrete
/// on/off decision.
pub fn resolve(mode: ColorMode, terminal: bool) -> (r: bool)
    ensures
        r == colored(mode, terminal),
{
    match mode {
        ColorMode::Always => true,
        ColorMode::Never => false,
        ColorMode::Auto => terminal,
    }
}

/// Renders one log line into `out`: an optional color prefix, the line bytes,
/// an optional reset, and a trailing newline. `out` is cleared first.
pub fn render(line: &[u8], level: Level, color: bool, out: &mut Vec<u8>)
    ensures
        final(out)@ == rendered(line@, level, color),
{
    out.clear();
    if color {
        let code: [u8; 5] = color_code(level);
        let reset: [u8; 4] = [ESCAPE, BRACKET_OPEN, 0x30, SGR_END];
        push_bytes(out, &code);
        push_bytes(out, line);
        push_bytes(out, &reset);
        assert(reset@ =~= reset_code());
        assert(out@ =~= color_sequence(level) + line@ + reset_code());
    } else {
        push_bytes(out, line);
        assert(out@ =~= line@);
    }
    out.push(NEWLINE);
    assert(out@ =~= rendered(line@, level, color));
}

/// A [`LogSink`] that writes to a console stream, optionally coloring each line
/// by its level.
pub struct ConsoleSink<W> {
    pub stream: W,
    /// Whether the stream is a terminal.
    pub terminal: bool,
    pub mode: ColorMode,
    /// Resolved color decision, computed from `mode` and `terminal` whenever
    /// one of them is set, so it does not repeat on every line.
    pub use_color: bool,
    /// Reused render scratch, so a colored line costs no per-record allocation.
    pub buf: Vec<u8>,
}

impl<W: Output> ConsoleSink<W> {
    /// Creates a console sink that writes to `stream` and colors it if it is a
    /// terminal.
    pub fn with_stream(stream: W, terminal: bool) -> (r: Self)
        ensures
            r.stream == stream,
            r.terminal == terminal,
            r.mode == ColorMode::Auto,
            r.use_color == colored(ColorMode::Auto, terminal),
    {
        let use_color: bool = resolve(ColorMode::Auto, terminal);
        ConsoleSink {
            stream,
            terminal,
            mode: ColorMode::Auto,
            use_color,
            buf: Vec::new(),
        }
    }

    /// Sets when ANSI colors are applied. Default: [`ColorMode::Auto`].
    pub fn with_color(self, mode: ColorMode) -> (r: Self)
        ensures
            r.mode == mode,
            r.use_color == colored(mode, self.terminal),
            r.stream == self.stream,
            r.terminal == self.terminal,
    {
        let use_color: bool = resolve(mode, self.terminal);
        ConsoleSink {
            stream: self.stream,
            terminal: self.terminal,
            mode,
            use_color,
            buf: self.buf,
        }
    }
}

impl<W: Output> LogSink for ConsoleSink<W> {
    fn accept(&mut self, line: &[u8], level: Level) -> (r: io::Result<()>)
        ensures
            W::infallible() ==> r is Ok && final(self).stream.written() == old(
                self,
            ).stream.written() + rendered(line@, level, old(self).use_color),
            exists|w: &mut W, bytes: &[u8]|
                #![trigger call_ensures(W::write_all, (w, bytes), r)]
                *w == old(self).stream && *final(w) == final(self).stream && bytes@ == rendered(
                    line@,
                    level,
                    old(self).use_color,
                ) && call_ensures(W::write_all, (w, bytes), r),
            final(self).terminal == old(self).terminal,
            final(self).mode == old(self).mode,
            final(self).use_color == old(self).use_color,
    {
        render(line, level, self.use_color, &mut self.buf);
        self.stream.write_all(self.buf.as_slice())
    }

    fn flush(&mut self) -> (r: io::Result<()>)
        ensures
            W::infallible() ==> r is Ok && final(self).stream.written() == old(
                self,
            ).stream.written(),
            exists|w: &mut W|
                #![auto]
                *w == old(self).stream && *final(w) == final(self).stream && call_ensures(
                    W::flush,
                    (w,),
                    r,
                ),
    {
        self.stream.flush()
    }
}

} // verus!

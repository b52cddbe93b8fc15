//! [`WriterSink`]: adapts a byte output into a [`LogSink`].

use super::LogSink;
use crate::ascii::NEWLINE;
use crate::level::Level;
use std::io;
use vstd::prelude::*;

verus! {

/// A destination for bytes, such as a file, a socket or a growing buffer.
pub trait Output: Send + 'static {
    /// Whether the output takes every write and keeps what was written. Of an
    /// output that does not say so, nothing more is claimed.
    closed spec fn infallible() -> bool {
        false
    }

    /// The bytes that an infallible output was given, in order.
    closed spec fn written(&self) -> Seq<u8> {
        Seq::empty()
    }

    /// Writes all of `bytes`.
    fn write_all(&mut self, bytes: &[u8]) -> (r: io::Result<()>)
        ensures
            Self::infallible() ==> r is Ok && final(self).written() == old(self).written() + bytes@,
    ;

    /// Flushes what the output buffers.
    fn flush(&mut self) -> (r: io::Result<()>)
        ensures
            Self::infallible() ==> r is Ok && final(self).written() == old(self).written(),
    ;
}

impl Output for Vec<u8> {
    open spec fn written(&self) -> Seq<u8> {
        self@
    }

    open spec fn infallible() -> bool {
        true
    }

    fn write_all(&mut self, bytes: &[u8]) -> (r: io::Result<()>) {
        crate::text::push_bytes(self, bytes);
        Ok(())
    }

    fn flush(&mut self) -> (r: io::Result<()>) {
        Ok(())
    }
}

/// A [`LogSink`] that forwards each line, plus a trailing newline, to a wrapped
/// [`Output`].
///
/// The wrapper adds no buffering of its own; the wrapped output is written
/// straight through.
pub struct WriterSink<W> {
    pub writer: W,
}

impl<W: Output> WriterSink<W> {
    /// Wraps `writer` as a [`LogSink`].
    pub fn new(writer: W) -> (r: Self)
        ensures
            r.writer == writer,
    {
        WriterSink { writer }
    }
}

impl<W: Output> LogSink for WriterSink<W> {
    fn accept(&mut self, line: &[u8], level: Level) -> (r: io::Result<()>)
        ensures
            W::infallible() ==> r is Ok && final(self).writer.written() == old(
                self,
            ).writer.written() + line@ + seq![NEWLINE],
            // Where the line is refused, the newline is not written.
            exists|w: &mut W, first: io::Result<()>| #[trigger]
                call_ensures(W::write_all, (w, line), first) && *w == old(self).writer
                    && if first is Err {
                    r == first && *final(w) == final(self).writer
                } else {
                    exists|v: &mut W, newline: &[u8]| #[trigger]
                        call_ensures(W::write_all, (v, newline), r) && *v == *final(w) && *final(v)
                            == final(self).writer && newline@ == seq![NEWLINE]
                },
    {
        let newline: [u8; 1] = [NEWLINE];
        assert(newline@ =~= seq![NEWLINE]);
        match self.writer.write_all(line) {
            Ok(_) => self.writer.write_all(&newline),
            Err(e) => Err(e),
        }
    }

    fn flush(&mut self) -> (r: io::Result<()>)
        ensures
            W::infallible() ==> r is Ok && final(self).writer.written() == old(
                self,
            ).writer.written(),
            exists|w: &mut W|
                #![auto]
                *w == old(self).writer && *final(w) == final(self).writer && call_ensures(
                    W::flush,
                    (w,),
                    r,
                ),
    {
        self.writer.flush()
    }
}

} // verus!

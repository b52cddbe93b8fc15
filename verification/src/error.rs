//! Errors returned by ticklog operations.

use crate::text::{append_decimal, append_signed_decimal};
use std::io;
use vstd::prelude::*;
use vstd::string::*;

verus! {

/// Errors returned by ticklog operations.
#[derive(Debug)]
#[non_exhaustive]
pub enum TicklogError {
    /// Logger has not been initialized.
    NotInitialized,
    /// Logger has already been initialized.
    AlreadyInitialized,
    /// Drain thread could not be spawned.
    DrainSpawnFailed(io::Error),
    /// Sink write failed.
    SinkWriteFailed(io::Error),
    /// A configured timezone offset was outside the valid range of
    /// [-43200, 50400] seconds (UTC-12:00 to UTC+14:00).
    InvalidTimezoneOffset(i32),
    /// A configured ring size was not a power of two or was below the minimum.
    InvalidRingSize(usize),
    /// A configured log-line pattern was malformed; the text says how.
    InvalidFormatPattern(String),
}

/// The text of an I/O error, as its `Display` impl writes it. Nothing is
/// claimed of it: an error of the operating system reads as that words it.
#[verifier::external_body]
fn io_error_text(e: &io::Error) -> (r: String) {
    e.to_string()
}

/// Whether `text` is what the `Display` impl of `e` may write.
pub closed spec fn reads_as(e: &io::Error, text: String) -> bool {
    call_ensures(io_error_text, (e,), text)
}

impl TicklogError {
    /// The message of the error, where `cause` is the text of the I/O error
    /// that it wraps.
    pub open spec fn message(&self, cause: Seq<char>) -> Seq<char> {
        match self {
            TicklogError::NotInitialized => "ticklog has not been initialized"@,
            TicklogError::AlreadyInitialized => "ticklog has already been initialized"@,
            TicklogError::DrainSpawnFailed(_) => "failed to spawn drain thread: "@ + cause,
            TicklogError::SinkWriteFailed(_) => "sink write failed: "@ + cause,
            TicklogError::InvalidTimezoneOffset(secs) => "invalid timezone offset: "@
                + crate::text::signed_decimal_chars(*secs as int)
                + " seconds is outside [-43200, 50400]"@,
            TicklogError::InvalidRingSize(size) => "invalid ring size: "@
                + crate::text::decimal_chars(*size as nat)
                + " bytes is not a power of two of at least 131072"@,
            TicklogError::InvalidFormatPattern(fault) => "invalid format pattern: "@ + fault@,
        }
    }

    /// Whether the error wraps an I/O error.
    pub open spec fn wraps_io(&self) -> bool {
        self is DrainSpawnFailed || self is SinkWriteFailed
    }

    /// Writes the message of the error, where `cause` is the text of the I/O
    /// error that it wraps.
    pub fn render(&self, cause: &str) -> (r: String)
        ensures
            r@ == self.message(cause@),
    {
        let mut r: String = String::new();
        match self {
            TicklogError::NotInitialized => {
                r.append("ticklog has not been initialized");
            },
            TicklogError::AlreadyInitialized => {
                r.append("ticklog has already been initialized");
            },
            TicklogError::DrainSpawnFailed(_) => {
                r.append("failed to spawn drain thread: ");
                r.append(cause);
            },
            TicklogError::SinkWriteFailed(_) => {
                r.append("sink write failed: ");
                r.append(cause);
            },
            TicklogError::InvalidTimezoneOffset(secs) => {
                r.append("invalid timezone offset: ");
                append_signed_decimal(&mut r, *secs);
                r.append(" seconds is outside [-43200, 50400]");
            },
            TicklogError::InvalidRingSize(size) => {
                r.append("invalid ring size: ");
                append_decimal(&mut r, *size as u64);
                r.append(" bytes is not a power of two of at least 131072");
            },
            TicklogError::InvalidFormatPattern(fault) => {
                r.append("invalid format pattern: ");
                r.append(fault.as_str());
            },
        }
        assert(r@ =~= self.message(cause@));
        r
    }

    /// Writes the message of the error, with the text of the I/O error that it
    /// wraps.
    pub fn to_string(&self) -> (r: String)
        ensures
            self matches TicklogError::DrainSpawnFailed(e) ==> exists|cause: String| #[trigger]
                reads_as(e, cause) && r@ == self.message(cause@),
            self matches TicklogError::SinkWriteFailed(e) ==> exists|cause: String| #[trigger]
                reads_as(e, cause) && r@ == self.message(cause@),
            !self.wraps_io() ==> forall|cause: Seq<char>| r@ == #[trigger] self.message(cause),
    {
        match self.source() {
            Some(e) => {
                let cause: String = io_error_text(e);
                assert(reads_as(e, cause));
                self.render(cause.as_str())
            },
            None => self.render(""),
        }
    }

    /// The I/O error that the error wraps.
    pub fn source(&self) -> (r: Option<&io::Error>)
        ensures
            r is Some <==> self.wraps_io(),
            self matches TicklogError::DrainSpawnFailed(e) ==> r == Some(e),
            self matches TicklogError::SinkWriteFailed(e) ==> r == Some(e),
    {
        match self {
            TicklogError::DrainSpawnFailed(e) => Some(e),
            TicklogError::SinkWriteFailed(e) => Some(e),
            _ => None,
        }
    }
}

} // verus!

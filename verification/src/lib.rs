//! Ticklog is a fast, minimal logging library for latency-critical
//! applications, where the cost of a log call on the hot path must stay small.
//!
//! # How it works
//!
//! A logging call runs entirely on the calling thread: it checks the level
//! ([`log::enabled`]), then encodes a compact binary record into that thread's
//! ring ([`log::dispatch`]) and returns. Format and source strings are referred
//! to and arguments are stored in their native form, so no text formatting
//! happens here.
//!
//! The drain does the rest ([`drain::Drain`]): it decodes each record, formats
//! and timestamps it, and hands the text to a [`LogSink`].
//!
//! This crate holds the logic. What it needs from its surroundings comes in as
//! values and functions: counter readings and their conversion to wall-clock
//! time, the text of floats, the bytes of a stream.

pub mod affinity;
pub mod ascii;
pub mod bench;
pub mod builder;
pub mod cursor;
pub mod decode;
pub mod drain;
pub mod encode;
pub mod error;
pub mod format;
pub mod laws;
pub mod le;
pub mod level;
pub mod log;
pub mod message;
pub mod pacing;
pub mod pattern;
pub mod record;
pub mod ring;
mod sealed;
pub mod sink;
pub mod strings;
pub mod text;
pub mod thread_buf;
pub mod timestamp;

pub use builder::Backpressure;
pub use error::TicklogError;
pub use level::Level;
pub use sink::{ColorMode, ConsoleSink, FanOut, LogSink, LogSinkExt, WithLevel, WriterSink};
pub use thread_buf::warm_up;

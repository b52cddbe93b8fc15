//! What the library promises, stated in bytes and numbers.
//!
//! The functions of the library are specified by spec functions that say how a
//! result is made. The laws here say what the results are for: each relates
//! inputs and results directly, so that it can be read without knowing how a
//! result is made.

pub mod draining;
pub mod faults;
pub mod fields;
pub mod grammar;
pub mod harness;
pub mod levels;
pub mod lines;
pub mod logging;
pub mod messages;
pub mod numbers;
pub mod patterns;
pub mod records;
pub mod rings;
pub mod settings;
pub mod sinks;
pub mod times;

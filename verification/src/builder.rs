//! Validation of the logger configuration.

use crate::decode::Layout;
use crate::error::TicklogError;
use crate::pattern::DEFAULT_LINE_PATTERN;
use crate::ring::{DEFAULT_RING_SIZE, MIN_RING_SIZE};
use vstd::arithmetic::power2::*;
use vstd::prelude::*;
use vstd::string::*;

verus! {

/// Minimum valid timezone offset in seconds east of UTC (UTC-12:00).
pub const MIN_TZ_OFFSET: i32 = -43_200;

/// Maximum valid timezone offset in seconds east of UTC (UTC+14:00).
pub const MAX_TZ_OFFSET: i32 = 50_400;

/// What a logging thread does when its buffer is full.
#[derive(Debug, Clone, Copy, PartialEq, Eq, Structural)]
#[non_exhaustive]
pub enum Backpressure {
    /// Discard the record and return immediately, never blocking the caller.
    /// This is the default.
    Drop,
    /// Spin until space frees up. Never drops records, but burns CPU while the
    /// buffer stays full. Useful for debugging and tests.
    Block,
}

/// Whether `n` is a power of two.
pub open spec fn is_power_of_two(n: nat) -> bool {
    exists|k: nat| n == #[trigger] pow2(k)
}

/// Whether a ring may have `size` bytes.
pub open spec fn valid_ring_size(size: usize) -> bool {
    is_power_of_two(size as nat) && size >= MIN_RING_SIZE
}

/// Whether `n` is a power of two.
fn power_of_two(n: usize) -> (r: bool)
    ensures
        r == is_power_of_two(n as nat),
{
    let mut p: usize = 1;
    let ghost mut k: nat = 0;
    proof {
        lemma2_to64();
    }
    while p < n && p <= usize::MAX / 2
        invariant
            p == pow2(k),
            p >= 1,
            forall|j: nat| j < k ==> #[trigger] pow2(j) < n,
        decreases usize::MAX - p,
    {
        proof {
            lemma_pow2_unfold(k + 1);
            assert forall|j: nat| j < k + 1 implies #[trigger] pow2(j) < n by {}
            k = k + 1;
        }
        p = p * 2;
    }
    proof {
        if p != n {
            assert forall|j: nat| n != #[trigger] pow2(j) by {
                if j > k {
                    lemma_pow2_strictly_increases(k, j);
                    lemma_pow2_unfold(k + 1);
                    if j > k + 1 {
                        lemma_pow2_strictly_increases(k + 1, j);
                    }
                }
            }
        }
    }
    p == n
}

/// Rejects ring sizes that are not a power of two or cannot admit a max-size
/// record. See [`MIN_RING_SIZE`] for the bound.
pub fn validate_ring_size(ring_size: usize) -> (r: Result<(), TicklogError>)
    ensures
        if valid_ring_size(ring_size) {
            r is Ok
        } else {
            r matches Err(e) && e == TicklogError::InvalidRingSize(ring_size)
        },
{
    if !power_of_two(ring_size) || ring_size < MIN_RING_SIZE {
        return Err(TicklogError::InvalidRingSize(ring_size));
    }
    Ok(())
}

/// Rejects timezone offsets outside the valid range of [-43200, 50400] seconds
/// (UTC-12:00 to UTC+14:00).
pub fn validate_timezone_offset(offset: i32) -> (r: Result<(), TicklogError>)
    ensures
        if MIN_TZ_OFFSET <= offset <= MAX_TZ_OFFSET {
            r is Ok
        } else {
            r matches Err(e) && e == TicklogError::InvalidTimezoneOffset(offset)
        },
{
    if offset < MIN_TZ_OFFSET || offset > MAX_TZ_OFFSET {
        return Err(TicklogError::InvalidTimezoneOffset(offset));
    }
    Ok(())
}

/// The pattern that a configuration asks for: an empty one stands for the
/// default.
pub open spec fn effective_pattern(format: Seq<char>) -> Seq<char> {
    if format.len() == 0 {
        DEFAULT_LINE_PATTERN@
    } else {
        format
    }
}

/// Checks a configuration before the logger starts: the timezone offset, then
/// the ring size, then the log-line pattern, and last that the logger has not
/// been initialized yet. Nothing is claimed before all of it holds. Returns the
/// layout of the log lines.
pub fn check_config(
    timezone_offset: i32,
    ring_size: usize,
    format: &str,
    initialized: bool,
) -> (r: Result<Layout, TicklogError>)
    ensures
        if !(MIN_TZ_OFFSET <= timezone_offset <= MAX_TZ_OFFSET) {
            r matches Err(e) && e == TicklogError::InvalidTimezoneOffset(timezone_offset)
        } else if !valid_ring_size(ring_size) {
            r matches Err(e) && e == TicklogError::InvalidRingSize(ring_size)
        } else {
            match crate::pattern::pattern_fault(
                vstd::utf8::encode_utf8(effective_pattern(format@)),
            ) {
                Some(f) => r matches Err(TicklogError::InvalidFormatPattern(text)) && text@
                    == f.text(),
                None => if initialized {
                    r matches Err(e) && e is AlreadyInitialized
                } else {
                    r matches Ok(Layout::Pattern(pattern)) && pattern@ == effective_pattern(format@)
                },
            }
        },
        r matches Ok(layout) ==> layout.valid(),
        // The default pattern is never refused.
        format@.len() == 0 ==> !(r matches Err(TicklogError::InvalidFormatPattern(_))),
{
    proof {
        crate::pattern::default_line(arbitrary());
    }
    match validate_timezone_offset(timezone_offset) {
        Err(e) => return Err(e),
        Ok(_) => {},
    }
    match validate_ring_size(ring_size) {
        Err(e) => return Err(e),
        Ok(_) => {},
    }
    let pattern: &str = if format.is_empty() {
        DEFAULT_LINE_PATTERN
    } else {
        format
    };
    let layout: Layout = match Layout::parse(pattern) {
        Err(e) => return Err(e),
        Ok(layout) => layout,
    };
    if initialized {
        return Err(TicklogError::AlreadyInitialized);
    }
    Ok(layout)
}

/// The smallest and the default ring size are valid.
pub proof fn default_ring_size_is_valid()
    ensures
        valid_ring_size(MIN_RING_SIZE),
        valid_ring_size(DEFAULT_RING_SIZE),
{
    lemma2_to64();
    assert(MIN_RING_SIZE == pow2(17));
    assert(DEFAULT_RING_SIZE == pow2(20));
}

/// A valid ring size is one that a ring can be created with.
pub proof fn valid_sizes_fit_rings(size: usize)
    requires
        valid_ring_size(size),
    ensures
        size >= MIN_RING_SIZE,
        size % 64 == 0,
{
    let k = choose|k: nat| size as nat == #[trigger] pow2(k);
    lemma2_to64();
    if k < 6 {
        lemma_pow2_strictly_increases(k, 6);
    }
    lemma_pow2_adds((k - 6) as nat, 6);
    assert(size == pow2((k - 6) as nat) * 64);
}

} // verus!

//! Configuration, threads, pacing and error messages.

use crate::error::TicklogError;
use crate::format::FmtFault;
use crate::pacing::Pacing;
use crate::pattern::PatternFault;
use vstd::arithmetic::power2::pow2;
use vstd::prelude::*;
use vstd::string::*;

verus! {

/// A ring has a size that is a power of two of at least 128 KiB. Offsets reach from
/// twelve hours west to fourteen hours east, and an empty pattern stands for the
/// default one.
pub proof fn settings_are_bounded(size: usize, format: Seq<char>)
    ensures
        crate::builder::valid_ring_size(size) <==> size >= 131_072 && exists|k: nat|
            size == #[trigger] pow2(k),
        crate::builder::MIN_TZ_OFFSET == -12 * 60 * 60,
        crate::builder::MAX_TZ_OFFSET == 14 * 60 * 60,
        crate::ring::DEFAULT_RING_SIZE == 1024 * 1024,
        crate::ring::MIN_RING_SIZE == 128 * 1024,
        format.len() > 0 ==> crate::builder::effective_pattern(format) == format,
        format.len() == 0 ==> crate::builder::effective_pattern(format)
            == "{timestamp} {level} {file}:{line} {message}"@,
{
}

/// A thread name is kept whole up to 256 bytes. A longer one is cut behind the last
/// character that fits.
pub proof fn names_are_cut_between_characters(name: Seq<char>, at: int)
    ensures
        ({
            let bytes = vstd::utf8::encode_utf8(name);
            let cut = crate::thread_buf::cached_name(bytes);
            &&& bytes.len() <= 256 ==> cut == bytes
            &&& bytes.len() > 256 ==> cut.len() <= 256 && cut == bytes.take(cut.len() as int)
                && vstd::utf8::is_char_boundary(bytes, cut.len() as int) && (cut.len() < at <= 256
                ==> !vstd::utf8::is_char_boundary(bytes, at))
        }),
{
    let bytes = vstd::utf8::encode_utf8(name);
    vstd::utf8::encode_utf8_valid_utf8(name);
    if bytes.len() > 256 {
        crate::thread_buf::boundary_before_bounds(bytes, 256);
        no_later_boundary(bytes, 256, at);
    }
}

proof fn no_later_boundary(bytes: Seq<u8>, end: int, at: int)
    requires
        0 <= end,
    ensures
        crate::thread_buf::boundary_before(bytes, end) < at <= end
            ==> !vstd::utf8::is_char_boundary(bytes, at),
    decreases end,
{
    if end > 0 && !vstd::utf8::is_char_boundary(bytes, end) {
        no_later_boundary(bytes, end - 1, at);
    }
}

/// A thread goes by its name, and by `<unnamed>` where it has none.
pub proof fn threads_are_named(name: Option<String>)
    ensures
        name matches Some(s) ==> crate::thread_buf::known_name(name) == s@,
        name is None ==> crate::thread_buf::known_name(name) == "<unnamed>"@,
{
}

/// The number of a thread is what stands in `ThreadId(N)`.
pub proof fn threads_are_numbered(digits: Seq<u8>, n: u64)
    requires
        digits.len() > 0,
        crate::text::radix_value(digits, 10) == Some(n as nat),
    ensures
        crate::thread_buf::thread_number(
            vstd::utf8::encode_utf8("ThreadId("@) + digits + seq![0x29u8],
        ) == n,
{
    let front = vstd::utf8::encode_utf8("ThreadId("@);
    let text = front + digits + seq![0x29u8];
    assert(text.take(front.len() as int) =~= front);
    assert(text.subrange(front.len() as int, text.len() - 1) =~= digits);
    plain_decimal(digits, n as nat);
}

/// A decimal number is read as the number that it writes, with or without a plus in
/// front, where 64 bits hold it, and nothing else is read as a number.
pub proof fn plain_decimal(digits: Seq<u8>, n: nat)
    requires
        digits.len() > 0,
        crate::text::radix_value(digits, 10) == Some(n),
    ensures
        n <= u64::MAX ==> crate::text::decimal_value(digits) == Some(n as u64),
        n <= u64::MAX ==> crate::text::decimal_value(seq![0x2Bu8] + digits) == Some(n as u64),
        n > u64::MAX ==> crate::text::decimal_value(digits) is None,
        n > u64::MAX ==> crate::text::decimal_value(seq![0x2Bu8] + digits) is None,
{
    super::numbers::decimal_digits(digits);
    super::grammar::decimal_agrees(digits);
    assert(digits[0] != 43);
    assert((seq![0x2Bu8] + digits).skip(1) =~= digits);
}

/// What is not made of decimal digits behind at most one plus is no number.
pub proof fn other_text_is_no_number(s: Seq<u8>, i: int)
    requires
        0 <= i < s.len(),
        !(48 <= s[i] <= 57),
        !(i == 0 && s[0] == 0x2B),
    ensures
        crate::text::decimal_value(s) is None,
        crate::text::decimal_value(Seq::empty()) is None,
        crate::text::decimal_value(seq![0x2Bu8]) is None,
{
    if s[0] == 0x2B {
        assert(s.skip(1)[i - 1] == s[i]);
    }
}

/// The drain spins 8 times when it has just run out of work, twice as often after
/// each further pass without any, and at most 256 times. It flushes once when it runs
/// out of work after it had some. It looks for new rings in the first pass and in
/// every 1024th one after it.
pub proof fn pacing_backs_off(p: Pacing, n: nat)
    requires
        p.wf(),
    ensures
        p.ended(true).spin == 8,
        p.ended(true).dirty,
        !p.pause(true).flush && p.pause(true).spins == 0,
        p.pause(false).spins == p.spin,
        p.pause(false).flush == p.dirty,
        !p.ended(false).dirty,
        2 * p.spin <= 256 ==> p.ended(false).spin == 2 * p.spin,
        2 * p.spin > 256 ==> p.ended(false).spin == 256,
        p.ended(true).since_sync == p.since_sync && p.ended(false).since_sync == p.since_sync,
        p.begun().spin == p.spin && p.begun().dirty == p.dirty,
        p.begun().since_sync == (p.since_sync + 1) % 0x1_0000_0000,
        p.sync_due() <==> p.since_sync % 1024 == 0,
        p.sync_due() ==> (crate::pacing::begun_times(p, n).sync_due() <==> n % 1024 == 0),
        crate::pacing::SPIN_MIN == 8,
        crate::pacing::SPIN_CAP == 256,
{
    if p.sync_due() {
        crate::pacing::syncs_are_evenly_spaced(p, n);
    }
}

/// Each error says what went wrong, with the text of its cause or the value that was
/// refused.
pub proof fn errors_say_what_went_wrong(
    cause: Seq<char>,
    e: std::io::Error,
    offset: i32,
    size: usize,
    fault: String,
)
    ensures
        TicklogError::NotInitialized.message(cause) == "ticklog has not been initialized"@,
        TicklogError::AlreadyInitialized.message(cause) == "ticklog has already been initialized"@,
        TicklogError::DrainSpawnFailed(e).message(cause) == "failed to spawn drain thread: "@
            + cause,
        TicklogError::SinkWriteFailed(e).message(cause) == "sink write failed: "@ + cause,
        TicklogError::InvalidTimezoneOffset(offset).message(cause) == "invalid timezone offset: "@
            + (if offset < 0 {
            seq!['-'] + crate::text::decimal_chars((-offset) as nat)
        } else {
            crate::text::decimal_chars(offset as nat)
        }) + " seconds is outside [-43200, 50400]"@,
        TicklogError::InvalidRingSize(size).message(cause) == "invalid ring size: "@
            + crate::text::decimal_chars(size as nat)
            + " bytes is not a power of two of at least 131072"@,
        TicklogError::InvalidFormatPattern(fault).message(cause) == "invalid format pattern: "@
            + fault@,
{
}

/// Each fault of a format string or of a pattern says what is wrong with it.
pub proof fn faults_say_what_is_wrong(f: FmtFault)
    ensures
        FmtFault::Unclosed.text() == "unclosed '{': missing '}'"@,
        FmtFault::Unmatched.text() == "unmatched '}': use '}}' to escape a literal brace"@,
        FmtFault::Positional.text() == "positional params not supported"@,
        FmtFault::BadFill.text() == "invalid fill character"@,
        FmtFault::NoPrecisionDigits.text() == "expected digits after '.'"@,
        FmtFault::Sign.text() == "sign flags not supported"@,
        FmtFault::BadType.text() == "unsupported type character in format spec"@,
        FmtFault::Trailing.text() == "trailing characters after format spec"@,
        PatternFault::Syntax(f).text() == f.text(),
        PatternFault::UnknownField.text() == "unknown field in log-line pattern"@,
        PatternFault::SpecNotTaken.text() == "{timestamp} and {message} take no format spec"@,
        PatternFault::RepeatedMessage.text() == "{message} may occur only once"@,
{
}

/// A thread whose number is not written as `ThreadId(N)` has none.
pub proof fn other_threads_have_no_number(text: Seq<u8>)
    ensures
        text.len() == 0 || text[text.len() - 1] != 0x29 ==> crate::thread_buf::thread_number(text)
            == 0,
        text.len() < 9 ==> crate::thread_buf::thread_number(text) == 0,
        text.len() >= 9 && text.take(9) != vstd::utf8::encode_utf8("ThreadId("@)
            ==> crate::thread_buf::thread_number(text) == 0,
        text.len() >= 10 && text[text.len() - 1] == 0x29 && crate::text::decimal_value(
            text.subrange(9, text.len() - 1),
        ) is None ==> crate::thread_buf::thread_number(text) == 0,
{
    let front = "ThreadId("@;
    reveal_strlit("ThreadId(");
    assert(vstd::utf8::is_ascii_chars(front));
    vstd::utf8::is_ascii_chars_encode_utf8(front);
}

/// A buffer speaks of its thread, and its section takes ten bytes and the name.
pub proof fn buffers_speak_of_their_thread<R>(tb: crate::thread_buf::ThreadBuf<R>)
    ensures
        tb.thread() == (tb.thread_id, vstd::utf8::encode_utf8(tb.thread_name@)),
        crate::record::thread_len(Some(tb.thread())) == 10 + vstd::utf8::encode_utf8(
            tb.thread_name@,
        ).len(),
        crate::record::thread_len(None) == 0,
{
}

/// A mask names a CPU exactly where its bit is set, eight to a byte from the lowest on.
pub proof fn masks_name_cpus(mask: Seq<u8>, core: int)
    requires
        0 <= core < 8 * mask.len(),
    ensures
        crate::affinity::names(mask, core) <==> mask[core / 8] as int / pow2((core % 8) as nat) as int % 2 == 1,
        crate::affinity::CPU_SETSIZE == 128,
{
    vstd::arithmetic::power2::lemma2_to64();
    let b = mask[core / 8];
    let bit = (core % 8) as u8;
    assert(((b >> 0u8) & 1u8 == 1u8) == (b / 1u8 % 2u8 == 1u8)) by (bit_vector);
    assert(((b >> 1u8) & 1u8 == 1u8) == (b / 2u8 % 2u8 == 1u8)) by (bit_vector);
    assert(((b >> 2u8) & 1u8 == 1u8) == (b / 4u8 % 2u8 == 1u8)) by (bit_vector);
    assert(((b >> 3u8) & 1u8 == 1u8) == (b / 8u8 % 2u8 == 1u8)) by (bit_vector);
    assert(((b >> 4u8) & 1u8 == 1u8) == (b / 16u8 % 2u8 == 1u8)) by (bit_vector);
    assert(((b >> 5u8) & 1u8 == 1u8) == (b / 32u8 % 2u8 == 1u8)) by (bit_vector);
    assert(((b >> 6u8) & 1u8 == 1u8) == (b / 64u8 % 2u8 == 1u8)) by (bit_vector);
    assert(((b >> 7u8) & 1u8 == 1u8) == (b / 128u8 % 2u8 == 1u8)) by (bit_vector);
    assert(bit == 0 || bit == 1 || bit == 2 || bit == 3 || bit == 4 || bit == 5 || bit == 6 || bit
        == 7);
}

/// The counter is taken to run at 1 GHz where nothing else is known, and a call with the
/// wrong number of arguments is refused with a text that says so.
pub proof fn fallbacks_are_fixed()
    ensures
        crate::timestamp::FALLBACK_COUNTER_HZ == 1_000_000_000,
        crate::timestamp::NANOS_PER_SEC == 1_000_000_000,
        crate::format::arity_text()
            == "ticklog: the number of arguments does not match the number of placeholders in the format string"@,
{
}

/// A buffer is made from a ring, the id of a thread and its name, which is cut where it is
/// too long.
pub proof fn buffers_are_made<R>(
    tb: crate::thread_buf::ThreadBuf<R>,
    made: (R, u64, Option<String>),
)
    ensures
        crate::thread_buf::made_from(Some(tb), made) ==> tb.ring == made.0 && tb.thread_id
            == made.1 && vstd::utf8::encode_utf8(tb.thread_name@)
            == crate::thread_buf::cached_name(
            vstd::utf8::encode_utf8(
                match made.2 {
                    Some(name) => name@,
                    None => "<unnamed>"@,
                },
            ),
        ) && tb.thread_section_size == 10 + vstd::utf8::encode_utf8(tb.thread_name@).len(),
        !crate::thread_buf::made_from(None::<crate::thread_buf::ThreadBuf<R>>, made),
{
}

/// A layout is valid where it needs no pattern or has one that is accepted.
pub proof fn layouts_are_valid(metadata: crate::decode::LogMetadata, pattern: String)
    ensures
        crate::decode::Layout::Fields(metadata).valid(),
        crate::decode::Layout::Pattern(pattern).valid() <==> crate::pattern::pattern_fault(
            vstd::utf8::encode_utf8(pattern@),
        ) is None,
{
}

/// The errors that wrap another are those of the drain thread and of a sink.
pub proof fn errors_wrap_errors(e: TicklogError)
    ensures
        e.wraps_io() <==> e is DrainSpawnFailed || e is SinkWriteFailed,
{
}

} // verus!

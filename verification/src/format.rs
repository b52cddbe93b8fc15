//! Format strings: validation, placeholder specs, and value formatting.
//!
//! The placeholder grammar:
//!
//! ```text
//! spec  := [name ':'] [fill] [align] ['0'] [width] ['.' precision] ['#'] [type]
//! fill  := any ASCII char except '+' | '-' | '0' | '#'
//! align := '<' | '>' | '^'
//! width := decimal digit+
//! precision := decimal digit+
//! type  := '?' | 'x' | 'X' | 'o' | 'b' | 'e' | 'E'
//! ```

use crate::ascii::{CARET, CLOSE, COLON, DOT, GREATER, HASH, LESS, LOWER_B, LOWER_E, LOWER_O, LOWER_X, MINUS, NINE, OPEN, PLUS, QUESTION, SPACE, UPPER_E, UPPER_X, ZERO};
use crate::text::{append_u64, push_bytes, push_digits, push_repeated};
use vstd::arithmetic::power::pow;
use vstd::prelude::*;
use vstd::slice::slice_subrange;
use vstd::string::*;

verus! {

// ---- The grammar over byte sequences ----------------------------------------

pub open spec fn is_digit(b: u8) -> bool {
    ZERO <= b <= NINE
}

pub open spec fn is_align(b: u8) -> bool {
    b == LESS || b == GREATER || b == CARET
}

/// Fill may be any ASCII character except `+`, `-`, `0` and `#`.
pub open spec fn is_fill(b: u8) -> bool {
    b < 128 && b != PLUS && b != MINUS && b != ZERO && b != HASH
}

pub open spec fn is_type_char(b: u8) -> bool {
    b == QUESTION || b == LOWER_X || b == UPPER_X || b == LOWER_O || b == LOWER_B || b == LOWER_E || b == UPPER_E
}

/// Whether position `i` of `s` exists and holds `b`.
pub open spec fn holds(s: Seq<u8>, i: int, b: u8) -> bool {
    0 <= i < s.len() && s[i] == b
}

/// The end of the run of decimal digits that starts at `i`.
pub open spec fn digits_end(s: Seq<u8>, i: int) -> int
    decreases s.len() - i,
{
    if 0 <= i < s.len() && is_digit(s[i]) {
        digits_end(s, i + 1)
    } else {
        i
    }
}

/// The end of the optional `[fill] align` at `i`.
pub open spec fn align_end(s: Seq<u8>, i: int) -> int {
    if i + 1 < s.len() && is_align(s[i + 1]) {
        i + 2
    } else if i < s.len() && is_align(s[i]) {
        i + 1
    } else {
        i
    }
}

/// The end of the optional zero flag that follows the alignment.
pub open spec fn zero_end(s: Seq<u8>, i: int) -> int {
    let a = align_end(s, i);
    if holds(s, a, ZERO) {
        a + 1
    } else {
        a
    }
}

/// The end of the optional width.
pub open spec fn width_end(s: Seq<u8>, i: int) -> int {
    digits_end(s, zero_end(s, i))
}

/// The end of the optional precision.
pub open spec fn precision_end(s: Seq<u8>, i: int) -> int {
    let w = width_end(s, i);
    if holds(s, w, DOT) {
        digits_end(s, w + 1)
    } else {
        w
    }
}

/// The end of the optional alternate flag.
pub open spec fn alternate_end(s: Seq<u8>, i: int) -> int {
    let p = precision_end(s, i);
    if holds(s, p, HASH) {
        p + 1
    } else {
        p
    }
}

/// Why a format string is refused.
pub enum FmtFault {
    Unclosed,
    Unmatched,
    Positional,
    BadFill,
    NoPrecisionDigits,
    Sign,
    BadType,
    Trailing,
}

impl FmtFault {
    /// The message that goes with the fault.
    pub open spec fn text(self) -> Seq<char> {
        match self {
            FmtFault::Unclosed => "unclosed '{': missing '}'"@,
            FmtFault::Unmatched => "unmatched '}': use '}}' to escape a literal brace"@,
            FmtFault::Positional => "positional params not supported"@,
            FmtFault::BadFill => "invalid fill character"@,
            FmtFault::NoPrecisionDigits => "expected digits after '.'"@,
            FmtFault::Sign => "sign flags not supported"@,
            FmtFault::BadType => "unsupported type character in format spec"@,
            FmtFault::Trailing => "trailing characters after format spec"@,
        }
    }
}

/// Where the spec body that starts at `i` (just after `:`) ends.
pub open spec fn spec_body_end(s: Seq<u8>, i: int) -> Result<int, FmtFault> {
    if i >= s.len() {
        Err(FmtFault::Unclosed)
    } else if s[i] == CLOSE {
        Ok(i)
    } else if i + 1 < s.len() && is_align(s[i + 1]) && !is_fill(s[i]) {
        Err(FmtFault::BadFill)
    } else if holds(s, width_end(s, i), DOT) && !(width_end(s, i) + 1 < s.len() && is_digit(
        s[width_end(s, i) + 1],
    )) {
        Err(FmtFault::NoPrecisionDigits)
    } else {
        let e = alternate_end(s, i);
        if e >= s.len() || s[e] == CLOSE {
            Ok(e)
        } else if is_type_char(s[e]) {
            Ok(e + 1)
        } else if s[e] == PLUS || s[e] == MINUS {
            Err(FmtFault::Sign)
        } else {
            Err(FmtFault::BadType)
        }
    }
}

/// The end of the cosmetic name that starts at `i`: the first `:` or `}`.
pub open spec fn name_end(s: Seq<u8>, i: int) -> int
    decreases s.len() - i,
{
    if 0 <= i < s.len() && s[i] != COLON && s[i] != CLOSE {
        name_end(s, i + 1)
    } else {
        i
    }
}

/// Whether every byte of `s[start..end]` is a decimal digit.
pub open spec fn all_digits(s: Seq<u8>, start: int, end: int) -> bool {
    forall|j: int| start <= j < end ==> is_digit(#[trigger] s[j])
}

/// Where the placeholder whose content starts at `start` (just after `{`)
/// ends: the position after its closing brace.
pub open spec fn placeholder_end(s: Seq<u8>, start: int) -> Result<int, FmtFault> {
    let n = name_end(s, start);
    if start < n && all_digits(s, start, n) {
        Err(FmtFault::Positional)
    } else if n >= s.len() {
        Err(FmtFault::Unclosed)
    } else {
        let body = if s[n] == COLON {
            spec_body_end(s, n + 1)
        } else {
            Ok(n)
        };
        match body {
            Err(f) => Err(f),
            Ok(e) => if e >= s.len() {
                Err(FmtFault::Unclosed)
            } else if s[e] != CLOSE {
                Err(FmtFault::Trailing)
            } else {
                Ok(e + 1)
            },
        }
    }
}

pub proof fn digits_end_bounds(s: Seq<u8>, i: int)
    requires
        0 <= i <= s.len(),
    ensures
        i <= digits_end(s, i) <= s.len(),
        forall|j: int| i <= j < digits_end(s, i) ==> is_digit(#[trigger] s[j]),
        digits_end(s, i) < s.len() ==> !is_digit(s[digits_end(s, i)]),
    decreases s.len() - i,
{
    if i < s.len() && is_digit(s[i]) {
        digits_end_bounds(s, i + 1);
    }
}

pub proof fn name_end_bounds(s: Seq<u8>, i: int)
    requires
        0 <= i <= s.len(),
    ensures
        i <= name_end(s, i) <= s.len(),
        forall|j: int| i <= j < name_end(s, i) ==> #[trigger] s[j] != COLON && s[j] != CLOSE,
        name_end(s, i) < s.len() ==> s[name_end(s, i)] == COLON || s[name_end(s, i)] == CLOSE,
    decreases s.len() - i,
{
    if i < s.len() && s[i] != COLON && s[i] != CLOSE {
        name_end_bounds(s, i + 1);
    }
}

/// The positions that the optional parts of a spec body end at, in order.
pub proof fn body_positions(s: Seq<u8>, i: int)
    requires
        0 <= i <= s.len(),
    ensures
        i <= align_end(s, i) <= zero_end(s, i) <= width_end(s, i) <= precision_end(s, i)
            <= alternate_end(s, i) <= s.len(),
{
    digits_end_bounds(s, zero_end(s, i));
    if holds(s, width_end(s, i), DOT) {
        digits_end_bounds(s, width_end(s, i) + 1);
    }
}

/// A placeholder ends just after a closing brace.
pub proof fn placeholder_end_bounds(s: Seq<u8>, start: int)
    requires
        0 <= start <= s.len(),
    ensures
        placeholder_end(s, start) matches Ok(e) ==> start < e <= s.len() && s[e - 1] == CLOSE,
{
    name_end_bounds(s, start);
    let n = name_end(s, start);
    if n < s.len() && s[n] == COLON {
        body_positions(s, n + 1);
    }
}

/// The only closing brace in a placeholder is the one that ends it.
pub proof fn placeholder_has_no_brace(s: Seq<u8>, start: int)
    requires
        0 <= start <= s.len(),
    ensures
        placeholder_end(s, start) matches Ok(e) ==> start < e <= s.len() && s[e - 1] == CLOSE
            && forall|j: int| start <= j < e - 1 ==> #[trigger] s[j] != CLOSE,
{
    placeholder_end_bounds(s, start);
    name_end_bounds(s, start);
    let n = name_end(s, start);
    if n < s.len() && s[n] == COLON {
        let i = n + 1;
        body_positions(s, i);
        digits_end_bounds(s, zero_end(s, i));
        if holds(s, width_end(s, i), DOT) {
            digits_end_bounds(s, width_end(s, i) + 1);
        }
    }
}

/// The number of placeholders from position `i` on, or the first fault.
pub open spec fn placeholders_from(s: Seq<u8>, i: int) -> Result<nat, FmtFault>
    decreases s.len() - i,
{
    if i < 0 || i >= s.len() {
        Ok(0)
    } else if s[i] == OPEN {
        if holds(s, i + 1, OPEN) {
            placeholders_from(s, i + 2)
        } else {
            proof {
                placeholder_end_bounds(s, i + 1);
            }
            match placeholder_end(s, i + 1) {
                Err(f) => Err(f),
                Ok(e) => match placeholders_from(s, e) {
                    Err(f) => Err(f),
                    Ok(n) => Ok(n + 1),
                },
            }
        }
    } else if s[i] == CLOSE {
        if holds(s, i + 1, CLOSE) {
            placeholders_from(s, i + 2)
        } else {
            Err(FmtFault::Unmatched)
        }
    } else {
        placeholders_from(s, i + 1)
    }
}

/// The number of placeholders of a format string, or why it is refused.
pub open spec fn placeholders(s: Seq<u8>) -> Result<nat, FmtFault> {
    placeholders_from(s, 0)
}

// ---- Validation -------------------------------------------------------------

/// Whether `c` is a valid alignment character.
pub fn is_align_char(c: u8) -> (r: bool)
    ensures
        r == is_align(c),
{
    c == LESS || c == GREATER || c == CARET
}

/// Whether `c` is a valid fill character: any ASCII character but `+`, `-`, `0`
/// and `#`.
pub fn is_valid_fill(c: u8) -> (r: bool)
    ensures
        r == is_fill(c),
{
    c < 128 && c != PLUS && c != MINUS && c != ZERO && c != HASH
}

/// Whether `c` is a type specifier.
fn is_type(c: u8) -> (r: bool)
    ensures
        r == is_type_char(c),
{
    c == QUESTION || c == LOWER_X || c == UPPER_X || c == LOWER_O || c == LOWER_B || c == LOWER_E
        || c == UPPER_E
}

/// Whether position `i` of `bytes` exists and holds `b`.
fn byte_is(bytes: &[u8], i: usize, b: u8) -> (r: bool)
    ensures
        r == holds(bytes@, i as int, b),
{
    i < bytes.len() && bytes[i] == b
}

/// Whether every byte of `bytes[start..end]` is an ASCII decimal digit.
pub fn is_all_digits(bytes: &[u8], start: usize, end: usize) -> (r: bool)
    requires
        end <= bytes@.len(),
    ensures
        r == all_digits(bytes@, start as int, end as int),
{
    let mut j: usize = start;
    while j < end
        invariant
            start <= j,
            j <= end || j == start,
            end <= bytes@.len(),
            all_digits(bytes@, start as int, j as int),
        decreases end - j,
    {
        if bytes[j] < ZERO || bytes[j] > NINE {
            return false;
        }
        j = j + 1;
    }
    true
}

/// The end of the digits that start at `i`.
fn skip_digits(bytes: &[u8], i: usize) -> (end: usize)
    requires
        i <= bytes@.len(),
    ensures
        end == digits_end(bytes@, i as int),
        i <= end <= bytes@.len(),
{
    let mut end: usize = i;
    while end < bytes.len() && ZERO <= bytes[end] && bytes[end] <= NINE
        invariant
            i <= end <= bytes@.len(),
            digits_end(bytes@, i as int) == digits_end(bytes@, end as int),
        decreases bytes@.len() - end,
    {
        end = end + 1;
    }
    end
}

/// The end of the cosmetic name that starts at `i`.
pub(crate) fn skip_name(bytes: &[u8], i: usize) -> (end: usize)
    requires
        i <= bytes@.len(),
    ensures
        end == name_end(bytes@, i as int),
        i <= end <= bytes@.len(),
{
    let mut end: usize = i;
    while end < bytes.len() && bytes[end] != COLON && bytes[end] != CLOSE
        invariant
            i <= end <= bytes@.len(),
            name_end(bytes@, i as int) == name_end(bytes@, end as int),
        decreases bytes@.len() - end,
    {
        end = end + 1;
    }
    end
}

/// Whether `r` is the outcome `spec`, with the text of its fault.
pub open spec fn agrees(r: Result<usize, &'static str>, spec: Result<int, FmtFault>) -> bool {
    match spec {
        Ok(n) => r matches Ok(m) && m == n,
        Err(f) => r matches Err(text) && text@ == f.text(),
    }
}

/// Parses the body of a format spec (after `:`) that starts at `start`.
/// Returns the position after it.
pub fn parse_spec_const(bytes: &[u8], start: usize) -> (r: Result<usize, &'static str>)
    requires
        start <= bytes@.len(),
    ensures
        agrees(r, spec_body_end(bytes@, start as int)),
        r matches Ok(end) ==> start <= end <= bytes@.len(),
{
    proof {
        body_positions(bytes@, start as int);
    }
    if start >= bytes.len() {
        return Err("unclosed '{': missing '}'");
    }
    if bytes[start] == CLOSE {
        return Ok(start);
    }
    let mut i: usize = start;
    // [fill] [align]
    if bytes.len() - i > 1 && is_align_char(bytes[i + 1]) {
        if !is_valid_fill(bytes[i]) {
            return Err("invalid fill character");
        }
        i = i + 2;
    } else if is_align_char(bytes[i]) {
        i = i + 1;
    }
    assert(i == align_end(bytes@, start as int));
    // ['0']
    if byte_is(bytes, i, ZERO) {
        i = i + 1;
    }
    // [width]
    i = skip_digits(bytes, i);
    assert(i == width_end(bytes@, start as int));
    // ['.' precision]
    if byte_is(bytes, i, DOT) {
        i = i + 1;
        if i >= bytes.len() || bytes[i] < ZERO || bytes[i] > NINE {
            return Err("expected digits after '.'");
        }
        i = skip_digits(bytes, i);
    }
    // ['#']
    if byte_is(bytes, i, HASH) {
        i = i + 1;
    }
    assert(i == alternate_end(bytes@, start as int));
    // [type]
    if i < bytes.len() && bytes[i] != CLOSE {
        if is_type(bytes[i]) {
            i = i + 1;
        } else if bytes[i] == PLUS || bytes[i] == MINUS {
            return Err("sign flags not supported");
        } else {
            return Err("unsupported type character in format spec");
        }
    }
    Ok(i)
}

/// Validates the placeholder whose content starts at `start` and returns the
/// position after its closing brace.
fn check_placeholder(bytes: &[u8], start: usize) -> (r: Result<usize, &'static str>)
    requires
        start <= bytes@.len(),
    ensures
        agrees(r, placeholder_end(bytes@, start as int)),
        r matches Ok(end) ==> start < end <= bytes@.len(),
{
    let mut i: usize = skip_name(bytes, start);
    if start < i && is_all_digits(bytes, start, i) {
        return Err("positional params not supported");
    }
    if i >= bytes.len() {
        return Err("unclosed '{': missing '}'");
    }
    if bytes[i] == COLON {
        i = match parse_spec_const(bytes, i + 1) {
            Ok(end) => end,
            Err(text) => return Err(text),
        };
    }
    if i >= bytes.len() {
        return Err("unclosed '{': missing '}'");
    }
    if bytes[i] != CLOSE {
        return Err("trailing characters after format spec");
    }
    Ok(i + 1)
}

/// `tail` with `count` more placeholders in front of it.
spec fn counted(count: int, tail: Result<nat, FmtFault>) -> Result<int, FmtFault> {
    match tail {
        Ok(n) => Ok(count + n),
        Err(f) => Err(f),
    }
}

/// The outcome of validating `s`, with the count as an integer.
pub open spec fn validation(s: Seq<u8>) -> Result<int, FmtFault> {
    match placeholders(s) {
        Ok(n) => Ok(n as int),
        Err(f) => Err(f),
    }
}

/// Syntactically validates a format string and returns the number of `{}`
/// placeholders, excluding `{{` / `}}` escapes.
///
/// Rejects an unclosed `{`, an unmatched `}`, sign flags, positional params,
/// unsupported type characters, and trailing characters after the spec.
pub fn validate_fmt(fmt: &str) -> (r: Result<usize, &'static str>)
    ensures
        agrees(r, validation(fmt.spec_bytes())),
{
    let bytes: &[u8] = fmt.as_bytes();
    let mut i: usize = 0;
    let mut count: usize = 0;
    while i < bytes.len()
        invariant
            count <= i <= bytes@.len(),
            bytes@ == fmt.spec_bytes(),
            counted(count as int, placeholders_from(bytes@, i as int)) == validation(bytes@),
        decreases bytes@.len() - i,
    {
        if bytes[i] == OPEN {
            if byte_is(bytes, i + 1, OPEN) {
                i = i + 2;
            } else {
                i = match check_placeholder(bytes, i + 1) {
                    Ok(end) => end,
                    Err(text) => return Err(text),
                };
                count = count + 1;
            }
        } else if bytes[i] == CLOSE {
            if byte_is(bytes, i + 1, CLOSE) {
                i = i + 2;
            } else {
                return Err("unmatched '}': use '}}' to escape a literal brace");
            }
        } else {
            i = i + 1;
        }
    }
    Ok(count)
}

/// The text of a mismatch between placeholders and arguments.
pub open spec fn arity_text() -> Seq<char> {
    "ticklog: the number of arguments does not match the number of placeholders in the format string"@
}

/// Validates a format string and its argument count.
///
/// The logging macros refuse a call whose format string is malformed or whose
/// number of `{}` placeholders differs from the number of arguments; the error
/// is the message they refuse it with.
pub fn check_fmt(fmt: &str, n_args: usize) -> (r: Result<(), &'static str>)
    ensures
        match placeholders(fmt.spec_bytes()) {
            Ok(n) => if n == n_args {
                r is Ok
            } else {
                r matches Err(text) && text@ == arity_text()
            },
            Err(f) => r matches Err(text) && text@ == f.text(),
        },
{
    match validate_fmt(fmt) {
        Ok(placeholders) => {
            if placeholders != n_args {
                return Err(
                    "ticklog: the number of arguments does not match the number of placeholders in the format string",
                );
            }
            Ok(())
        },
        Err(text) => Err(text),
    }
}

// ---- Placeholder specs ------------------------------------------------------

/// Horizontal alignment for width-padded values.
#[derive(Debug, Clone, Copy, PartialEq, Eq, Structural)]
pub enum Align {
    /// No alignment specified. Behaves like `Left` for width-padding.
    Unset,
    /// Align left (pad on the right).
    Left,
    /// Align right (pad on the left).
    Right,
    /// Align center (pad evenly on both sides).
    Center,
}

/// Parsed format spec for a single placeholder.
///
/// The default value represents `{}`: Display formatting with no width,
/// alignment, or precision.
#[derive(Debug, Clone, Copy)]
pub struct FormatSpec {
    /// Fill character inserted for width padding. Default `' '`.
    pub fill: u8,
    /// Horizontal alignment. Default `Align::Unset`.
    pub align: Align,
    /// Whether the `0` flag is present. Fills with `'0'`, and aligns right
    /// unless an explicit alignment was also given.
    pub zero_fill: bool,
    /// Minimum field width in characters. `None` means no padding.
    pub width: Option<u16>,
    /// Precision: minimum digits for integers, decimal places for floats,
    /// maximum characters for strings.
    pub precision: Option<u16>,
    /// Whether the `#` (alternate) flag is present. Adds the `0x`/`0o`/`0b`
    /// prefix for hex/octal/binary integers.
    pub alternate: bool,
    /// The type specifier character. `None` means Display (`{}`).
    pub type_char: Option<u8>,
}

impl FormatSpec {
    /// The spec of a bare `{}`.
    pub open spec fn plain() -> FormatSpec {
        FormatSpec {
            fill: SPACE,
            align: Align::Unset,
            zero_fill: false,
            width: None,
            precision: None,
            alternate: false,
            type_char: None,
        }
    }
}

impl Default for FormatSpec {
    fn default() -> (r: Self)
        ensures
            r == FormatSpec::plain(),
    {
        FormatSpec {
            fill: SPACE,
            align: Align::Unset,
            zero_fill: false,
            width: None,
            precision: None,
            alternate: false,
            type_char: None,
        }
    }
}

/// The alignment that `b` stands for.
pub open spec fn align_of(b: u8) -> Align {
    if b == LESS {
        Align::Left
    } else if b == GREATER {
        Align::Right
    } else if b == CARET {
        Align::Center
    } else {
        Align::Unset
    }
}

/// `n`, or the largest `u16` where `n` does not fit.
pub open spec fn clamped(n: nat) -> u16 {
    if n <= u16::MAX {
        n as u16
    } else {
        u16::MAX
    }
}

/// The number that the digits of `s[start..end]` clamp to.
pub open spec fn number_at(s: Seq<u8>, start: int, end: int) -> u16 {
    clamped(crate::text::digits_to_nat(s.subrange(start, end)))
}

/// What a spec body says, part by part.
pub open spec fn body_spec(s: Seq<u8>) -> FormatSpec {
    let filled = s.len() > 1 && is_align(s[1]);
    let aligned = s.len() > 0 && is_align(s[0]);
    let z = zero_end(s, 0);
    let w = width_end(s, 0);
    let p = precision_end(s, 0);
    let t = alternate_end(s, 0);
    FormatSpec {
        fill: if filled {
            s[0]
        } else {
            SPACE
        },
        align: if filled {
            align_of(s[1])
        } else if aligned {
            align_of(s[0])
        } else {
            Align::Unset
        },
        zero_fill: holds(s, align_end(s, 0), ZERO),
        width: if z < w {
            Some(number_at(s, z, w))
        } else {
            None
        },
        precision: if holds(s, w, DOT) {
            Some(number_at(s, w + 1, p))
        } else {
            None
        },
        alternate: holds(s, p, HASH),
        type_char: if t < s.len() && is_type_char(s[t]) {
            Some(s[t])
        } else {
            None
        },
    }
}

/// The position of the first `:` from `i` on, or the length.
pub open spec fn colon_at(s: Seq<u8>, i: int) -> int
    decreases s.len() - i,
{
    if 0 <= i < s.len() && s[i] != COLON {
        colon_at(s, i + 1)
    } else {
        i
    }
}

/// What the content of a placeholder says: everything before the first `:` is
/// a cosmetic name, and without a `:` there is no spec.
pub open spec fn content_spec(s: Seq<u8>) -> FormatSpec {
    let c = colon_at(s, 0);
    if c < s.len() {
        body_spec(s.subrange(c + 1, s.len() as int))
    } else {
        FormatSpec::plain()
    }
}

/// Reads the digits that start at `i`: their value, clamped, and their end.
fn parse_number(spec: &[u8], i: usize) -> (r: (u16, usize))
    requires
        i <= spec@.len(),
    ensures
        r.1 == digits_end(spec@, i as int),
        i <= r.1 <= spec@.len(),
        r.0 == number_at(spec@, i as int, r.1 as int),
{
    let mut end: usize = i;
    let mut value: u32 = 0;
    assert(spec@.subrange(i as int, i as int) =~= Seq::empty());
    while end < spec.len() && ZERO <= spec[end] && spec[end] <= NINE
        invariant
            i <= end <= spec@.len(),
            digits_end(spec@, i as int) == digits_end(spec@, end as int),
            value == clamped(crate::text::digits_to_nat(spec@.subrange(i as int, end as int))),
        decreases spec@.len() - end,
    {
        proof {
            let next = spec@.subrange(i as int, end + 1);
            assert(next.drop_last() =~= spec@.subrange(i as int, end as int));
        }
        value = value * 10 + (spec[end] - ZERO) as u32;
        if value > 65535 {
            value = 65535;
        }
        end = end + 1;
    }
    (value as u16, end)
}

/// The alignment that `b` stands for.
fn parse_align(b: u8) -> (r: Align)
    ensures
        r == align_of(b),
{
    if b == LESS {
        Align::Left
    } else if b == GREATER {
        Align::Right
    } else if b == CARET {
        Align::Center
    } else {
        Align::Unset
    }
}

/// Parses the format spec after the optional name and colon.
pub fn parse_spec_body(spec: &[u8]) -> (r: FormatSpec)
    ensures
        r == body_spec(spec@),
{
    proof {
        body_positions(spec@, 0);
    }
    let mut fs: FormatSpec = FormatSpec::default();
    let mut i: usize = 0;
    // [fill] [align]
    if spec.len() > 1 && is_align_char(spec[1]) {
        fs.fill = spec[0];
        fs.align = parse_align(spec[1]);
        i = 2;
    } else if spec.len() > 0 && is_align_char(spec[0]) {
        fs.align = parse_align(spec[0]);
        i = 1;
    }
    // ['0']
    if byte_is(spec, i, ZERO) {
        fs.zero_fill = true;
        i = i + 1;
    }
    // [width]
    let width_start: usize = i;
    let (width, width_stop) = parse_number(spec, i);
    if width_stop > width_start {
        fs.width = Some(width);
    }
    i = width_stop;
    // ['.' precision]
    if byte_is(spec, i, DOT) {
        let (precision, precision_stop) = parse_number(spec, i + 1);
        fs.precision = Some(precision);
        i = precision_stop;
    }
    // ['#']
    if byte_is(spec, i, HASH) {
        fs.alternate = true;
        i = i + 1;
    }
    // [type]
    if i < spec.len() && is_type(spec[i]) {
        fs.type_char = Some(spec[i]);
    }
    fs
}

/// Parses the bytes between `{` and `}` into a [`FormatSpec`].
pub fn parse_spec_bytes(content: &[u8]) -> (r: FormatSpec)
    ensures
        r == content_spec(content@),
{
    let mut i: usize = 0;
    while i < content.len() && content[i] != COLON
        invariant
            i <= content@.len(),
            colon_at(content@, 0) == colon_at(content@, i as int),
        decreases content@.len() - i,
    {
        i = i + 1;
    }
    if i < content.len() {
        parse_spec_body(slice_subrange(content, i + 1, content.len()))
    } else {
        FormatSpec::default()
    }
}

/// Parses the content between `{` and `}` into a [`FormatSpec`].
pub fn parse_spec(spec_content: &str) -> (r: FormatSpec)
    ensures
        r == content_spec(spec_content.spec_bytes()),
{
    parse_spec_bytes(spec_content.as_bytes())
}

// ---- Padding ----------------------------------------------------------------

/// `text`, which is `chars` characters long, padded to the width that `spec`
/// asks for.
pub open spec fn padded(text: Seq<u8>, chars: nat, spec: FormatSpec) -> Seq<u8> {
    let width: nat = match spec.width {
        Some(w) => w as nat,
        None => 0,
    };
    let fill = if spec.zero_fill {
        ZERO
    } else {
        spec.fill
    };
    let gap: nat = if chars < width {
        (width - chars) as nat
    } else {
        0
    };
    let left: nat = match spec.align {
        Align::Left => 0,
        Align::Right => gap,
        Align::Center => gap / 2,
        Align::Unset => if spec.zero_fill {
            gap
        } else {
            0
        },
    };
    crate::text::repeated(fill, left) + text + crate::text::repeated(fill, (gap - left) as nat)
}

/// Appends `text`, which is `chars` characters long, with the padding that
/// `spec` asks for.
fn pad(text: &[u8], chars: usize, spec: &FormatSpec, buf: &mut Vec<u8>)
    ensures
        final(buf)@ == old(buf)@ + padded(text@, chars as nat, *spec),
{
    let width: usize = match spec.width {
        Some(w) => w as usize,
        None => 0,
    };
    let fill: u8 = if spec.zero_fill {
        ZERO
    } else {
        spec.fill
    };
    let gap: usize = if chars < width {
        width - chars
    } else {
        0
    };
    let left: usize = match spec.align {
        Align::Left => 0,
        Align::Right => gap,
        Align::Center => gap / 2,
        Align::Unset => if spec.zero_fill {
            gap
        } else {
            0
        },
    };
    push_repeated(buf, fill, left);
    push_bytes(buf, text);
    push_repeated(buf, fill, gap - left);
    assert(buf@ =~= old(buf)@ + padded(text@, chars as nat, *spec));
}

/// Applies width and alignment padding to an already-formatted value and
/// appends the result to `buf`.
///
/// A value with fewer characters than `spec.width` is padded with `spec.fill`
/// according to `spec.align`. The `0` flag overrides the fill with `'0'` and
/// the default alignment with right.
pub fn format_with_spec(value_str: &str, spec: &FormatSpec, buf: &mut Vec<u8>)
    ensures
        final(buf)@ == old(buf)@ + padded(value_str.spec_bytes(), value_str@.len(), *spec),
{
    pad(value_str.as_bytes(), value_str.unicode_len(), spec, buf);
}

// ---- Integers ---------------------------------------------------------------

/// The radix that a type character asks for.
pub open spec fn radix_of(type_char: Option<u8>) -> nat {
    match type_char {
        Some(c) => if c == LOWER_X || c == UPPER_X {
            16
        } else if c == LOWER_O {
            8
        } else if c == LOWER_B {
            2
        } else {
            10
        },
        None => 10,
    }
}

/// The prefix that the alternate flag adds in front of a number in `radix`.
pub open spec fn radix_prefix(radix: nat) -> Seq<u8> {
    if radix == 16 {
        seq![ZERO, LOWER_X]
    } else if radix == 8 {
        seq![ZERO, LOWER_O]
    } else if radix == 2 {
        seq![ZERO, LOWER_B]
    } else {
        Seq::empty()
    }
}

/// `digits` with zeros in front up to the precision.
pub open spec fn zero_extended(digits: Seq<u8>, precision: Option<u16>) -> Seq<u8> {
    match precision {
        Some(p) if digits.len() < p => crate::text::repeated(ZERO, (p - digits.len()) as nat)
            + digits,
        _ => digits,
    }
}

/// An unsigned integer as `spec` asks for it, before padding.
pub open spec fn unsigned_text(value: nat, spec: FormatSpec) -> Seq<u8> {
    let radix = radix_of(spec.type_char);
    let prefix = if spec.alternate {
        radix_prefix(radix)
    } else {
        Seq::empty()
    };
    prefix + zero_extended(
        crate::text::digits(value, radix, spec.type_char == Some(UPPER_X)),
        spec.precision,
    )
}

/// A signed integer as `spec` asks for it, before padding.
pub open spec fn signed_text(value: int, spec: FormatSpec) -> Seq<u8> {
    if value < 0 {
        seq![MINUS] + zero_extended(crate::text::decimal((-value) as nat), spec.precision)
    } else {
        zero_extended(crate::text::decimal(value as nat), spec.precision)
    }
}

/// An unsigned integer as it appears in the message.
pub open spec fn unsigned_field(value: nat, spec: FormatSpec) -> Seq<u8> {
    let text = unsigned_text(value, spec);
    padded(text, text.len(), spec)
}

/// A signed integer as it appears in the message.
pub open spec fn signed_field(value: int, spec: FormatSpec) -> Seq<u8> {
    let text = signed_text(value, spec);
    padded(text, text.len(), spec)
}

/// Appends `digits` with zeros in front up to the precision.
fn push_zero_extended(buf: &mut Vec<u8>, digits: &[u8], precision: Option<u16>)
    ensures
        final(buf)@ == old(buf)@ + zero_extended(digits@, precision),
{
    if let Some(p) = precision {
        if digits.len() < p as usize {
            push_repeated(buf, ZERO, p as usize - digits.len());
        }
    }
    push_bytes(buf, digits);
    assert(buf@ =~= old(buf)@ + zero_extended(digits@, precision));
}

/// Formats an unsigned integer according to `spec` and appends it to `buf`.
pub(crate) fn format_unsigned_impl(value: u64, spec: &FormatSpec, buf: &mut Vec<u8>)
    ensures
        final(buf)@ == old(buf)@ + unsigned_field(value as nat, *spec),
{
    let c: u8 = match spec.type_char {
        Some(c) => c,
        None => 0,
    };
    let radix: u64 = if c == LOWER_X || c == UPPER_X {
        16
    } else if c == LOWER_O {
        8
    } else if c == LOWER_B {
        2
    } else {
        10
    };
    let mut digits: Vec<u8> = Vec::new();
    push_digits(&mut digits, value, radix, c == UPPER_X);
    let mut text: Vec<u8> = Vec::new();
    if spec.alternate && radix != 10 {
        text.push(ZERO);
        text.push(
            if radix == 16 {
                LOWER_X
            } else if radix == 8 {
                LOWER_O
            } else {
                LOWER_B
            },
        );
    }
    push_zero_extended(&mut text, digits.as_slice(), spec.precision);
    proof {
        assert(digits@ =~= crate::text::digits(
            value as nat,
            radix_of(spec.type_char),
            spec.type_char == Some(UPPER_X),
        ));
        assert(text@ =~= unsigned_text(value as nat, *spec));
    }
    pad(text.as_slice(), text.len(), spec, buf);
}

/// Formats a signed integer, always in decimal, and appends it to `buf`.
pub(crate) fn format_signed_impl(value: i64, spec: &FormatSpec, buf: &mut Vec<u8>)
    ensures
        final(buf)@ == old(buf)@ + signed_field(value as int, *spec),
{
    let magnitude: u64 = if value == i64::MIN {
        0x8000_0000_0000_0000
    } else if value < 0 {
        (-value) as u64
    } else {
        value as u64
    };
    let mut digits: Vec<u8> = Vec::new();
    append_u64(magnitude, &mut digits);
    let mut text: Vec<u8> = Vec::new();
    if value < 0 {
        text.push(MINUS);
    }
    push_zero_extended(&mut text, digits.as_slice(), spec.precision);
    proof {
        assert(digits@ =~= crate::text::decimal(magnitude as nat));
        assert(text@ =~= signed_text(value as int, *spec));
    }
    pad(text.as_slice(), text.len(), spec, buf);
}

/// An unsigned integer reads back: without a width, its text is the prefix of
/// its radix where the alternate flag asks for one, and then digits of which the
/// value is the integer. There are as few as it takes, or as many as the
/// precision asks for, and letters are in capitals exactly for `X`.
pub proof fn unsigned_reads_back(value: nat, spec: FormatSpec)
    requires
        spec.width is None,
    ensures
        ({
            let radix = radix_of(spec.type_char);
            let upper = spec.type_char == Some(UPPER_X);
            let prefix = if spec.alternate {
                radix_prefix(radix)
            } else {
                Seq::empty()
            };
            let text = unsigned_field(value, spec);
            let digits = text.skip(prefix.len() as int);
            let fewest = crate::text::digits(value, radix, upper).len();
            &&& text == prefix + digits
            &&& crate::text::radix_value(digits, radix) == Some(value)
            &&& digits.len() == (match spec.precision {
                Some(p) if fewest < p => p as nat,
                _ => fewest,
            })
            &&& value < pow(radix as int, fewest)
            &&& fewest > 1 ==> pow(radix as int, (fewest - 1) as nat) <= value
            &&& forall|i: int|
                0 <= i < digits.len() ==> is_digit(#[trigger] digits[i]) || (if upper {
                    0x41 <= digits[i] <= 0x5A
                } else {
                    0x61 <= digits[i] <= 0x7A
                })
        }),
{
    let radix = radix_of(spec.type_char);
    let upper = spec.type_char == Some(UPPER_X);
    let prefix = if spec.alternate {
        radix_prefix(radix)
    } else {
        Seq::empty()
    };
    let shortest = crate::text::digits(value, radix, upper);
    let text = unsigned_text(value, spec);
    crate::text::digits_read_back(value, radix, upper);
    assert(padded(text, text.len(), spec) =~= text);
    let digits = zero_extended(shortest, spec.precision);
    assert(text.skip(prefix.len() as int) =~= digits);
    if let Some(p) = spec.precision {
        if shortest.len() < p {
            crate::text::zeros_in_front((p - shortest.len()) as nat, shortest, radix);
        }
    }
}

/// Signed integers are always in decimal: neither the type character nor the
/// alternate flag changes their text.
pub proof fn signed_is_decimal(value: int, a: FormatSpec, b: FormatSpec)
    requires
        a.fill == b.fill,
        a.align == b.align,
        a.zero_fill == b.zero_fill,
        a.width == b.width,
        a.precision == b.precision,
    ensures
        signed_field(value, a) == signed_field(value, b),
{
}

/// Formats a `u64` value according to `spec` and appends it to `buf`.
pub fn format_u64(value: u64, spec: &FormatSpec, buf: &mut Vec<u8>)
    ensures
        final(buf)@ == old(buf)@ + unsigned_field(value as nat, *spec),
{
    format_unsigned_impl(value, spec, buf);
}

/// Formats a `u32` value according to `spec` and appends it to `buf`.
pub fn format_u32(value: u32, spec: &FormatSpec, buf: &mut Vec<u8>)
    ensures
        final(buf)@ == old(buf)@ + unsigned_field(value as nat, *spec),
{
    format_unsigned_impl(value as u64, spec, buf);
}

/// Formats a `u16` value according to `spec` and appends it to `buf`.
pub fn format_u16(value: u16, spec: &FormatSpec, buf: &mut Vec<u8>)
    ensures
        final(buf)@ == old(buf)@ + unsigned_field(value as nat, *spec),
{
    format_unsigned_impl(value as u64, spec, buf);
}

/// Formats a `u8` value according to `spec` and appends it to `buf`.
pub fn format_u8(value: u8, spec: &FormatSpec, buf: &mut Vec<u8>)
    ensures
        final(buf)@ == old(buf)@ + unsigned_field(value as nat, *spec),
{
    format_unsigned_impl(value as u64, spec, buf);
}

/// Formats an `i64` value according to `spec` and appends it to `buf`.
pub fn format_i64(value: i64, spec: &FormatSpec, buf: &mut Vec<u8>)
    ensures
        final(buf)@ == old(buf)@ + signed_field(value as int, *spec),
{
    format_signed_impl(value, spec, buf);
}

/// Formats an `i32` value according to `spec` and appends it to `buf`.
pub fn format_i32(value: i32, spec: &FormatSpec, buf: &mut Vec<u8>)
    ensures
        final(buf)@ == old(buf)@ + signed_field(value as int, *spec),
{
    format_signed_impl(value as i64, spec, buf);
}

/// Formats an `i16` value according to `spec` and appends it to `buf`.
pub fn format_i16(value: i16, spec: &FormatSpec, buf: &mut Vec<u8>)
    ensures
        final(buf)@ == old(buf)@ + signed_field(value as int, *spec),
{
    format_signed_impl(value as i64, spec, buf);
}

/// Formats an `i8` value according to `spec` and appends it to `buf`.
pub fn format_i8(value: i8, spec: &FormatSpec, buf: &mut Vec<u8>)
    ensures
        final(buf)@ == old(buf)@ + signed_field(value as int, *spec),
{
    format_signed_impl(value as i64, spec, buf);
}

// ---- Booleans, strings and floats -------------------------------------------

/// A boolean as it appears in the message.
pub open spec fn bool_field(value: bool, spec: FormatSpec) -> Seq<u8> {
    let text = if value {
        "true"@
    } else {
        "false"@
    };
    padded(vstd::utf8::encode_utf8(text), text.len(), spec)
}

/// Formats a `bool` value according to `spec` and appends it to `buf`.
pub fn format_bool(value: bool, spec: &FormatSpec, buf: &mut Vec<u8>)
    ensures
        final(buf)@ == old(buf)@ + bool_field(value, *spec),
{
    let text: &str = if value {
        "true"
    } else {
        "false"
    };
    format_with_spec(text, spec, buf);
}

/// What std's `{:?}` formatting makes of a string.
pub uninterp spec fn str_debug(s: Seq<char>) -> Seq<char>;

/// What std's `{:#?}` formatting makes of a string.
pub uninterp spec fn str_debug_alternate(s: Seq<char>) -> Seq<char>;

/// Formats `s` with std's `Debug` impl for `str`. What that impl quotes and
/// escapes is named, not stated.
#[verifier::external_body]
fn debug_str(s: &str) -> (r: String)
    ensures
        r@ == str_debug(s@),
{
    format!("{:?}", s)
}

/// Formats `s` with std's `Debug` impl for `str` and the alternate flag. What
/// that impl quotes and escapes is named, not stated.
#[verifier::external_body]
fn debug_str_alternate(s: &str) -> (r: String)
    ensures
        r@ == str_debug_alternate(s@),
{
    format!("{:#?}", s)
}

/// A string as `spec` asks for it, before padding: quoted for `?`, otherwise
/// cut to as many characters as the precision allows.
pub open spec fn str_text(value: Seq<char>, spec: FormatSpec) -> Seq<char> {
    if spec.type_char == Some(QUESTION) {
        if spec.alternate {
            str_debug_alternate(value)
        } else {
            str_debug(value)
        }
    } else {
        match spec.precision {
            Some(p) if p < value.len() => value.take(p as int),
            _ => value,
        }
    }
}

/// A string as it appears in the message.
pub open spec fn str_field(value: Seq<char>, spec: FormatSpec) -> Seq<u8> {
    let text = str_text(value, spec);
    padded(vstd::utf8::encode_utf8(text), text.len(), spec)
}

/// Formats a `&str` value according to `spec` and appends it to `buf`.
pub fn format_str(value: &str, spec: &FormatSpec, buf: &mut Vec<u8>)
    ensures
        final(buf)@ == old(buf)@ + str_field(value@, *spec),
{
    let question: bool = match spec.type_char {
        Some(c) => c == QUESTION,
        None => false,
    };
    if question {
        let text: String = if spec.alternate {
            debug_str_alternate(value)
        } else {
            debug_str(value)
        };
        format_with_spec(text.as_str(), spec, buf);
        return;
    }
    match spec.precision {
        Some(p) => {
            if (p as usize) < value.unicode_len() {
                let cut: &str = value.substring_char(0, p as usize);
                assert(cut@ =~= value@.take(p as int));
                format_with_spec(cut, spec, buf);
            } else {
                format_with_spec(value, spec, buf);
            }
        },
        None => format_with_spec(value, spec, buf),
    }
}

/// How a float is written before padding, as its placeholder asks for it.
#[derive(Debug, Clone, Copy, PartialEq, Eq, Structural)]
pub enum FloatStyle {
    /// `{}`, with the given number of decimal places.
    Display(Option<u16>),
    /// `{:?}`.
    Debug,
    /// `{:#?}`.
    DebugAlternate,
    /// `{:e}`, with the given number of decimal places.
    LowerExp(Option<u16>),
    /// `{:E}`, with the given number of decimal places.
    UpperExp(Option<u16>),
}

/// The style that `spec` asks for.
pub open spec fn style_of(spec: FormatSpec) -> FloatStyle {
    match spec.type_char {
        Some(c) => if c == QUESTION {
            if spec.alternate {
                FloatStyle::DebugAlternate
            } else {
                FloatStyle::Debug
            }
        } else if c == LOWER_E {
            FloatStyle::LowerExp(spec.precision)
        } else if c == UPPER_E {
            FloatStyle::UpperExp(spec.precision)
        } else {
            FloatStyle::Display(spec.precision)
        },
        None => FloatStyle::Display(spec.precision),
    }
}

/// Decides how a float is written. The text in that style is then padded with
/// [`format_with_spec`].
pub fn float_style(spec: &FormatSpec) -> (r: FloatStyle)
    ensures
        r == style_of(*spec),
{
    match spec.type_char {
        Some(c) => if c == QUESTION {
            if spec.alternate {
                FloatStyle::DebugAlternate
            } else {
                FloatStyle::Debug
            }
        } else if c == LOWER_E {
            FloatStyle::LowerExp(spec.precision)
        } else if c == UPPER_E {
            FloatStyle::UpperExp(spec.precision)
        } else {
            FloatStyle::Display(spec.precision)
        },
        None => FloatStyle::Display(spec.precision),
    }
}

// ---- Valid text -------------------------------------------------------------

/// Whether padding by `spec` is ASCII.
pub open spec fn fills_ascii(spec: FormatSpec) -> bool {
    spec.fill < 128
}

/// Padded text is text.
pub proof fn padded_is_text(text: Seq<u8>, chars: nat, spec: FormatSpec)
    requires
        vstd::utf8::valid_utf8(text),
        fills_ascii(spec),
    ensures
        vstd::utf8::valid_utf8(padded(text, chars, spec)),
{
    let fill = if spec.zero_fill {
        ZERO
    } else {
        spec.fill
    };
    let whole = padded(text, chars, spec);
    let width: nat = match spec.width {
        Some(w) => w as nat,
        None => 0,
    };
    let gap: nat = if chars < width {
        (width - chars) as nat
    } else {
        0
    };
    let left: nat = match spec.align {
        Align::Left => 0,
        Align::Right => gap,
        Align::Center => gap / 2,
        Align::Unset => if spec.zero_fill {
            gap
        } else {
            0
        },
    };
    let front = crate::text::repeated(fill, left);
    let back = crate::text::repeated(fill, (gap - left) as nat);
    crate::text::ascii_is_text(front);
    crate::text::ascii_is_text(back);
    vstd::utf8::valid_utf8_concat(front, text);
    vstd::utf8::valid_utf8_concat(front + text, back);
    assert(whole == front + text + back);
}

/// Unsigned integers are written as text.
pub proof fn unsigned_is_text(value: nat, spec: FormatSpec)
    requires
        fills_ascii(spec),
    ensures
        vstd::utf8::valid_utf8(unsigned_field(value, spec)),
{
    let radix = radix_of(spec.type_char);
    crate::text::digits_are_ascii(value, radix, spec.type_char == Some(UPPER_X));
    let text = unsigned_text(value, spec);
    crate::text::ascii_is_text(text);
    padded_is_text(text, text.len(), spec);
}

/// Signed integers are written as text.
pub proof fn signed_is_text(value: int, spec: FormatSpec)
    requires
        fills_ascii(spec),
    ensures
        vstd::utf8::valid_utf8(signed_field(value, spec)),
{
    let magnitude = if value < 0 {
        (-value) as nat
    } else {
        value as nat
    };
    crate::text::digits_are_ascii(magnitude, 10, false);
    let text = signed_text(value, spec);
    crate::text::ascii_is_text(text);
    padded_is_text(text, text.len(), spec);
}

/// Strings are written as text.
pub proof fn strings_are_text(value: Seq<char>, spec: FormatSpec)
    requires
        fills_ascii(spec),
    ensures
        vstd::utf8::valid_utf8(str_field(value, spec)),
{
    let text = str_text(value, spec);
    vstd::utf8::encode_utf8_valid_utf8(text);
    padded_is_text(vstd::utf8::encode_utf8(text), text.len(), spec);
}

/// The first colon of a placeholder is the one that ends its name.
proof fn colon_ends_name(s: Seq<u8>, start: int, i: int, n: int, e: int)
    requires
        0 <= start <= i <= n < e <= s.len(),
        s[n] == COLON,
        forall|j: int| i <= j < n ==> #[trigger] s[j] != COLON,
    ensures
        colon_at(s.subrange(start, e), i - start) == n - start,
    decreases n - i,
{
    if i < n {
        assert(s.subrange(start, e)[i - start] == s[i]);
        colon_ends_name(s, start, i + 1, n, e);
    } else {
        assert(s.subrange(start, e)[i - start] == s[n]);
    }
}

/// A part without a colon has none.
pub proof fn colon_missing(s: Seq<u8>, i: int)
    requires
        0 <= i <= s.len(),
        forall|j: int| i <= j < s.len() ==> #[trigger] s[j] != COLON,
    ensures
        colon_at(s, i) == s.len(),
    decreases s.len() - i,
{
    if i < s.len() {
        colon_missing(s, i + 1);
    }
}

/// The spec of a placeholder whose name ends at `n` and whose content ends at
/// `e` pads with ASCII, where its body is valid.
pub proof fn valid_spec_fills_ascii(s: Seq<u8>, start: int, n: int, e: int)
    requires
        0 <= start <= n <= e < s.len(),
        n == name_end(s, start),
        s[e] == CLOSE,
        s[n] == CLOSE ==> e == n,
        s[n] == COLON ==> n < e && spec_body_end(s, n + 1) == Ok::<int, FmtFault>(e),
    ensures
        fills_ascii(content_spec(s.subrange(start, e))),
{
    let content = s.subrange(start, e);
    name_end_bounds(s, start);
    if s[n] == COLON {
        colon_ends_name(s, start, start, n, e);
        let body = content.subrange(n - start + 1, content.len() as int);
        if body.len() > 1 && is_align(body[1]) {
            assert(body[0] == s[n + 1]);
            assert(body[1] == s[n + 2]);
        }
    } else {
        assert forall|j: int| 0 <= j < content.len() implies #[trigger] content[j] != COLON by {
            assert(content[j] == s[start + j]);
        }
        colon_missing(content, 0);
    }
}

// ---- Format strings one behind the other ------------------------------------

/// `outcome` with its position moved by `n`.
pub open spec fn moved(outcome: Result<int, FmtFault>, n: int) -> Result<int, FmtFault> {
    match outcome {
        Ok(e) => Ok(n + e),
        Err(f) => Err(f),
    }
}

proof fn digits_end_behind(a: Seq<u8>, b: Seq<u8>, i: int)
    requires
        0 <= i <= b.len(),
    ensures
        digits_end(a + b, a.len() + i) == a.len() + digits_end(b, i),
    decreases b.len() - i,
{
    if i < b.len() && is_digit(b[i]) {
        digits_end_behind(a, b, i + 1);
    }
}

pub proof fn name_end_behind(a: Seq<u8>, b: Seq<u8>, i: int)
    requires
        0 <= i <= b.len(),
    ensures
        name_end(a + b, a.len() + i) == a.len() + name_end(b, i),
    decreases b.len() - i,
{
    if i < b.len() && b[i] != COLON && b[i] != CLOSE {
        name_end_behind(a, b, i + 1);
    }
}

/// A spec body reads the same behind other text.
pub proof fn spec_body_behind(a: Seq<u8>, b: Seq<u8>, i: int)
    requires
        0 <= i <= b.len(),
    ensures
        spec_body_end(a + b, a.len() + i) == moved(spec_body_end(b, i), a.len() as int),
{
    let n = a.len();
    body_positions(b, i);
    assert(align_end(a + b, n + i) == n + align_end(b, i));
    assert(zero_end(a + b, n + i) == n + zero_end(b, i));
    digits_end_behind(a, b, zero_end(b, i));
    let w = width_end(b, i);
    assert(width_end(a + b, n + i) == n + w);
    if holds(b, w, DOT) {
        digits_end_behind(a, b, w + 1);
    }
    assert(alternate_end(a + b, n + i) == n + alternate_end(b, i));
}

/// A placeholder reads the same behind other text.
proof fn placeholder_behind(a: Seq<u8>, b: Seq<u8>, start: int)
    requires
        0 <= start <= b.len(),
    ensures
        placeholder_end(a + b, a.len() + start) == moved(
            placeholder_end(b, start),
            a.len() as int,
        ),
{
    let n = name_end(b, start);
    name_end_behind(a, b, start);
    name_end_bounds(b, start);
    assert(all_digits(a + b, a.len() + start, a.len() + n) == all_digits(b, start, n)) by {
        assert forall|j: int| start <= j < n implies (a + b)[a.len() + j] == #[trigger] b[j] by {}
        assert forall|j: int| a.len() + start <= j < a.len() + n implies #[trigger] (a + b)[j]
            == b[j - a.len()] by {}
    }
    if n < b.len() && b[n] == COLON {
        spec_body_behind(a, b, n + 1);
        body_positions(b, n + 1);
    }
}

/// The placeholders of a text are the same behind other text.
pub proof fn placeholders_behind(a: Seq<u8>, b: Seq<u8>, i: int)
    requires
        0 <= i <= b.len(),
    ensures
        placeholders_from(a + b, a.len() + i) == placeholders_from(b, i),
    decreases b.len() - i,
{
    if i < b.len() {
        if b[i] == OPEN {
            if holds(b, i + 1, OPEN) {
                placeholders_behind(a, b, i + 2);
            } else {
                placeholder_behind(a, b, i + 1);
                placeholder_end_bounds(b, i + 1);
                if let Ok(e) = placeholder_end(b, i + 1) {
                    placeholders_behind(a, b, e);
                }
            }
        } else if b[i] == CLOSE {
            if holds(b, i + 1, CLOSE) {
                placeholders_behind(a, b, i + 2);
            }
        } else {
            placeholders_behind(a, b, i + 1);
        }
    }
}

proof fn digits_end_before(a: Seq<u8>, b: Seq<u8>, i: int)
    requires
        0 <= i,
        digits_end(a, i) < a.len(),
    ensures
        digits_end(a + b, i) == digits_end(a, i),
    decreases a.len() - i,
{
    if i < a.len() && is_digit(a[i]) {
        digits_end_before(a, b, i + 1);
    }
}

pub proof fn name_end_before(a: Seq<u8>, b: Seq<u8>, i: int)
    requires
        0 <= i,
        name_end(a, i) < a.len(),
    ensures
        name_end(a + b, i) == name_end(a, i),
    decreases a.len() - i,
{
    if i < a.len() && a[i] != COLON && a[i] != CLOSE {
        name_end_before(a, b, i + 1);
    }
}

/// A placeholder that ends reads the same whatever follows it.
pub proof fn placeholder_before(a: Seq<u8>, b: Seq<u8>, start: int)
    requires
        0 <= start <= a.len(),
        placeholder_end(a, start) is Ok,
    ensures
        placeholder_end(a + b, start) == placeholder_end(a, start),
{
    let n = name_end(a, start);
    placeholder_end_bounds(a, start);
    name_end_bounds(a, start);
    name_end_before(a, b, start);
    assert forall|j: int| 0 <= j < a.len() implies #[trigger] (a + b)[j] == a[j] by {}
    assert(all_digits(a + b, start, n) == all_digits(a, start, n)) by {
        assert forall|j: int| start <= j < n implies (a + b)[j] == #[trigger] a[j] by {}
    }
    if a[n] == COLON && a[n + 1] != CLOSE {
        let i = n + 1;
        body_positions(a, i);
        assert(align_end(a + b, i) == align_end(a, i));
        assert(zero_end(a + b, i) == zero_end(a, i));
        digits_end_before(a, b, zero_end(a, i));
        let w = width_end(a, i);
        if holds(a, w, DOT) {
            digits_end_before(a, b, w + 1);
        }
        assert(alternate_end(a + b, i) == alternate_end(a, i));
    }
}

/// Behind a format string that validates, the placeholders of another are
/// counted on, and what is wrong with it is wrong with both.
pub proof fn placeholders_add(a: Seq<u8>, b: Seq<u8>)
    requires
        placeholders(a) is Ok,
    ensures
        placeholders(a + b) == (match placeholders(b) {
            Ok(n) => Ok(placeholders(a)->Ok_0 + n),
            Err(f) => Err(f),
        }),
{
    placeholders_add_from(a, b, 0);
}

proof fn placeholders_add_from(a: Seq<u8>, b: Seq<u8>, i: int)
    requires
        0 <= i <= a.len(),
        placeholders_from(a, i) is Ok,
    ensures
        placeholders_from(a + b, i) == (match placeholders(b) {
            Ok(n) => Ok(placeholders_from(a, i)->Ok_0 + n),
            Err(f) => Err(f),
        }),
    decreases a.len() - i,
{
    if i == a.len() {
        placeholders_behind(a, b, 0);
    } else {
        assert((a + b)[i] == a[i]);
        if a[i] == OPEN {
            if holds(a, i + 1, OPEN) {
                placeholders_add_from(a, b, i + 2);
            } else {
                placeholder_end_bounds(a, i + 1);
                placeholder_before(a, b, i + 1);
                placeholders_add_from(a, b, placeholder_end(a, i + 1)->Ok_0);
            }
        } else if a[i] == CLOSE {
            placeholders_add_from(a, b, i + 2);
        } else {
            placeholders_add_from(a, b, i + 1);
        }
    }
}

/// Where a text validates as a format string, another one behind it validates
/// exactly where that does by itself, with the same fault where it does not, and
/// the counts add up.
pub proof fn validation_adds(a: Seq<char>, b: Seq<char>)
    requires
        validation(vstd::utf8::encode_utf8(a)) is Ok,
    ensures
        validation(vstd::utf8::encode_utf8(a + b)) == (match validation(
            vstd::utf8::encode_utf8(b),
        ) {
            Ok(n) => Ok(validation(vstd::utf8::encode_utf8(a))->Ok_0 + n),
            Err(f) => Err(f),
        }),
{
    crate::text::encoding_joins(a, b);
    placeholders_add(vstd::utf8::encode_utf8(a), vstd::utf8::encode_utf8(b));
}

} // verus!

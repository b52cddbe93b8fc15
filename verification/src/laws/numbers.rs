//! Numbers as text.

use crate::format::FormatSpec;
use vstd::arithmetic::power::pow;
use vstd::prelude::*;

verus! {

/// What digits say: nothing is zero, and a digit behind a number multiplies it by
/// the radix and adds itself. Letters of either case go on where the decimal
/// digits end, and anything else is no number.
pub proof fn digits_add_up(s: Seq<u8>, b: u8, radix: nat)
    requires
        radix <= 36,
    ensures
        crate::text::radix_value(Seq::empty(), radix) == Some(0nat),
        crate::text::radix_value(s.push(b), radix) == (match crate::text::radix_value(s, radix) {
            None => None,
            Some(n) => if 48 <= b <= 57 && b - 48 < radix {
                Some((n * radix + (b - 48)) as nat)
            } else if 97 <= b <= 122 && b - 87 < radix {
                Some((n * radix + (b - 87)) as nat)
            } else if 65 <= b <= 90 && b - 55 < radix {
                Some((n * radix + (b - 55)) as nat)
            } else {
                None
            },
        }),
{
    assert(s.push(b).drop_last() =~= s);
    if let Some(n) = crate::text::radix_value(s, radix) {
        assert(n * radix >= 0) by (nonlinear_arith);
    }
}

/// An unsigned integer reads back: without a width, its text is a prefix and then
/// digits of which the value is the integer. The digits are hexadecimal for `x`
/// and `X`, octal for `o`, binary for `b` and decimal otherwise. The prefix is
/// `0x`, `0o` or `0b` where the alternate flag asks for one, and decimals have
/// none. There are as few digits as it takes, or as many as the precision asks
/// for, and letters are capitals exactly for `X`.
pub proof fn unsigned_reads_back(value: nat, spec: FormatSpec)
    requires
        spec.width is None,
    ensures
        ({
            let hex = spec.type_char == Some(0x78u8) || spec.type_char == Some(0x58u8);
            let octal = spec.type_char == Some(0x6Fu8);
            let binary = spec.type_char == Some(0x62u8);
            let radix: nat = if hex {
                16
            } else if octal {
                8
            } else if binary {
                2
            } else {
                10
            };
            let prefix = if !spec.alternate || radix == 10 {
                Seq::<u8>::empty()
            } else if hex {
                seq![0x30u8, 0x78u8]
            } else if octal {
                seq![0x30u8, 0x6Fu8]
            } else {
                seq![0x30u8, 0x62u8]
            };
            let text = crate::format::unsigned_field(value, spec);
            let upper = spec.type_char == Some(0x58u8);
            &&& text.take(prefix.len() as int) == prefix
            &&& reads_as(text.skip(prefix.len() as int), value, radix, upper, spec.precision)
        }),
{
    crate::format::unsigned_reads_back(value, spec);
    let radix = crate::format::radix_of(spec.type_char);
    let upper = spec.type_char == Some(0x58u8);
    let shortest = crate::text::digits(value, radix, upper);
    let text = crate::format::unsigned_field(value, spec);
    let prefix = if spec.alternate {
        crate::format::radix_prefix(radix)
    } else {
        Seq::empty()
    };
    let digits = text.skip(prefix.len() as int);
    assert(fewest_digits(value, radix, shortest.len())) by {
        crate::text::digits_read_back(value, radix, upper);
    }
    digits_below(digits, radix);
    assert(text.take(prefix.len() as int) =~= prefix);
    crate::text::digits_read_back(value, radix, upper);
    digits_below(shortest, radix);
    assert forall|i: int| 0 <= i < shortest.len() implies digit_in(
        #[trigger] shortest[i],
        upper,
    ) by {}
    let unpadded = crate::format::unsigned_text(value, spec);
    assert(text =~= unpadded);
    assert(digits =~= crate::format::zero_extended(shortest, spec.precision));
    assert forall|i: int| 0 <= i < digits.len() implies digit_in(#[trigger] digits[i], upper) by {
        if let Some(p) = spec.precision {
            if shortest.len() < p && i >= p - shortest.len() {
                assert(digits[i] == shortest[i - (p - shortest.len())]);
            }
        }
    }
    assert(reads_as(digits, value, radix, upper, spec.precision));
}

/// Whether `digits` write `value` in `radix`, with letters of one case, in as few
/// digits as it takes or as many as the precision asks for.
pub open spec fn reads_as(
    digits: Seq<u8>,
    value: nat,
    radix: nat,
    upper: bool,
    precision: Option<u16>,
) -> bool {
    &&& crate::text::radix_value(digits, radix) == Some(value)
    &&& as_many_digits(value, radix, digits.len(), precision)
    &&& forall|i: int| 0 <= i < digits.len() ==> digit_in(#[trigger] digits[i], upper)
}

/// Whether `b` is a decimal digit, or one of the letters `a` to `f` in the case
/// that is asked for.
pub open spec fn digit_in(b: u8, upper: bool) -> bool {
    48 <= b <= 57 || (upper && 65 <= b <= 70) || (!upper && 97 <= b <= 102)
}

/// Whether `n` is the number of digits that `value` takes in `radix`.
pub open spec fn fewest_digits(value: nat, radix: nat, n: nat) -> bool {
    &&& n >= 1
    &&& value < pow(radix as int, n)
    &&& n > 1 ==> pow(radix as int, (n - 1) as nat) <= value
}

/// Whether `len` digits are as few as `value` takes in `radix`, or as many as the
/// precision asks for.
pub open spec fn as_many_digits(value: nat, radix: nat, len: nat, precision: Option<u16>) -> bool {
    exists|n: nat| #[trigger]
        fewest_digits(value, radix, n) && len == (match precision {
            Some(p) if n < p => p as nat,
            _ => n,
        })
}

/// A number takes `n` digits where it is below the `n`-th power of the radix, and, for more
/// than one digit, not below the power before. A precision asks for no fewer than itself.
pub proof fn digits_are_counted(value: nat, radix: nat, n: nat, len: nat, p: u16)
    requires
        radix >= 2,
        n >= 1,
        value < pow(radix as int, n),
        n > 1 ==> pow(radix as int, (n - 1) as nat) <= value,
    ensures
        as_many_digits(value, radix, len, None) <==> len == n,
        as_many_digits(value, radix, len, Some(p)) <==> len == (if n < p {
            p as nat
        } else {
            n
        }),
{
    assert(fewest_digits(value, radix, n));
    assert forall|m: nat| #[trigger] fewest_digits(value, radix, m) implies m == n by {
        if m < n {
            vstd::arithmetic::power::lemma_pow_increases(radix, m, (n - 1) as nat);
        }
        if n < m {
            vstd::arithmetic::power::lemma_pow_increases(radix, n, (m - 1) as nat);
        }
    }
}

/// The letters among the digits of a number.
proof fn digits_below(s: Seq<u8>, radix: nat)
    requires
        radix <= 16,
        crate::text::radix_value(s, radix) is Some,
    ensures
        forall|i: int|
            0 <= i < s.len() ==> 48 <= #[trigger] s[i] <= 57 || 65 <= s[i] <= 70 || 97 <= s[i]
                <= 102,
    decreases s.len(),
{
    if s.len() > 0 {
        digits_below(s.drop_last(), radix);
        assert forall|i: int| 0 <= i < s.len() implies 48 <= #[trigger] s[i] <= 57 || 65 <= s[i]
            <= 70 || 97 <= s[i] <= 102 by {
            if i < s.len() - 1 {
                assert(s.drop_last()[i] == s[i]);
            }
        }
    }
}

/// A signed integer reads back: without a width, its text is a minus sign exactly
/// where it is negative, and then decimal digits of which the value is the
/// absolute value of the integer, whatever the type character and the alternate
/// flag. There are as few digits as it takes, or as many as the precision asks
/// for.
pub proof fn signed_reads_back(value: int, spec: FormatSpec)
    requires
        spec.width is None,
    ensures
        ({
            let abs: nat = if value < 0 {
                (-value) as nat
            } else {
                value as nat
            };
            let text = crate::format::signed_field(value, spec);
            let digits = if value < 0 {
                text.skip(1)
            } else {
                text
            };
            &&& text.len() > 0
            &&& text[0] == 0x2D <==> value < 0
            &&& crate::text::radix_value(digits, 10) == Some(abs)
            &&& as_many_digits(abs, 10, digits.len(), spec.precision)
            &&& forall|i: int| 0 <= i < digits.len() ==> 48 <= #[trigger] digits[i] <= 57
        }),
{
    let abs: nat = if value < 0 {
        (-value) as nat
    } else {
        value as nat
    };
    let shortest = crate::text::decimal(abs);
    let digits = crate::format::zero_extended(shortest, spec.precision);
    let text = crate::format::signed_text(value, spec);
    crate::text::digits_read_back(abs, 10, false);
    assert(fewest_digits(abs, 10, shortest.len()));
    if let Some(p) = spec.precision {
        if shortest.len() < p {
            crate::text::zeros_in_front((p - shortest.len()) as nat, shortest, 10);
        }
    }
    decimal_digits(digits);
    assert(crate::format::padded(text, text.len(), spec) =~= text);
    if value < 0 {
        assert(text.skip(1) =~= digits);
    }
}

/// Decimal numbers are decimal digits.
pub proof fn decimal_digits(s: Seq<u8>)
    requires
        crate::text::radix_value(s, 10) is Some,
    ensures
        forall|i: int| 0 <= i < s.len() ==> 48 <= #[trigger] s[i] <= 57,
    decreases s.len(),
{
    if s.len() > 0 {
        decimal_digits(s.drop_last());
        assert forall|i: int| 0 <= i < s.len() implies 48 <= #[trigger] s[i] <= 57 by {
            if i < s.len() - 1 {
                assert(s.drop_last()[i] == s[i]);
            }
        }
    }
}

/// The last digits of a number, with zeros in front, read back.
pub proof fn padded_reads_back(n: nat, width: nat)
    ensures
        ({
            let s = crate::text::padded_decimal(n, width);
            &&& s.len() == width
            &&& crate::text::radix_value(s, 10) == Some((n % pow(10, width) as nat) as nat)
            &&& forall|i: int| 0 <= i < s.len() ==> 48 <= #[trigger] s[i] <= 57
        }),
    decreases width,
{
    let s = crate::text::padded_decimal(n, width);
    reveal(pow);
    if width > 0 {
        let w = (width - 1) as nat;
        padded_reads_back(n / 10, w);
        vstd::arithmetic::power::lemma_pow_positive(10, w);
        let p = pow(10, w);
        assert(s.drop_last() =~= crate::text::padded_decimal(n / 10, w));
        assert(pow(10, width) == 10 * p);
        vstd::arithmetic::div_mod::lemma_mod_breakdown(n as int, 10, p);
        assert((10 * p) as int == 10 * p);
        decimal_digits(s);
    }
}

/// A number in decimal reads back, in as few digits as it takes.
pub proof fn decimal_reads_back(n: nat)
    ensures
        ({
            let len = crate::text::decimal(n).len();
            &&& crate::text::radix_value(crate::text::decimal(n), 10) == Some(n)
            &&& len >= 1
            &&& n < pow(10, len)
            &&& len > 1 ==> pow(10, (len - 1) as nat) <= n
        }),
{
    crate::text::digits_read_back(n, 10, false);
}

} // verus!

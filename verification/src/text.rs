//! Byte-level text: appending to a line buffer and writing numbers in a radix.
use vstd::arithmetic::div_mod::*;
use vstd::arithmetic::power::*;
use vstd::prelude::*;
use vstd::string::*;

verus! {

/// The byte that stands for the digit `d` (`0..36`), with letters above nine.
pub open spec fn digit_byte(d: int, upper: bool) -> u8 {
    if d < 10 {
        (48 + d) as u8
    } else if upper {
        (55 + d) as u8
    } else {
        (87 + d) as u8
    }
}

/// `n` written in `radix` without leading zeros; zero is a single `0`.
pub open spec fn digits(n: nat, radix: nat, upper: bool) -> Seq<u8>
    decreases n,
    when radix >= 2
{
    if n < radix {
        seq![digit_byte(n as int, upper)]
    } else {
        proof {
            lemma_div_decreases(n as int, radix as int);
        }
        digits(n / radix, radix, upper).push(digit_byte((n % radix) as int, upper))
    }
}

/// `n` in decimal.
pub open spec fn decimal(n: nat) -> Seq<u8> {
    digits(n, 10, false)
}

/// The last `width` decimal digits of `n`, with leading zeros.
pub open spec fn padded_decimal(n: nat, width: nat) -> Seq<u8>
    decreases width,
{
    if width == 0 {
        Seq::empty()
    } else {
        padded_decimal(n / 10, (width - 1) as nat).push((48 + n % 10) as u8)
    }
}

/// `b` repeated `n` times.
pub open spec fn repeated(b: u8, n: nat) -> Seq<u8> {
    Seq::new(n, |i: int| b)
}

/// Whether two byte strings are the same.
pub(crate) fn same_bytes(a: &[u8], b: &[u8]) -> (r: bool)
    ensures
        r == (a@ == b@),
{
    if a.len() != b.len() {
        return false;
    }
    let mut i: usize = 0;
    while i < a.len()
        invariant
            i <= a@.len() == b@.len(),
            forall|j: int| 0 <= j < i ==> a@[j] == b@[j],
        decreases a@.len() - i,
    {
        if a[i] != b[i] {
            return false;
        }
        i = i + 1;
    }
    assert(a@ =~= b@);
    true
}

/// Whether two texts are the same.
pub(crate) fn same_text(a: &str, b: &str) -> (r: bool)
    ensures
        r == (a@ == b@),
        r == (a.spec_bytes() == b.spec_bytes()),
{
    proof {
        vstd::utf8::encode_utf8_decode_utf8(a@);
        vstd::utf8::encode_utf8_decode_utf8(b@);
    }
    same_bytes(a.as_bytes(), b.as_bytes())
}

/// Appends every byte of `bytes` to `buf`.
pub fn push_bytes(buf: &mut Vec<u8>, bytes: &[u8])
    ensures
        final(buf)@ == old(buf)@ + bytes@,
{
    buf.extend_from_slice(bytes);
    assert(buf@ =~= old(buf)@ + bytes@);
}

/// Appends the UTF-8 bytes of `s` to `buf`.
pub fn push_str(buf: &mut Vec<u8>, s: &str)
    ensures
        final(buf)@ == old(buf)@ + s.spec_bytes(),
{
    push_bytes(buf, s.as_bytes());
}

/// Appends `v` in `radix` to `buf`, most significant digit first.
pub fn push_digits(buf: &mut Vec<u8>, v: u64, radix: u64, upper: bool)
    requires
        2 <= radix <= 36,
    ensures
        final(buf)@ == old(buf)@ + digits(v as nat, radix as nat, upper),
    decreases v,
{
    proof {
        lemma_mod_bound(v as int, radix as int);
    }
    if v >= radix {
        proof {
            lemma_div_decreases(v as int, radix as int);
        }
        push_digits(buf, v / radix, radix, upper);
    }
    let d: u8 = (v % radix) as u8;
    proof {
        if v < radix {
            lemma_small_mod(v as nat, radix as nat);
        }
    }
    let b: u8 = if d < 10 {
        48 + d
    } else if upper {
        55 + d
    } else {
        87 + d
    };
    buf.push(b);
    assert(buf@ =~= old(buf)@ + digits(v as nat, radix as nat, upper));
}

/// Appends the decimal representation of `v` to `buf`.
pub fn append_u64(v: u64, buf: &mut Vec<u8>)
    ensures
        final(buf)@ == old(buf)@ + decimal(v as nat),
{
    push_digits(buf, v, 10, false);
}

/// Appends the last `width` decimal digits of `v`, with leading zeros.
pub fn push_padded(buf: &mut Vec<u8>, v: u32, width: usize)
    ensures
        final(buf)@ == old(buf)@ + padded_decimal(v as nat, width as nat),
    decreases width,
{
    if width > 0 {
        push_padded(buf, v / 10, width - 1);
        buf.push(48 + (v % 10) as u8);
    }
    assert(buf@ =~= old(buf)@ + padded_decimal(v as nat, width as nat));
}

/// Appends `n` copies of `b` to `buf`.
pub fn push_repeated(buf: &mut Vec<u8>, b: u8, n: usize)
    ensures
        final(buf)@ == old(buf)@ + repeated(b, n as nat),
{
    let mut i: usize = 0;
    assert(buf@ =~= old(buf)@ + repeated(b, 0));
    while i < n
        invariant
            i <= n,
            buf@ == old(buf)@ + repeated(b, i as nat),
        decreases n - i,
    {
        buf.push(b);
        i = i + 1;
        assert(buf@ =~= old(buf)@ + repeated(b, i as nat));
    }
}

/// The value of the decimal digits `s`.
pub open spec fn digits_to_nat(s: Seq<u8>) -> nat
    decreases s.len(),
{
    if s.len() == 0 {
        0
    } else {
        digits_to_nat(s.drop_last()) * 10 + (s.last() - 48) as nat
    }
}

/// Whether `s` is made of decimal digits.
pub open spec fn only_digits(s: Seq<u8>) -> bool {
    forall|i: int| 0 <= i < s.len() ==> 48 <= #[trigger] s[i] <= 57
}

/// `s` without a `+` in front.
pub open spec fn without_plus(s: Seq<u8>) -> Seq<u8> {
    if s.len() > 0 && s[0] == 43 {
        s.skip(1)
    } else {
        s
    }
}

/// The number that `s` writes in decimal, with an optional `+` in front, where
/// it writes one that 64 bits can hold.
pub open spec fn decimal_value(s: Seq<u8>) -> Option<u64> {
    let digits = without_plus(s);
    if digits.len() > 0 && only_digits(digits) && digits_to_nat(digits) <= u64::MAX {
        Some(digits_to_nat(digits) as u64)
    } else {
        None
    }
}

/// More digits make no smaller number.
proof fn digits_to_nat_grows(s: Seq<u8>, n: int)
    requires
        0 <= n <= s.len(),
    ensures
        digits_to_nat(s.take(n)) <= digits_to_nat(s),
    decreases s.len() - n,
{
    if n < s.len() {
        digits_to_nat_grows(s, n + 1);
        assert(s.take(n + 1).drop_last() =~= s.take(n));
    } else {
        assert(s.take(n) =~= s);
    }
}

/// Reads a decimal number with an optional `+` in front.
pub fn parse_decimal(s: &[u8]) -> (r: Option<u64>)
    ensures
        r == decimal_value(s@),
{
    let start: usize = if s.len() > 0 && s[0] == 43 {
        1
    } else {
        0
    };
    let ghost digits = without_plus(s@);
    assert(s@.skip(0) =~= s@);
    if start == s.len() {
        return None;
    }
    let mut v: u64 = 0;
    let mut i: usize = start;
    assert(digits.take(0) =~= Seq::<u8>::empty());
    while i < s.len()
        invariant
            start <= i <= s@.len(),
            digits == without_plus(s@),
            digits == s@.skip(start as int),
            digits.len() > 0,
            forall|j: int| 0 <= j < i - start ==> 48 <= #[trigger] digits[j] <= 57,
            v == digits_to_nat(digits.take(i - start)),
        decreases s@.len() - i,
    {
        let b: u8 = s[i];
        assert(digits[i - start] == b);
        if b < 48 || b > 57 {
            return None;
        }
        let d: u64 = (b - 48) as u64;
        proof {
            assert(digits.take(i - start + 1).drop_last() =~= digits.take(i - start));
            digits_to_nat_grows(digits, i - start + 1);
        }
        if v > (u64::MAX - d) / 10 {
            return None;
        }
        v = v * 10 + d;
        i = i + 1;
    }
    assert(digits.take(i - start) =~= digits);
    Some(v)
}

/// The character of the decimal digit `d`.
pub open spec fn digit_char(d: nat) -> char {
    (48 + d) as char
}

/// `n` in decimal, as characters.
pub open spec fn decimal_chars(n: nat) -> Seq<char>
    decreases n,
{
    if n < 10 {
        seq![digit_char(n)]
    } else {
        decimal_chars(n / 10).push(digit_char(n % 10))
    }
}

/// A signed integer in decimal, as characters.
pub open spec fn signed_decimal_chars(v: int) -> Seq<char> {
    if v < 0 {
        seq!['-'] + decimal_chars((-v) as nat)
    } else {
        decimal_chars(v as nat)
    }
}

/// Appends the decimal digit `d` to `s`.
fn append_digit(s: &mut String, d: u8)
    requires
        d < 10,
    ensures
        final(s)@ == old(s)@.push(digit_char(d as nat)),
{
    proof {
        reveal_strlit("0");
        reveal_strlit("1");
        reveal_strlit("2");
        reveal_strlit("3");
        reveal_strlit("4");
        reveal_strlit("5");
        reveal_strlit("6");
        reveal_strlit("7");
        reveal_strlit("8");
        reveal_strlit("9");
    }
    let digit: &str = match d {
        0 => "0",
        1 => "1",
        2 => "2",
        3 => "3",
        4 => "4",
        5 => "5",
        6 => "6",
        7 => "7",
        8 => "8",
        _ => "9",
    };
    s.append(digit);
    assert(s@ =~= old(s)@.push(digit_char(d as nat)));
}

/// Appends `v` in decimal to `s`.
pub fn append_decimal(s: &mut String, v: u64)
    ensures
        final(s)@ == old(s)@ + decimal_chars(v as nat),
    decreases v,
{
    if v >= 10 {
        append_decimal(s, v / 10);
    }
    append_digit(s, (v % 10) as u8);
    assert(s@ =~= old(s)@ + decimal_chars(v as nat));
}

/// Appends `v` in decimal to `s`.
pub fn append_signed_decimal(s: &mut String, v: i32)
    ensures
        final(s)@ == old(s)@ + signed_decimal_chars(v as int),
{
    if v < 0 {
        proof {
            reveal_strlit("-");
        }
        s.append("-");
        append_decimal(s, (-(v as i64)) as u64);
        assert(s@ =~= old(s)@ + signed_decimal_chars(v as int));
    } else {
        append_decimal(s, v as u64);
    }
}

// ---- Reading digits back ----------------------------------------------------

/// The value of a digit in `radix`, where it is one: a decimal digit or a letter
/// of either case.
pub open spec fn digit_value(b: u8, radix: nat) -> Option<nat> {
    let d: int = if 48 <= b <= 57 {
        b - 48
    } else if 97 <= b <= 122 {
        b - 87
    } else if 65 <= b <= 90 {
        b - 55
    } else {
        36
    };
    if d < radix {
        Some(d as nat)
    } else {
        None
    }
}

/// The number that `s` writes in `radix`, where all of it are digits.
pub open spec fn radix_value(s: Seq<u8>, radix: nat) -> Option<nat>
    decreases s.len(),
{
    if s.len() == 0 {
        Some(0)
    } else {
        match (radix_value(s.drop_last(), radix), digit_value(s.last(), radix)) {
            (Some(n), Some(d)) => Some(n * radix + d),
            _ => None,
        }
    }
}

/// A number in a radix reads back as that number, in as few digits as it takes,
/// and with letters of one case.
pub proof fn digits_read_back(n: nat, radix: nat, upper: bool)
    requires
        2 <= radix <= 36,
    ensures
        ({
            let s = digits(n, radix, upper);
            &&& s.len() >= 1
            &&& radix_value(s, radix) == Some(n)
            &&& n < pow(radix as int, s.len())
            &&& s.len() > 1 ==> pow(radix as int, (s.len() - 1) as nat) <= n
            &&& forall|i: int|
                0 <= i < s.len() ==> 48 <= #[trigger] s[i] <= 57 || (if upper {
                    65 <= s[i] <= 90
                } else {
                    97 <= s[i] <= 122
                })
        }),
    decreases n,
{
    let s = digits(n, radix, upper);
    reveal(pow);
    if n < radix {
        assert(s.drop_last() =~= Seq::<u8>::empty());
        assert(radix_value(s.drop_last(), radix) == Some(0nat));
        assert(digit_value(s.last(), radix) == Some(n));
        assert(0 * radix == 0) by (nonlinear_arith);
        assert(radix_value(s, radix) == Some(n));
        assert(pow(radix as int, 1) == radix) by {
            lemma_pow1(radix as int);
        }
    } else {
        let q = n / radix;
        let d = n % radix;
        lemma_div_decreases(n as int, radix as int);
        lemma_fundamental_div_mod(n as int, radix as int);
        digits_read_back(q, radix, upper);
        let front = digits(q, radix, upper);
        let k = front.len();
        assert(s.drop_last() =~= front);
        assert(digit_value(s.last(), radix) == Some(d));
        assert(q * radix == radix * q) by (nonlinear_arith);
        let r = radix as int;
        assert(pow(r, k + 1) == r * pow(r, k));
        assert(n < r * pow(r, k)) by (nonlinear_arith)
            requires
                n == r * q + d,
                0 <= d < r,
                q + 1 <= pow(r, k),
        ;
        assert(s.len() == k + 1);
        assert(radix_value(s, radix) == Some(n));
        if k > 1 {
            assert(pow(r, k) == r * pow(r, (k - 1) as nat));
            assert(r * pow(r, (k - 1) as nat) <= n) by (nonlinear_arith)
                requires
                    n == r * q + d,
                    0 <= d,
                    0 < r,
                    pow(r, (k - 1) as nat) <= q,
            ;
        } else {
            lemma_pow1(r);
        }
    }
}

/// Zeros in front change no number.
pub proof fn zeros_in_front(k: nat, s: Seq<u8>, radix: nat)
    requires
        radix >= 2,
    ensures
        radix_value(repeated(48, k) + s, radix) == radix_value(s, radix),
    decreases s.len(), k,
{
    let t = repeated(48, k) + s;
    if s.len() > 0 {
        assert(t.drop_last() =~= repeated(48, k) + s.drop_last());
        zeros_in_front(k, s.drop_last(), radix);
    } else {
        assert(t =~= repeated(48, k));
        if k > 0 {
            let fewer = repeated(48, (k - 1) as nat);
            assert(t.drop_last() =~= fewer + s);
            zeros_in_front((k - 1) as nat, s, radix);
            assert(digit_value(48, radix) == Some(0nat));
            assert(0 * radix == 0) by (nonlinear_arith);
        }
    }
}

// ---- Valid text -------------------------------------------------------------

/// Whether all of `s` is ASCII.
pub open spec fn is_ascii(s: Seq<u8>) -> bool {
    forall|i: int| 0 <= i < s.len() ==> #[trigger] s[i] < 128
}

/// ASCII is valid UTF-8.
pub proof fn ascii_is_text(s: Seq<u8>)
    requires
        is_ascii(s),
    ensures
        vstd::utf8::valid_utf8(s),
{
    let chars = Seq::new(s.len(), |i: int| s[i] as char);
    assert(vstd::utf8::is_ascii_chars(chars));
    vstd::utf8::is_ascii_chars_encode_utf8(chars);
    assert(vstd::utf8::encode_utf8(chars) =~= s) by {
        assert forall|i: int| 0 <= i < s.len() implies vstd::utf8::encode_utf8(chars)[i]
            == #[trigger] s[i] by {
            assert(chars[i] as u8 == s[i]);
        }
    }
    vstd::utf8::encode_utf8_valid_utf8(chars);
}

/// Valid text ends and starts at an ASCII byte, and goes on behind it.
pub proof fn text_splits(s: Seq<u8>, i: int)
    requires
        vstd::utf8::valid_utf8(s),
        0 <= i < s.len(),
        s[i] < 128,
    ensures
        vstd::utf8::valid_utf8(s.take(i)),
        vstd::utf8::valid_utf8(s.skip(i)),
        vstd::utf8::valid_utf8(s.skip(i + 1)),
{
    vstd::utf8::is_char_boundary_iff_not_is_continuation_byte(s, i);
    vstd::utf8::valid_utf8_split(s, i);
    assert(s.take(i) =~= s.subrange(0, i));
    assert(s.skip(i) =~= s.subrange(i, s.len() as int));
    let t = s.skip(i);
    assert(t[0] == s[i]);
    assert(vstd::utf8::pop_first_scalar(t) =~= s.skip(i + 1));
}

/// The digits of a number are ASCII.
pub proof fn digits_are_ascii(n: nat, radix: nat, upper: bool)
    requires
        2 <= radix <= 36,
    ensures
        is_ascii(digits(n, radix, upper)),
{
    digits_read_back(n, radix, upper);
}

/// Padded digits are ASCII.
pub proof fn padded_is_ascii(n: nat, width: nat)
    ensures
        is_ascii(padded_decimal(n, width)),
    decreases width,
{
    if width > 0 {
        padded_is_ascii(n / 10, (width - 1) as nat);
    }
}

/// The bytes of a text behind another are the bytes of both, one after the other.
pub proof fn encoding_joins(a: Seq<char>, b: Seq<char>)
    ensures
        vstd::utf8::encode_utf8(a + b) == vstd::utf8::encode_utf8(a) + vstd::utf8::encode_utf8(b),
    decreases a.len(),
{
    if a.len() == 0 {
        assert(a + b =~= b);
        assert(vstd::utf8::encode_utf8(a) + vstd::utf8::encode_utf8(b)
            =~= vstd::utf8::encode_utf8(b));
    } else {
        encoding_joins(a.drop_first(), b);
        assert((a + b).drop_first() =~= a.drop_first() + b);
        assert(vstd::utf8::encode_utf8(a + b) =~= vstd::utf8::encode_utf8(a)
            + vstd::utf8::encode_utf8(b));
    }
}

/// An ASCII character is one byte, and any other has no ASCII bytes.
pub proof fn character_bytes(c: char)
    ensures
        ({
            let bytes = vstd::utf8::encode_utf8(seq![c]);
            &&& (c as u32) < 128 ==> bytes == seq![c as u8]
            &&& (c as u32) >= 128 ==> forall|i: int| 0 <= i < bytes.len() ==> #[trigger] bytes[i] >= 128
        }),
{
    let v = c as u32;
    let bytes = vstd::utf8::encode_utf8(seq![c]);
    assert(seq![c].drop_first() =~= Seq::<char>::empty());
    reveal_with_fuel(vstd::utf8::encode_utf8, 2);
    assert(bytes =~= vstd::utf8::encode_scalar(v));
    assert(v < 128 ==> (v & 0x7F) as u8 == v) by (bit_vector);
    assert(0xC0 | ((v >> 6) & 0x1F) as u8 >= 128 && 0xE0 | ((v >> 12) & 0x0F) as u8 >= 128 && 0xF0
        | ((v >> 18) & 0x7) as u8 >= 128 && 0x80 | (v & 0x3F) as u8 >= 128 && 0x80 | ((v >> 6)
        & 0x3F) as u8 >= 128 && 0x80 | ((v >> 12) & 0x3F) as u8 >= 128) by (bit_vector);
}

} // verus!

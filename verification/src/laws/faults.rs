//! What is refused, and why.

use super::grammar::Parts;
use crate::format::FmtFault;
use crate::pattern::{Field, PatternFault};
use vstd::prelude::*;

verus! {

/// A spec that goes on with a sign is refused for it, and one that goes on with anything
/// else that the grammar has no place for is refused for its type.
pub proof fn specs_end_or_are_refused(s: Seq<u8>, i: int, parts: Parts)
    requires
        parts.lawful(),
        parts.kind is None,
        0 <= i,
        i + parts.text().len() < s.len(),
        s.subrange(i, i + parts.text().len()) == parts.text(),
        super::grammar::goes_no_further(s[i + parts.text().len()], parts),
        parts.text().len() > 0 || !(i + 1 < s.len() && (s[i + 1] == 0x3C || s[i + 1] == 0x3E || s[i
            + 1] == 0x5E)),
    ensures
        ({
            let b = s[i + parts.text().len()];
            let outcome = crate::format::spec_body_end(s, i);
            let kind = b == 0x3F || b == 0x78 || b == 0x58 || b == 0x6F || b == 0x62 || b == 0x65
                || b == 0x45;
            &&& b == 0x2B || b == 0x2D ==> outcome == Err::<int, FmtFault>(FmtFault::Sign)
            &&& b != 0x2B && b != 0x2D && b != 0x7D && !kind ==> outcome == Err::<int, FmtFault>(
                FmtFault::BadType,
            )
        }),
{
    let text = parts.text();
    let n = text.len() as int;
    super::grammar::parts_end(s, i, parts);
    super::grammar::parts_hold(parts);
    super::grammar::aligned_once(parts);
    assert forall|j: int| 0 <= j < n implies s[i + j] == #[trigger] text[j] by {
        assert(s.subrange(i, i + n)[j] == s[i + j]);
    }
    let a = parts.front().len() as int;
    let w = a + parts.flag().len() + parts.width.len();
    let p = w + parts.decimals().len();
    if n > 0 {
        super::grammar::first_is_plain(parts);
        assert(s[i] == text[0]);
        if a > 0 {
            assert(text[0] == parts.front()[0]);
        }
        if n > 1 {
            assert(s[i + 1] == text[1]);
        }
        if a == 2 {
            assert(text[1] == parts.front()[1]);
        }
    }
    if let Some(d) = parts.precision {
        assert(s[i + w] == text[w]);
        assert(s[i + w + 1] == text[w + 1]);
        assert(text.subrange(w + 1, p)[0] == text[w + 1]);
    } else if w < n {
        assert(s[i + w] == text[w]);
    }
}

/// A fill that is not an ASCII character, or is a sign, a zero or a `#`, is refused.
pub proof fn bad_fills_are_refused(s: Seq<u8>, i: int)
    requires
        0 <= i,
        i + 1 < s.len(),
        s[i + 1] == 0x3C || s[i + 1] == 0x3E || s[i + 1] == 0x5E,
        s[i] >= 128 || s[i] == 0x2B || s[i] == 0x2D || s[i] == 0x30 || s[i] == 0x23,
    ensures
        crate::format::spec_body_end(s, i) == Err::<int, FmtFault>(FmtFault::BadFill),
{
}

/// A dot without digits behind it is refused.
pub proof fn dots_need_digits(s: Seq<u8>, i: int, parts: Parts)
    requires
        parts.lawful(),
        parts.precision is None,
        !parts.alternate,
        parts.kind is None,
        0 <= i,
        i + parts.text().len() < s.len(),
        s.subrange(i, i + parts.text().len()) == parts.text(),
        s[i + parts.text().len()] == 0x2E,
        i + parts.text().len() + 1 < s.len() ==> !(48 <= s[i + parts.text().len() + 1] <= 57),
        parts.text().len() > 0 || !(i + 1 < s.len() && (s[i + 1] == 0x3C || s[i + 1] == 0x3E || s[i
            + 1] == 0x5E)),
    ensures
        crate::format::spec_body_end(s, i) == Err::<int, FmtFault>(FmtFault::NoPrecisionDigits),
{
    let text = parts.text();
    let n = text.len() as int;
    // Up to the dot, the text is that of a spec in front of its end.
    let t = s.take(i + n);
    assert(t.subrange(i, i + n) =~= text);
    super::grammar::parts_end(t, i, parts);
    super::grammar::aligned_once(parts);
    let a = parts.front().len() as int;
    let z = a + parts.flag().len();
    assert(n == z + parts.width.len());
    assert forall|j: int| 0 <= j < n implies s[i + j] == #[trigger] text[j] && t[i + j] == text[j] by {
        assert(s.subrange(i, i + n)[j] == s[i + j]);
    }
    if n > 0 {
        super::grammar::first_is_plain(parts);
        assert(s[i] == text[0]);
        if a > 0 {
            assert(text[0] == parts.front()[0]);
        }
        if n > 1 {
            assert(s[i + 1] == text[1]);
        }
        if a == 2 {
            assert(text[1] == parts.front()[1]);
        }
    }
    assert(crate::format::align_end(s, i) == i + a);
    super::grammar::parts_hold(parts);
    if a < n {
        assert(s[i + a] == text[a]);
    }
    assert(crate::format::zero_end(s, i) == i + z);
    assert forall|j: int| i + z <= j < i + n implies 48 <= #[trigger] s[j] <= 57 by {
        assert(text.subrange(z, n)[j - i - z] == text[j - i]);
        assert(s[i + (j - i)] == text[j - i]);
    }
    super::grammar::digits_run(s, i + z, i + n);
}

/// A placeholder is refused for a number in place of a name, for a missing brace, and for
/// what stands between its type character and the brace.
pub proof fn placeholders_are_refused(s: Seq<u8>, start: int, n: int)
    requires
        0 <= start <= n <= s.len(),
        forall|j: int| start <= j < n ==> #[trigger] s[j] != 0x3A && s[j] != 0x7D,
    ensures
        start < n < s.len() && (s[n] == 0x3A || s[n] == 0x7D) && (forall|j: int|
            start <= j < n ==> 48 <= #[trigger] s[j] <= 57) ==> crate::format::placeholder_end(
            s,
            start,
        ) == Err::<int, FmtFault>(FmtFault::Positional),
        n == s.len() && !(start < n && forall|j: int|
            start <= j < n ==> 48 <= #[trigger] s[j] <= 57) ==> crate::format::placeholder_end(
            s,
            start,
        ) == Err::<int, FmtFault>(FmtFault::Unclosed),
{
    if n < s.len() && (s[n] == 0x3A || s[n] == 0x7D) {
        super::grammar::name_run(s, start, n);
        if forall|j: int| start <= j < n ==> 48 <= #[trigger] s[j] <= 57 {
            assert(crate::format::all_digits(s, start, n));
        }
    }
    if n == s.len() {
        name_to_the_end(s, start);
        if start < n && crate::format::all_digits(s, start, n) {
            assert forall|j: int| start <= j < n implies 48 <= #[trigger] s[j] <= 57 by {
                assert(crate::format::is_digit(s[j]));
            }
        }
    }
}

proof fn name_to_the_end(s: Seq<u8>, i: int)
    requires
        0 <= i <= s.len(),
        forall|j: int| i <= j < s.len() ==> #[trigger] s[j] != 0x3A && s[j] != 0x7D,
    ensures
        crate::format::name_end(s, i) == s.len(),
    decreases s.len() - i,
{
    if i < s.len() {
        name_to_the_end(s, i + 1);
    }
}

/// What follows a type character but the closing brace is refused.
pub proof fn nothing_follows_the_type(s: Seq<u8>, i: int, parts: Parts)
    requires
        parts.lawful(),
        parts.kind is Some,
        0 <= i,
        i + parts.text().len() < s.len(),
        s.subrange(i, i + parts.text().len()) == parts.text(),
        super::grammar::goes_no_further(s[i + parts.text().len()], parts),
    ensures
        crate::format::spec_body_end(s, i) == Ok::<int, FmtFault>(i + parts.text().len()),
{
    let text = parts.text();
    let n = text.len() as int;
    super::grammar::parts_end(s, i, parts);
    super::grammar::parts_hold(parts);
    super::grammar::aligned_once(parts);
    super::grammar::first_is_plain(parts);
    assert forall|j: int| 0 <= j < n implies s[i + j] == #[trigger] text[j] by {
        assert(s.subrange(i, i + n)[j] == s[i + j]);
    }
    let a = parts.front().len() as int;
    let w = a + parts.flag().len() + parts.width.len();
    let p = w + parts.decimals().len();
    assert(s[i] == text[0]);
    if a > 0 {
        assert(text[0] == parts.front()[0]);
    }
    if n > 1 {
        assert(s[i + 1] == text[1]);
    }
    if a == 2 {
        assert(text[1] == parts.front()[1]);
    }
    if let Some(d) = parts.precision {
        assert(s[i + w] == text[w]);
        assert(s[i + w + 1] == text[w + 1]);
        assert(text.subrange(w + 1, p)[0] == text[w + 1]);
    } else {
        assert(s[i + w] == text[w]);
    }
    let h = p + if parts.alternate {
        1int
    } else {
        0int
    };
    assert(s[i + h] == text[h]);
    assert(n == h + 1) by {
        assert(text.skip(p) =~= parts.back());
    }
}

/// A placeholder whose spec ends in front of anything but a closing brace is refused, as is
/// one whose spec is.
pub proof fn faults_of_specs_are_faults(s: Seq<u8>, start: int, n: int)
    requires
        0 <= start <= n < s.len(),
        forall|j: int| start <= j < n ==> #[trigger] s[j] != 0x3A && s[j] != 0x7D,
        s[n] == 0x3A,
        !(start < n && forall|j: int| start <= j < n ==> 48 <= #[trigger] s[j] <= 57),
    ensures
        crate::format::spec_body_end(s, n + 1) matches Err(f) ==> crate::format::placeholder_end(
            s,
            start,
        ) == Err::<int, FmtFault>(f),
        crate::format::spec_body_end(s, n + 1) matches Ok(e) ==> e >= s.len()
            ==> crate::format::placeholder_end(s, start) == Err::<int, FmtFault>(
            FmtFault::Unclosed,
        ),
        crate::format::spec_body_end(s, n + 1) matches Ok(e) ==> e < s.len() && s[e] != 0x7D
            ==> crate::format::placeholder_end(s, start) == Err::<int, FmtFault>(
            FmtFault::Trailing,
        ),
        n + 1 == s.len() ==> crate::format::spec_body_end(s, n + 1) == Err::<int, FmtFault>(
            FmtFault::Unclosed,
        ),
{
    super::grammar::name_run(s, start, n);
    if start < n && crate::format::all_digits(s, start, n) {
        assert forall|j: int| start <= j < n implies 48 <= #[trigger] s[j] <= 57 by {
            assert(crate::format::is_digit(s[j]));
        }
    }
}

/// A format string is refused for its first fault: what stands in front of it validates.
pub proof fn the_first_fault_counts(a: Seq<u8>, b: Seq<u8>, f: FmtFault)
    requires
        crate::format::placeholders(a) is Ok,
        crate::format::placeholders(b) == Err::<nat, FmtFault>(f),
    ensures
        crate::format::placeholders(a + b) == Err::<nat, FmtFault>(f),
{
    crate::format::placeholders_add(a, b);
}

/// A format string that starts with a brace is refused where the placeholder is that it
/// starts with.
pub proof fn faults_of_placeholders_are_faults(s: Seq<u8>)
    requires
        s.len() > 0,
        s[0] == 0x7B,
        !(s.len() > 1 && s[1] == 0x7B),
    ensures
        crate::format::placeholder_end(s, 1) matches Err(f) ==> crate::format::placeholders(s)
            == Err::<nat, FmtFault>(f),
{
}

/// A name is that of a field exactly where it is written so.
pub proof fn only_names_are_fields(name: Seq<u8>, field: Field)
    ensures
        crate::pattern::field_named(name) == Some(field) <==> name == vstd::utf8::encode_utf8(
            field.name(),
        ),
{
    crate::pattern::fields_are_found(field);
}

/// A placeholder of a pattern is refused for a missing brace, for a name that is no field,
/// for a spec of the timestamp or the message, and for what is wrong with its spec.
pub proof fn fields_are_refused(s: Seq<u8>, start: int, n: int)
    requires
        0 <= start <= n <= s.len(),
        forall|j: int| start <= j < n ==> #[trigger] s[j] != 0x3A && s[j] != 0x7D,
        n < s.len() ==> s[n] == 0x3A || s[n] == 0x7D,
    ensures
        n == s.len() ==> crate::pattern::field_at(s, start) == Err::<(Field, int), PatternFault>(
            PatternFault::Syntax(FmtFault::Unclosed),
        ),
        n < s.len() && crate::pattern::field_named(s.subrange(start, n)) is None
            ==> crate::pattern::field_at(s, start) == Err::<(Field, int), PatternFault>(
            PatternFault::UnknownField,
        ),
        n < s.len() && s[n] == 0x3A && (crate::pattern::field_named(s.subrange(start, n)) == Some(
            Field::Timestamp,
        ) || crate::pattern::field_named(s.subrange(start, n)) == Some(Field::Message))
            ==> crate::pattern::field_at(s, start) == Err::<(Field, int), PatternFault>(
            PatternFault::SpecNotTaken,
        ),
        n < s.len() && s[n] == 0x3A ==> (crate::pattern::field_named(s.subrange(start, n)) matches
            Some(field) ==> field != Field::Timestamp && field != Field::Message ==> (
        crate::format::spec_body_end(s, n + 1) matches Err(f) ==> crate::pattern::field_at(s, start)
            == Err::<(Field, int), PatternFault>(PatternFault::Syntax(f)))),
        n < s.len() && s[n] == 0x3A ==> (crate::pattern::field_named(s.subrange(start, n)) matches
            Some(field) ==> field != Field::Timestamp && field != Field::Message ==> (
        crate::format::spec_body_end(s, n + 1) matches Ok(e) ==> e < s.len() && s[e] != 0x7D
            ==> crate::pattern::field_at(s, start) == Err::<(Field, int), PatternFault>(
            PatternFault::Syntax(FmtFault::Trailing),
        ))),
{
    if n < s.len() {
        super::grammar::name_run(s, start, n);
    } else {
        name_to_the_end(s, start);
    }
}

/// A pattern that starts with a brace is refused where the placeholder is that it starts
/// with.
pub proof fn faults_of_fields_are_faults(s: Seq<u8>, seen: bool)
    requires
        s.len() > 0,
        s[0] == 0x7B,
        !(s.len() > 1 && s[1] == 0x7B),
    ensures
        crate::pattern::field_at(s, 1) matches Err(f) ==> crate::pattern::pattern_fault_from(
            s,
            0,
            seen,
        ) == Some(f),
{
}

} // verus!

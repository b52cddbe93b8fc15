//! The grammar of placeholders.

use crate::format::{Align, FormatSpec};
use vstd::prelude::*;
use vstd::string::*;

verus! {

/// A format spec in parts, as it is written.
pub struct Parts {
    /// The fill character, which stands in front of an alignment only.
    pub fill: Option<u8>,
    /// `<`, `>` or `^`.
    pub align: Option<u8>,
    /// Whether there is a zero flag.
    pub zero: bool,
    /// The digits of the width, or none.
    pub width: Seq<u8>,
    /// The digits behind the dot.
    pub precision: Option<Seq<u8>>,
    /// Whether there is a `#`.
    pub alternate: bool,
    /// The type character.
    pub kind: Option<u8>,
}

/// Whether `s` are decimal digits.
pub open spec fn all_decimal(s: Seq<u8>) -> bool {
    forall|i: int| 0 <= i < s.len() ==> 48 <= #[trigger] s[i] <= 57
}

/// The number that decimal digits write, or the largest that a spec can hold.
pub open spec fn capped(digits: Seq<u8>) -> u16 {
    match crate::text::radix_value(digits, 10) {
        Some(n) if n <= 65_535 => n as u16,
        _ => 65_535,
    }
}

impl Parts {
    /// The fill and the alignment.
    pub open spec fn front(self) -> Seq<u8> {
        match (self.fill, self.align) {
            (Some(f), Some(a)) => seq![f, a],
            (None, Some(a)) => seq![a],
            _ => Seq::empty(),
        }
    }

    /// The zero flag.
    pub open spec fn flag(self) -> Seq<u8> {
        if self.zero {
            seq![0x30u8]
        } else {
            Seq::empty()
        }
    }

    /// The dot and the precision.
    pub open spec fn decimals(self) -> Seq<u8> {
        match self.precision {
            Some(p) => seq![0x2Eu8] + p,
            None => Seq::empty(),
        }
    }

    /// The alternate flag and the type character.
    pub open spec fn back(self) -> Seq<u8> {
        (if self.alternate {
            seq![0x23u8]
        } else {
            Seq::empty()
        }) + (match self.kind {
            Some(c) => seq![c],
            None => Seq::empty(),
        })
    }

    /// The spec as it is written.
    pub open spec fn text(self) -> Seq<u8> {
        self.front() + self.flag() + self.width + self.decimals() + self.back()
    }

    /// Whether the grammar has such a spec. A fill is an ASCII character other than
    /// `+`, `-`, `0`, `#` and `}`, and a width does not start with a zero, which
    /// would be the flag.
    pub open spec fn lawful(self) -> bool {
        &&& self.fill matches Some(f) ==> self.align is Some && f < 128 && f != 0x2B && f != 0x2D && f
            != 0x30 && f != 0x23 && f != 0x7D
        &&& self.align matches Some(a) ==> a == 0x3C || a == 0x3E || a == 0x5E
        &&& all_decimal(self.width)
        &&& self.width.len() > 0 && self.width[0] == 0x30 ==> self.zero
        &&& self.precision matches Some(p) ==> p.len() > 0 && all_decimal(p)
        &&& self.kind matches Some(c) ==> c == 0x3F || c == 0x78 || c == 0x58 || c == 0x6F || c == 0x62
            || c == 0x65 || c == 0x45
    }

    /// What the spec asks for.
    pub open spec fn spec(self) -> FormatSpec {
        FormatSpec {
            fill: match self.fill {
                Some(f) => f,
                None => 0x20,
            },
            align: match self.align {
                Some(a) => if a == 0x3C {
                    Align::Left
                } else if a == 0x3E {
                    Align::Right
                } else {
                    Align::Center
                },
                None => Align::Unset,
            },
            zero_fill: self.zero,
            width: if self.width.len() > 0 {
                Some(capped(self.width))
            } else {
                None
            },
            precision: match self.precision {
                Some(p) => Some(capped(p)),
                None => None,
            },
            alternate: self.alternate,
            type_char: self.kind,
        }
    }
}

/// The digits from `i` end at `n`.
pub proof fn digits_run(s: Seq<u8>, i: int, n: int)
    requires
        0 <= i <= n <= s.len(),
        forall|j: int| i <= j < n ==> 48 <= #[trigger] s[j] <= 57,
        n < s.len() ==> !(48 <= s[n] <= 57),
    ensures
        crate::format::digits_end(s, i) == n,
    decreases n - i,
{
    if i < n {
        digits_run(s, i + 1, n);
    }
}

/// Both readers of decimal digits agree.
pub proof fn decimal_agrees(s: Seq<u8>)
    requires
        all_decimal(s),
    ensures
        crate::text::radix_value(s, 10) == Some(crate::text::digits_to_nat(s)),
    decreases s.len(),
{
    if s.len() > 0 {
        assert forall|i: int| 0 <= i < s.drop_last().len() implies 48 <= #[trigger] s.drop_last()[i]
            <= 57 by {
            assert(s.drop_last()[i] == s[i]);
        }
        decimal_agrees(s.drop_last());
    }
}

/// What follows the alignment of a lawful spec is no alignment.
pub proof fn aligned_once(parts: Parts)
    requires
        parts.lawful(),
    ensures
        ({
            let text = parts.text();
            forall|j: int|
                parts.front().len() <= j < text.len() ==> !crate::format::is_align(
                    #[trigger] text[j],
                )
        }),
{
    let text = parts.text();
    let a = parts.front().len() as int;
    let z = a + parts.flag().len();
    let w = z + parts.width.len();
    let p = w + parts.decimals().len();
    assert forall|j: int| a <= j < text.len() implies !crate::format::is_align(
        #[trigger] text[j],
    ) by {
        if j < z {
            assert(text[j] == 0x30);
        } else if j < w {
            assert(text[j] == parts.width[j - z]);
        } else if j < p {
            assert(text[j] == parts.decimals()[j - w]);
            if j > w {
                assert(parts.decimals()[j - w] == parts.precision->Some_0[j - w - 1]);
            }
        } else {
            assert(text[j] == parts.back()[j - p]);
        }
    }
}

/// Whether a byte behind a spec does not go on with it.
pub open spec fn goes_no_further(b: u8, parts: Parts) -> bool {
    &&& b != 0x3C && b != 0x3E && b != 0x5E
    &&& parts.kind is None ==> !(48 <= b <= 57) && b != 0x2E && b != 0x23
}

/// Where the parts of a lawful spec end, in a text that holds it from `i` on.
pub proof fn parts_end(s: Seq<u8>, i: int, parts: Parts)
    requires
        parts.lawful(),
        0 <= i,
        i + parts.text().len() <= s.len(),
        s.subrange(i, i + parts.text().len()) == parts.text(),
        i + parts.text().len() < s.len() ==> goes_no_further(s[i + parts.text().len()], parts),
        parts.text().len() > 0 || !(i + 1 < s.len() && crate::format::is_align(s[i + 1])),
    ensures
        ({
            let a = i + parts.front().len();
            let z = a + parts.flag().len();
            let w = z + parts.width.len();
            let p = w + parts.decimals().len();
            &&& crate::format::align_end(s, i) == a
            &&& crate::format::zero_end(s, i) == z
            &&& crate::format::width_end(s, i) == w
            &&& crate::format::precision_end(s, i) == p
            &&& crate::format::alternate_end(s, i) == p + if parts.alternate {
                1int
            } else {
                0int
            }
        }),
{
    let text = parts.text();
    let n = text.len();
    let a = parts.front().len() as int;
    let z = a + parts.flag().len();
    let w = z + parts.width.len();
    let p = w + parts.decimals().len();
    assert forall|j: int| 0 <= j < n implies s[i + j] == #[trigger] text[j] by {
        assert(s.subrange(i, i + n)[j] == s[i + j]);
    }
    assert forall|j: int| z <= j < w implies s[i + j] == #[trigger] text[j] && text[j]
        == parts.width[j - z] by {}
    aligned_once(parts);
    if n > 0 {
        assert(s[i] == text[0]);
    }
    if n > 1 {
        assert(s[i + 1] == text[1]);
    }
    assert forall|j: int| 0 <= j < a implies s[i + j] == #[trigger] parts.front()[j] by {
        assert(text[j] == parts.front()[j]);
    }
    if a == 1 {
        assert(s[i] == parts.front()[0]);
    }
    if a == 2 {
        assert(s[i + 1] == parts.front()[1]);
    }
    assert(crate::format::align_end(s, i) == i + a);
    if a < n {
        assert(s[i + a] == text[a]);
        if !parts.zero && z < w {
            assert(text[a] == parts.width[0]);
        }
    }
    assert(crate::format::zero_end(s, i) == i + z);
    assert forall|j: int| i + z <= j < i + w implies 48 <= #[trigger] s[j] <= 57 by {
        assert(text[j - i] == parts.width[j - i - z]);
    }
    if w < n {
        assert(s[i + w] == text[w]);
    }
    digits_run(s, i + z, i + w);
    if let Some(d) = parts.precision {
        assert forall|j: int| i + w + 1 <= j < i + p implies 48 <= #[trigger] s[j] <= 57 by {
            assert(text[j - i] == d[j - i - w - 1]);
        }
        if p < n {
            assert(s[i + p] == text[p]);
        }
        digits_run(s, i + w + 1, i + p);
    }
    if p < n {
        assert(s[i + p] == text[p]);
    }
}

/// The bytes of a lawful spec, part by part.
pub proof fn parts_hold(parts: Parts)
    requires
        parts.lawful(),
    ensures
        ({
            let text = parts.text();
            let a = parts.front().len() as int;
            let z = a + parts.flag().len();
            let w = z + parts.width.len();
            let p = w + parts.decimals().len();
            let h = p + if parts.alternate {
                1int
            } else {
                0int
            };
            &&& crate::format::holds(text, a, 0x30) == parts.zero
            &&& text.subrange(z, w) == parts.width
            &&& crate::format::holds(text, w, 0x2E) == (parts.precision is Some)
            &&& parts.precision matches Some(d) ==> text.subrange(w + 1, p) == d
            &&& crate::format::holds(text, p, 0x23) == parts.alternate
            &&& h <= text.len()
            &&& h < text.len() ==> parts.kind == Some(text[h])
            &&& h == text.len() ==> parts.kind is None
        }),
{
    let text = parts.text();
    let a = parts.front().len() as int;
    let z = a + parts.flag().len();
    let w = z + parts.width.len();
    let p = w + parts.decimals().len();
    let f1 = parts.front() + parts.flag();
    let f2 = f1 + parts.width;
    let f3 = f2 + parts.decimals();
    assert(text.subrange(z, w) =~= parts.width);
    assert(text.subrange(w, p) =~= parts.decimals());
    assert(text.skip(p) =~= parts.back());
    if parts.zero {
        assert(text[a] == 0x30);
    } else if z < w {
        assert(text[a] == parts.width[0]);
    } else if w < p {
        assert(text[a] == parts.decimals()[0]);
    } else if a < text.len() {
        assert(text[a] == parts.back()[0]);
    }
    if let Some(d) = parts.precision {
        assert(text[w] == parts.decimals()[0]);
        assert(text.subrange(w + 1, p) =~= d);
    } else if w < text.len() {
        assert(text[w] == parts.back()[0]);
    }
    if p < text.len() {
        assert(text[p] == parts.back()[0]);
    }
    if parts.alternate && p + 1 < text.len() {
        assert(text[p + 1] == parts.back()[1]);
    }
}

/// The fill and the alignment of a lawful spec.
proof fn front_reads_back(parts: Parts)
    requires
        parts.lawful(),
    ensures
        crate::format::body_spec(parts.text()).fill == parts.spec().fill,
        crate::format::body_spec(parts.text()).align == parts.spec().align,
{
    let text = parts.text();
    aligned_once(parts);
    assert forall|j: int| 0 <= j < parts.front().len() implies text[j]
        == #[trigger] parts.front()[j] by {}
    if parts.front().len() == 2 {
        assert(text[0] == parts.front()[0]);
        assert(text[1] == parts.front()[1]);
    }
    if parts.front().len() == 1 {
        assert(text[0] == parts.front()[0]);
    }
}

/// A lawful spec is read as it is written: each part says what it says, a number
/// that is too large counts as the largest that a spec holds, and what is not
/// there is left at its default.
pub proof fn specs_read_back(parts: Parts)
    requires
        parts.lawful(),
    ensures
        crate::format::body_spec(parts.text()) == parts.spec(),
{
    let text = parts.text();
    assert(text.subrange(0, text.len() as int) =~= text);
    parts_end(text, 0, parts);
    parts_hold(parts);
    front_reads_back(parts);
    decimal_agrees(parts.width);
    if let Some(d) = parts.precision {
        decimal_agrees(d);
    }
}

/// A lawful spec ends where its closing brace stands.
pub proof fn lawful_ends(s: Seq<u8>, i: int, parts: Parts)
    requires
        parts.lawful(),
        0 <= i,
        i + parts.text().len() < s.len(),
        s.subrange(i, i + parts.text().len()) == parts.text(),
        s[i + parts.text().len()] == 0x7D,
    ensures
        crate::format::spec_body_end(s, i) == Ok::<int, crate::format::FmtFault>(
            i + parts.text().len(),
        ),
{
    let text = parts.text();
    let n = text.len() as int;
    if n > 0 {
        parts_end(s, i, parts);
        parts_hold(parts);
        aligned_once(parts);
        assert forall|j: int| 0 <= j < n implies s[i + j] == #[trigger] text[j] by {
            assert(s.subrange(i, i + n)[j] == s[i + j]);
        }
        let a = parts.front().len() as int;
        let w = a + parts.flag().len() + parts.width.len();
        let p = w + parts.decimals().len();
        assert(s[i] == text[0]);
        if a > 0 {
            assert(text[0] == parts.front()[0]);
        }
        first_is_plain(parts);
        if n > 1 {
            assert(s[i + 1] == text[1]);
        }
        if a == 2 {
            assert(text[1] == parts.front()[1]);
        }
        if let Some(d) = parts.precision {
            assert(s[i + w] == text[w]);
            assert(s[i + w + 1] == text[w + 1]);
            assert(text.subrange(w + 1, p)[0] == text[w + 1]);
        } else if w < n {
            assert(s[i + w] == text[w]);
        }
        let h = p + if parts.alternate {
            1int
        } else {
            0int
        };
        if h < n {
            assert(s[i + h] == text[h]);
            assert(n == h + 1) by {
                assert(text.skip(p) =~= parts.back());
            }
        }
    }
}

/// A lawful spec does not start with a closing brace.
pub proof fn first_is_plain(parts: Parts)
    requires
        parts.lawful(),
        parts.text().len() > 0,
    ensures
        parts.text()[0] != 0x7D,
{
    let text = parts.text();
    let a = parts.front().len() as int;
    parts_hold(parts);
    if a > 0 {
        assert(text[0] == parts.front()[0]);
    } else if parts.zero {
    } else if parts.width.len() > 0 {
        assert(text.subrange(0, parts.width.len() as int)[0] == text[0]);
    }
}

/// The parts of the spec from `i` to `e`.
pub open spec fn parts_at(s: Seq<u8>, i: int, e: int) -> Parts {
    let filled = i + 1 < s.len() && crate::format::is_align(s[i + 1]);
    let z = crate::format::zero_end(s, i);
    let w = crate::format::width_end(s, i);
    let p = crate::format::precision_end(s, i);
    if s[i] == 0x7D {
        Parts {
            fill: None,
            align: None,
            zero: false,
            width: Seq::empty(),
            precision: None,
            alternate: false,
            kind: None,
        }
    } else {
        Parts {
            fill: if filled {
                Some(s[i])
            } else {
                None
            },
            align: if filled {
                Some(s[i + 1])
            } else if crate::format::is_align(s[i]) {
                Some(s[i])
            } else {
                None
            },
            zero: crate::format::holds(s, crate::format::align_end(s, i), 0x30),
            width: s.subrange(z, w),
            precision: if crate::format::holds(s, w, 0x2E) {
                Some(s.subrange(w + 1, p))
            } else {
                None
            },
            alternate: crate::format::holds(s, p, 0x23),
            kind: if crate::format::alternate_end(s, i) < e {
                Some(s[e - 1])
            } else {
                None
            },
        }
    }
}

/// What is read as a spec is a lawful one.
#[verifier::spinoff_prover]
#[verifier::rlimit(40)]
pub proof fn read_is_lawful(s: Seq<u8>, i: int, e: int)
    requires
        0 <= i <= e < s.len(),
        crate::format::spec_body_end(s, i) == Ok::<int, crate::format::FmtFault>(e),
        s[e] == 0x7D,
    ensures
        parts_at(s, i, e).lawful(),
        parts_at(s, i, e).text() == s.subrange(i, e),
{
    let parts = parts_at(s, i, e);
    if s[i] != 0x7D {
        crate::format::body_positions(s, i);
        let z = crate::format::zero_end(s, i);
        let w = crate::format::width_end(s, i);
        let p = crate::format::precision_end(s, i);
        crate::format::digits_end_bounds(s, z);
        assert forall|j: int| 0 <= j < parts.width.len() implies 48 <= #[trigger] parts.width[j]
            <= 57 by {
            assert(crate::format::is_digit(s[z + j]));
        }
        if crate::format::holds(s, w, 0x2E) {
            crate::format::digits_end_bounds(s, w + 1);
            let d = s.subrange(w + 1, p);
            assert(crate::format::is_digit(s[w + 1]));
            assert forall|j: int| 0 <= j < d.len() implies 48 <= #[trigger] d[j] <= 57 by {
                assert(crate::format::is_digit(s[w + 1 + j]));
            }
        }
        assert(parts.text() =~= s.subrange(i, e));
    } else {
        assert(parts.text() =~= s.subrange(i, e));
    }
}

/// The content of a placeholder: a name, and a spec behind a colon.
pub open spec fn content(name: Seq<u8>, parts: Option<Parts>) -> Seq<u8> {
    match parts {
        Some(p) => name + seq![0x3Au8] + p.text(),
        None => name,
    }
}

/// Whether the grammar has such a placeholder: a name holds neither a colon nor a
/// closing brace, and is not a number.
pub open spec fn lawful_content(name: Seq<u8>, parts: Option<Parts>) -> bool {
    &&& forall|i: int| 0 <= i < name.len() ==> #[trigger] name[i] != 0x3A && name[i] != 0x7D
    &&& !(name.len() > 0 && all_decimal(name))
    &&& parts matches Some(p) ==> p.lawful()
}

pub proof fn name_run(s: Seq<u8>, i: int, n: int)
    requires
        0 <= i <= n < s.len(),
        forall|j: int| i <= j < n ==> #[trigger] s[j] != 0x3A && s[j] != 0x7D,
        s[n] == 0x3A || s[n] == 0x7D,
    ensures
        crate::format::name_end(s, i) == n,
    decreases n - i,
{
    if i < n {
        name_run(s, i + 1, n);
    }
}

/// A placeholder is accepted exactly where the grammar has it: what stands between
/// its braces is a name that is not a number, or a name, a colon and a lawful
/// spec.
pub proof fn placeholders_are_lawful(s: Seq<u8>, start: int, e: int)
    requires
        0 <= start <= e < s.len(),
    ensures
        crate::format::placeholder_end(s, start) == Ok::<int, crate::format::FmtFault>(e + 1) <==> (
        s[e] == 0x7D && exists|name: Seq<u8>, parts: Option<Parts>| #[trigger]
            lawful_content(name, parts) && s.subrange(start, e) == content(name, parts)),
{
    let n = crate::format::name_end(s, start);
    crate::format::name_end_bounds(s, start);
    if crate::format::placeholder_end(s, start) == Ok::<int, crate::format::FmtFault>(e + 1) {
        let name = s.subrange(start, n);
        assert(!(start < n && crate::format::all_digits(s, start, n)));
        assert(!(name.len() > 0 && all_decimal(name))) by {
            if name.len() > 0 && all_decimal(name) {
                assert forall|j: int| start <= j < n implies crate::format::is_digit(
                    #[trigger] s[j],
                ) by {
                    assert(name[j - start] == s[j]);
                }
            }
        }
        assert forall|i: int| 0 <= i < name.len() implies #[trigger] name[i] != 0x3A && name[i]
            != 0x7D by {
            assert(name[i] == s[start + i]);
        }
        if s[n] == 0x3A {
            crate::format::body_positions(s, n + 1);
            read_is_lawful(s, n + 1, e);
            let parts = Some(parts_at(s, n + 1, e));
            assert(s.subrange(start, e) =~= content(name, parts));
            assert(lawful_content(name, parts));
        } else {
            assert(s.subrange(start, e) =~= content(name, None));
            assert(lawful_content(name, None));
        }
    }
    if s[e] == 0x7D && exists|name: Seq<u8>, parts: Option<Parts>| #[trigger]
        lawful_content(name, parts) && s.subrange(start, e) == content(name, parts) {
        let (name, parts) = choose|name: Seq<u8>, parts: Option<Parts>| #[trigger]
            lawful_content(name, parts) && s.subrange(start, e) == content(name, parts);
        accepted(s, start, e, name, parts);
    }
}

proof fn accepted(s: Seq<u8>, start: int, e: int, name: Seq<u8>, parts: Option<Parts>)
    requires
        0 <= start <= e < s.len(),
        s[e] == 0x7D,
        lawful_content(name, parts),
        s.subrange(start, e) == content(name, parts),
    ensures
        crate::format::placeholder_end(s, start) == Ok::<int, crate::format::FmtFault>(e + 1),
{
    let m = start + name.len();
    let whole = s.subrange(start, e);
    assert(whole.len() == e - start);
    assert(content(name, parts).len() >= name.len());
    assert forall|j: int| start <= j < m implies #[trigger] s[j] == name[j - start] by {
        assert(whole[j - start] == s[j]);
        assert(content(name, parts)[j - start] == name[j - start]);
    }
    if let Some(p) = parts {
        assert(whole[name.len() as int] == 0x3A);
        assert(s.subrange(m + 1, e) =~= p.text()) by {
            assert(s.subrange(m + 1, e) =~= whole.skip(name.len() as int + 1));
            assert(content(name, parts).skip(name.len() as int + 1) =~= p.text());
        }
        name_run(s, start, m);
        lawful_ends(s, m + 1, p);
    } else {
        name_run(s, start, m);
    }
    if name.len() > 0 && crate::format::all_digits(s, start, m) {
        assert forall|i: int| 0 <= i < name.len() implies 48 <= #[trigger] name[i] <= 57 by {
            assert(s[start + i] == name[i]);
            assert(crate::format::is_digit(s[start + i]));
        }
        assert(all_decimal(name));
    }
}

/// What a placeholder asks for is what its spec says, and a placeholder without a
/// spec asks for nothing.
pub proof fn contents_read_back(name: Seq<u8>, parts: Option<Parts>)
    requires
        lawful_content(name, parts),
    ensures
        crate::format::content_spec(content(name, parts)) == (match parts {
            Some(p) => p.spec(),
            None => (FormatSpec {
                fill: 0x20,
                align: Align::Unset,
                zero_fill: false,
                width: None,
                precision: None,
                alternate: false,
                type_char: None,
            }),
        }),
{
    let c = content(name, parts);
    if let Some(p) = parts {
        colon_run(c, 0, name.len() as int);
        assert(c.subrange(name.len() as int + 1, c.len() as int) =~= p.text());
        specs_read_back(p);
    } else {
        crate::format::colon_missing(c, 0);
    }
}

proof fn colon_run(s: Seq<u8>, i: int, n: int)
    requires
        0 <= i <= n < s.len(),
        forall|j: int| i <= j < n ==> #[trigger] s[j] != 0x3A,
        s[n] == 0x3A,
    ensures
        crate::format::colon_at(s, i) == n,
    decreases n - i,
{
    if i < n {
        colon_run(s, i + 1, n);
    }
}

/// A placeholder with every part reads back: the fill, the alignment, the zero flag, the
/// width, the precision, the alternate flag and the type, each as it is written.
pub proof fn every_part_reads_back(
    name: Seq<u8>,
    fill: u8,
    align: u8,
    width: Seq<u8>,
    w: u16,
    precision: Seq<u8>,
    p: u16,
    kind: u8,
)
    requires
        forall|i: int| 0 <= i < name.len() ==> #[trigger] name[i] != 0x3A && name[i] != 0x7D,
        !(name.len() > 0 && forall|i: int| 0 <= i < name.len() ==> 48 <= #[trigger] name[i] <= 57),
        fill < 128 && fill != 0x2B && fill != 0x2D && fill != 0x30 && fill != 0x23 && fill != 0x7D,
        align == 0x3C || align == 0x3E || align == 0x5E,
        width.len() > 0 && crate::text::radix_value(width, 10) == Some(w as nat),
        precision.len() > 0 && crate::text::radix_value(precision, 10) == Some(p as nat),
        kind == 0x3F || kind == 0x78 || kind == 0x58 || kind == 0x6F || kind == 0x62 || kind == 0x65
            || kind == 0x45,
    ensures
        ({
            let spec = crate::format::content_spec(
                name + seq![0x3Au8, fill, align, 0x30u8] + width + seq![0x2Eu8] + precision
                    + seq![0x23u8, kind],
            );
            &&& spec.fill == fill
            &&& spec.align is Left <==> align == 0x3C
            &&& spec.align is Right <==> align == 0x3E
            &&& spec.align is Center <==> align == 0x5E
            &&& spec.zero_fill
            &&& spec.width == Some(w)
            &&& spec.precision == Some(p)
            &&& spec.alternate
            &&& spec.type_char == Some(kind)
        }),
{
    super::numbers::decimal_digits(width);
    super::numbers::decimal_digits(precision);
    let parts = Parts {
        fill: Some(fill),
        align: Some(align),
        zero: true,
        width,
        precision: Some(precision),
        alternate: true,
        kind: Some(kind),
    };
    let tail = seq![0x23u8, kind];
    assert(all_decimal(name) <==> forall|i: int|
        0 <= i < name.len() ==> 48 <= #[trigger] name[i] <= 57);
    contents_read_back(name, Some(parts));
    let front = parts.front() + parts.flag();
    assert(parts.back() =~= tail);
    assert(seq![0x3Au8] + front =~= seq![0x3Au8, fill, align, 0x30u8]);
    text_joins(name, front, width, precision, tail);
}

/// The parts of a placeholder, one behind the other.
proof fn text_joins(
    name: Seq<u8>,
    front: Seq<u8>,
    width: Seq<u8>,
    precision: Seq<u8>,
    tail: Seq<u8>,
)
    ensures
        name + seq![0x3Au8] + (front + width + (seq![0x2Eu8] + precision) + tail) == name + (
        seq![0x3Au8] + front) + width + seq![0x2Eu8] + precision + tail,
{
    let colon = seq![0x3Au8];
    let dot = seq![0x2Eu8];
    let a = front + width;
    assert(a + (dot + precision) =~= a + dot + precision);
    assert(name + colon + (a + dot + precision + tail) =~= name + colon + a + dot + precision
        + tail) by {
        let lead = name + colon;
        assert(lead + (a + dot + precision + tail) =~= lead + (a + dot + precision) + tail);
        assert(lead + (a + dot + precision) =~= lead + (a + dot) + precision);
        assert(lead + (a + dot) =~= lead + a + dot);
    }
    assert(name + colon + a =~= name + (colon + front) + width);
}

/// What is not in a placeholder is left at its default: an empty spec and no spec at all
/// ask for nothing, and a lone part for itself.
pub proof fn lone_parts_read_back(
    name: Seq<u8>,
    fill: u8,
    align: u8,
    digits: Seq<u8>,
    n: u16,
    kind: u8,
)
    requires
        forall|i: int| 0 <= i < name.len() ==> #[trigger] name[i] != 0x3A && name[i] != 0x7D,
        !(name.len() > 0 && forall|i: int| 0 <= i < name.len() ==> 48 <= #[trigger] name[i] <= 57),
        fill < 128 && fill != 0x2B && fill != 0x2D && fill != 0x30 && fill != 0x23 && fill != 0x7D,
        align == 0x3C || align == 0x3E || align == 0x5E,
        digits.len() > 0 && digits[0] != 0x30,
        crate::text::radix_value(digits, 10) == Some(n as nat),
        kind == 0x3F || kind == 0x78 || kind == 0x58 || kind == 0x6F || kind == 0x62 || kind == 0x65
            || kind == 0x45,
    ensures
        ({
            let nothing = FormatSpec {
                fill: 0x20,
                align: Align::Unset,
                zero_fill: false,
                width: None,
                precision: None,
                alternate: false,
                type_char: None,
            };
            let aligned = if align == 0x3C {
                Align::Left
            } else if align == 0x3E {
                Align::Right
            } else {
                Align::Center
            };
            let colon = name + seq![0x3Au8];
            &&& crate::format::content_spec(name) == nothing
            &&& crate::format::content_spec(colon) == nothing
            &&& crate::format::content_spec(colon + seq![align]) == (FormatSpec {
                align: aligned,
                ..nothing
            })
            &&& crate::format::content_spec(colon + seq![fill, align]) == (FormatSpec {
                fill,
                align: aligned,
                ..nothing
            })
            &&& crate::format::content_spec(colon + seq![0x30u8]) == (FormatSpec {
                zero_fill: true,
                ..nothing
            })
            &&& crate::format::content_spec(colon + digits) == (FormatSpec {
                width: Some(n),
                ..nothing
            })
            &&& crate::format::content_spec(colon + seq![0x2Eu8] + digits) == (FormatSpec {
                precision: Some(n),
                ..nothing
            })
            &&& crate::format::content_spec(colon + seq![0x23u8]) == (FormatSpec {
                alternate: true,
                ..nothing
            })
            &&& crate::format::content_spec(colon + seq![kind]) == (FormatSpec {
                type_char: Some(kind),
                ..nothing
            })
        }),
{
    super::numbers::decimal_digits(digits);
    let parts = Parts {
        fill: None,
        align: None,
        zero: false,
        width: Seq::empty(),
        precision: None,
        alternate: false,
        kind: None,
    };
    let colon = name + seq![0x3Au8];
    assert(all_decimal(name) <==> forall|i: int|
        0 <= i < name.len() ==> 48 <= #[trigger] name[i] <= 57);
    contents_read_back(name, None);
    contents_read_back(name, Some(parts));
    assert(content(name, Some(parts)) =~= colon);
    let lone = Parts { align: Some(align), ..parts };
    contents_read_back(name, Some(lone));
    assert(content(name, Some(lone)) =~= colon + seq![align]);
    let lone = Parts { fill: Some(fill), align: Some(align), ..parts };
    contents_read_back(name, Some(lone));
    assert(content(name, Some(lone)) =~= colon + seq![fill, align]);
    let lone = Parts { zero: true, ..parts };
    contents_read_back(name, Some(lone));
    assert(content(name, Some(lone)) =~= colon + seq![0x30u8]);
    let lone = Parts { width: digits, ..parts };
    contents_read_back(name, Some(lone));
    assert(content(name, Some(lone)) =~= colon + digits);
    let lone = Parts { precision: Some(digits), ..parts };
    contents_read_back(name, Some(lone));
    assert(content(name, Some(lone)) =~= colon + seq![0x2Eu8] + digits);
    let lone = Parts { alternate: true, ..parts };
    contents_read_back(name, Some(lone));
    assert(content(name, Some(lone)) =~= colon + seq![0x23u8]);
    let lone = Parts { kind: Some(kind), ..parts };
    contents_read_back(name, Some(lone));
    assert(content(name, Some(lone)) =~= colon + seq![kind]);
}

/// `{:.N}` asks for `N` decimal places of a float, for every `N` that a spec can
/// hold, `{:.Ne}` and `{:.NE}` for as many with an exponent.
pub proof fn decimal_places(digits: Seq<u8>, n: u16)
    requires
        digits.len() > 0,
        crate::text::radix_value(digits, 10) == Some(n as nat),
    ensures
        crate::format::style_of(
            crate::format::content_spec(seq![0x3Au8, 0x2Eu8] + digits),
        ) == crate::format::FloatStyle::Display(Some(n)),
        crate::format::style_of(
            crate::format::content_spec(seq![0x3Au8, 0x2Eu8] + digits + seq![0x65u8]),
        ) == crate::format::FloatStyle::LowerExp(Some(n)),
        crate::format::style_of(
            crate::format::content_spec(seq![0x3Au8, 0x2Eu8] + digits + seq![0x45u8]),
        ) == crate::format::FloatStyle::UpperExp(Some(n)),
{
    super::numbers::decimal_digits(digits);
    let plain = Parts {
        fill: None,
        align: None,
        zero: false,
        width: Seq::empty(),
        precision: Some(digits),
        alternate: false,
        kind: None,
    };
    let lower = Parts { kind: Some(0x65u8), ..plain };
    let upper = Parts { kind: Some(0x45u8), ..plain };
    contents_read_back(Seq::empty(), Some(plain));
    contents_read_back(Seq::empty(), Some(lower));
    contents_read_back(Seq::empty(), Some(upper));
    assert(content(Seq::empty(), Some(plain)) =~= seq![0x3Au8, 0x2Eu8] + digits);
    assert(content(Seq::empty(), Some(lower)) =~= seq![0x3Au8, 0x2Eu8] + digits + seq![0x65u8]);
    assert(content(Seq::empty(), Some(upper)) =~= seq![0x3Au8, 0x2Eu8] + digits + seq![0x45u8]);
    super::fields::floats_keep_their_precision(plain.spec());
    super::fields::floats_keep_their_precision(lower.spec());
    super::fields::floats_keep_their_precision(upper.spec());
}

/// The characters of the grammar: alignments are `<`, `>` and `^`, fills are ASCII
/// characters other than `+`, `-`, `0` and `#`, types are `?`, `x`, `X`, `o`, `b`, `e` and
/// `E`, and digits are decimal.
pub proof fn characters_of_the_grammar(b: u8)
    ensures
        crate::format::is_align(b) <==> b == 0x3C || b == 0x3E || b == 0x5E,
        crate::format::is_fill(b) <==> b < 128 && b != 0x2B && b != 0x2D && b != 0x30 && b != 0x23,
        crate::format::is_type_char(b) <==> b == 0x3F || b == 0x78 || b == 0x58 || b == 0x6F || b
            == 0x62 || b == 0x65 || b == 0x45,
        crate::format::is_digit(b) <==> 48 <= b <= 57,
        b == 0x3C ==> crate::format::align_of(b) == Align::Left,
        b == 0x3E ==> crate::format::align_of(b) == Align::Right,
        b == 0x5E ==> crate::format::align_of(b) == Align::Center,
{
}

/// A run is all digits where each of its bytes is one.
pub proof fn runs_of_digits(s: Seq<u8>, start: int, end: int)
    ensures
        crate::format::all_digits(s, start, end) <==> forall|j: int|
            start <= j < end ==> 48 <= #[trigger] s[j] <= 57,
{
    if crate::format::all_digits(s, start, end) {
        assert forall|j: int| start <= j < end implies 48 <= #[trigger] s[j] <= 57 by {
            assert(crate::format::is_digit(s[j]));
        }
    }
}

/// Validation gives the number of placeholders, or the text of the fault.
pub proof fn validation_counts(
    s: Seq<u8>,
    n: nat,
    f: crate::format::FmtFault,
    r: Result<usize, &'static str>,
)
    ensures
        crate::format::placeholders(s) == Ok::<nat, crate::format::FmtFault>(n)
            ==> crate::format::validation(s) == Ok::<int, crate::format::FmtFault>(n as int),
        crate::format::placeholders(s) == Err::<nat, crate::format::FmtFault>(f)
            ==> crate::format::validation(s) == Err::<int, crate::format::FmtFault>(f),
        crate::format::agrees(r, Ok(n as int)) ==> (r matches Ok(m) && m == n),
        crate::format::agrees(r, Err(f)) ==> (r matches Err(text) && text@ == f.text()),
{
}

} // verus!

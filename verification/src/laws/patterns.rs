//! The grammar of log-line patterns.

use super::grammar::Parts;
use super::lines::unadorned;
use crate::format::FmtFault;
use crate::pattern::{Field, LineParts, PatternFault};
use vstd::prelude::*;
use vstd::string::*;

verus! {

/// Each field goes by its name.
pub proof fn fields_are_named()
    ensures
        Field::Timestamp.name() == "timestamp"@,
        Field::Level.name() == "level"@,
        Field::File.name() == "file"@,
        Field::Line.name() == "line"@,
        Field::ThreadId.name() == "thread_id"@,
        Field::ThreadName.name() == "thread_name"@,
        Field::Message.name() == "message"@,
{
}

/// Whether the grammar has such a placeholder of a field: every field but the
/// timestamp and the message takes a spec.
pub open spec fn lawful_field(field: Field, parts: Option<Parts>) -> bool {
    parts matches Some(p) ==> p.lawful() && field != Field::Timestamp && field != Field::Message
}

/// The content of a placeholder of a field.
pub open spec fn field_content(field: Field, parts: Option<Parts>) -> Seq<u8> {
    super::grammar::content(vstd::utf8::encode_utf8(field.name()), parts)
}

/// A placeholder of a pattern is accepted exactly where it is the name of a field, or
/// the name of a field that takes a spec, a colon and a lawful spec.
pub proof fn pattern_placeholders_are_lawful(s: Seq<u8>, start: int, e: int, field: Field)
    requires
        0 <= start <= e < s.len(),
    ensures
        crate::pattern::field_at(s, start) == Ok::<(Field, int), PatternFault>((field, e + 1))
            <==> (s[e] == 0x7D && exists|parts: Option<Parts>| #[trigger]
            lawful_field(field, parts) && s.subrange(start, e) == field_content(field, parts)),
{
    let n = crate::format::name_end(s, start);
    crate::format::name_end_bounds(s, start);
    let name = vstd::utf8::encode_utf8(field.name());
    if crate::pattern::field_at(s, start) == Ok::<(Field, int), PatternFault>((field, e + 1)) {
        assert(s.subrange(start, n) == name);
        if s[n] == 0x7D {
            assert(s.subrange(start, e) =~= field_content(field, None));
            assert(lawful_field(field, None));
        } else {
            crate::format::body_positions(s, n + 1);
            super::grammar::read_is_lawful(s, n + 1, e);
            let parts = Some(super::grammar::parts_at(s, n + 1, e));
            assert(s.subrange(start, e) =~= field_content(field, parts));
            assert(lawful_field(field, parts));
        }
    }
    if s[e] == 0x7D && exists|parts: Option<Parts>| #[trigger]
        lawful_field(field, parts) && s.subrange(start, e) == field_content(field, parts) {
        let parts = choose|parts: Option<Parts>| #[trigger]
            lawful_field(field, parts) && s.subrange(start, e) == field_content(field, parts);
        field_accepted(s, start, e, field, parts);
    }
}

proof fn field_accepted(s: Seq<u8>, start: int, e: int, field: Field, parts: Option<Parts>)
    requires
        0 <= start <= e < s.len(),
        s[e] == 0x7D,
        lawful_field(field, parts),
        s.subrange(start, e) == field_content(field, parts),
    ensures
        crate::pattern::field_at(s, start) == Ok::<(Field, int), PatternFault>((field, e + 1)),
{
    let name = vstd::utf8::encode_utf8(field.name());
    let m = start + name.len();
    let whole = s.subrange(start, e);
    crate::pattern::name_bytes_are_plain(field);
    crate::pattern::fields_are_found(field);
    assert(whole.len() == e - start);
    assert(field_content(field, parts).len() >= name.len());
    assert forall|j: int| start <= j < m implies #[trigger] s[j] == name[j - start] by {
        assert(whole[j - start] == s[j]);
        assert(field_content(field, parts)[j - start] == name[j - start]);
    }
    assert(s.subrange(start, m) =~= name);
    if let Some(p) = parts {
        assert(whole[name.len() as int] == 0x3A);
        assert(s.subrange(m + 1, e) =~= p.text()) by {
            assert(s.subrange(m + 1, e) =~= whole.skip(name.len() as int + 1));
            assert(field_content(field, parts).skip(name.len() as int + 1) =~= p.text());
        }
        super::grammar::name_run(s, start, m);
        super::grammar::lawful_ends(s, m + 1, p);
    } else {
        super::grammar::name_run(s, start, m);
    }
}

/// A placeholder that ends reads the same whatever follows it.
proof fn field_before(a: Seq<u8>, b: Seq<u8>, start: int)
    requires
        0 <= start <= a.len(),
        crate::pattern::field_at(a, start) is Ok,
    ensures
        crate::pattern::field_at(a + b, start) == crate::pattern::field_at(a, start),
{
    let (field, end) = crate::pattern::field_at(a, start)->Ok_0;
    crate::pattern::field_at_bounds(a, start);
    crate::pattern::field_fills_ascii(a, start);
    let e = end - 1;
    pattern_placeholders_are_lawful(a, start, e, field);
    let parts = choose|parts: Option<Parts>| #[trigger]
        lawful_field(field, parts) && a.subrange(start, e) == field_content(field, parts);
    assert((a + b).subrange(start, e) =~= a.subrange(start, e));
    field_accepted(a + b, start, e, field, parts);
}

/// A placeholder reads the same behind other text.
proof fn field_behind(a: Seq<u8>, b: Seq<u8>, start: int)
    requires
        0 <= start <= b.len(),
    ensures
        crate::pattern::field_at(a + b, a.len() + start) == (match crate::pattern::field_at(
            b,
            start,
        ) {
            Ok((field, end)) => Ok((field, a.len() + end)),
            Err(f) => Err(f),
        }),
{
    let n = crate::format::name_end(b, start);
    crate::format::name_end_behind(a, b, start);
    crate::format::name_end_bounds(b, start);
    assert((a + b).subrange(a.len() + start, a.len() + n) =~= b.subrange(start, n));
    if n < b.len() {
        assert((a + b)[a.len() + n] == b[n]);
        if b[n] == 0x3A {
            crate::format::spec_body_behind(a, b, n + 1);
            crate::format::body_positions(b, n + 1);
        }
    }
}

/// A pattern reads the same behind other text.
proof fn pattern_behind(a: Seq<u8>, b: Seq<u8>, i: int, seen: bool, parts: LineParts)
    requires
        0 <= i <= b.len(),
    ensures
        crate::pattern::pattern_fault_from(a + b, a.len() + i, seen)
            == crate::pattern::pattern_fault_from(b, i, seen),
        crate::pattern::line_from(a + b, a.len() + i, parts) == crate::pattern::line_from(
            b,
            i,
            parts,
        ),
    decreases b.len() - i,
{
    let n = a.len() as int;
    if i < b.len() {
        assert((a + b)[n + i] == b[i]);
        if i + 1 < b.len() {
            assert((a + b)[n + i + 1] == b[i + 1]);
        }
        if (b[i] == 0x7B || b[i] == 0x7D) && crate::format::holds(b, i + 1, b[i]) {
            pattern_behind(a, b, i + 2, seen, parts);
        } else if b[i] == 0x7B {
            field_behind(a, b, i + 1);
            crate::pattern::field_at_bounds(b, i + 1);
            if let Ok((field, end)) = crate::pattern::field_at(b, i + 1) {
                assert((a + b).subrange(n + i + 1, n + end - 1) =~= b.subrange(i + 1, end - 1));
                pattern_behind(a, b, end, seen || field == Field::Message, parts);
            }
        } else if b[i] != 0x7D {
            pattern_behind(a, b, i + 1, seen, parts);
        }
    }
}

/// Patterns join: behind one that is accepted, another is accepted exactly where it
/// is by itself, unless both show the message, and the line is the line of the first
/// and then that of the second. A pattern shows the message where it would be refused
/// behind one that does.
pub proof fn patterns_join(a: Seq<u8>, b: Seq<u8>, parts: LineParts)
    requires
        crate::pattern::pattern_fault(a) is None,
    ensures
        crate::pattern::pattern_fault(a + b) == crate::pattern::pattern_fault_from(
            b,
            0,
            crate::pattern::pattern_fault_from(a, 0, true) is Some,
        ),
        crate::pattern::line_from(a + b, 0, parts) == crate::pattern::line_from(a, 0, parts)
            + crate::pattern::line_from(b, 0, parts),
{
    patterns_join_from(a, b, 0, false, parts);
}

proof fn patterns_join_from(a: Seq<u8>, b: Seq<u8>, i: int, seen: bool, parts: LineParts)
    requires
        0 <= i <= a.len(),
        crate::pattern::pattern_fault_from(a, i, seen) is None,
    ensures
        crate::pattern::pattern_fault_from(a + b, i, seen) == crate::pattern::pattern_fault_from(
            b,
            0,
            seen || crate::pattern::pattern_fault_from(a, i, true) is Some,
        ),
        crate::pattern::line_from(a + b, i, parts) == crate::pattern::line_from(a, i, parts)
            + crate::pattern::line_from(b, 0, parts),
    decreases a.len() - i,
{
    let here = crate::pattern::line_from(a, i, parts);
    let tail = crate::pattern::line_from(b, 0, parts);
    let both = crate::pattern::line_from(a + b, i, parts);
    if i == a.len() {
        pattern_behind(a, b, 0, seen, parts);
        assert(here + tail =~= tail);
    } else {
        assert((a + b)[i] == a[i]);
        if i + 1 < a.len() {
            assert((a + b)[i + 1] == a[i + 1]);
        }
        if (a[i] == 0x7B || a[i] == 0x7D) && crate::format::holds(a, i + 1, a[i]) {
            patterns_join_from(a, b, i + 2, seen, parts);
            assert(both =~= here + tail);
        } else if a[i] == 0x7B {
            crate::pattern::field_at_bounds(a, i + 1);
            field_before(a, b, i + 1);
            let (field, end) = crate::pattern::field_at(a, i + 1)->Ok_0;
            assert((a + b).subrange(i + 1, end - 1) =~= a.subrange(i + 1, end - 1));
            patterns_join_from(a, b, end, seen || field == Field::Message, parts);
            assert(both =~= here + tail);
        } else {
            patterns_join_from(a, b, i + 1, seen, parts);
            assert(both =~= here + tail);
        }
    }
}

/// A placeholder shows its field, written as its spec asks for. A message that has
/// been shown is not shown again.
pub proof fn a_placeholder_shows_its_field(field: Field, parts: Option<Parts>, line: LineParts)
    requires
        lawful_field(field, parts),
    ensures
        ({
            let s = seq![0x7Bu8] + field_content(field, parts) + seq![0x7Du8];
            let spec = match parts {
                Some(p) => p.spec(),
                None => unadorned(),
            };
            &&& crate::pattern::pattern_fault(s) is None
            &&& crate::pattern::pattern_fault_from(s, 0, true) == (if field == Field::Message {
                Some(PatternFault::RepeatedMessage)
            } else {
                None
            })
            &&& crate::pattern::line_from(s, 0, line) == crate::pattern::field_text(
                field,
                spec,
                line,
            )
        }),
{
    let inner = field_content(field, parts);
    let s = seq![0x7Bu8] + inner + seq![0x7Du8];
    let e = s.len() - 1;
    assert(s.subrange(1, e) =~= inner);
    field_accepted(s, 1, e, field, parts);
    crate::pattern::name_bytes_are_plain(field);
    let name = vstd::utf8::encode_utf8(field.name());
    assert(inner[0] == name[0]);
    assert(s[1] == inner[0]);
    assert(s[0] == 0x7B);
    assert(crate::pattern::pattern_fault_from(s, s.len() as int, true) is None);
    assert(crate::pattern::pattern_fault_from(s, s.len() as int, false) is None);
    assert(crate::pattern::line_from(s, s.len() as int, line) =~= Seq::<u8>::empty());
    name_is_lawful(name, parts);
    super::grammar::contents_read_back(name, parts);
    let spec = crate::format::content_spec(inner);
    let text = crate::pattern::field_text(field, spec, line);
    assert(text + Seq::<u8>::empty() =~= text);
}

/// A name of letters is lawful.
proof fn name_is_lawful(name: Seq<u8>, parts: Option<Parts>)
    requires
        parts matches Some(p) ==> p.lawful(),
        name.len() > 0,
        forall|i: int| 0 <= i < name.len() ==> #[trigger] name[i] >= 0x5F && name[i] != 0x7D,
    ensures
        super::grammar::lawful_content(name, parts),
{
    assert(name[0] >= 0x5F);
}

/// Text with its braces doubled is accepted as a pattern and comes out as the text.
pub proof fn doubled_braces_stay(text: Seq<char>, seen: bool, line: LineParts)
    ensures
        ({
            let s = vstd::utf8::encode_utf8(crate::message::doubled(text));
            &&& crate::pattern::pattern_fault_from(s, 0, seen) is None
            &&& crate::pattern::line_from(s, 0, line) == vstd::utf8::encode_utf8(text)
        }),
{
    let bytes = vstd::utf8::encode_utf8(text);
    crate::message::doubling_encodes(text);
    doubled_from(Seq::empty(), bytes, seen, line);
    let doubled = crate::message::doubled_bytes(bytes);
    assert(Seq::<u8>::empty() + doubled =~= doubled);
}

proof fn doubled_from(front: Seq<u8>, bytes: Seq<u8>, seen: bool, line: LineParts)
    ensures
        ({
            let s = front + crate::message::doubled_bytes(bytes);
            &&& crate::pattern::pattern_fault_from(s, front.len() as int, seen) is None
            &&& crate::pattern::line_from(s, front.len() as int, line) == bytes
        }),
    decreases bytes.len(),
{
    let s = front + crate::message::doubled_bytes(bytes);
    let i = front.len() as int;
    if bytes.len() == 0 {
        assert(crate::pattern::line_from(s, i, line) =~= bytes);
    } else {
        let b = bytes[0];
        let rest = bytes.drop_first();
        let step = if b == 0x7B || b == 0x7D {
            seq![b, b]
        } else {
            seq![b]
        };
        doubled_from(front + step, rest, seen, line);
        assert(s =~= (front + step) + crate::message::doubled_bytes(rest));
        assert(s[i] == b);
        if b == 0x7B || b == 0x7D {
            assert(s[i + 1] == b);
        }
        assert(seq![b] + rest =~= bytes);
    }
}

/// A brace that is neither doubled nor part of a placeholder is refused.
pub proof fn stray_braces_are_refused(s: Seq<u8>, i: int, seen: bool)
    requires
        0 <= i < s.len(),
        s[i] == 0x7D,
        !(i + 1 < s.len() && s[i + 1] == 0x7D),
    ensures
        crate::pattern::pattern_fault_from(s, i, seen) == Some(
            PatternFault::Syntax(FmtFault::Unmatched),
        ),
        crate::format::placeholders_from(s, i) == Err::<nat, FmtFault>(FmtFault::Unmatched),
{
}

} // verus!

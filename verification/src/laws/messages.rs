//! Messages: format strings with arguments in place of their placeholders.

use super::grammar::Parts;
use crate::format::{Align, FormatSpec};
use crate::message::Arg;
use vstd::prelude::*;
use vstd::string::*;

verus! {

/// What is left of `args` behind the first `n`.
pub open spec fn args_behind(args: Seq<Arg>, n: nat) -> Seq<Arg> {
    if n <= args.len() {
        args.skip(n as int)
    } else {
        Seq::empty()
    }
}

proof fn brace_behind(a: Seq<u8>, b: Seq<u8>, i: int)
    requires
        0 <= i <= b.len(),
    ensures
        crate::message::brace_at(a + b, a.len() + i) == a.len() + crate::message::brace_at(b, i),
    decreases b.len() - i,
{
    if i < b.len() && b[i] != 0x7D {
        brace_behind(a, b, i + 1);
    }
}

proof fn brace_before(a: Seq<u8>, b: Seq<u8>, i: int)
    requires
        0 <= i,
        crate::message::brace_at(a, i) < a.len(),
    ensures
        crate::message::brace_at(a + b, i) == crate::message::brace_at(a, i),
    decreases a.len() - i,
{
    if i < a.len() && a[i] != 0x7D {
        brace_before(a, b, i + 1);
    }
}

/// A text comes out the same behind another one, with the arguments that are left.
proof fn message_behind(
    a: Seq<u8>,
    b: Seq<u8>,
    i: int,
    m: nat,
    k: int,
    args: Seq<Arg>,
    floats: Seq<String>,
)
    requires
        0 <= i <= b.len(),
        0 <= k,
        m + k + crate::message::holes_from(b, i).len() <= floats.len(),
    ensures
        crate::message::message_from(a + b, a.len() + i, m + k, args, floats)
            == crate::message::message_from(b, i, k, args_behind(args, m), floats.skip(m as int)),
        crate::message::holes_from(a + b, a.len() + i) == crate::message::holes_from(b, i),
    decreases b.len() - i,
{
    let n = a.len() as int;
    let rest = args_behind(args, m);
    let texts = floats.skip(m as int);
    if i < b.len() {
        assert((a + b)[n + i] == b[i]);
        if b[i] == 0x7B {
            if crate::format::holds(b, i + 1, 0x7B) {
                assert((a + b)[n + i + 1] == b[i + 1]);
                message_behind(a, b, i + 2, m, k, args, floats);
            } else {
                crate::message::brace_at_bounds(b, i + 1);
                brace_behind(a, b, i + 1);
                let e = crate::message::brace_at(b, i + 1);
                assert((a + b).subrange(n + i + 1, n + e) =~= b.subrange(i + 1, e));
                if i + 1 < b.len() {
                    assert((a + b)[n + i + 1] == b[i + 1]);
                }
                assert(crate::message::hole_spec(a + b, n + i + 1) == crate::message::hole_spec(
                    b,
                    i + 1,
                ));
                let end = crate::message::hole_end(b, i + 1);
                assert(crate::message::hole_end(a + b, n + i + 1) == n + end);
                let spec = crate::message::hole_spec(b, i + 1);
                assert(crate::message::hole_text(m + k, spec, args, floats)
                    == crate::message::hole_text(k, spec, rest, texts));
                message_behind(a, b, end, m, k + 1, args, floats);
            }
        } else if b[i] == 0x7D {
            if i + 2 <= b.len() {
                message_behind(a, b, i + 2, m, k, args, floats);
            }
        } else {
            message_behind(a, b, i + 1, m, k, args, floats);
        }
    }
}

/// Messages join: the message of a format string behind one that validates is the
/// message of the first, and then that of the second with the arguments that the
/// first has left.
pub proof fn messages_join(a: Seq<u8>, b: Seq<u8>, args: Seq<Arg>, floats: Seq<String>)
    requires
        crate::format::placeholders(a) is Ok,
        crate::message::holes(a).len() + crate::message::holes(b).len() <= floats.len(),
    ensures
        ({
            let m = crate::format::placeholders(a)->Ok_0;
            &&& crate::message::message(a + b, args, floats) == crate::message::message(
                a,
                args,
                floats,
            ) + crate::message::message(b, args_behind(args, m), floats.skip(m as int))
            &&& crate::message::holes(a + b) == crate::message::holes(a) + crate::message::holes(b)
        }),
{
    crate::message::placeholders_are_holes(a);
    messages_join_from(a, b, 0, 0, args, floats);
}

proof fn messages_join_from(
    a: Seq<u8>,
    b: Seq<u8>,
    i: int,
    k: nat,
    args: Seq<Arg>,
    floats: Seq<String>,
)
    requires
        0 <= i <= a.len(),
        crate::format::placeholders_from(a, i) is Ok,
        k + crate::format::placeholders_from(a, i)->Ok_0 + crate::message::holes(b).len()
            <= floats.len(),
    ensures
        ({
            let m = k + crate::format::placeholders_from(a, i)->Ok_0;
            &&& crate::message::message_from(a + b, i, k as int, args, floats)
                == crate::message::message_from(a, i, k as int, args, floats)
                + crate::message::message(b, args_behind(args, m), floats.skip(m as int))
            &&& crate::message::holes_from(a + b, i) == crate::message::holes_from(a, i)
                + crate::message::holes(b)
        }),
    decreases a.len() - i,
{
    let m = k + crate::format::placeholders_from(a, i)->Ok_0;
    let tail = crate::message::message(b, args_behind(args, m), floats.skip(m as int));
    let here = crate::message::message_from(a, i, k as int, args, floats);
    let both = crate::message::message_from(a + b, i, k as int, args, floats);
    let specs = crate::message::holes_from(a, i);
    if i == a.len() {
        message_behind(a, b, 0, m, 0, args, floats);
        assert(here + tail =~= tail);
        assert(specs + crate::message::holes(b) =~= crate::message::holes(b));
    } else {
        assert((a + b)[i] == a[i]);
        if a[i] == 0x7B {
            if crate::format::holds(a, i + 1, 0x7B) {
                assert((a + b)[i + 1] == a[i + 1]);
                messages_join_from(a, b, i + 2, k, args, floats);
                assert(both =~= here + tail);
            } else {
                let end = crate::message::hole_end(a, i + 1);
                crate::message::valid_hole_end(a, i + 1);
                crate::format::placeholder_end_bounds(a, i + 1);
                crate::message::brace_at_bounds(a, i + 1);
                brace_before(a, b, i + 1);
                let e = crate::message::brace_at(a, i + 1);
                assert((a + b).subrange(i + 1, e) =~= a.subrange(i + 1, e));
                assert((a + b)[i + 1] == a[i + 1]);
                assert(crate::message::hole_end(a + b, i + 1) == end);
                messages_join_from(a, b, end, k + 1, args, floats);
                assert(both =~= here + tail);
                assert(crate::message::holes_from(a + b, i) =~= specs + crate::message::holes(b));
            }
        } else if a[i] == 0x7D {
            messages_join_from(a, b, i + 2, k, args, floats);
            assert(both =~= here + tail);
        } else {
            messages_join_from(a, b, i + 1, k, args, floats);
            assert(both =~= here + tail);
        }
    }
}

/// A placeholder shows its argument, written as its spec asks for, and a
/// placeholder without an argument says `<missing arg>`.
pub proof fn a_placeholder_shows_its_argument(
    name: Seq<u8>,
    parts: Option<Parts>,
    args: Seq<Arg>,
    floats: Seq<String>,
)
    requires
        super::grammar::lawful_content(name, parts),
        name.len() > 0 ==> name[0] != 0x7B,
    ensures
        ({
            let fmt = seq![0x7Bu8] + super::grammar::content(name, parts) + seq![0x7Du8];
            let spec = match parts {
                Some(p) => p.spec(),
                None => (FormatSpec {
                    fill: 0x20,
                    align: Align::Unset,
                    zero_fill: false,
                    width: None,
                    precision: None,
                    alternate: false,
                    type_char: None,
                }),
            };
            &&& crate::format::placeholders(fmt) == Ok::<nat, crate::format::FmtFault>(1)
            &&& crate::message::holes(fmt) == seq![spec]
            &&& args.len() > 0 ==> crate::message::message(fmt, args, floats)
                == crate::message::arg_text(args[0], spec, floats[0]@)
            &&& args.len() == 0 ==> crate::message::message(fmt, args, floats)
                == vstd::utf8::encode_utf8("<missing arg>"@)
        }),
{
    let inner = super::grammar::content(name, parts);
    let fmt = seq![0x7Bu8] + inner + seq![0x7Du8];
    let e = fmt.len() - 1;
    assert(fmt.subrange(1, e) =~= inner);
    super::grammar::placeholders_are_lawful(fmt, 1, e);
    assert(super::grammar::lawful_content(name, parts));
    super::grammar::contents_read_back(name, parts);
    crate::message::valid_hole_end(fmt, 1);
    crate::message::brace_at_bounds(fmt, 1);
    assert(fmt[1] != 0x7B) by {
        if name.len() > 0 {
            assert(fmt[1] == inner[0]);
        } else if inner.len() > 0 {
            assert(fmt[1] == inner[0]);
        }
    }
    assert(crate::message::brace_at(fmt, 1) == e);
    let spec = crate::message::hole_spec(fmt, 1);
    assert(crate::message::holes_from(fmt, fmt.len() as int) =~= Seq::<FormatSpec>::empty());
    assert(crate::message::holes(fmt) =~= seq![spec]);
    let text = crate::message::hole_text(0, spec, args, floats);
    assert(crate::message::message_from(fmt, fmt.len() as int, 1, args, floats) =~= Seq::<
        u8,
    >::empty());
    assert(text + Seq::<u8>::empty() =~= text);
    assert(!crate::format::holds(fmt, 1, 0x7B));
    assert(crate::format::placeholders_from(fmt, fmt.len() as int) == Ok::<
        nat,
        crate::format::FmtFault,
    >(0));
    assert(fmt[0] == 0x7B);
    assert(crate::format::placeholders(fmt) == Ok::<nat, crate::format::FmtFault>(1));
    assert(crate::message::message(fmt, args, floats) =~= text);
}

/// An argument of a type that is not known says `<unknown tag 0xNN>`, with the tag
/// in two capital hexadecimal digits.
pub proof fn unknown_arguments_say_so(tag: u8, spec: FormatSpec, float: Seq<char>)
    ensures
        ({
            let text = crate::message::arg_text(Arg::Unknown(tag), spec, float);
            let digits = text.subrange(15, 17);
            &&& text.len() == 18
            &&& text.take(15) == vstd::utf8::encode_utf8("<unknown tag 0x"@)
            &&& crate::text::radix_value(digits, 16) == Some(tag as nat)
            &&& super::numbers::digit_in(digits[0], true)
            &&& super::numbers::digit_in(digits[1], true)
            &&& text[17] == 0x3E
        }),
{
    let text = crate::message::arg_text(Arg::Unknown(tag), spec, float);
    let front = "<unknown tag 0x"@;
    reveal_strlit("<unknown tag 0x");
    assert(vstd::utf8::is_ascii_chars(front));
    vstd::utf8::is_ascii_chars_encode_utf8(front);
    assert(text.take(15) =~= vstd::utf8::encode_utf8(front));
    let digits = text.subrange(15, 17);
    let hi = crate::text::digit_byte((tag / 16) as int, true);
    let lo = crate::text::digit_byte((tag % 16) as int, true);
    assert(digits =~= Seq::<u8>::empty().push(hi).push(lo));
    super::numbers::digits_add_up(Seq::empty(), hi, 16);
    super::numbers::digits_add_up(Seq::<u8>::empty().push(hi), lo, 16);
}

/// An argument that was logged shows its value.
pub proof fn arguments_show_values(v: crate::encode::Value, spec: FormatSpec, float: Seq<char>)
    requires
        crate::message::prefix_holds(v),
    ensures
        crate::message::arg_text(crate::message::arg_of(v), spec, float) == crate::message::field(
            v,
            spec,
            float,
        ),
{
    crate::message::value_round_trip(v, Seq::empty());
}

} // verus!

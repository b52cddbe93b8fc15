//! The command line of the benchmark harness.

use crate::bench::{ArgsError, ArgsFault, Config, Flag, Given, Workload};
use vstd::prelude::*;
use vstd::string::*;

verus! {

/// A flag is what is written as one of the five flags, and nothing else.
pub proof fn flags_are_written(s: Seq<char>)
    ensures
        crate::bench::flag_of(s) == Some(Flag::NsPerTick) <==> s == "--ns-per-tick"@,
        crate::bench::flag_of(s) == Some(Flag::Output) <==> s == "--output"@,
        crate::bench::flag_of(s) == Some(Flag::Threads) <==> s == "--threads"@,
        crate::bench::flag_of(s) == Some(Flag::ProducerCore) <==> s == "--producer-core"@,
        crate::bench::flag_of(s) == Some(Flag::BackendCore) <==> s == "--backend-core"@,
        Flag::NsPerTick.text() == "--ns-per-tick"@,
        Flag::Output.text() == "--output"@,
        Flag::Threads.text() == "--threads"@,
        Flag::ProducerCore.text() == "--producer-core"@,
        Flag::BackendCore.text() == "--backend-core"@,
{
    reveal_strlit("--ns-per-tick");
    reveal_strlit("--output");
    reveal_strlit("--threads");
    reveal_strlit("--producer-core");
    reveal_strlit("--backend-core");
    assert("--ns-per-tick"@.len() == 13);
    assert("--output"@.len() == 8);
    assert("--threads"@.len() == 9);
    assert("--producer-core"@.len() == 15);
    assert("--backend-core"@.len() == 14);
}

/// Trimming takes white space off both ends, all of it, and nothing else.
pub proof fn trimming_takes_white_space(s: Seq<char>)
    ensures
        exists|front: Seq<char>, back: Seq<char>|
            s == #[trigger] ((front + crate::bench::trimmed(s)) + back) && (forall|i: int|
                0 <= i < front.len() ==> crate::bench::is_space(#[trigger] front[i])) && (forall|
                i: int,
            |
                0 <= i < back.len() ==> crate::bench::is_space(#[trigger] back[i])),
        ({
            let t = crate::bench::trimmed(s);
            t.len() > 0 ==> !crate::bench::is_space(t[0]) && !crate::bench::is_space(
                t[t.len() - 1],
            )
        }),
{
    let inner = crate::bench::trimmed_front(s);
    let front = front_cut(s);
    let back = back_cut(inner);
    let t = crate::bench::trimmed(s);
    assert((front + t) + back =~= s);
    if t.len() > 0 {
        assert(t[0] == inner[0]);
    }
}

proof fn front_cut(s: Seq<char>) -> (front: Seq<char>)
    ensures
        s == front + crate::bench::trimmed_front(s),
        forall|i: int| 0 <= i < front.len() ==> crate::bench::is_space(#[trigger] front[i]),
        crate::bench::trimmed_front(s).len() > 0 ==> !crate::bench::is_space(
            crate::bench::trimmed_front(s)[0],
        ),
    decreases s.len(),
{
    if s.len() > 0 && crate::bench::is_space(s[0]) {
        let rest = front_cut(s.skip(1));
        let kept = crate::bench::trimmed_front(s);
        assert(kept == crate::bench::trimmed_front(s.skip(1)));
        assert(s =~= seq![s[0]] + s.skip(1));
        assert(seq![s[0]] + (rest + kept) =~= (seq![s[0]] + rest) + kept);
        seq![s[0]] + rest
    } else {
        assert(s =~= Seq::empty() + s);
        Seq::empty()
    }
}

proof fn back_cut(s: Seq<char>) -> (back: Seq<char>)
    ensures
        s == crate::bench::trimmed_back(s) + back,
        forall|i: int| 0 <= i < back.len() ==> crate::bench::is_space(#[trigger] back[i]),
        ({
            let t = crate::bench::trimmed_back(s);
            t.len() > 0 ==> !crate::bench::is_space(t[t.len() - 1])
        }),
    decreases s.len(),
{
    if s.len() > 0 && crate::bench::is_space(s.last()) {
        let rest = back_cut(s.drop_last());
        let kept = crate::bench::trimmed_back(s);
        assert(kept == crate::bench::trimmed_back(s.drop_last()));
        assert(s =~= s.drop_last().push(s.last()));
        assert((kept + rest).push(s.last()) =~= kept + rest.push(s.last()));
        rest.push(s.last())
    } else {
        assert(s =~= s + Seq::empty());
        Seq::empty()
    }
}

/// White space is what Unicode calls so: the controls from tab to carriage return, the
/// space, the next line, the no-break spaces, and the spaces and separators of its
/// punctuation and of scripts.
pub proof fn spaces_are_white(c: char)
    ensures
        crate::bench::is_space(c) <==> (9 <= c as u32 <= 13 || c as u32 == 0x20 || c as u32 == 0x85
            || c as u32 == 0xA0 || c as u32 == 0x1680 || 0x2000 <= c as u32 <= 0x200A || c as u32
            == 0x2028 || c as u32 == 0x2029 || c as u32 == 0x202F || c as u32 == 0x205F || c as u32
            == 0x3000),
{
}

proof fn comma_run(s: Seq<char>, i: int, n: int)
    requires
        0 <= i <= n <= s.len(),
        forall|j: int| i <= j < n ==> #[trigger] s[j] != ',',
        n < s.len() ==> s[n] == ',',
    ensures
        crate::bench::comma_at(s, i) == n,
    decreases n - i,
{
    if i < n {
        comma_run(s, i + 1, n);
    }
}

proof fn comma_behind(a: Seq<char>, b: Seq<char>, i: int)
    requires
        0 <= i <= b.len(),
    ensures
        crate::bench::comma_at(a + b, a.len() + i) == a.len() + crate::bench::comma_at(b, i),
        i <= crate::bench::comma_at(b, i) <= b.len(),
    decreases b.len() - i,
{
    if i < b.len() && b[i] != ',' {
        comma_behind(a, b, i + 1);
    }
}

proof fn list_behind(a: Seq<char>, b: Seq<char>, i: int)
    requires
        0 <= i <= b.len(),
    ensures
        crate::bench::list_from(a + b, a.len() + i) == crate::bench::list_from(b, i),
    decreases b.len() - i,
{
    comma_behind(a, b, i);
    let c = crate::bench::comma_at(b, i);
    assert((a + b).subrange(a.len() + i, a.len() + c) =~= b.subrange(i, c));
    if c < b.len() {
        list_behind(a, b, c + 1);
    }
}

/// A list is its parts between commas, each a number with white space around it, in
/// order, and no list where one of them is no number.
pub proof fn lists_are_separated_by_commas(part: Seq<char>, rest: Seq<char>)
    requires
        forall|j: int| 0 <= j < part.len() ==> #[trigger] part[j] != ',',
    ensures
        crate::bench::list_from(part, 0) == (match crate::bench::number_of(
            crate::bench::trimmed(part),
        ) {
            Some(n) => Some(seq![n]),
            None => None,
        }),
        crate::bench::list_from(part + seq![','] + rest, 0) == (match (
            crate::bench::number_of(crate::bench::trimmed(part)),
            crate::bench::list_from(rest, 0),
        ) {
            (Some(n), Some(list)) => Some(seq![n] + list),
            _ => None,
        }),
{
    let front = part + seq![','];
    let s = front + rest;
    comma_run(part, 0, part.len() as int);
    assert(part.subrange(0, part.len() as int) =~= part);
    assert forall|j: int| 0 <= j < part.len() implies #[trigger] s[j] != ',' by {
        assert(s[j] == part[j]);
    }
    comma_run(s, 0, part.len() as int);
    assert(s.subrange(0, part.len() as int) =~= part);
    list_behind(front, rest, 0);
}

/// A number on the command line is a decimal number that fits.
pub proof fn numbers_are_decimal(s: Seq<char>, n: usize)
    ensures
        crate::bench::number_of(s) == Some(n) <==> crate::text::decimal_value(
            vstd::utf8::encode_utf8(s),
        ) == Some(n as u64),
{
}

/// Each flag says its own thing and leaves the others. A value that is not of the kind
/// that its flag takes is refused.
pub proof fn flags_say_their_own_thing(given: Given, value: Seq<char>, float: bool)
    ensures
        given.with(Flag::Output, value, float) == Ok::<Given, ArgsFault>(
            Given { output: Some(value), ..given },
        ),
        given.with(Flag::NsPerTick, value, true) == Ok::<Given, ArgsFault>(
            Given { ns_per_tick: Some(value), ..given },
        ),
        given.with(Flag::NsPerTick, value, false) == Err::<Given, ArgsFault>(
            ArgsFault::BadValue(Flag::NsPerTick, value),
        ),
        crate::bench::list_from(value, 0) matches Some(list) ==> given.with(
            Flag::Threads,
            value,
            float,
        ) == Ok::<Given, ArgsFault>(Given { thread_counts: Some(list), ..given }),
        crate::bench::list_from(value, 0) is None ==> given.with(Flag::Threads, value, float)
            == Err::<Given, ArgsFault>(ArgsFault::BadValue(Flag::Threads, value)),
        crate::bench::number_of(value) matches Some(n) ==> given.with(
            Flag::ProducerCore,
            value,
            float,
        ) == Ok::<Given, ArgsFault>(Given { producer_core: Some(n), ..given }) && given.with(
            Flag::BackendCore,
            value,
            float,
        ) == Ok::<Given, ArgsFault>(Given { backend_core: Some(n), ..given }),
        crate::bench::number_of(value) is None ==> given.with(Flag::ProducerCore, value, float)
            == Err::<Given, ArgsFault>(ArgsFault::BadValue(Flag::ProducerCore, value))
            && given.with(Flag::BackendCore, value, float) == Err::<Given, ArgsFault>(
            ArgsFault::BadValue(Flag::BackendCore, value),
        ),
{
}

/// A command line is flags and their values, one pair after the other. It is refused at
/// the first argument that is no flag, at a flag without a value, and at a value that its
/// flag does not take.
pub proof fn command_lines_are_pairs(
    args: Seq<Seq<char>>,
    floats: Seq<bool>,
    i: int,
    given: Given,
)
    requires
        0 <= i,
    ensures
        ({
            let outcome = crate::bench::given_from(args, floats, i, given);
            &&& i >= args.len() ==> outcome == Ok::<Given, ArgsFault>(given)
            &&& i < args.len() && crate::bench::flag_of(args[i]) is None ==> outcome == Err::<
                Given,
                ArgsFault,
            >(ArgsFault::UnknownFlag(args[i]))
            &&& i + 1 == args.len() ==> (crate::bench::flag_of(args[i]) matches Some(flag)
                ==> outcome == Err::<Given, ArgsFault>(ArgsFault::MissingValue(flag)))
            &&& i + 1 < args.len() ==> (crate::bench::flag_of(args[i]) matches Some(flag)
                ==> outcome == match given.with(flag, args[i + 1], floats[i + 1]) {
                Ok(next) => crate::bench::given_from(args, floats, i + 2, next),
                Err(f) => Err(f),
            })
        }),
{
}

/// A command line needs the nanoseconds per tick and the output, and asks for one thread
/// unless it says otherwise.
pub proof fn command_lines_are_complete(
    r: Result<Config, ArgsError>,
    args: Seq<Seq<char>>,
    floats: Seq<bool>,
    given: Given,
)
    requires
        crate::bench::args_parsed(r, args, floats),
    ensures
        ({
            let nothing = Given {
                ns_per_tick: None,
                output: None,
                thread_counts: None,
                producer_core: None,
                backend_core: None,
            };
            let outcome = crate::bench::given_from(args, floats, 0, nothing);
            &&& outcome matches Err(f) ==> (r matches Err(e) && e@ == f)
            &&& outcome == Ok::<Given, ArgsFault>(given) && given.ns_per_tick is None ==> (
            r matches Err(e) && e@ == ArgsFault::Required(Flag::NsPerTick))
            &&& outcome == Ok::<Given, ArgsFault>(given) && given.ns_per_tick is Some
                && given.output is None ==> (r matches Err(e) && e@ == ArgsFault::Required(
                Flag::Output,
            ))
            &&& outcome == Ok::<Given, ArgsFault>(given) && given.ns_per_tick is Some
                && given.output is Some ==> {
                &&& r is Ok
                &&& Some(r->Ok_0.ns_per_tick@) == given.ns_per_tick
                &&& Some(r->Ok_0.output@) == given.output
                &&& given.thread_counts matches Some(list) ==> r->Ok_0.thread_counts@ == list
                &&& given.thread_counts is None ==> r->Ok_0.thread_counts@ == seq![1usize]
                &&& r->Ok_0.producer_core == given.producer_core
                &&& r->Ok_0.backend_core == given.backend_core
            }
        }),
{
}

/// Each refusal says what is wrong, by the flag and with the value.
pub proof fn refusals_say_what_is_wrong(flag: Flag, s: Seq<char>)
    ensures
        ArgsFault::MissingValue(flag).text() == "error: "@ + flag.text() + (if flag
            == Flag::Output {
            " requires a path"@
        } else {
            " requires a value"@
        }),
        ArgsFault::BadValue(flag, s).text() == "error: "@ + flag.text() + (if flag
            == Flag::NsPerTick {
            " must be a float, got '"@
        } else if flag == Flag::Threads {
            " expects comma-separated integers, got '"@
        } else {
            " must be an integer, got '"@
        }) + s + "'"@,
        ArgsFault::UnknownFlag(s).text() == "error: unknown flag '"@ + s
            + "'\nusage: harness --ns-per-tick <float> --output <path.json> [--threads <n,...>] [--producer-core <n>] [--backend-core <n>]"@,
        ArgsFault::Required(flag).text() == flag.text() + " is required"@,
{
}

/// A run takes ten million messages in batches of a thousand, and reports three
/// workloads by name.
pub proof fn runs_are_sized()
    ensures
        crate::bench::BATCH == 1000,
        crate::bench::SAMPLES == 10_000,
        crate::bench::TOTAL_MESSAGES == crate::bench::BATCH * crate::bench::SAMPLES,
        Workload::SingleInt.label() == "single_int"@,
        Workload::Mixed.label() == "mixed"@,
        Workload::Text.label() == "string"@,
{
}

/// Contracts speak of a refusal as it is.
pub proof fn refusals_are_seen(flag: Flag, s: String)
    ensures
        ArgsError::MissingValue(flag)@ == ArgsFault::MissingValue(flag),
        ArgsError::BadValue(flag, s)@ == ArgsFault::BadValue(flag, s@),
        ArgsError::UnknownFlag(s)@ == ArgsFault::UnknownFlag(s@),
        ArgsError::Required(flag)@ == ArgsFault::Required(flag),
{
}

/// Contracts speak of the arguments as they are written.
pub proof fn arguments_are_seen(args: Seq<String>, i: int)
    ensures
        crate::bench::texts(args).len() == args.len(),
        0 <= i < args.len() ==> crate::bench::texts(args)[i] == args[i]@,
{
}

} // verus!

//! The benchmark harness: its workloads, how it splits its samples, and its
//! command line.

use crate::text::{parse_decimal, same_text};
use vstd::prelude::*;
use vstd::string::*;

verus! {

/// Number of log calls between counter reads.
pub const BATCH: usize = 1000;

/// Number of batch-average samples per (workload, thread count) configuration.
pub const SAMPLES: usize = 10_000;

/// Total log messages per configuration.
pub const TOTAL_MESSAGES: u64 = 10_000_000;

/// Identifies a workload shape.
#[derive(Debug, Clone, Copy, PartialEq, Eq, Structural)]
pub enum Workload {
    SingleInt,
    Mixed,
    Text,
}

impl Workload {
    /// The name of the workload in reports.
    pub open spec fn label(self) -> Seq<char> {
        match self {
            Workload::SingleInt => "single_int"@,
            Workload::Mixed => "mixed"@,
            Workload::Text => "string"@,
        }
    }

    /// All workloads, in the order they are measured.
    pub fn all() -> (r: Vec<Workload>)
        ensures
            r@ == seq![Workload::SingleInt, Workload::Mixed, Workload::Text],
    {
        let mut r: Vec<Workload> = Vec::new();
        r.push(Workload::SingleInt);
        r.push(Workload::Mixed);
        r.push(Workload::Text);
        assert(r@ =~= seq![Workload::SingleInt, Workload::Mixed, Workload::Text]);
        r
    }

    /// The name of the workload in reports.
    pub fn name(&self) -> (r: &'static str)
        ensures
            r@ == self.label(),
    {
        match self {
            Workload::SingleInt => "single_int",
            Workload::Mixed => "mixed",
            Workload::Text => "string",
        }
    }
}

/// The value that the log call number `i` of the batch `call_index` logs: it
/// differs from call to call.
pub fn call_value(call_index: u64, i: u64) -> (v: u64)
    requires
        call_index * BATCH + i <= u64::MAX,
    ensures
        v == call_index * BATCH + i,
{
    call_index * (BATCH as u64) + i
}

/// The samples that each of `n_threads` threads takes.
pub fn samples_per_thread(n_threads: usize) -> (n: usize)
    requires
        n_threads > 0,
    ensures
        n == SAMPLES / n_threads,
{
    SAMPLES / n_threads
}

/// The number of a batch over all threads.
pub fn batch_index(thread_idx: usize, n_threads: usize, batch_i: usize) -> (index: u64)
    requires
        thread_idx < n_threads,
        batch_i < SAMPLES / n_threads,
    ensures
        index == thread_idx * (SAMPLES / n_threads) + batch_i,
        index < SAMPLES,
{
    let per_thread: usize = SAMPLES / n_threads;
    proof {
        assert(thread_idx * per_thread + batch_i < n_threads * per_thread) by (nonlinear_arith)
            requires
                thread_idx < n_threads,
                batch_i < per_thread,
        ;
        vstd::arithmetic::div_mod::lemma_fundamental_div_mod(SAMPLES as int, n_threads as int);
        vstd::arithmetic::div_mod::lemma_mod_bound(SAMPLES as int, n_threads as int);
        assert(thread_idx * per_thread >= 0) by (nonlinear_arith);
    }
    (thread_idx * per_thread + batch_i) as u64
}

/// The sample that a nearest-rank percentile picks: the one with the given rank
/// of `n` sorted samples, counted from one and kept within them.
pub fn percentile_index(rank: usize, n: usize) -> (idx: usize)
    requires
        n > 0,
    ensures
        idx == if rank == 0 {
            0
        } else if rank > n {
            n - 1
        } else {
            rank - 1
        },
{
    if rank == 0 {
        0
    } else if rank > n {
        n - 1
    } else {
        rank - 1
    }
}

// ---- Numbers on the command line --------------------------------------------

/// Whether `c` is white space.
pub open spec fn is_space(c: char) -> bool {
    let n = c as u32;
    9 <= n <= 13 || n == 0x20 || n == 0x85 || n == 0xA0 || n == 0x1680 || 0x2000 <= n <= 0x200A || n
        == 0x2028 || n == 0x2029 || n == 0x202F || n == 0x205F || n == 0x3000
}

/// `s` without white space in front.
pub open spec fn trimmed_front(s: Seq<char>) -> Seq<char>
    decreases s.len(),
{
    if s.len() > 0 && is_space(s[0]) {
        trimmed_front(s.skip(1))
    } else {
        s
    }
}

/// `s` without white space at its end.
pub open spec fn trimmed_back(s: Seq<char>) -> Seq<char>
    decreases s.len(),
{
    if s.len() > 0 && is_space(s.last()) {
        trimmed_back(s.drop_last())
    } else {
        s
    }
}

/// `s` without white space around it.
pub open spec fn trimmed(s: Seq<char>) -> Seq<char> {
    trimmed_back(trimmed_front(s))
}

/// The number that `s` writes, where it writes one that fits.
pub open spec fn number_of(s: Seq<char>) -> Option<usize> {
    match crate::text::decimal_value(vstd::utf8::encode_utf8(s)) {
        Some(v) if v <= usize::MAX => Some(v as usize),
        _ => None,
    }
}

/// The position of the first comma from `i` on, or the length.
pub open spec fn comma_at(s: Seq<char>, i: int) -> int
    decreases s.len() - i,
{
    if 0 <= i < s.len() && s[i] != ',' {
        comma_at(s, i + 1)
    } else {
        i
    }
}

proof fn comma_at_bounds(s: Seq<char>, i: int)
    requires
        0 <= i <= s.len(),
    ensures
        i <= comma_at(s, i) <= s.len(),
    decreases s.len() - i,
{
    if i < s.len() && s[i] != ',' {
        comma_at_bounds(s, i + 1);
    }
}

/// The numbers of the comma-separated list `s` from position `i` on, where all
/// of its parts are numbers.
pub open spec fn list_from(s: Seq<char>, i: int) -> Option<Seq<usize>>
    decreases s.len() - i,
    when 0 <= i <= s.len()
    via list_from_decreases
{
    let c = comma_at(s, i);
    match number_of(trimmed(s.subrange(i, c))) {
        None => None,
        Some(n) => if c < s.len() {
            match list_from(s, c + 1) {
                None => None,
                Some(rest) => Some(seq![n] + rest),
            }
        } else {
            Some(seq![n])
        },
    }
}

#[via_fn]
proof fn list_from_decreases(s: Seq<char>, i: int) {
    comma_at_bounds(s, i);
}

/// Cuts white space off both ends of `s[from..to]`. Returns what is left.
fn trim<'a>(s: &'a str, from: usize, to: usize) -> (r: &'a str)
    requires
        from <= to <= s@.len(),
    ensures
        r@ == trimmed(s@.subrange(from as int, to as int)),
{
    let ghost whole = s@.subrange(from as int, to as int);
    let mut start: usize = from;
    while start < to && space(s.get_char(start))
        invariant
            from <= start <= to <= s@.len(),
            trimmed_front(whole) == trimmed_front(s@.subrange(start as int, to as int)),
        decreases to - start,
    {
        proof {
            let here = s@.subrange(start as int, to as int);
            assert(here.skip(1) =~= s@.subrange(start + 1, to as int));
        }
        start = start + 1;
    }
    let mut end: usize = to;
    proof {
        let here = s@.subrange(start as int, to as int);
        assert(trimmed_front(here) == here);
    }
    while end > start && space(s.get_char(end - 1))
        invariant
            start <= end <= to <= s@.len(),
            trimmed(whole) == trimmed_back(s@.subrange(start as int, end as int)),
        decreases end - start,
    {
        proof {
            let here = s@.subrange(start as int, end as int);
            assert(here.drop_last() =~= s@.subrange(start as int, end - 1));
        }
        end = end - 1;
    }
    let r: &'a str = s.substring_char(start, end);
    proof {
        let here = s@.subrange(start as int, end as int);
        assert(trimmed_back(here) == here);
    }
    r
}

/// Whether `c` is white space.
fn space(c: char) -> (r: bool)
    ensures
        r == is_space(c),
{
    let n: u32 = c as u32;
    (9 <= n && n <= 13) || n == 0x20 || n == 0x85 || n == 0xA0 || n == 0x1680 || (0x2000 <= n && n
        <= 0x200A) || n == 0x2028 || n == 0x2029 || n == 0x202F || n == 0x205F || n == 0x3000
}

/// Parses a number.
pub fn parse_usize(s: &str) -> (r: Option<usize>)
    ensures
        r == number_of(s@),
{
    match parse_decimal(s.as_bytes()) {
        Some(v) => if v <= usize::MAX as u64 {
            Some(v as usize)
        } else {
            None
        },
        None => None,
    }
}

/// Parses a comma-separated list such as "1,2,4".
pub fn parse_usize_list(s: &str) -> (r: Option<Vec<usize>>)
    ensures
        match list_from(s@, 0) {
            Some(list) => r matches Some(v) && v@ == list,
            None => r is None,
        },
{
    let len: usize = s.unicode_len();
    let mut list: Vec<usize> = Vec::new();
    let mut start: usize = 0;
    let mut more: bool = true;
    while more
        invariant
            len == s@.len(),
            more ==> start <= len,
            more ==> list_from(s@, 0) == (match list_from(s@, start as int) {
                Some(rest) => Some(list@ + rest),
                None => None,
            }),
            !more ==> list_from(s@, 0) == Some(list@),
        decreases
                (if more {
                    len - start + 1
                } else {
                    0int
                }),
    {
        let ghost done = list@;
        let mut c: usize = start;
        while c < len && s.get_char(c) != ','
            invariant
                start <= c <= len == s@.len(),
                comma_at(s@, start as int) == comma_at(s@, c as int),
            decreases len - c,
        {
            c = c + 1;
        }
        match parse_usize(trim(s, start, c)) {
            None => return None,
            Some(n) => {
                list.push(n);
                if c < len {
                    proof {
                        if let Some(rest) = list_from(s@, c + 1) {
                            assert(done + (seq![n] + rest) =~= list@ + rest);
                        }
                    }
                    start = c + 1;
                } else {
                    proof {
                        assert(done + seq![n] =~= list@);
                    }
                    more = false;
                }
            },
        }
    }
    Some(list)
}

// ---- The command line -------------------------------------------------------

/// A flag of the command line.
#[derive(Debug, Clone, Copy, PartialEq, Eq, Structural)]
pub enum Flag {
    NsPerTick,
    Output,
    Threads,
    ProducerCore,
    BackendCore,
}

impl Flag {
    /// The flag as it is written.
    pub open spec fn text(self) -> Seq<char> {
        match self {
            Flag::NsPerTick => "--ns-per-tick"@,
            Flag::Output => "--output"@,
            Flag::Threads => "--threads"@,
            Flag::ProducerCore => "--producer-core"@,
            Flag::BackendCore => "--backend-core"@,
        }
    }

    /// The flag as it is written.
    pub fn name(self) -> (r: &'static str)
        ensures
            r@ == self.text(),
    {
        match self {
            Flag::NsPerTick => "--ns-per-tick",
            Flag::Output => "--output",
            Flag::Threads => "--threads",
            Flag::ProducerCore => "--producer-core",
            Flag::BackendCore => "--backend-core",
        }
    }
}

/// The flag that is written `s`.
pub open spec fn flag_of(s: Seq<char>) -> Option<Flag> {
    if s == Flag::NsPerTick.text() {
        Some(Flag::NsPerTick)
    } else if s == Flag::Output.text() {
        Some(Flag::Output)
    } else if s == Flag::Threads.text() {
        Some(Flag::Threads)
    } else if s == Flag::ProducerCore.text() {
        Some(Flag::ProducerCore)
    } else if s == Flag::BackendCore.text() {
        Some(Flag::BackendCore)
    } else {
        None
    }
}

/// Why a command line is refused.
pub enum ArgsError {
    /// The last argument is a flag that takes a value.
    MissingValue(Flag),
    /// A value is not of the kind that its flag takes.
    BadValue(Flag, String),
    /// An argument is no flag.
    UnknownFlag(String),
    /// A required flag is missing.
    Required(Flag),
}

/// Why a command line is refused.
pub enum ArgsFault {
    MissingValue(Flag),
    BadValue(Flag, Seq<char>),
    UnknownFlag(Seq<char>),
    Required(Flag),
}

impl View for ArgsError {
    type V = ArgsFault;

    open spec fn view(&self) -> ArgsFault {
        match self {
            ArgsError::MissingValue(f) => ArgsFault::MissingValue(*f),
            ArgsError::BadValue(f, s) => ArgsFault::BadValue(*f, s@),
            ArgsError::UnknownFlag(s) => ArgsFault::UnknownFlag(s@),
            ArgsError::Required(f) => ArgsFault::Required(*f),
        }
    }
}

impl ArgsFault {
    /// The message that goes with the fault.
    pub open spec fn text(self) -> Seq<char> {
        match self {
            ArgsFault::MissingValue(f) => "error: "@ + f.text() + if f == Flag::Output {
                " requires a path"@
            } else {
                " requires a value"@
            },
            ArgsFault::BadValue(f, s) => "error: "@ + f.text() + (match f {
                Flag::NsPerTick => " must be a float, got '"@,
                Flag::Threads => " expects comma-separated integers, got '"@,
                _ => " must be an integer, got '"@,
            }) + s + "'"@,
            ArgsFault::UnknownFlag(s) => "error: unknown flag '"@ + s
                + "'\nusage: harness --ns-per-tick <float> --output <path.json> [--threads <n,...>] [--producer-core <n>] [--backend-core <n>]"@,
            ArgsFault::Required(f) => f.text() + " is required"@,
        }
    }
}

impl ArgsError {
    /// The message that goes with the error.
    pub fn to_string(&self) -> (r: String)
        ensures
            r@ == self@.text(),
    {
        let mut r: String = String::new();
        match self {
            ArgsError::MissingValue(f) => {
                r.append("error: ");
                r.append(f.name());
                r.append(
                    match f {
                        Flag::Output => " requires a path",
                        _ => " requires a value",
                    },
                );
            },
            ArgsError::BadValue(f, s) => {
                r.append("error: ");
                r.append(f.name());
                r.append(
                    match f {
                        Flag::NsPerTick => " must be a float, got '",
                        Flag::Threads => " expects comma-separated integers, got '",
                        _ => " must be an integer, got '",
                    },
                );
                r.append(s.as_str());
                r.append("'");
            },
            ArgsError::UnknownFlag(s) => {
                r.append("error: unknown flag '");
                r.append(s.as_str());
                r.append(
                    "'\nusage: harness --ns-per-tick <float> --output <path.json> [--threads <n,...>] [--producer-core <n>] [--backend-core <n>]",
                );
            },
            ArgsError::Required(f) => {
                r.append(f.name());
                r.append(" is required");
            },
        }
        assert(r@ =~= self@.text());
        r
    }
}

/// What a command line has said so far.
pub struct Given {
    pub ns_per_tick: Option<Seq<char>>,
    pub output: Option<Seq<char>>,
    pub thread_counts: Option<Seq<usize>>,
    pub producer_core: Option<usize>,
    pub backend_core: Option<usize>,
}

impl Given {
    /// A command line that has said nothing.
    pub open spec fn nothing() -> Given {
        Given {
            ns_per_tick: None,
            output: None,
            thread_counts: None,
            producer_core: None,
            backend_core: None,
        }
    }

    /// Adds what `flag` with the value `value` says; `float` tells whether the
    /// value reads as a float. A later value replaces an earlier one.
    pub open spec fn with(self, flag: Flag, value: Seq<char>, float: bool) -> Result<
        Given,
        ArgsFault,
    > {
        match flag {
            Flag::NsPerTick => if float {
                Ok(Given { ns_per_tick: Some(value), ..self })
            } else {
                Err(ArgsFault::BadValue(flag, value))
            },
            Flag::Output => Ok(Given { output: Some(value), ..self }),
            Flag::Threads => match list_from(value, 0) {
                Some(list) => Ok(Given { thread_counts: Some(list), ..self }),
                None => Err(ArgsFault::BadValue(flag, value)),
            },
            Flag::ProducerCore => match number_of(value) {
                Some(n) => Ok(Given { producer_core: Some(n), ..self }),
                None => Err(ArgsFault::BadValue(flag, value)),
            },
            Flag::BackendCore => match number_of(value) {
                Some(n) => Ok(Given { backend_core: Some(n), ..self }),
                None => Err(ArgsFault::BadValue(flag, value)),
            },
        }
    }
}

/// What the arguments from position `i` on say, after `given`.
pub open spec fn given_from(args: Seq<Seq<char>>, floats: Seq<bool>, i: int, given: Given) -> Result<
    Given,
    ArgsFault,
>
    decreases args.len() - i,
{
    if i < 0 || i >= args.len() {
        Ok(given)
    } else {
        match flag_of(args[i]) {
            None => Err(ArgsFault::UnknownFlag(args[i])),
            Some(flag) => if i + 1 >= args.len() {
                Err(ArgsFault::MissingValue(flag))
            } else {
                match given.with(flag, args[i + 1], floats[i + 1]) {
                    Err(f) => Err(f),
                    Ok(next) => given_from(args, floats, i + 2, next),
                }
            },
        }
    }
}

/// The texts of the arguments.
pub open spec fn texts(args: Seq<String>) -> Seq<Seq<char>> {
    args.map_values(|s: String| s@)
}

/// The configuration of a benchmark run.
pub struct Config {
    /// Nanoseconds per counter tick, as it was written.
    pub ns_per_tick: String,
    /// Where the report goes.
    pub output: String,
    /// Thread counts to benchmark. Defaults to single-thread.
    pub thread_counts: Vec<usize>,
    /// Base core for producer threads. Thread `i` pins to `base + i`. `None`
    /// leaves producers unpinned.
    pub producer_core: Option<usize>,
    /// Core for the drain thread. `None` leaves it unpinned.
    pub backend_core: Option<usize>,
}

/// Whether `cfg` is what a command line that said `given` asks for.
pub open spec fn asked(cfg: Config, given: Given) -> bool {
    &&& given.ns_per_tick == Some(cfg.ns_per_tick@)
    &&& given.output == Some(cfg.output@)
    &&& cfg.thread_counts@ == match given.thread_counts {
        Some(list) => list,
        None => seq![1usize],
    }
    &&& cfg.producer_core == given.producer_core
    &&& cfg.backend_core == given.backend_core
}

/// Whether `r` is the outcome of parsing `args` (without the program name).
pub open spec fn args_parsed(
    r: Result<Config, ArgsError>,
    args: Seq<Seq<char>>,
    floats: Seq<bool>,
) -> bool {
    match given_from(args, floats, 0, Given::nothing()) {
        Err(f) => r matches Err(e) && e@ == f,
        Ok(given) => if given.ns_per_tick is None {
            r matches Err(e) && e@ == ArgsFault::Required(Flag::NsPerTick)
        } else if given.output is None {
            r matches Err(e) && e@ == ArgsFault::Required(Flag::Output)
        } else {
            r matches Ok(cfg) && asked(cfg, given)
        },
    }
}

/// Finds the flag that is written `s`.
fn find_flag(s: &str) -> (r: Option<Flag>)
    ensures
        r == flag_of(s@),
{
    if same_text(s, "--ns-per-tick") {
        Some(Flag::NsPerTick)
    } else if same_text(s, "--output") {
        Some(Flag::Output)
    } else if same_text(s, "--threads") {
        Some(Flag::Threads)
    } else if same_text(s, "--producer-core") {
        Some(Flag::ProducerCore)
    } else if same_text(s, "--backend-core") {
        Some(Flag::BackendCore)
    } else {
        None
    }
}

/// What a command line has said so far, as values.
struct Partial {
    ns_per_tick: Option<String>,
    output: Option<String>,
    thread_counts: Option<Vec<usize>>,
    producer_core: Option<usize>,
    backend_core: Option<usize>,
}

impl Partial {
    spec fn given(&self) -> Given {
        Given {
            ns_per_tick: match self.ns_per_tick {
                Some(s) => Some(s@),
                None => None,
            },
            output: match self.output {
                Some(s) => Some(s@),
                None => None,
            },
            thread_counts: match self.thread_counts {
                Some(v) => Some(v@),
                None => None,
            },
            producer_core: self.producer_core,
            backend_core: self.backend_core,
        }
    }

    /// Adds what a flag and its value say.
    fn take(&mut self, flag: Flag, value: &String, float: bool) -> (r: Result<(), ArgsError>)
        ensures
            match old(self).given().with(flag, value@, float) {
                Ok(given) => r is Ok && final(self).given() == given,
                Err(f) => r matches Err(e) && e@ == f,
            },
    {
        match flag {
            Flag::NsPerTick => {
                if !float {
                    return Err(ArgsError::BadValue(flag, value.clone()));
                }
                self.ns_per_tick = Some(value.clone());
            },
            Flag::Output => {
                self.output = Some(value.clone());
            },
            Flag::Threads => {
                match parse_usize_list(value.as_str()) {
                    Some(list) => {
                        self.thread_counts = Some(list);
                    },
                    None => return Err(ArgsError::BadValue(flag, value.clone())),
                }
            },
            Flag::ProducerCore => {
                match parse_usize(value.as_str()) {
                    Some(n) => {
                        self.producer_core = Some(n);
                    },
                    None => return Err(ArgsError::BadValue(flag, value.clone())),
                }
            },
            Flag::BackendCore => {
                match parse_usize(value.as_str()) {
                    Some(n) => {
                        self.backend_core = Some(n);
                    },
                    None => return Err(ArgsError::BadValue(flag, value.clone())),
                }
            },
        }
        Ok(())
    }
}

/// Parses the command line `args`, without the program name. `floats[i]` tells
/// whether the argument number `i` reads as a float.
pub fn parse_args(args: &Vec<String>, floats: &Vec<bool>) -> (r: Result<Config, ArgsError>)
    requires
        floats@.len() == args@.len(),
    ensures
        args_parsed(r, texts(args@), floats@),
{
    let mut partial = Partial {
        ns_per_tick: None,
        output: None,
        thread_counts: None,
        producer_core: None,
        backend_core: None,
    };
    let ghost all = texts(args@);
    let mut i: usize = 0;
    while i < args.len()
        invariant
            i <= args@.len(),
            all == texts(args@),
            floats@.len() == args@.len(),
            given_from(all, floats@, 0, Given::nothing()) == given_from(
                all,
                floats@,
                i as int,
                partial.given(),
            ),
        decreases args@.len() - i,
    {
        assert(all[i as int] == args@[i as int]@);
        let flag: Flag = match find_flag(args[i].as_str()) {
            Some(flag) => flag,
            None => return Err(ArgsError::UnknownFlag(args[i].clone())),
        };
        if args.len() - i < 2 {
            return Err(ArgsError::MissingValue(flag));
        }
        assert(all[i + 1] == args@[i + 1]@);
        match partial.take(flag, &args[i + 1], floats[i + 1]) {
            Ok(_) => {},
            Err(e) => return Err(e),
        }
        i = i + 2;
    }
    let ghost given = partial.given();
    let ns_per_tick: String = match partial.ns_per_tick {
        Some(s) => s,
        None => return Err(ArgsError::Required(Flag::NsPerTick)),
    };
    let output: String = match partial.output {
        Some(s) => s,
        None => return Err(ArgsError::Required(Flag::Output)),
    };
    let thread_counts: Vec<usize> = match partial.thread_counts {
        Some(list) => list,
        None => {
            let mut one: Vec<usize> = Vec::new();
            one.push(1);
            assert(one@ =~= seq![1usize]);
            one
        },
    };
    let cfg = Config {
        ns_per_tick,
        output,
        thread_counts,
        producer_core: partial.producer_core,
        backend_core: partial.backend_core,
    };
    assert(asked(cfg, given));
    Ok(cfg)
}

} // verus!

//! Whole paths: log calls go through a thread's ring to a drain and its sink.

use std::collections::HashMap;
use std::io;
use std::sync::{Arc, Mutex};
use ticklog::decode::{Layout, LogMetadata};
use ticklog::drain::{Drain, RingEntry};
use ticklog::encode::{F64Bits, LoggableArgs};
use ticklog::format::FloatStyle;
use ticklog::log::{dispatch, enabled, Outcome};
use ticklog::message::FloatValue;
use ticklog::record::ThreadMeta;
use ticklog::ring::{RingBuffer, DEFAULT_RING_SIZE};
use ticklog::thread_buf::{register_ring, ThreadSlot};
use ticklog::{warm_up, Backpressure, FanOut, Level, LogSink, LogSinkExt, TicklogError};

/// A logger whose producers and drain take turns.
struct Logger<S: LogSink> {
    /// The rings, as the producing threads see them.
    registry: Vec<RingEntry>,
    drain: Drain<S>,
    ceiling: Option<Level>,
    policy: Backpressure,
}

fn display(value: FloatValue, _style: FloatStyle) -> String {
    match value {
        FloatValue::F64(bits) => format!("{}", f64::from_bits(bits)),
        FloatValue::F32(bits) => format!("{}", f32::from_bits(bits)),
    }
}

impl<S: LogSink> Logger<S> {
    fn new(sink: S, ceiling: Level, policy: Backpressure) -> Self {
        Logger {
            registry: Vec::new(),
            drain: Drain::new(sink, 0, LogMetadata::default()),
            ceiling: Some(ceiling),
            policy,
        }
    }

    /// Gives a new thread its ring.
    fn thread(&mut self, id: u64) {
        register_ring(
            &mut self.registry,
            RingEntry { id, ring: RingBuffer::new(DEFAULT_RING_SIZE) },
        );
    }

    /// Marks the ring of a thread that has ended.
    fn end_thread(&mut self, id: u64) {
        for entry in &mut self.registry {
            if entry.id == id {
                entry.ring.retire();
            }
        }
    }

    /// One turn of the drain: it sees what was published, and gives room back.
    fn pump(&mut self) {
        let mut buf = Vec::new();
        let mut notices = Vec::new();
        for local in &mut self.drain.rings {
            for shared in &self.registry {
                if shared.id == local.id {
                    local.ring.refresh(&shared.ring);
                }
            }
        }
        let clock = |t: u64| t;
        self.drain.sync_rings(&mut self.registry, &clock, &display, &mut buf, &mut notices);
        self.drain.poll_once(&clock, &display, &mut buf, &mut notices);
        for shared in &mut self.registry {
            for local in &self.drain.rings {
                if shared.id == local.id {
                    shared.ring.settle(&local.ring);
                }
            }
        }
        assert!(notices.is_empty());
    }

    fn log_on<A: LoggableArgs>(
        &mut self,
        thread: usize,
        level: Level,
        fmt: &'static str,
        line: u32,
        args: &A,
    ) {
        if !enabled(level, self.ceiling) {
            return;
        }
        loop {
            let entry = &mut self.registry[thread];
            let file = "tests/logging.rs";
            let meta = ThreadMeta { id: entry.id, name: "main" };
            let ring = &mut entry.ring;
            match dispatch(ring, self.policy, level, fmt, file, line, meta, args, || 0) {
                Outcome::Full => self.pump(),
                Outcome::Written | Outcome::Discarded => break,
            }
        }
    }

    fn log<A: LoggableArgs>(&mut self, level: Level, fmt: &'static str, line: u32, args: &A) {
        self.log_on(0, level, fmt, line, args);
    }
}

type Lines = Arc<Mutex<Vec<(String, Level)>>>;

/// A sink that records every accepted line, for assertions after shutdown.
struct CaptureSink {
    lines: Lines,
}

impl LogSink for CaptureSink {
    fn accept(&mut self, line: &[u8], level: Level) -> io::Result<()> {
        self.lines
            .lock()
            .unwrap()
            .push((String::from_utf8_lossy(line).into_owned(), level));
        Ok(())
    }
}

fn capture() -> (CaptureSink, Lines) {
    let lines = Arc::new(Mutex::new(Vec::new()));
    (CaptureSink { lines: Arc::clone(&lines) }, lines)
}

fn levels(lines: &Lines) -> Vec<Level> {
    lines.lock().unwrap().iter().map(|(_, level)| *level).collect()
}

/// Extracts the `i` from a line ending in `seq=<i>`.
fn seq_of(line: &str) -> Option<usize> {
    line.rsplit("seq=").next()?.trim().parse().ok()
}

#[test]
fn macros_produce_formatted_lines_in_order() {
    let (sink, lines) = capture();
    let mut log = Logger::new(sink, Level::Trace, Backpressure::Drop);
    log.thread(1);

    log.log(Level::Info, "plain message", 1, &());
    log.log(Level::Warn, "value = {}", 2, &(&42u64, ()));
    log.log(Level::Error, "{} and {}", 3, &(&"a", (&"b", ())));
    log.log(Level::Debug, "dbg {}", 4, &(&true, ()));
    log.log(Level::Trace, "trc {}", 5, &(&F64Bits(3.5f64.to_bits()), ()));
    log.pump();

    let captured = lines.lock().unwrap();
    assert_eq!(captured.len(), 5, "expected five lines, got {captured:?}");

    assert!(captured[0].0.contains(" INFO "));
    assert!(captured[0].0.ends_with("plain message"));
    assert!(captured[1].0.contains(" WARN "));
    assert!(captured[1].0.ends_with("value = 42"));
    assert!(captured[2].0.contains(" ERROR "));
    assert!(captured[2].0.ends_with("a and b"));
    assert!(captured[3].0.contains(" DEBUG "));
    assert!(captured[3].0.ends_with("dbg true"));
    assert!(captured[4].0.contains(" TRACE "));
    assert!(captured[4].0.ends_with("trc 3.5"));

    // Every line carries this test file's source location (default metadata).
    assert!(captured[0].0.contains("tests/logging.rs:"));
}

#[test]
fn each_argument_is_evaluated_once_and_arity_is_unbounded() {
    let (sink, lines) = capture();
    let mut log = Logger::new(sink, Level::Trace, Backpressure::Drop);
    log.thread(1);

    // A side-effecting argument: evaluated once, it yields 0 and leaves the
    // counter at 1.
    let mut counter = 0u64;
    let mut next = || {
        counter += 1;
        counter - 1
    };
    log.log(Level::Info, "seq={}", 1, &(&next(), ()));

    // Many arguments in one call: the encoding must remain variadic.
    log.log(
        Level::Info,
        "{} {} {} {} {} {} {} {} {} {} {} {}",
        2,
        &(
            &0u64,
            (
                &1u64,
                (
                    &2u64,
                    (
                        &3u64,
                        (
                            &4u64,
                            (&5u64, (&6u64, (&7u64, (&8u64, (&9u64, (&10u64, (&11u64, ()))))))),
                        ),
                    ),
                ),
            ),
        ),
    );
    log.pump();

    let captured = lines.lock().unwrap();
    assert_eq!(counter, 1, "argument must be evaluated once, not multiple times");
    assert!(
        captured[0].0.ends_with("seq=0"),
        "encoded value must come from the single evaluation; got {:?}",
        captured[0]
    );
    assert!(
        captured[1].0.ends_with("0 1 2 3 4 5 6 7 8 9 10 11"),
        "all arguments must be encoded; got {:?}",
        captured[1]
    );
}

#[test]
fn fanout_routes_each_record_by_per_sink_level() {
    let (err_sink, err_lines) = capture();
    let (info_sink, info_lines) = capture();
    let (trace_sink, trace_lines) = capture();

    let fan = FanOut::new()
        .add(err_sink.with_max_level(Level::Error))
        .add(info_sink.with_max_level(Level::Info))
        .add(trace_sink.with_max_level(Level::Trace));

    // The global ceiling admits every level, so filtering happens only in the
    // fan-out, per inner sink.
    let mut log = Logger::new(fan, Level::Trace, Backpressure::Drop);
    log.thread(1);
    log.log(Level::Error, "e", 1, &());
    log.log(Level::Warn, "w", 2, &());
    log.log(Level::Info, "i", 3, &());
    log.log(Level::Debug, "d", 4, &());
    log.log(Level::Trace, "t", 5, &());
    log.pump();

    // Error sink: only Error (1) is <= its ceiling.
    assert_eq!(levels(&err_lines), vec![Level::Error]);

    // Info sink: Error, Warn, Info are <= Info.
    assert_eq!(levels(&info_lines), vec![Level::Error, Level::Warn, Level::Info]);

    // Trace sink: every level is <= Trace.
    assert_eq!(
        levels(&trace_lines),
        vec![
            Level::Error,
            Level::Warn,
            Level::Info,
            Level::Debug,
            Level::Trace
        ]
    );
}

#[test]
fn max_level_error_admits_only_error_records() {
    let (sink, lines) = capture();
    let mut log = Logger::new(sink, Level::Error, Backpressure::Drop);
    log.thread(1);

    log.log(Level::Error, "kept {}", 1, &(&1, ()));
    log.log(Level::Warn, "dropped {}", 2, &(&2, ()));
    log.log(Level::Info, "dropped {}", 3, &(&3, ()));
    log.log(Level::Debug, "dropped {}", 4, &(&4, ()));
    log.log(Level::Trace, "dropped {}", 5, &(&5, ()));
    log.pump();

    let recorded = lines.lock().unwrap();
    assert_eq!(
        recorded.len(),
        1,
        "only the Error record should reach the sink, got {recorded:?}"
    );
    assert_eq!(recorded[0].1, Level::Error);
    assert!(recorded[0].0.ends_with("kept 1"));
    assert!(recorded[0].0.contains(" ERROR "));
}

#[test]
fn logging_that_is_off_admits_nothing() {
    assert!(!enabled(Level::Error, None));
    assert!(enabled(Level::Error, Some(Level::Error)));
    assert!(!enabled(Level::Warn, Some(Level::Error)));
    assert!(enabled(Level::Trace, Some(Level::Trace)));
}

#[test]
fn oversized_record_is_dropped_and_next_record_survives() {
    let (sink, lines) = capture();
    let mut log = Logger::new(sink, Level::Trace, Backpressure::Drop);
    log.thread(1);

    // ~70 KB argument: encoded record size exceeds u16::MAX (65_535).
    let huge = "x".repeat(70_000);
    log.log(Level::Info, "huge={}", 1, &(&huge, ()));

    // A normal record immediately after. It must reach the sink uncorrupted --
    // that is the proof the oversized record did not desync the ring.
    log.log(Level::Info, "sentinel={}", 2, &(&42u64, ()));
    log.pump();

    let captured = lines.lock().unwrap();
    assert!(
        captured.iter().any(|(l, _)| l.ends_with("sentinel=42")),
        "sentinel record must survive the oversized record; got {captured:?}"
    );
    assert!(
        captured.iter().all(|(l, _)| !l.contains("huge=")),
        "oversized record must be dropped, not emitted; got {captured:?}"
    );
}

/// More records than any ring can hold, so saturation and drops are guaranteed
/// (a 1 MB ring holds at most ~16k of these records).
const DROP_PRODUCED: usize = 200_000;

#[test]
fn drop_policy_discards_newest_records_and_never_blocks() {
    let (sink, lines) = capture();
    let mut log = Logger::new(sink, Level::Info, Backpressure::Drop);
    log.thread(1);

    // The drain gets no turn, so the ring fills and the tail never advances.
    // A full ring would hand the turn over; under Drop it never does.
    for i in 0..DROP_PRODUCED {
        log.log(Level::Info, "seq={}", 1, &(&(i as u64), ()));
    }
    assert!(lines.lock().unwrap().is_empty());

    // Let the drain deliver the records the ring retained.
    log.pump();

    let captured = lines.lock().unwrap();
    let received = captured.len();
    assert!(received > 0, "expected some records to survive");
    assert!(
        received < DROP_PRODUCED,
        "Drop must discard under saturation, but all {DROP_PRODUCED} survived"
    );

    // The survivors are the contiguous prefix 0..received, in order.
    let seqs: Vec<usize> = captured
        .iter()
        .map(|(line, _)| seq_of(line).expect("each line ends in seq=<i>"))
        .collect();
    let expected: Vec<usize> = (0..received).collect();
    assert_eq!(seqs, expected, "survivors must be an in-order prefix");
}

/// Several times a 1 MB ring's capacity, so the producer must wait for the drain
/// repeatedly during the run.
const BLOCK_PRODUCED: usize = 50_000;

#[test]
fn block_policy_never_loses_a_record() {
    let (sink, lines) = capture();
    let mut log = Logger::new(sink, Level::Info, Backpressure::Block);
    log.thread(1);

    for i in 0..BLOCK_PRODUCED {
        log.log(Level::Info, "seq={}", 1, &(&(i as u64), ()));
    }
    log.pump();

    let captured = lines.lock().unwrap();
    assert_eq!(
        captured.len(),
        BLOCK_PRODUCED,
        "Block must not drop any record; lost {}",
        BLOCK_PRODUCED - captured.len()
    );
    let seqs: Vec<usize> = captured
        .iter()
        .map(|(line, _)| seq_of(line).expect("each line ends in seq=<i>"))
        .collect();
    let expected: Vec<usize> = (0..BLOCK_PRODUCED).collect();
    assert_eq!(seqs, expected, "records must arrive in program order");
}

#[test]
fn worker_thread_records_survive_its_exit_and_guard_shutdown() {
    let (sink, lines) = capture();
    let mut log = Logger::new(sink, Level::Info, Backpressure::Drop);
    log.thread(1);
    log.log(Level::Info, "main before worker", 1, &());

    // A short-lived producer: it owns a distinct ring, logs into it, then ends
    // before the drain has seen the ring.
    log.thread(2);
    log.log_on(1, Level::Info, "worker record {}", 2, &(&7, ()));
    log.end_thread(2);

    log.log(Level::Info, "main after worker", 3, &());
    log.pump();

    let captured = lines.lock().unwrap();
    let any = |needle: &str| captured.iter().any(|(line, _)| line.contains(needle));
    assert!(
        any("worker record 7"),
        "the exited worker's record must still be delivered, got {captured:?}"
    );
    assert!(any("main before worker"));
    assert!(any("main after worker"));
    assert_eq!(captured.len(), 3);
    assert_eq!(log.registry.len(), 1);
    assert_eq!(log.drain.rings.len(), 1);
}

const THREADS: usize = 8;
const RECORDS_PER_THREAD: usize = 1_000;

/// Parses the `(worker, seq)` pair from a line ending in `worker=<w> seq=<s>`.
fn parse_worker_seq(line: &str) -> Option<(usize, usize)> {
    let after = line.split("worker=").nth(1)?;
    let mut parts = after.split(" seq=");
    let worker = parts.next()?.trim().parse().ok()?;
    let seq = parts.next()?.trim().parse().ok()?;
    Some((worker, seq))
}

#[test]
fn each_thread_sequence_arrives_ordered_and_complete() {
    let (sink, lines) = capture();
    let mut log = Logger::new(sink, Level::Info, Backpressure::Block);
    for worker in 0..THREADS {
        log.thread(worker as u64 + 1);
    }
    for seq in 0..RECORDS_PER_THREAD {
        for worker in 0..THREADS {
            log.log_on(
                worker,
                Level::Info,
                "worker={} seq={}",
                1,
                &(&(worker as u64), (&(seq as u64), ())),
            );
        }
    }
    log.pump();

    let captured = lines.lock().unwrap();
    let mut per_worker: HashMap<usize, Vec<usize>> = HashMap::new();
    for (line, _) in captured.iter() {
        let (worker, seq) =
            parse_worker_seq(line).unwrap_or_else(|| panic!("unparseable line: {line:?}"));
        per_worker.entry(worker).or_default().push(seq);
    }
    assert_eq!(per_worker.len(), THREADS, "every worker must contribute records");

    let expected: Vec<usize> = (0..RECORDS_PER_THREAD).collect();
    for worker in 0..THREADS {
        let seqs = per_worker
            .get(&worker)
            .unwrap_or_else(|| panic!("worker {worker} produced no records"));
        assert_eq!(
            seqs, &expected,
            "worker {worker} records out of order or incomplete"
        );
    }
}

#[test]
fn warm_up_is_idempotent_and_first_log_is_allocation_free() {
    let mut slot: ThreadSlot<RingBuffer> = ThreadSlot::new();

    // First call allocates the ring and the thread's state.
    warm_up(true, &mut slot, || (RingBuffer::new(DEFAULT_RING_SIZE), 1, None))
        .expect("warm_up after build must succeed");
    // Second call is a no-op on an already-warmed thread.
    warm_up(true, &mut slot, || panic!("the ring must not be made again"))
        .expect("warm_up must be idempotent");

    let thread = ThreadMeta { id: 1, name: "<unnamed>" };
    let ring = &mut slot.buf.as_mut().unwrap().ring;
    let data = (ring.data.capacity(), ring.data.len());
    let strings = ring.strings.strings.capacity();

    // One log call on the warmed thread: what the ring owns does not grow.
    let args = (&1u64, ());
    let outcome =
        dispatch(ring, Backpressure::Drop, Level::Info, "warm {}", "f.rs", 1, thread, &args, || 0);
    assert!(matches!(outcome, Outcome::Written));
    assert_eq!((ring.data.capacity(), ring.data.len()), data);
    assert_eq!(ring.strings.strings.capacity(), strings);
}

#[test]
fn warm_up_before_initialization_is_an_error() {
    let mut slot: ThreadSlot<RingBuffer> = ThreadSlot::new();
    let result = warm_up(false, &mut slot, || panic!("no ring may be made"));
    assert!(matches!(result, Err(TicklogError::NotInitialized)));
}

/// Logs a long text, and says what became of it.
fn log_text(ring: &mut RingBuffer, policy: Backpressure, text: &String) -> Outcome {
    let thread = ThreadMeta { id: 4, name: "long" };
    dispatch(ring, policy, Level::Info, "{}", "f", 1, thread, &(text, ()), || 3)
}

#[test]
fn dispatch_tells_what_became_of_the_record() {
    let mut ring = RingBuffer::new(DEFAULT_RING_SIZE);
    let text = "y".repeat(60_000);
    for _ in 0..17 {
        assert!(matches!(log_text(&mut ring, Backpressure::Block, &text), Outcome::Written));
    }
    let before = (ring.head, ring.data.clone());
    assert!(matches!(log_text(&mut ring, Backpressure::Block, &text), Outcome::Full));
    assert!(matches!(log_text(&mut ring, Backpressure::Drop, &text), Outcome::Discarded));
    assert_eq!(ring.head, before.0);
    assert!(ring.data == before.1);
}

#[test]
fn every_record_carries_its_thread() {
    let (sink, lines) = capture();
    let layout = match Layout::parse("{level:>5} [{thread_id}|{thread_name}] - {message}") {
        Ok(layout) => layout,
        Err(e) => panic!("{}", e.to_string()),
    };
    let mut log = Logger::new(sink, Level::Info, Backpressure::Drop);
    log.drain.layout = layout;
    log.thread(1);
    log.thread(2);
    log.log(Level::Info, "server listening on {}", 16, &(&8080u64, ()));
    log.log_on(1, Level::Warn, "retry {} of {}", 17, &(&3u64, (&10u64, ())));
    log.pump();
    let captured = lines.lock().unwrap();
    assert_eq!(captured[0].0, " INFO [ThreadId(1)|main] - server listening on 8080");
    assert_eq!(captured[1].0, " WARN [ThreadId(2)|main] - retry 3 of 10");
}

#[test]
fn finishing_leaves_nothing_waiting_and_flushes_last() {
    /// A sink that notes what it is called for.
    struct Journal(Arc<Mutex<Vec<String>>>);

    impl LogSink for Journal {
        fn accept(&mut self, line: &[u8], _level: Level) -> io::Result<()> {
            self.0.lock().unwrap().push(String::from_utf8_lossy(line).into_owned());
            Ok(())
        }

        fn flush(&mut self) -> io::Result<()> {
            self.0.lock().unwrap().push("flush".to_string());
            Ok(())
        }
    }

    let journal = Arc::new(Mutex::new(Vec::new()));
    let mut log = Logger::new(Journal(Arc::clone(&journal)), Level::Info, Backpressure::Drop);
    log.thread(1);
    log.thread(2);
    log.log(Level::Info, "one", 1, &());
    log.log_on(1, Level::Info, "two", 2, &());
    log.end_thread(2);
    let mut buf = Vec::new();
    let mut notices = Vec::new();
    let clock = |t: u64| t;
    log.drain.finish(&mut log.registry, &clock, &display, &mut buf, &mut notices).unwrap();
    let journal = journal.lock().unwrap();
    assert_eq!(journal.len(), 3);
    assert!(journal[0].ends_with("two"));
    assert!(journal[1].ends_with("one"));
    assert_eq!(journal[2], "flush");
    assert_eq!(log.drain.rings.len(), 1);
    assert_eq!(log.drain.rings[0].ring.tail, log.drain.rings[0].ring.head);
}

#[test]
fn the_clock_is_read_only_for_a_record_that_is_written() {
    let mut ring = RingBuffer::new(DEFAULT_RING_SIZE);
    let thread = ThreadMeta { id: 1, name: "main" };
    let text = "y".repeat(70_000);
    let outcome = dispatch(
        &mut ring,
        Backpressure::Block,
        Level::Info,
        "{}",
        "f",
        1,
        thread,
        &(&text, ()),
        || panic!("the record cannot be held"),
    );
    assert!(matches!(outcome, Outcome::Discarded));
}

# ticklog

A logging library for latency-critical applications, verified with Verus.

A log call encodes a compact binary record into the calling thread's ring and
returns. A drain decodes the records, formats and timestamps them, and hands the
lines to a sink.

- `src/` is the library, verified with Verus. What it takes on trust are five
  wrappers around functions of std, each with a doc comment that says what is
  claimed of it.
- `tests/` runs the library.
- `app/` is the runtime around it: threads, clocks, files, streams, the logging
  macros and a benchmark harness.

What the library proves, among other things:

- What a record says is what was logged (`decode::record_round_trip`), and where
  the format string has one placeholder per value, each shows its value
  (`decode::logged_values_appear`), so that the whole line is known
  (`decode::assembled_line`). Doubled braces come out as braces
  (`message::doubled_braces_come_out`).
- Records come out of a ring in the order they were logged, each once
  (`ring::publish_appends`), and nothing is lost while a drain works on a copy of
  the ring and the producer goes on logging (`log::nothing_is_lost`).
- Every ring that logging and draining keep can be drained without meeting a
  corrupt frame (`log::healthy_ring_drains`), and a ring is drained once more
  before it is dropped (`drain::retiring_partitions`).
- The line of a record whose format string validates is valid UTF-8, whatever its
  arguments hold (`decode::line_is_text`), and timestamps of one offset sort as
  their times do (`timestamp::timestamps_sort`).
- What a sink replies neither stops a drain nor makes it try again
  (`drain::replies_change_nothing`), and a finished drain leaves nothing waiting
  (`drain::Drain::finish`).

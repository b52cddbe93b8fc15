use std::io;
use std::sync::{Arc, Mutex};
use ticklog::sink::writer::Output;
use ticklog::{Level, LogSink, WriterSink};

#[test]
fn accept_writes_line_and_newline() {
    let mut sink = WriterSink::new(Vec::<u8>::new());
    sink.accept(b"hello", Level::Info).unwrap();
    assert_eq!(sink.writer, b"hello\n");
}

#[test]
fn accept_appends_across_calls() {
    let mut sink = WriterSink::new(Vec::<u8>::new());
    sink.accept(b"a", Level::Info).unwrap();
    sink.accept(b"b", Level::Warn).unwrap();
    assert_eq!(sink.writer, b"a\nb\n");
}

#[test]
fn flush_delegates_to_inner_writer() {
    /// A writer that records whether `flush` was called.
    struct FlushProbe(Arc<Mutex<bool>>);
    impl Output for FlushProbe {
        fn write_all(&mut self, _bytes: &[u8]) -> io::Result<()> {
            Ok(())
        }
        fn flush(&mut self) -> io::Result<()> {
            *self.0.lock().unwrap() = true;
            Ok(())
        }
    }

    let flushed = Arc::new(Mutex::new(false));
    let mut sink = WriterSink::new(FlushProbe(Arc::clone(&flushed)));
    sink.flush().unwrap();
    assert!(*flushed.lock().unwrap());
}

#[test]
fn accept_propagates_write_error() {
    /// A writer that always fails.
    struct BrokenWriter;
    impl Output for BrokenWriter {
        fn write_all(&mut self, _bytes: &[u8]) -> io::Result<()> {
            Err(io::Error::new(io::ErrorKind::BrokenPipe, "broken"))
        }
        fn flush(&mut self) -> io::Result<()> {
            Ok(())
        }
    }

    let mut sink = WriterSink::new(BrokenWriter);
    let result = sink.accept(b"data", Level::Info);
    assert!(result.is_err());
    assert_eq!(result.unwrap_err().kind(), io::ErrorKind::BrokenPipe);
}

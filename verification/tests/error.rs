use std::io;
use ticklog::TicklogError;

#[test]
fn display_not_initialized() {
    assert_eq!(
        TicklogError::NotInitialized.to_string(),
        "ticklog has not been initialized"
    );
}

#[test]
fn display_already_initialized() {
    assert_eq!(
        TicklogError::AlreadyInitialized.to_string(),
        "ticklog has already been initialized"
    );
}

#[test]
fn display_drain_spawn_failed() {
    let e = TicklogError::DrainSpawnFailed(io::Error::other("thread boom"));
    assert_eq!(e.to_string(), "failed to spawn drain thread: thread boom");
}

#[test]
fn display_sink_write_failed() {
    let e =
        TicklogError::SinkWriteFailed(io::Error::new(io::ErrorKind::BrokenPipe, "pipe closed"));
    assert_eq!(e.to_string(), "sink write failed: pipe closed");
}

#[test]
fn display_invalid_timezone_offset() {
    let e = TicklogError::InvalidTimezoneOffset(99_999);
    assert_eq!(
        e.to_string(),
        "invalid timezone offset: 99999 seconds is outside [-43200, 50400]"
    );
    assert!(e.source().is_none());
}

#[test]
fn source_wraps_io_error() {
    let inner = io::Error::other("oops");
    let e = TicklogError::DrainSpawnFailed(inner);
    let source = e.source().expect("DrainSpawnFailed should have a source");
    assert_eq!(source.to_string(), "oops");

    let inner = io::Error::new(io::ErrorKind::BrokenPipe, "pipe");
    let e = TicklogError::SinkWriteFailed(inner);
    let source = e.source().expect("SinkWriteFailed should have a source");
    assert_eq!(source.to_string(), "pipe");
}

#[test]
fn source_none_for_unit_variants() {
    assert!(TicklogError::NotInitialized.source().is_none());
    assert!(TicklogError::AlreadyInitialized.source().is_none());
}

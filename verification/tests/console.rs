use ticklog::sink::console::{color_code, render, resolve};
use ticklog::{ColorMode, ConsoleSink, Level, LogSink};

#[test]
fn render_plain_is_line_plus_newline() {
    let mut out = Vec::new();
    render(b"hello", Level::Info, false, &mut out);
    assert_eq!(out, b"hello\n");
}

#[test]
fn render_colored_wraps_line_in_code_and_reset() {
    let mut out = Vec::new();
    render(b"boom", Level::Error, true, &mut out);
    let mut expected = Vec::new();
    expected.extend_from_slice(b"\x1b[91m");
    expected.extend_from_slice(b"boom");
    expected.extend_from_slice(b"\x1b[0m");
    expected.push(b'\n');
    assert_eq!(out, expected);
}

#[test]
fn render_clears_prior_contents() {
    let mut out = b"stale".to_vec();
    render(b"fresh", Level::Info, false, &mut out);
    assert_eq!(out, b"fresh\n");
}

#[test]
fn color_code_is_distinct_per_level() {
    let codes = [
        color_code(Level::Error),
        color_code(Level::Warn),
        color_code(Level::Info),
        color_code(Level::Debug),
        color_code(Level::Trace),
    ];
    for (i, a) in codes.iter().enumerate() {
        for b in &codes[i + 1..] {
            assert_ne!(a, b, "two levels share a color code");
        }
    }
}

#[test]
fn resolve_always_and_never_ignore_terminal() {
        assert!(resolve(ColorMode::Always, false));
    assert!(!resolve(ColorMode::Never, true));
}

#[test]
fn resolve_auto_follows_terminal_status() {
        assert!(resolve(ColorMode::Auto, true));
    assert!(!resolve(ColorMode::Auto, false));
}

#[test]
fn default_color_mode_is_auto() {
    assert_eq!(ColorMode::default(), ColorMode::Auto);
}

#[test]
fn with_color_overrides_resolution() {
    let sink = ConsoleSink::with_stream(Vec::<u8>::new(), true).with_color(ColorMode::Always);
    assert_eq!(sink.mode, ColorMode::Always);
    assert!(sink.use_color);

    let sink = ConsoleSink::with_stream(Vec::<u8>::new(), true).with_color(ColorMode::Never);
    assert!(!sink.use_color);
}

#[test]
fn new_sink_defaults_to_auto_mode() {
    let sink = ConsoleSink::with_stream(Vec::<u8>::new(), true);
    assert_eq!(sink.mode, ColorMode::Auto);
}

#[test]
fn accept_writes_the_rendered_line() {
    let mut sink = ConsoleSink::with_stream(Vec::<u8>::new(), false);
    sink.accept(b"plain", Level::Warn).unwrap();
    assert_eq!(sink.stream, b"plain\n");

    let mut sink = ConsoleSink::with_stream(Vec::<u8>::new(), true);
    sink.accept(b"one", Level::Warn).unwrap();
    sink.accept(b"two", Level::Trace).unwrap();
    assert_eq!(sink.stream, b"\x1b[33mone\x1b[0m\n\x1b[90mtwo\x1b[0m\n");
    assert!(sink.flush().is_ok());
}

#[test]
fn color_codes_are_the_documented_ones() {
    assert_eq!(&color_code(Level::Error), b"\x1b[91m");
    assert_eq!(&color_code(Level::Warn), b"\x1b[33m");
    assert_eq!(&color_code(Level::Info), b"\x1b[32m");
    assert_eq!(&color_code(Level::Debug), b"\x1b[36m");
    assert_eq!(&color_code(Level::Trace), b"\x1b[90m");
}

use ticklog::builder::{
    check_config, validate_ring_size, validate_timezone_offset, MAX_TZ_OFFSET, MIN_TZ_OFFSET,
};
use ticklog::pattern::{check_pattern, DEFAULT_LINE_PATTERN};
use ticklog::ring::{DEFAULT_RING_SIZE, MIN_RING_SIZE};
use ticklog::{Backpressure, TicklogError};

#[test]
fn backpressure_discriminants() {
    assert_eq!(Backpressure::Drop as u8, 0);
    assert_eq!(Backpressure::Block as u8, 1);
}

#[test]
fn validate_ring_size_accepts_min_and_larger_powers_of_two() {
    assert!(validate_ring_size(MIN_RING_SIZE).is_ok());
    assert!(validate_ring_size(1_048_576).is_ok());
    assert!(validate_ring_size(64 * 1024 * 1024).is_ok());
}

#[test]
fn validate_ring_size_rejects_non_power_of_two() {
    assert!(matches!(
        validate_ring_size(100_000),
        Err(TicklogError::InvalidRingSize(100_000))
    ));
    assert!(matches!(
        validate_ring_size(0),
        Err(TicklogError::InvalidRingSize(0))
    ));
    assert!(matches!(
        validate_ring_size(usize::MAX),
        Err(TicklogError::InvalidRingSize(usize::MAX))
    ));
}

#[test]
fn validate_ring_size_rejects_below_min() {
    assert!(matches!(
        validate_ring_size(65_536),
        Err(TicklogError::InvalidRingSize(65_536))
    ));
}

#[test]
fn validate_timezone_offset_accepts_bounds_and_inside() {
    assert!(validate_timezone_offset(MIN_TZ_OFFSET).is_ok());
    assert!(validate_timezone_offset(MAX_TZ_OFFSET).is_ok());
    assert!(validate_timezone_offset(0).is_ok());
    assert!(validate_timezone_offset(3_600).is_ok());
}

#[test]
fn validate_timezone_offset_rejects_out_of_range() {
    assert!(matches!(
        validate_timezone_offset(50_401),
        Err(TicklogError::InvalidTimezoneOffset(50_401))
    ));
    assert!(matches!(
        validate_timezone_offset(-43_201),
        Err(TicklogError::InvalidTimezoneOffset(-43_201))
    ));
}

#[test]
fn configure_rt_rejects_out_of_range_timezone_offset() {
    let result = check_config(50_401, DEFAULT_RING_SIZE, "", false);
    assert!(matches!(
        result,
        Err(TicklogError::InvalidTimezoneOffset(50_401))
    ));
}

#[test]
fn configure_rt_already_initialized() {
    let result = check_config(0, DEFAULT_RING_SIZE, "", true);
    assert!(matches!(result, Err(TicklogError::AlreadyInitialized)));
}

#[test]
fn configure_rt_rejects_invalid_ring_size() {
    let result = check_config(0, 100_000, "", false);
    assert!(matches!(
        result,
        Err(TicklogError::InvalidRingSize(100_000))
    ));
}

#[test]
fn configure_rt_rejects_invalid_format_pattern() {
    let result = check_config(0, DEFAULT_RING_SIZE, "{unknown_field}", false);
    assert!(matches!(result, Err(TicklogError::InvalidFormatPattern(_))));
}

#[test]
fn ring_size_below_minimum_is_rejected() {
    let err = match check_config(0, 65_536, "", false) {
        Err(e) => e,
        Ok(_) => panic!("ring size below the 128 KiB minimum must be rejected"),
    };
    assert!(matches!(err, TicklogError::InvalidRingSize(65_536)));
}

#[test]
fn invalid_ring_size_rejects_cleanly_and_claims_nothing() {
    let err = match check_config(0, 100_000, "", false) {
        Err(e) => e,
        Ok(_) => panic!("non-power-of-two ring size must be rejected"),
    };
    assert!(matches!(err, TicklogError::InvalidRingSize(100_000)));

    // The failure claimed nothing: the same check with a valid size succeeds.
    assert!(check_config(0, DEFAULT_RING_SIZE, "", false).is_ok());
}

#[test]
fn config_faults_come_in_order() {
    // Everything is wrong: the timezone offset is reported first, then the
    // ring size, then the pattern, and the second initialization last.
    assert!(matches!(
        check_config(60_000, 7, "{", true),
        Err(TicklogError::InvalidTimezoneOffset(60_000))
    ));
    assert!(matches!(
        check_config(0, 7, "{", true),
        Err(TicklogError::InvalidRingSize(7))
    ));
    match check_config(0, DEFAULT_RING_SIZE, "{", true) {
        Err(TicklogError::InvalidFormatPattern(text)) => {
            assert_eq!(text, "unclosed '{': missing '}'");
        }
        _ => panic!("the pattern must be rejected"),
    }
}

#[test]
fn patterns_are_checked() {
    assert_eq!(check_pattern(DEFAULT_LINE_PATTERN), Ok(()));
    assert_eq!(
        check_pattern("{timestamp} {level:>5} {file}:{line} [{thread_id}|{thread_name}] - {message}"),
        Ok(())
    );
    assert_eq!(check_pattern("{{literal}} {line:#x}"), Ok(()));
    assert_eq!(
        check_pattern("{message} {message}"),
        Err("{message} may occur only once")
    );
    assert_eq!(
        check_pattern("{message:>5}"),
        Err("{timestamp} and {message} take no format spec")
    );
    assert_eq!(
        check_pattern("{timestamp:>5}"),
        Err("{timestamp} and {message} take no format spec")
    );
    assert_eq!(check_pattern("{}"), Err("unknown field in log-line pattern"));
    assert_eq!(
        check_pattern("a } b"),
        Err("unmatched '}': use '}}' to escape a literal brace")
    );
    assert_eq!(check_pattern("{level:+}"), Err("sign flags not supported"));
    assert_eq!(
        check_pattern("{level:?q}"),
        Err("trailing characters after format spec")
    );
}

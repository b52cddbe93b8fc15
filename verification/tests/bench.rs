use ticklog::bench::{
    batch_index, call_value, parse_args, parse_usize, parse_usize_list, percentile_index,
    samples_per_thread, ArgsError, Config, Flag, Workload, BATCH, SAMPLES, TOTAL_MESSAGES,
};

/// Parses a command line written with spaces between its arguments.
fn parse(line: &str) -> Result<Config, ArgsError> {
    let args: Vec<String> = line.split(' ').filter(|s| !s.is_empty()).map(String::from).collect();
    let floats: Vec<bool> = args.iter().map(|s| s.parse::<f64>().is_ok()).collect();
    parse_args(&args, &floats)
}

/// The message with which a command line is refused.
fn refusal(line: &str) -> String {
    match parse(line) {
        Ok(_) => panic!("the command line must be refused"),
        Err(e) => e.to_string(),
    }
}

#[test]
fn a_full_command_line_is_parsed() {
    let line = "--ns-per-tick 0.25 --output out.json --threads 1,2,4 --producer-core 3 \
                --backend-core 7";
    let cfg = match parse(line) {
        Ok(cfg) => cfg,
        Err(e) => panic!("{}", e.to_string()),
    };
    assert_eq!(cfg.ns_per_tick, "0.25");
    assert_eq!(cfg.output, "out.json");
    assert_eq!(cfg.thread_counts, vec![1, 2, 4]);
    assert_eq!(cfg.producer_core, Some(3));
    assert_eq!(cfg.backend_core, Some(7));
}

#[test]
fn a_short_command_line_takes_the_defaults() {
    let cfg = match parse("--output a --ns-per-tick 1 --output b") {
        Ok(cfg) => cfg,
        Err(e) => panic!("{}", e.to_string()),
    };
    assert_eq!(cfg.output, "b");
    assert_eq!(cfg.thread_counts, vec![1]);
    assert_eq!((cfg.producer_core, cfg.backend_core), (None, None));
}

#[test]
fn refusals_say_what_is_wrong() {
    assert_eq!(refusal(""), "--ns-per-tick is required");
    assert_eq!(refusal("--ns-per-tick 1"), "--output is required");
    assert_eq!(refusal("--ns-per-tick"), "error: --ns-per-tick requires a value");
    assert_eq!(refusal("--output"), "error: --output requires a path");
    assert_eq!(
        refusal("--ns-per-tick fast"),
        "error: --ns-per-tick must be a float, got 'fast'"
    );
    assert_eq!(
        refusal("--threads 1,x"),
        "error: --threads expects comma-separated integers, got '1,x'"
    );
    assert_eq!(
        refusal("--producer-core -1"),
        "error: --producer-core must be an integer, got '-1'"
    );
    assert_eq!(
        refusal("--backend-core 1.5"),
        "error: --backend-core must be an integer, got '1.5'"
    );
    assert!(refusal("--nope 3").starts_with("error: unknown flag '--nope'\nusage: harness "));
}

#[test]
fn refusals_have_their_variants() {
    assert!(matches!(parse("--threads"), Err(ArgsError::MissingValue(Flag::Threads))));
    assert!(matches!(parse("--threads a"), Err(ArgsError::BadValue(Flag::Threads, _))));
    assert!(matches!(parse("zap"), Err(ArgsError::UnknownFlag(_))));
    assert!(matches!(parse(""), Err(ArgsError::Required(Flag::NsPerTick))));
}

#[test]
fn numbers_are_parsed_as_by_the_standard_library() {
    for s in ["0", "17", "+5", "", "+", "-1", " 3", "3 ", "1_000", "18446744073709551615",
        "18446744073709551616", "007", "１"]
    {
        assert_eq!(parse_usize(s), s.parse::<usize>().ok(), "{s:?}");
    }
}

#[test]
fn lists_allow_white_space_around_numbers() {
    assert_eq!(parse_usize_list("1,2,4"), Some(vec![1, 2, 4]));
    assert_eq!(parse_usize_list(" 1 ,\t2\u{3000}, 4"), Some(vec![1, 2, 4]));
    assert_eq!(parse_usize_list("8"), Some(vec![8]));
    assert_eq!(parse_usize_list(""), None);
    assert_eq!(parse_usize_list("1,"), None);
    assert_eq!(parse_usize_list("1,,2"), None);
}

#[test]
fn workloads_are_named() {
    let names: Vec<&str> = Workload::all().iter().map(|w| w.name()).collect();
    assert_eq!(names, vec!["single_int", "mixed", "string"]);
}

#[test]
fn batches_are_numbered_over_all_threads() {
    assert_eq!(BATCH * SAMPLES, TOTAL_MESSAGES as usize);
    assert_eq!(samples_per_thread(1), 10_000);
    assert_eq!(samples_per_thread(3), 3_333);
    assert_eq!(batch_index(0, 3, 0), 0);
    assert_eq!(batch_index(2, 3, 5), 6_671);
    assert_eq!(call_value(6_671, 999), 6_671_999);
}

#[test]
fn percentiles_pick_the_nearest_rank() {
    assert_eq!(percentile_index(0, 10), 0);
    assert_eq!(percentile_index(1, 10), 0);
    assert_eq!(percentile_index(5, 10), 4);
    assert_eq!(percentile_index(10, 10), 9);
    assert_eq!(percentile_index(11, 10), 9);
}

use ticklog::format::{
    check_fmt, float_style, format_bool, format_i16, format_i32, format_i64, format_i8, format_str,
    format_u16, format_u32, format_u64, format_u8, format_with_spec, is_valid_fill, parse_spec,
    validate_fmt, Align, FloatStyle, FormatSpec,
};

/// Writes a float in the style that `spec` asks for, and pads it.
fn format_f64(value: f64, spec: &FormatSpec, buf: &mut Vec<u8>) {
    let text = match float_style(spec) {
        FloatStyle::Display(Some(p)) => format!("{:.prec$}", value, prec = p as usize),
        FloatStyle::Display(None) => format!("{}", value),
        FloatStyle::Debug => format!("{:?}", value),
        FloatStyle::DebugAlternate => format!("{:#?}", value),
        FloatStyle::LowerExp(Some(p)) => format!("{:.prec$e}", value, prec = p as usize),
        FloatStyle::LowerExp(None) => format!("{:e}", value),
        FloatStyle::UpperExp(Some(p)) => format!("{:.prec$E}", value, prec = p as usize),
        FloatStyle::UpperExp(None) => format!("{:E}", value),
    };
    format_with_spec(&text, spec, buf);
}

fn format_f32(value: f32, spec: &FormatSpec, buf: &mut Vec<u8>) {
    format_f64(value as f64, spec, buf);
}

#[test]
fn validate_empty() {
    assert_eq!(validate_fmt(""), Ok(0));
}

#[test]
fn validate_literal_only() {
    assert_eq!(validate_fmt("hello world"), Ok(0));
}

#[test]
fn validate_single_empty_spec() {
    assert_eq!(validate_fmt("{}"), Ok(1));
}

#[test]
fn validate_multiple_specs() {
    assert_eq!(validate_fmt("{} {} {}"), Ok(3));
}

#[test]
fn validate_mixed_literal_and_spec() {
    assert_eq!(validate_fmt("val={} err={:?}"), Ok(2));
}

#[test]
fn validate_escaped_braces() {
    assert_eq!(validate_fmt("{{not a spec}}"), Ok(0));
}

#[test]
fn validate_escaped_open_and_real_close() {
    assert_eq!(validate_fmt("{{ {}"), Ok(1));
}

#[test]
fn validate_escaped_close_brace() {
    assert_eq!(validate_fmt("}} after literal"), Ok(0));
}

#[test]
fn validate_all_type_chars() {
    for c in &["?", "x", "X", "o", "b", "e", "E"] {
        let fmt = format!("{{:{}}}", c);
        assert_eq!(validate_fmt(&fmt), Ok(1), "failed for type char '{}'", c);
    }
}

#[test]
fn validate_alternate_debug() {
    assert_eq!(validate_fmt("{:#?}"), Ok(1));
}

#[test]
fn validate_alternate_hex() {
    assert_eq!(validate_fmt("{:#x}"), Ok(1));
}

#[test]
fn validate_width() {
    assert_eq!(validate_fmt("{:10}"), Ok(1));
}

#[test]
fn validate_width_and_type() {
    assert_eq!(validate_fmt("{:10?}"), Ok(1));
}

#[test]
fn validate_precision() {
    assert_eq!(validate_fmt("{:.5}"), Ok(1));
}

#[test]
fn validate_width_and_precision() {
    assert_eq!(validate_fmt("{:10.5}"), Ok(1));
}

#[test]
fn validate_fill_align() {
    assert_eq!(validate_fmt("{:*>}"), Ok(1));
    assert_eq!(validate_fmt("{:*<}"), Ok(1));
    assert_eq!(validate_fmt("{:*^}"), Ok(1));
}

#[test]
fn validate_align_without_fill() {
    assert_eq!(validate_fmt("{:>}"), Ok(1));
    assert_eq!(validate_fmt("{:<}"), Ok(1));
    assert_eq!(validate_fmt("{:^}"), Ok(1));
}

#[test]
fn validate_zero_fill() {
    assert_eq!(validate_fmt("{:0}"), Ok(1));
    assert_eq!(validate_fmt("{:05}"), Ok(1));
}

#[test]
fn validate_fill_align_width_type() {
    assert_eq!(validate_fmt("{:*>10x}"), Ok(1));
}

#[test]
fn validate_cosmetic_name() {
    assert_eq!(validate_fmt("{name}"), Ok(1));
    assert_eq!(validate_fmt("{name:?}"), Ok(1));
    assert_eq!(validate_fmt("{name:#x}"), Ok(1));
    assert_eq!(validate_fmt("{name:>10}"), Ok(1));
}

#[test]
fn validate_name_with_empty_spec() {
    assert_eq!(validate_fmt("{name:}"), Ok(1));
}

#[test]
fn validate_full_spec() {
    assert_eq!(validate_fmt("{:*>10.5#x}"), Ok(1));
}

#[test]
fn reject_unclosed_brace() {
    assert!(validate_fmt("hello {").is_err());
    assert!(validate_fmt("hello {world").is_err());
}

#[test]
fn reject_unmatched_close() {
    assert!(validate_fmt("hello }").is_err());
}

#[test]
fn reject_sign_flag_plus() {
    assert!(validate_fmt("{:+}").is_err());
}

#[test]
fn reject_sign_flag_minus() {
    assert!(validate_fmt("{:-}").is_err());
}

#[test]
fn reject_invalid_fill_plus() {
    assert!(validate_fmt("{:+>}").is_err());
}

#[test]
fn reject_invalid_fill_minus() {
    assert!(validate_fmt("{:-^}").is_err());
}

#[test]
fn reject_invalid_type_char() {
    assert!(validate_fmt("{:z}").is_err());
}

#[test]
fn reject_positional_param() {
    assert!(validate_fmt("{0}").is_err());
    assert!(validate_fmt("{1:?}").is_err());
}

#[test]
fn reject_trailing_garbage_after_type() {
    assert!(validate_fmt("{:?x}").is_err());
}

#[test]
fn reject_dot_without_digits() {
    assert!(validate_fmt("{:.}").is_err());
    assert!(validate_fmt("{:.x}").is_err());
}

#[test]
fn parse_empty() {
    let fs = parse_spec("");
    assert_eq!(fs.type_char, None);
    assert_eq!(fs.width, None);
    assert_eq!(fs.precision, None);
}

#[test]
fn parse_display() {
    let fs = parse_spec(":");
    assert_eq!(fs.type_char, None);
}

#[test]
fn parse_debug() {
    let fs = parse_spec(":?");
    assert_eq!(fs.type_char, Some(b'?'));
}

#[test]
fn parse_hex() {
    let fs = parse_spec(":x");
    assert_eq!(fs.type_char, Some(b'x'));
}

#[test]
fn parse_alternate_hex() {
    let fs = parse_spec(":#x");
    assert_eq!(fs.type_char, Some(b'x'));
    assert!(fs.alternate);
}

#[test]
fn parse_width() {
    let fs = parse_spec(":10");
    assert_eq!(fs.width, Some(10));
    assert_eq!(fs.type_char, None);
}

#[test]
fn parse_width_and_type() {
    let fs = parse_spec(":10?");
    assert_eq!(fs.width, Some(10));
    assert_eq!(fs.type_char, Some(b'?'));
}

#[test]
fn parse_precision() {
    let fs = parse_spec(":.5");
    assert_eq!(fs.precision, Some(5));
}

#[test]
fn parse_width_and_precision() {
    let fs = parse_spec(":10.5");
    assert_eq!(fs.width, Some(10));
    assert_eq!(fs.precision, Some(5));
}

#[test]
fn parse_fill_align() {
    let fs = parse_spec(":*>");
    assert_eq!(fs.fill, b'*');
    assert_eq!(fs.align, Align::Right);
}

#[test]
fn parse_fill_center() {
    let fs = parse_spec(":*^");
    assert_eq!(fs.fill, b'*');
    assert_eq!(fs.align, Align::Center);
}

#[test]
fn parse_align_left_without_fill() {
    let fs = parse_spec(":<");
    assert_eq!(fs.fill, b' '); // default
    assert_eq!(fs.align, Align::Left);
}

#[test]
fn parse_zero_fill() {
    let fs = parse_spec(":0");
    assert!(fs.zero_fill);
    assert_eq!(fs.width, None);
}

#[test]
fn parse_zero_fill_with_width() {
    let fs = parse_spec(":05");
    assert!(fs.zero_fill);
    assert_eq!(fs.width, Some(5));
}

#[test]
fn parse_cosmetic_name_with_spec() {
    let fs = parse_spec("my_var:?");
    assert_eq!(fs.type_char, Some(b'?'));
}

#[test]
fn parse_name_only_returns_default() {
    let fs = parse_spec("only_a_name");
    assert_eq!(fs.type_char, None);
    assert_eq!(fs.width, None);
}

#[test]
fn format_with_spec_no_width_appends_as_is() {
    let mut buf = Vec::new();
    let spec = FormatSpec::default();
    format_with_spec("hello", &spec, &mut buf);
    assert_eq!(buf, b"hello");
}

#[test]
fn format_with_spec_left_align() {
    let mut buf = Vec::new();
    let spec = FormatSpec {
        width: Some(10),
        align: Align::Left,
        ..Default::default()
    };
    format_with_spec("hi", &spec, &mut buf);
    assert_eq!(buf, b"hi        ");
}

#[test]
fn format_with_spec_right_align() {
    let mut buf = Vec::new();
    let spec = FormatSpec {
        width: Some(10),
        align: Align::Right,
        ..Default::default()
    };
    format_with_spec("hi", &spec, &mut buf);
    assert_eq!(buf, b"        hi");
}

#[test]
fn format_with_spec_center_align() {
    let mut buf = Vec::new();
    let spec = FormatSpec {
        width: Some(9),
        align: Align::Center,
        ..Default::default()
    };
    format_with_spec("hi", &spec, &mut buf);
    assert_eq!(buf, b"   hi    ");
}

#[test]
fn format_with_spec_zero_fill_overrides_fill_and_align() {
    let mut buf = Vec::new();
    let spec = FormatSpec {
        width: Some(5),
        zero_fill: true,
        fill: b'*',
        ..Default::default()
    };
    format_with_spec("42", &spec, &mut buf);
    assert_eq!(buf, b"00042");
}

#[test]
fn format_with_spec_exact_width_no_padding() {
    let mut buf = Vec::new();
    let spec = FormatSpec {
        width: Some(5),
        align: Align::Right,
        ..Default::default()
    };
    format_with_spec("hello", &spec, &mut buf);
    assert_eq!(buf, b"hello");
}

#[test]
fn format_with_spec_wider_than_width_no_padding() {
    let mut buf = Vec::new();
    let spec = FormatSpec {
        width: Some(3),
        ..Default::default()
    };
    format_with_spec("hello", &spec, &mut buf);
    assert_eq!(buf, b"hello");
}

#[test]
fn format_with_spec_custom_fill() {
    let mut buf = Vec::new();
    let spec = FormatSpec {
        width: Some(8),
        align: Align::Right,
        fill: b'.',
        ..Default::default()
    };
    format_with_spec("abc", &spec, &mut buf);
    assert_eq!(buf, b".....abc");
}

#[test]
fn format_u64_display() {
    let mut buf = Vec::new();
    let spec = FormatSpec::default();
    format_u64(42, &spec, &mut buf);
    assert_eq!(buf, b"42");
}

#[test]
fn format_u64_debug() {
    let mut buf = Vec::new();
    let spec = FormatSpec {
        type_char: Some(b'?'),
        ..Default::default()
    };
    format_u64(42, &spec, &mut buf);
    assert_eq!(buf, b"42");
}

#[test]
fn format_u64_lower_hex() {
    let mut buf = Vec::new();
    let spec = FormatSpec {
        type_char: Some(b'x'),
        ..Default::default()
    };
    format_u64(255, &spec, &mut buf);
    assert_eq!(buf, b"ff");
}

#[test]
fn format_u64_upper_hex() {
    let mut buf = Vec::new();
    let spec = FormatSpec {
        type_char: Some(b'X'),
        ..Default::default()
    };
    format_u64(255, &spec, &mut buf);
    assert_eq!(buf, b"FF");
}

#[test]
fn format_u64_alternate_hex() {
    let mut buf = Vec::new();
    let spec = FormatSpec {
        type_char: Some(b'x'),
        alternate: true,
        ..Default::default()
    };
    format_u64(255, &spec, &mut buf);
    assert_eq!(buf, b"0xff");
}

#[test]
fn format_u64_alternate_upper_hex() {
    let mut buf = Vec::new();
    let spec = FormatSpec {
        type_char: Some(b'X'),
        alternate: true,
        ..Default::default()
    };
    format_u64(255, &spec, &mut buf);
    assert_eq!(buf, b"0xFF");
}

#[test]
fn format_u64_octal() {
    let mut buf = Vec::new();
    let spec = FormatSpec {
        type_char: Some(b'o'),
        ..Default::default()
    };
    format_u64(8, &spec, &mut buf);
    assert_eq!(buf, b"10");
}

#[test]
fn format_u64_alternate_octal() {
    let mut buf = Vec::new();
    let spec = FormatSpec {
        type_char: Some(b'o'),
        alternate: true,
        ..Default::default()
    };
    format_u64(8, &spec, &mut buf);
    assert_eq!(buf, b"0o10");
}

#[test]
fn format_u64_binary() {
    let mut buf = Vec::new();
    let spec = FormatSpec {
        type_char: Some(b'b'),
        ..Default::default()
    };
    format_u64(5, &spec, &mut buf);
    assert_eq!(buf, b"101");
}

#[test]
fn format_u64_alternate_binary() {
    let mut buf = Vec::new();
    let spec = FormatSpec {
        type_char: Some(b'b'),
        alternate: true,
        ..Default::default()
    };
    format_u64(5, &spec, &mut buf);
    assert_eq!(buf, b"0b101");
}

#[test]
fn format_u64_with_precision_zero_pads() {
    let mut buf = Vec::new();
    let spec = FormatSpec {
        precision: Some(5),
        ..Default::default()
    };
    format_u64(42, &spec, &mut buf);
    assert_eq!(buf, b"00042");
}

#[test]
fn format_u64_with_precision_hex() {
    let mut buf = Vec::new();
    let spec = FormatSpec {
        type_char: Some(b'x'),
        precision: Some(4),
        ..Default::default()
    };
    format_u64(255, &spec, &mut buf);
    assert_eq!(buf, b"00ff");
}

#[test]
fn format_u64_with_precision_alternate_hex() {
    let mut buf = Vec::new();
    let spec = FormatSpec {
        type_char: Some(b'x'),
        alternate: true,
        precision: Some(4),
        ..Default::default()
    };
    format_u64(255, &spec, &mut buf);
    assert_eq!(buf, b"0x00ff");
}

#[test]
fn format_u64_with_width_right() {
    let mut buf = Vec::new();
    let spec = FormatSpec {
        width: Some(6),
        align: Align::Right,
        ..Default::default()
    };
    format_u64(42, &spec, &mut buf);
    assert_eq!(buf, b"    42");
}

#[test]
fn format_u64_with_width_and_precision() {
    let mut buf = Vec::new();
    let spec = FormatSpec {
        width: Some(6),
        precision: Some(4),
        ..Default::default()
    };
    format_u64(42, &spec, &mut buf);
    assert_eq!(buf, b"0042  ");
}

#[test]
fn format_u64_zero() {
    let mut buf = Vec::new();
    format_u64(0, &FormatSpec::default(), &mut buf);
    assert_eq!(buf, b"0");
}

#[test]
fn format_u64_large() {
    let mut buf = Vec::new();
    format_u64(u64::MAX, &FormatSpec::default(), &mut buf);
    assert_eq!(buf, b"18446744073709551615");
}

#[test]
fn format_i64_display() {
    let mut buf = Vec::new();
    format_i64(-42, &FormatSpec::default(), &mut buf);
    assert_eq!(buf, b"-42");
}

#[test]
fn format_i64_positive() {
    let mut buf = Vec::new();
    format_i64(42, &FormatSpec::default(), &mut buf);
    assert_eq!(buf, b"42");
}

#[test]
fn format_i64_debug() {
    let mut buf = Vec::new();
    let spec = FormatSpec {
        type_char: Some(b'?'),
        ..Default::default()
    };
    format_i64(-42, &spec, &mut buf);
    assert_eq!(buf, b"-42");
}

#[test]
fn format_i64_with_precision() {
    let mut buf = Vec::new();
    let spec = FormatSpec {
        precision: Some(5),
        ..Default::default()
    };
    format_i64(-42, &spec, &mut buf);
    assert_eq!(buf, b"-00042");
}

#[test]
fn format_i64_zero() {
    let mut buf = Vec::new();
    format_i64(0, &FormatSpec::default(), &mut buf);
    assert_eq!(buf, b"0");
}

#[test]
fn format_f64_display() {
    let mut buf = Vec::new();
    format_f64(3.14, &FormatSpec::default(), &mut buf);
    assert_eq!(buf, b"3.14");
}

#[test]
fn format_f64_debug() {
    let mut buf = Vec::new();
    let spec = FormatSpec {
        type_char: Some(b'?'),
        ..Default::default()
    };
    format_f64(3.14, &spec, &mut buf);
    assert_eq!(buf, b"3.14");
}

#[test]
fn format_f64_with_precision() {
    let mut buf = Vec::new();
    let spec = FormatSpec {
        precision: Some(2),
        ..Default::default()
    };
    format_f64(3.14159, &spec, &mut buf);
    assert_eq!(buf, b"3.14");
}

#[test]
fn format_f64_lower_exp() {
    let mut buf = Vec::new();
    let spec = FormatSpec {
        type_char: Some(b'e'),
        ..Default::default()
    };
    format_f64(3.14, &spec, &mut buf);
    assert_eq!(buf, b"3.14e0");
}

#[test]
fn format_f64_upper_exp() {
    let mut buf = Vec::new();
    let spec = FormatSpec {
        type_char: Some(b'E'),
        ..Default::default()
    };
    format_f64(3.14, &spec, &mut buf);
    assert_eq!(buf, b"3.14E0");
}

#[test]
fn format_f64_exp_with_precision() {
    let mut buf = Vec::new();
    let spec = FormatSpec {
        type_char: Some(b'e'),
        precision: Some(4),
        ..Default::default()
    };
    format_f64(3.14159, &spec, &mut buf);
    assert_eq!(buf, b"3.1416e0");
}

#[test]
fn format_f64_with_width() {
    let mut buf = Vec::new();
    let spec = FormatSpec {
        width: Some(10),
        align: Align::Right,
        ..Default::default()
    };
    format_f64(3.14, &spec, &mut buf);
    assert_eq!(buf, b"      3.14");
}

#[test]
fn format_bool_true() {
    let mut buf = Vec::new();
    format_bool(true, &FormatSpec::default(), &mut buf);
    assert_eq!(buf, b"true");
}

#[test]
fn format_bool_false() {
    let mut buf = Vec::new();
    format_bool(false, &FormatSpec::default(), &mut buf);
    assert_eq!(buf, b"false");
}

#[test]
fn format_bool_debug() {
    let mut buf = Vec::new();
    let spec = FormatSpec {
        type_char: Some(b'?'),
        ..Default::default()
    };
    format_bool(true, &spec, &mut buf);
    assert_eq!(buf, b"true");
}

#[test]
fn format_bool_with_width() {
    let mut buf = Vec::new();
    let spec = FormatSpec {
        width: Some(8),
        align: Align::Right,
        ..Default::default()
    };
    format_bool(false, &spec, &mut buf);
    assert_eq!(buf, b"   false");
}

#[test]
fn format_str_display() {
    let mut buf = Vec::new();
    format_str("hello", &FormatSpec::default(), &mut buf);
    assert_eq!(buf, b"hello");
}

#[test]
fn format_str_debug() {
    let mut buf = Vec::new();
    let spec = FormatSpec {
        type_char: Some(b'?'),
        ..Default::default()
    };
    format_str("hello", &spec, &mut buf);
    assert_eq!(buf, b"\"hello\"");
}

#[test]
fn format_str_alternate_debug() {
    let mut buf = Vec::new();
    let spec = FormatSpec {
        type_char: Some(b'?'),
        alternate: true,
        ..Default::default()
    };
    format_str("hello", &spec, &mut buf);
    assert_eq!(buf, b"\"hello\"");
}

#[test]
fn format_str_with_precision_truncates() {
    let mut buf = Vec::new();
    let spec = FormatSpec {
        precision: Some(3),
        ..Default::default()
    };
    format_str("hello", &spec, &mut buf);
    assert_eq!(buf, b"hel");
}

#[test]
fn format_str_precision_longer_than_string() {
    let mut buf = Vec::new();
    let spec = FormatSpec {
        precision: Some(10),
        ..Default::default()
    };
    format_str("hi", &spec, &mut buf);
    assert_eq!(buf, b"hi");
}

#[test]
fn format_str_precision_zero() {
    let mut buf = Vec::new();
    let spec = FormatSpec {
        precision: Some(0),
        ..Default::default()
    };
    format_str("hello", &spec, &mut buf);
    assert_eq!(buf, b"");
}

#[test]
fn format_str_with_width() {
    let mut buf = Vec::new();
    let spec = FormatSpec {
        width: Some(10),
        align: Align::Right,
        ..Default::default()
    };
    format_str("hi", &spec, &mut buf);
    assert_eq!(buf, b"        hi");
}

#[test]
fn format_str_utf8_truncation() {
    let mut buf = Vec::new();
    let spec = FormatSpec {
        precision: Some(2),
        ..Default::default()
    };
    format_str("a\u{00E9}c", &spec, &mut buf);
    assert_eq!(buf, b"a\xC3\xA9"); // 2 chars: 'a' + 'é' (2 bytes)
}

#[test]
fn format_u32_delegates() {
    let mut buf = Vec::new();
    let spec = FormatSpec {
        type_char: Some(b'x'),
        ..Default::default()
    };
    format_u32(255, &spec, &mut buf);
    assert_eq!(buf, b"ff");
}

#[test]
fn format_i32_negative() {
    let mut buf = Vec::new();
    format_i32(-100, &FormatSpec::default(), &mut buf);
    assert_eq!(buf, b"-100");
}

#[test]
fn format_f32_display() {
    let mut buf = Vec::new();
    format_f32(1.5, &FormatSpec::default(), &mut buf);
    assert_eq!(buf, b"1.5");
}

#[test]
fn format_u16_display() {
    let mut buf = Vec::new();
    format_u16(65535, &FormatSpec::default(), &mut buf);
    assert_eq!(buf, b"65535");
}

#[test]
fn format_i16_negative() {
    let mut buf = Vec::new();
    format_i16(-32768, &FormatSpec::default(), &mut buf);
    assert_eq!(buf, b"-32768");
}

#[test]
fn format_u8_display() {
    let mut buf = Vec::new();
    format_u8(255, &FormatSpec::default(), &mut buf);
    assert_eq!(buf, b"255");
}

#[test]
fn format_i8_negative() {
    let mut buf = Vec::new();
    format_i8(-128, &FormatSpec::default(), &mut buf);
    assert_eq!(buf, b"-128");
}

#[test]
fn check_fmt_accepts_matching_arity() {
    // A valid format string whose placeholder count matches the arguments.
    assert!(check_fmt("", 0).is_ok());
    assert!(check_fmt("{}", 1).is_ok());
    assert!(check_fmt("{} and {}", 2).is_ok());
    assert!(check_fmt("{{escaped}} {}", 1).is_ok());
}

#[test]
#[should_panic(expected = "number of arguments")]
fn check_fmt_rejects_too_few_arguments() {
    check_fmt("{} {}", 1).unwrap();
}

#[test]
#[should_panic(expected = "number of arguments")]
fn check_fmt_rejects_too_many_arguments() {
    check_fmt("{}", 2).unwrap();
}

#[test]
#[should_panic(expected = "unclosed")]
fn check_fmt_rejects_invalid_syntax() {
    check_fmt("{", 0).unwrap();
}

#[test]
fn fill_is_ascii_but_for_four_characters() {
    for c in 0..=255u8 {
        let refused = [b'+', b'-', b'0', b'#'].contains(&c);
        assert_eq!(is_valid_fill(c), c.is_ascii() && !refused);
    }
}

#[test]
fn unsigned_numbers_read_back() {
    for (spec, prefix, radix) in [
        ("", "", 10),
        (":x", "", 16),
        (":#X", "0x", 16),
        (":#o", "0o", 8),
        (":#b", "0b", 2),
        (":.20#b", "0b", 2),
    ] {
        for value in [0, 1, 9, 10, 255, 4096, 0xdead_beef, u64::MAX] {
            let mut buf = Vec::new();
            format_u64(value, &parse_spec(spec), &mut buf);
            let text = String::from_utf8(buf).unwrap();
            assert!(text.starts_with(prefix));
            assert_eq!(u64::from_str_radix(&text[prefix.len()..], radix), Ok(value));
        }
    }
    let mut buf = Vec::new();
    format_u64(0xab, &parse_spec(":.4#X"), &mut buf);
    assert_eq!(buf, b"0x00AB");
}

#[test]
fn signed_numbers_are_decimal_whatever_the_type() {
    for spec in [":6", ":6x", ":6#x", ":6#b", ":6#o", ":6X"] {
        let mut buf = Vec::new();
        format_i64(-255, &parse_spec(spec), &mut buf);
        assert_eq!(buf, b"-255  ");
    }
}

#[test]
fn validation_of_strings_one_behind_the_other_adds_up() {
    let texts = ["", "a", "{}", "{{", "}}", "{x:>4} {:?}", "{:", "}", "{0}", "{", "ä{:.2}"];
    for a in texts {
        for b in texts {
            if let Ok(m) = validate_fmt(a) {
                let both = format!("{a}{b}");
                assert_eq!(validate_fmt(&both), validate_fmt(b).map(|n| m + n), "{both}");
            }
        }
    }
}

use epkg::busybox::printf::{
    apply_width, exit_status, format_integer, format_integer_to_string, format_printf, get_arg,
    get_arg_i64, has_diagnostics, has_format_specifiers, parse_escapes_with_stop,
    parse_numeric_arg, parse_numeric_arg_with_error, process_escapes_in_format, run, run_printf,
    Chunk, Outcome, PrintfOptions,
};

fn args(v: &[&str]) -> Vec<String> {
    v.iter().map(|s| s.to_string()).collect()
}

fn text(chunks: &[Chunk]) -> String {
    let mut s = String::new();
    for c in chunks {
        match c {
            Chunk::Lit(ch) => s.push(*ch),
            Chunk::Float(f) => s.push_str(&format!("<{}:{}>", f.conv, f.arg)),
            Chunk::Diag(m) => s.push_str(&format!("[{}]", m)),
        }
    }
    s
}

fn fmt(format: &str, a: &[&str]) -> String {
    match format_printf(format, &args(a)) {
        Ok(chunks) => text(&chunks),
        Err(m) => format!("ERR {}", m),
    }
}

fn streamed(format: &str, a: &[&str]) -> String {
    text(&run_printf(format, &args(a)).chunks)
}

#[test]
fn format_is_reused_for_remaining_arguments() {
    assert_eq!(fmt("%s-%s\n", &["a", "b", "c"]), "a-b\nc-\n");
    assert_eq!(fmt("[%s]", &["x", "y", "z"]), "[x][y][z]");
}

#[test]
fn format_without_conversions_prints_once() {
    assert_eq!(fmt("hi\\n", &["a", "b"]), "hi\n");
    assert_eq!(fmt("hi\\n", &[]), fmt("hi\\n", &["a", "b"]));
    assert_eq!(fmt("100%%", &["x"]), "100%");
}

#[test]
fn conversions_with_no_arguments_use_empty_values() {
    assert_eq!(fmt("<%s|%d>", &[]), "<|0>");
}

#[test]
fn integer_conversions() {
    assert_eq!(fmt("%d", &["42"]), "42");
    assert_eq!(fmt("%5d|", &["42"]), "   42|");
    assert_eq!(fmt("%-5d|", &["42"]), "42   |");
    assert_eq!(fmt("%05d", &["-42"]), "-0042");
    assert_eq!(fmt("%+d", &["5"]), "+5");
    assert_eq!(fmt("% d", &["5"]), " 5");
    assert_eq!(fmt("%.3d", &["7"]), "007");
    assert_eq!(fmt("%u", &["-5"]), "5");
    assert_eq!(fmt("%i", &["'A"]), "65");
    assert_eq!(fmt("%d", &[" +12 "]), "12");
    assert_eq!(fmt("%d", &["abc"]), "0");
}

#[test]
fn star_width_and_precision_take_arguments() {
    assert_eq!(fmt("%*d|", &["4", "7"]), "   7|");
    assert_eq!(fmt("%.*d", &["3", "7"]), "007");
    assert_eq!(fmt("%*d|", &["-4", "7"]), "7   |");
}

#[test]
fn radix_conversions() {
    assert_eq!(fmt("%x", &["255"]), "ff");
    assert_eq!(fmt("%#X", &["255"]), "0XFF");
    assert_eq!(fmt("%#x", &["-255"]), "0xff");
    assert_eq!(fmt("%o", &["8"]), "10");
    assert_eq!(fmt("%#o", &["8"]), "010");
    assert_eq!(fmt("%#o", &["0"]), "00");
    assert_eq!(streamed("%#o", &["0"]), "0");
    assert_eq!(streamed("%#o", &["8"]), "010");
    assert_eq!(fmt("%6x|", &["255"]), "    ff|");
}

#[test]
fn string_char_and_percent_conversions() {
    assert_eq!(fmt("%5s|", &["ab"]), "   ab|");
    assert_eq!(fmt("%-5s|", &["ab"]), "ab   |");
    assert_eq!(fmt("%1s|", &["abc"]), "abc|");
    assert_eq!(fmt("%c", &["hello"]), "h");
    assert_eq!(fmt("%c", &[""]), "\0");
    assert_eq!(fmt("%5%", &["x"]), "%");
}

#[test]
fn b_conversion_interprets_escapes_and_stops_at_backslash_c() {
    assert_eq!(fmt("%b|", &["a\\nb"]), "a\nb|");
    assert_eq!(fmt("%b|%s", &["x\\cy", "z"]), "x");
}

#[test]
fn backslash_c_in_format_stops_output() {
    assert_eq!(fmt("a%s\\cb", &["1", "2"]), "a1");
}

#[test]
fn unknown_conversions_are_echoed() {
    assert_eq!(fmt("%q", &["x"]), "%q");
    assert_eq!(fmt("%-5.2lq", &["x"]), "%-5.2lq");
    assert_eq!(fmt("%*q", &["-3", "x"]), "%q");
    assert_eq!(streamed("%*q", &["-3", "x"]), "%-3q");
    assert_eq!(fmt("%.q", &["x"]), "%.0q");
}

#[test]
fn malformed_directives_are_errors() {
    assert_eq!(fmt("abc%", &["1"]), "ERR printf: %: invalid format");
    assert_eq!(fmt("%r", &["1"]), "ERR printf: %r: invalid format");
    let r = run_printf("x%", &args(&[]));
    assert_eq!(text(&r.chunks), "x");
    match &r.outcome {
        Outcome::Invalid(m) => assert_eq!(m, "printf: %: invalid format"),
        _ => panic!("expected an invalid format"),
    }
    assert_eq!(exit_status(&r.outcome, false), 1);
}

#[test]
fn streaming_applet_reports_bad_numbers() {
    let r = run_printf("%d\n", &args(&["abc"]));
    assert_eq!(text(&r.chunks), "[printf: invalid number 'abc']0\n");
    assert!(has_diagnostics(&r.chunks));
    assert_eq!(exit_status(&r.outcome, has_diagnostics(&r.chunks)), 1);
    let ok = run_printf("%d\n", &args(&["7"]));
    assert!(!has_diagnostics(&ok.chunks));
    assert_eq!(exit_status(&ok.outcome, false), 0);
}

#[test]
fn float_conversions_are_left_to_the_caller() {
    let chunks = format_printf("v=%.2f!", &args(&["3.14159"])).unwrap();
    assert_eq!(chunks.len(), 4);
    match &chunks[2] {
        Chunk::Float(f) => {
            assert_eq!(f.conv, 'f');
            assert_eq!(f.arg, "3.14159");
            assert_eq!(f.precision, Some(2));
            assert_eq!(f.width, None);
            assert!(!f.report_errors);
        }
        _ => panic!("expected a float chunk"),
    }
}

#[test]
fn run_uses_the_options() {
    let r = run(PrintfOptions { format: "%s,".to_string(), arguments: args(&["a", "b"]) });
    assert_eq!(text(&r.chunks), "a,b,");
    assert!(matches!(r.outcome, Outcome::Finished));
}

#[test]
fn numeric_argument_parsing() {
    assert_eq!(parse_numeric_arg("'A"), 65);
    assert_eq!(parse_numeric_arg("\"é"), 233);
    assert_eq!(parse_numeric_arg("\""), 0);
    assert_eq!(parse_numeric_arg(" +12 "), 12);
    assert_eq!(parse_numeric_arg("++3"), 3);
    assert_eq!(parse_numeric_arg("-9223372036854775808"), i64::MIN);
    assert_eq!(parse_numeric_arg("9223372036854775808"), 0);
    assert_eq!(parse_numeric_arg("12x"), 0);
}

#[test]
fn numeric_argument_parsing_with_errors() {
    assert_eq!(parse_numeric_arg_with_error("12x"), (0, Some("printf: invalid number '12x'".to_string())));
    assert_eq!(parse_numeric_arg_with_error(""), (0, Some("printf: invalid number ''".to_string())));
    assert_eq!(parse_numeric_arg_with_error("  "), (0, Some("printf: invalid number ''".to_string())));
    assert_eq!(parse_numeric_arg_with_error("-"), (0, Some("printf: invalid number '-'".to_string())));
    assert_eq!(parse_numeric_arg_with_error("+"), (0, None));
    assert_eq!(parse_numeric_arg_with_error("  7 "), (7, None));
    assert_eq!(parse_numeric_arg_with_error("'x"), (120, None));
}

#[test]
fn detects_format_specifiers() {
    assert!(!has_format_specifiers("100%%"));
    assert!(has_format_specifiers("%d"));
    assert!(has_format_specifiers("a%%b%s"));
    assert!(!has_format_specifiers("plain"));
    assert!(has_format_specifiers("50%"));
}

#[test]
fn escapes_in_plain_formats() {
    assert_eq!(process_escapes_in_format("a\\tb%%\\x41\\0101\\cX"), "a\tb%AA");
    assert_eq!(process_escapes_in_format("\\q\\x\\"), "\\q\\x\\");
    assert_eq!(process_escapes_in_format("\\04000"), "0");
    assert_eq!(process_escapes_in_format("\\0400"), "");
    assert_eq!(process_escapes_in_format("\\a\\b\\f\\v\\e\\r\\\\"), "\x07\x08\x0c\x0b\x1b\r\\");
}

#[test]
fn escapes_with_stop() {
    let p = parse_escapes_with_stop("x\\cy");
    assert_eq!(p.result, "x");
    assert!(p.stopped);
    let q = parse_escapes_with_stop("\\x4a\\n");
    assert_eq!(q.result, "J\n");
    assert!(!q.stopped);
}

#[test]
fn integer_rendering() {
    assert_eq!(format_integer_to_string(-5, "0", Some(4), None, true), "-005");
    assert_eq!(format_integer_to_string(5, "", Some(-4), None, true), "5   ");
    assert_eq!(format_integer_to_string(-5, "", None, None, false), "5");
    assert_eq!(format_integer_to_string(5, "+0", Some(4), Some(2), true), "+005");
    assert_eq!(format_integer_to_string(i64::MIN, "", None, None, true), "-9223372036854775808");
    let mut out = String::from(">");
    format_integer(&mut out, 42, " ", None, None, true);
    assert_eq!(out, "> 42");
}

#[test]
fn width_application() {
    let mut out = String::new();
    apply_width(&mut out, "ab", "", Some(-4));
    assert_eq!(out, "ab  ");
    let mut out2 = String::from("x");
    apply_width(&mut out2, "é", "", Some(3));
    assert_eq!(out2, "x  é");
    let mut out3 = String::new();
    apply_width(&mut out3, "abc", "-", Some(2));
    assert_eq!(out3, "abc");
}

#[test]
fn argument_access() {
    let a = args(&["3", "x"]);
    let mut i = 0usize;
    assert_eq!(get_arg_i64(&a, &mut i), 3);
    assert_eq!(i, 1);
    assert_eq!(get_arg_i64(&a, &mut i), 0);
    assert_eq!(i, 2);
    assert_eq!(get_arg_i64(&a, &mut i), 0);
    assert_eq!(i, 2);
    let mut j = 1usize;
    assert_eq!(get_arg(&a, &mut j), "x");
    assert_eq!(get_arg(&a, &mut j), "");
    assert_eq!(j, 2);
    let b = args(&[" 5"]);
    let mut k = 0usize;
    assert_eq!(get_arg_i64(&b, &mut k), 0);
}

#[test]
fn integers_read_back_after_printing() {
    for v in [0i64, 7, -123, i64::MAX, i64::MIN] {
        let s = format_integer_to_string(v, "", None, None, true);
        assert_eq!(parse_numeric_arg(&s), v);
        assert_eq!(parse_numeric_arg_with_error(&s), (v, None));
    }
}

#[test]
fn padded_fields_fill_the_width() {
    let out = fmt("%6s", &["ab"]);
    assert!(out.len() >= 6);
    let mut o = String::new();
    apply_width(&mut o, "日本", "", Some(7));
    assert!(o.len() >= 7);
}

#[test]
fn wide_width_digits_wrap() {
    assert_eq!(fmt("%99999999999999999999q", &["x"]), format!("%{}q", 99999999999999999999u128 as i64));
}

#[test]
fn streaming_applet_matches_formatter_for_string_conversions() {
    let a = args(&["ab", "x\\ty", "hello", "c", "", "z"]);
    let f = "[%5s|%-3b|%c]";
    let formatted = format_printf(f, &a).unwrap();
    let streamed_run = run_printf(f, &a);
    assert_eq!(text(&streamed_run.chunks), text(&formatted));
    assert!(!has_diagnostics(&streamed_run.chunks));
    assert!(matches!(streamed_run.outcome, Outcome::Finished));
    assert_eq!(text(&formatted), "[   ab|x\ty|h][    c||z]");
}

#[test]
fn format_output_is_the_concatenation_of_per_round_slices() {
    let all = args(&["a", "1", "b", "2", "c", "3"]);
    let whole = fmt("%s-%d;", &["a", "1", "b", "2", "c", "3"]);
    let mut parts = String::new();
    for chunk in all.chunks(2) {
        let slice: Vec<&str> = chunk.iter().map(|s| s.as_str()).collect();
        parts.push_str(&fmt("%s-%d;", &slice));
    }
    assert_eq!(whole, parts);
    assert_eq!(whole, "a-1;b-2;c-3;");
}

#[test]
fn b_escapes_match_plain_format_escapes() {
    for s in ["a\\tb\\x41\\0101", "plain", "\\q\\x", "50% off\\n"] {
        let p = parse_escapes_with_stop(s);
        assert_eq!(p.result, process_escapes_in_format(s));
        assert!(!p.stopped);
    }
    let stopped = parse_escapes_with_stop("ab\\ccd");
    assert_eq!(stopped.result, process_escapes_in_format("ab\\ccd"));
    assert!(stopped.stopped);
}

#[test]
fn integers_with_flags_read_back_after_printing() {
    let cases: [(i64, &str, Option<i64>, Option<i64>); 6] = [
        (-42, "0+ ", Some(8), Some(4)),
        (42, " ", Some(6), None),
        (42, "+-", Some(-7), Some(3)),
        (0, "0", Some(3), Some(0)),
        (i64::MAX, "+", Some(2), None),
        (i64::MIN, "0", Some(25), Some(21)),
    ];
    for (v, flags, width, precision) in cases {
        let r = format_integer_to_string(v, flags, width, precision, true);
        assert_eq!(r.trim().parse::<i64>(), Ok(v));
        assert!(r.len() >= width.map_or(0, |w| w.unsigned_abs() as usize));
    }
}

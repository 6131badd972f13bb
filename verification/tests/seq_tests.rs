use epkg::busybox::seq::{
    apply_flags, apply_flags_int, count_decimal_places, equal_width_int, equal_width_number,
    format_precision, format_seq_int, get_string_width, parse_seq_format, seq_shape, total_width,
    SeqFormat,
};

fn strs(v: &[&str]) -> Vec<String> {
    v.iter().map(|s| s.to_string()).collect()
}

#[test]
fn string_widths() {
    assert_eq!(get_string_width("003"), 3);
    assert_eq!(get_string_width("-04.5"), 2);
    assert_eq!(get_string_width("+1"), 1);
    assert_eq!(get_string_width(".5"), 0);
    assert_eq!(get_string_width("10.25.3"), 2);
}

#[test]
fn decimal_places() {
    assert_eq!(count_decimal_places("1.500", None), 3);
    assert_eq!(count_decimal_places("10", None), 0);
    assert_eq!(count_decimal_places("1e-3", Some("0.001")), 3);
    assert_eq!(count_decimal_places("1e3", Some("1000")), 0);
    assert_eq!(count_decimal_places("1.5e", None), 2);
    assert_eq!(count_decimal_places("2.50", Some("9.9")), 2);
}

#[test]
fn shape_of_one_two_and_three_numbers() {
    let one = seq_shape(&strs(&["05"]), &[None]).unwrap();
    assert_eq!((one.first_index, one.increment_index, one.last_index), (None, None, 0));
    assert_eq!((one.precision, one.first_width, one.last_width, one.incr_width), (0, 1, 2, 1));

    let two = seq_shape(&strs(&["1.5", "3.25"]), &[None, None]).unwrap();
    assert_eq!((two.first_index, two.increment_index, two.last_index), (Some(0), None, 1));
    assert_eq!((two.precision, two.first_width, two.last_width, two.incr_width), (2, 1, 1, 1));

    let three = seq_shape(&strs(&["3", ".30", "4.000"]), &[None, None, None]).unwrap();
    assert_eq!((three.first_index, three.increment_index, three.last_index), (Some(0), Some(1), 2));
    assert_eq!((three.precision, three.first_width, three.last_width, three.incr_width), (2, 1, 1, 0));
}

#[test]
fn too_many_numbers() {
    assert_eq!(seq_shape(&strs(&["1", "2", "3", "4"]), &[None, None, None, None]).err(), Some("seq: too many arguments".to_string()));
    assert_eq!(seq_shape(&strs(&[]), &[]).err(), Some("seq: too many arguments".to_string()));
}

#[test]
fn format_parsing() {
    let f = parse_seq_format("%.2f").unwrap();
    assert_eq!((f.flags.as_str(), f.width, f.precision, f.conv), ("", None, Some(2), 'f'));
    let g = parse_seq_format("%-08.3e").unwrap();
    assert_eq!((g.flags.as_str(), g.width, g.precision, g.conv), ("-0", Some(8), Some(3), 'e'));
    let h = parse_seq_format("%5.x").unwrap();
    assert_eq!((h.width, h.precision, h.conv), (Some(5), Some(0), 'x'));
}

#[test]
fn format_errors() {
    assert_eq!(parse_seq_format("x%f").err(), Some("seq: invalid format 'x%f'".to_string()));
    assert_eq!(parse_seq_format("").err(), Some("seq: invalid format ''".to_string()));
    assert_eq!(parse_seq_format("%%").err(), Some("seq: format must be suitable for 'double' argument".to_string()));
    assert_eq!(parse_seq_format("%fz").err(), Some("seq: format '%fz' has trailing characters".to_string()));
    assert_eq!(parse_seq_format("%5").err(), Some("seq: format '%5' missing type specifier".to_string()));
    assert_eq!(parse_seq_format("%q").err(), Some("seq: format '%q' has unknown type 'q'".to_string()));
}

#[test]
fn float_flags() {
    assert_eq!(apply_flags("3.14", "+", Some(7), 2, true), "  +3.14");
    assert_eq!(apply_flags("3.14", "0+", Some(7), 2, true), "+003.14");
    assert_eq!(apply_flags("3.14", "-", Some(7), 2, true), "3.14   ");
    assert_eq!(apply_flags("-3.14", "+", None, 2, false), "-3.14");
    assert_eq!(apply_flags("2.5", " ", None, 2, true), " 2.5");
    assert_eq!(apply_flags("2.5", "0", Some(5), 2, true), "002.5");
}

#[test]
fn integer_flags() {
    assert_eq!(apply_flags_int("ff", "#0", Some(6), true, 'x'), "0x00ff");
    assert_eq!(apply_flags_int("7", " ", None, true, 'd'), " 7");
    assert_eq!(apply_flags_int("7", "", Some(3), false, 'd'), " -7");
    assert_eq!(apply_flags_int("7", "0", Some(4), false, 'i'), "-007");
    assert_eq!(apply_flags_int("10", "#", None, true, 'o'), "010");
    assert_eq!(apply_flags_int("0", "#", None, true, 'o'), "0");
    assert_eq!(apply_flags_int("7", "+", None, true, 'u'), "7");
}

#[test]
fn integer_formats() {
    let d = SeqFormat { flags: String::new(), width: None, precision: None, conv: 'd' };
    assert_eq!(format_seq_int(-5, &d), "-5");
    let x = SeqFormat { flags: "#".to_string(), width: None, precision: None, conv: 'X' };
    assert_eq!(format_seq_int(255, &x), "0XFF");
    let o = SeqFormat { flags: String::new(), width: Some(4), precision: None, conv: 'o' };
    assert_eq!(format_seq_int(8, &o), "  10");
}

#[test]
fn equal_width_precision_and_total() {
    assert_eq!(format_precision(Some("%.3f"), 9), 3);
    assert_eq!(format_precision(Some("%f"), 9), 0);
    assert_eq!(format_precision(Some("%.f"), 9), 0);
    assert_eq!(format_precision(None, 2), 2);
    assert_eq!(total_width(1, 3, 1, 2), 6);
    assert_eq!(total_width(1, 3, 4, 0), 4);
}

#[test]
fn equal_width_numbers() {
    assert_eq!(equal_width_number("5", false, 3), "005");
    assert_eq!(equal_width_number("5", true, 3), "-05");
    assert_eq!(equal_width_number("1.50", false, 6), "001.50");
    assert_eq!(equal_width_number("1234", false, 2), "1234");
    assert_eq!(equal_width_int(7, false, 3), "007");
    assert_eq!(equal_width_int(0, true, 2), "-0");
    assert_eq!(equal_width_int(-12, true, 4), "-012");
}

#[test]
fn equal_width_numbers_fill_the_width() {
    for (body, neg, total) in [("5", false, 3usize), ("5", true, 3), ("123456", false, 3)] {
        assert!(equal_width_number(body, neg, total).chars().count() >= total);
    }
}

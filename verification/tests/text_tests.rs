use deckmaster::text::{find_first, format_i64, format_u64, join_strs, parse_i64, parse_u64, split_str};

#[test]
fn unsigned_decimal_rendering() {
    assert_eq!(format_u64(0), "0");
    assert_eq!(format_u64(7), "7");
    assert_eq!(format_u64(1234567890), "1234567890");
    assert_eq!(format_u64(u64::MAX), "18446744073709551615");
}

#[test]
fn signed_decimal_rendering() {
    assert_eq!(format_i64(0), "0");
    assert_eq!(format_i64(-5), "-5");
    assert_eq!(format_i64(i64::MIN), "-9223372036854775808");
    assert_eq!(format_i64(i64::MAX), "9223372036854775807");
}

#[test]
fn unsigned_decimal_parsing() {
    assert_eq!(parse_u64("0"), Some(0));
    assert_eq!(parse_u64("007"), Some(7));
    assert_eq!(parse_u64("18446744073709551615"), Some(u64::MAX));
    assert_eq!(parse_u64("18446744073709551616"), None);
    assert_eq!(parse_u64(""), None);
    assert_eq!(parse_u64("12a"), None);
    assert_eq!(parse_u64("-1"), None);
}

#[test]
fn signed_decimal_parsing() {
    assert_eq!(parse_i64("-5"), Some(-5));
    assert_eq!(parse_i64("-9223372036854775808"), Some(i64::MIN));
    assert_eq!(parse_i64("-9223372036854775809"), None);
    assert_eq!(parse_i64("9223372036854775807"), Some(i64::MAX));
    assert_eq!(parse_i64("9223372036854775808"), None);
    assert_eq!(parse_i64("-"), None);
    assert_eq!(parse_i64(""), None);
}

#[test]
fn decimal_round_trips() {
    for n in [0i64, 1, -1, 42, -42, i64::MIN, i64::MAX] {
        assert_eq!(parse_i64(&format_i64(n)), Some(n));
    }
}

#[test]
fn find_first_returns_the_leftmost_occurrence() {
    assert_eq!(find_first("a, b, c", ", "), Some(1));
    assert_eq!(find_first("abc", ", "), None);
    assert_eq!(find_first("", "x"), None);
    assert_eq!(find_first("xx", "xx"), Some(0));
}

#[test]
fn split_mirrors_the_standard_splitter() {
    let cases: &[(&str, &str)] = &[
        ("a, b, c", ", "),
        ("", ", "),
        (", ", ", "),
        ("a,, b", ", "),
        ("one\ntwo\n", "\n"),
        ("no delimiter", "\t"),
    ];
    for (s, d) in cases {
        let mine: Vec<String> = split_str(s, d);
        let std: Vec<String> = s.split(d).map(|p| p.to_string()).collect();
        assert_eq!(mine, std, "splitting {s:?} on {d:?}");
    }
}

#[test]
fn join_mirrors_the_standard_joiner() {
    let parts = vec!["a".to_string(), "".to_string(), "c".to_string()];
    assert_eq!(join_strs(&parts, ", "), parts.join(", "));
    assert_eq!(join_strs(&Vec::new(), ", "), "");
    assert_eq!(join_strs(&vec!["only".to_string()], ", "), "only");
}

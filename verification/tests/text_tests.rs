use rustyping::text::{chars_of, parse_i64, parse_u64, text_eq};

const SAMPLES: &[&str] = &[
    "", "0", "5", "+5", "-5", "+", "-", "007", "12a", " 1", "1 ", "1.0", "2.5",
    "18446744073709551615", "18446744073709551616", "+18446744073709551615",
    "9223372036854775807", "9223372036854775808", "-9223372036854775808",
    "-9223372036854775809", "99999999999999999999999", "-0", "+-1", "--1", "٣",
];

#[test]
fn parse_u64_agrees_with_std() {
    for s in SAMPLES {
        assert_eq!(parse_u64(s), s.parse::<u64>().ok(), "input {:?}", s);
    }
}

#[test]
fn parse_i64_agrees_with_std() {
    for s in SAMPLES {
        assert_eq!(parse_i64(s), s.parse::<i64>().ok(), "input {:?}", s);
    }
}

#[test]
fn parse_u64_exact_values() {
    assert_eq!(parse_u64("42"), Some(42));
    assert_eq!(parse_u64("+42"), Some(42));
    assert_eq!(parse_u64("-42"), None);
    assert_eq!(parse_u64("18446744073709551615"), Some(u64::MAX));
    assert_eq!(parse_u64("18446744073709551616"), None);
}

#[test]
fn parse_i64_exact_values() {
    assert_eq!(parse_i64("-42"), Some(-42));
    assert_eq!(parse_i64("-9223372036854775808"), Some(i64::MIN));
    assert_eq!(parse_i64("9223372036854775808"), None);
    assert_eq!(parse_i64("abc"), None);
}

#[test]
fn text_eq_compares_characters() {
    assert!(text_eq("/metrics", "/metrics"));
    assert!(!text_eq("/metrics", "/metric"));
    assert!(!text_eq("a", "b"));
    assert!(text_eq("", ""));
}

#[test]
fn chars_of_lists_characters() {
    assert_eq!(chars_of("aé@"), vec!['a', 'é', '@']);
    assert_eq!(chars_of(""), Vec::<char>::new());
}

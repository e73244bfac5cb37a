use rustyping::flags::{configure, is_positive};

fn float_positive(v: &str) -> bool {
    v.parse::<f64>().map(|f| f > 0_f64).unwrap_or(false)
}

#[test]
fn integer_is_positive() {
    assert_eq!(is_positive("5".to_string(), float_positive("5")), Ok(()));
    assert_eq!(is_positive("0".to_string(), float_positive("0")), Ok(()));
}

#[test]
fn positive_float_is_positive() {
    assert_eq!(is_positive("1.5".to_string(), float_positive("1.5")), Ok(()));
}

#[test]
fn negative_or_text_is_refused() {
    assert_eq!(
        is_positive("-1".to_string(), float_positive("-1")),
        Err("-1 isn't a positive number".to_string())
    );
    assert_eq!(
        is_positive("abc".to_string(), float_positive("abc")),
        Err("abc isn't a positive number".to_string())
    );
    assert_eq!(
        is_positive("0.0".to_string(), float_positive("0.0")),
        Err("0.0 isn't a positive number".to_string())
    );
}

#[test]
fn configure_refuses_non_address_host() {
    assert_eq!(
        configure("redis.local".to_string(), false, false, "5").err(),
        Some("Wrong redis host address".to_string())
    );
}

#[test]
fn configure_reads_interval() {
    let s = configure("127.0.0.1".to_string(), true, false, "30").unwrap();
    assert_eq!(s.redis_host, "127.0.0.1");
    assert_eq!(s.ping_interval, 30);
    let s = configure("::1".to_string(), false, true, "2.5").unwrap();
    assert_eq!(s.ping_interval, 5);
}

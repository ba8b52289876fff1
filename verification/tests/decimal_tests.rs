use timer_res_bench::decimal::format_ticks;
use timer_res_bench::decimal::parse_ticks;

fn fmt(q: u64) -> String {
    String::from_utf8(format_ticks(q)).unwrap()
}

#[test]
fn format_half_millisecond() {
    assert_eq!(fmt(5000), "0.5000");
}

#[test]
fn format_pi_ish() {
    assert_eq!(fmt(31400), "3.1400");
}

#[test]
fn format_zero() {
    assert_eq!(fmt(0), "0.0000");
}

#[test]
fn format_large() {
    assert_eq!(fmt(123456789), "12345.6789");
}

#[test]
fn format_max() {
    assert_eq!(fmt(u64::MAX), "1844674407370955.1615");
}

#[test]
fn parse_plain_fraction() {
    assert_eq!(parse_ticks(b"3.14"), Some(31400));
}

#[test]
fn parse_full_fraction() {
    assert_eq!(parse_ticks(b"3.1400"), Some(31400));
}

#[test]
fn parse_short_fraction() {
    assert_eq!(parse_ticks(b"0.5"), Some(5000));
}

#[test]
fn parse_integer_only() {
    assert_eq!(parse_ticks(b"12"), Some(120000));
}

#[test]
fn parse_trailing_dot() {
    assert_eq!(parse_ticks(b"3."), Some(30000));
}

#[test]
fn parse_leading_dot() {
    assert_eq!(parse_ticks(b".5"), Some(5000));
}

#[test]
fn parse_truncates_fifth_digit() {
    assert_eq!(parse_ticks(b"0.00005"), Some(0));
    assert_eq!(parse_ticks(b"0.12345"), Some(1234));
}

#[test]
fn parse_rejects_empty() {
    assert_eq!(parse_ticks(b""), None);
}

#[test]
fn parse_rejects_lone_dot() {
    assert_eq!(parse_ticks(b"."), None);
}

#[test]
fn parse_rejects_two_dots() {
    assert_eq!(parse_ticks(b"1.2.3"), None);
}

#[test]
fn parse_rejects_letters() {
    assert_eq!(parse_ticks(b"abc"), None);
    assert_eq!(parse_ticks(b"1x"), None);
}

#[test]
fn parse_rejects_sign() {
    assert_eq!(parse_ticks(b"-1"), None);
    assert_eq!(parse_ticks(b"+1"), None);
}

#[test]
fn parse_rejects_overflow() {
    assert_eq!(parse_ticks(b"99999999999999999999"), None);
}

#[test]
fn parse_accepts_max() {
    assert_eq!(parse_ticks(b"1844674407370955.1615"), Some(u64::MAX));
    assert_eq!(parse_ticks(b"1844674407370955.1616"), None);
}

#[test]
fn round_trip_values() {
    for q in [0u64, 1, 9999, 10000, 5000, 31400, 123456789, u64::MAX] {
        assert_eq!(parse_ticks(&format_ticks(q)), Some(q));
    }
}

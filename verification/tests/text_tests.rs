use rss_core::text::{format_i64, format_u64};

#[test]
fn format_u64_writes_decimal_digits() {
    assert_eq!(format_u64(0), "0");
    assert_eq!(format_u64(7), "7");
    assert_eq!(format_u64(10), "10");
    assert_eq!(format_u64(1905), "1905");
    assert_eq!(format_u64(1_000_000), "1000000");
    assert_eq!(format_u64(u64::MAX), "18446744073709551615");
}

#[test]
fn format_i64_writes_sign_and_digits() {
    assert_eq!(format_i64(0), "0");
    assert_eq!(format_i64(42), "42");
    assert_eq!(format_i64(-1), "-1");
    assert_eq!(format_i64(-1729495680), "-1729495680");
    assert_eq!(format_i64(i64::MAX), "9223372036854775807");
    assert_eq!(format_i64(i64::MIN), "-9223372036854775808");
}

#[test]
fn format_agrees_with_std_on_a_sweep() {
    let mut n: u64 = 1;
    while n < u64::MAX / 7 {
        assert_eq!(format_u64(n), n.to_string());
        assert_eq!(format_i64(-(n as i64 / 2)), (-(n as i64 / 2)).to_string());
        n = n * 7 + 3;
    }
}

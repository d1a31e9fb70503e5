use bfmachine::number::parse_radix;

#[test]
fn parse_radix_reads_digits_in_the_radix() {
    assert_eq!(parse_radix(b"0", 10, 100), Some(0));
    assert_eq!(parse_radix(b"100", 10, 100), Some(100));
    assert_eq!(parse_radix(b"101", 10, 100), None);
    assert_eq!(parse_radix(b"1100100", 2, 100), Some(100));
    assert_eq!(parse_radix(b"zz", 36, 2000), Some(35 * 36 + 35));
    assert_eq!(parse_radix(b"Zz", 36, 2000), Some(1295));
    assert_eq!(parse_radix(b"+12", 10, 100), Some(12));
    assert_eq!(parse_radix(b"0000000000000000000000000000000000012", 10, 12), Some(12));
}

#[test]
fn parse_radix_refuses_what_is_no_number() {
    assert_eq!(parse_radix(b"", 10, 100), None);
    assert_eq!(parse_radix(b"+", 10, 100), None);
    assert_eq!(parse_radix(b"-", 10, 100), None);
    assert_eq!(parse_radix(b"-1", 10, 100), None);
    assert_eq!(parse_radix(b"1 ", 10, 100), None);
    assert_eq!(parse_radix(b"12a", 10, 100), None);
    assert_eq!(parse_radix(b"2", 2, 100), None);
    assert_eq!(parse_radix(b"9", 8, 100), None);
    assert_eq!(parse_radix(b"g", 16, 100), None);
    assert_eq!(parse_radix(b"99999999999999999999999999999999999999999x", 10, u64::MAX), None);
}

#[test]
fn parse_radix_reaches_the_largest_number() {
    assert_eq!(parse_radix(b"18446744073709551615", 10, u64::MAX), Some(u64::MAX));
    assert_eq!(parse_radix(b"18446744073709551616", 10, u64::MAX), None);
    assert_eq!(parse_radix(b"ffffffffffffffff", 16, u64::MAX), Some(u64::MAX));
    assert_eq!(parse_radix(b"10000000000000000", 16, u64::MAX), None);
    assert_eq!(parse_radix(b"3w5e11264sgsf", 36, u64::MAX), Some(u64::MAX));
    assert_eq!(parse_radix(b"3w5e11264sgsg", 36, u64::MAX), None);
}

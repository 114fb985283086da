use emucap::numparse::{parse_decimal, parse_num_str};

#[test]
fn decimal_and_hex_forms() {
    assert_eq!(parse_num_str("8471").unwrap(), 8471);
    assert_eq!(parse_num_str("0x2117").unwrap(), 0x2117);
    assert_eq!(parse_num_str("0X2117").unwrap(), 0x2117);
    assert_eq!(parse_num_str("$2117").unwrap(), 0x2117);
    assert_eq!(parse_num_str("0x80_420b").unwrap(), 0x0080_420b);
    assert_eq!(parse_num_str(" 0x420B ").unwrap(), 0x420b);
    assert_eq!(parse_num_str("+16").unwrap(), 16);
    // quoted twice over
    assert_eq!(parse_num_str("\"$80BC95\"").unwrap(), 0x80_BC95);
}

#[test]
fn rejects_garbage() {
    assert!(parse_num_str("zzz").is_err());
    assert!(parse_num_str("0x").is_err());
    assert!(parse_num_str("").is_err());
}

#[test]
fn largest_value_fits_and_one_more_overflows() {
    assert_eq!(parse_num_str("18446744073709551615").unwrap(), u64::MAX);
    assert!(parse_num_str("18446744073709551616").is_err());
    assert_eq!(parse_num_str("0xffff_ffff_ffff_ffff").unwrap(), u64::MAX);
    assert!(parse_num_str("0x1_0000_0000_0000_0000").is_err());
}

#[test]
fn hex_digits_need_a_hex_prefix() {
    assert!(parse_num_str("1f").is_err());
    assert_eq!(parse_num_str("$1f").unwrap(), 31);
    assert!(parse_num_str("$").is_err());
    assert!(parse_num_str("_").is_err());
    assert_eq!(parse_num_str("1_000").unwrap(), 1000);
}

#[test]
fn whitespace_inside_quotes_is_not_a_digit() {
    assert!(parse_num_str("\" 5\"").is_err());
    assert_eq!(parse_num_str("\t\n42\r\n").unwrap(), 42);
    assert!(parse_num_str("-5").is_err());
    assert!(parse_num_str("++5").is_err());
}

#[test]
fn decimal_only_rejects_prefixes_and_spaces() {
    assert_eq!(parse_decimal("2").unwrap(), 2);
    assert_eq!(parse_decimal("1_024").unwrap(), 1024);
    assert!(parse_decimal("0x2").is_err());
    assert!(parse_decimal(" 2").is_err());
    assert!(parse_decimal("").is_err());
}

use emucap::fmt::{decimal_string, push_radix};
use emucap::numparse::parse_num_str;

#[test]
fn renderings_match_format() {
    for n in [0u64, 7, 10, 255, 4096, 0xdead_beef, u64::MAX] {
        assert_eq!(decimal_string(n), format!("{n}"));
        let mut lower = String::new();
        push_radix(&mut lower, n, 16, false);
        assert_eq!(lower, format!("{n:x}"));
        let mut upper = String::from("=");
        push_radix(&mut upper, n, 16, true);
        assert_eq!(upper, format!("={n:X}"));
    }
}

#[test]
fn printed_numbers_read_back() {
    for n in [0u64, 1, 99, 0x7e0010, u64::MAX] {
        assert_eq!(parse_num_str(&decimal_string(n)).unwrap(), n);
        let mut hex = String::from("0x");
        push_radix(&mut hex, n, 16, false);
        assert_eq!(parse_num_str(&hex).unwrap(), n);
    }
}

use header2svd::model::{Bits, Type};
use header2svd::text::{blank, count_ones, first_token_of, parse_radix, str_lt, trim_hex_prefix};

#[test]
fn access_modes_parse() {
    assert_eq!(Type::from_str("RO").unwrap(), Type::ReadOnly);
    assert_eq!(Type::from_str("R/W").unwrap(), Type::ReadWrite);
    assert_eq!(Type::from_str("W/O").unwrap(), Type::WriteOnly);
    assert_eq!(Type::from_str("XX").unwrap_err(), "Invalid BitField type: XX");
    assert_eq!(Type::default(), Type::ReadWrite);
    assert_eq!(Bits::default(), Bits::Single(0));
}

#[test]
fn numbers_parse_like_from_str_radix() {
    assert_eq!(parse_radix("ff", 16, u32::MAX), Some(255));
    assert_eq!(parse_radix("+10", 16, u32::MAX), Some(16));
    assert_eq!(parse_radix("FFFFFFFF", 16, u32::MAX), Some(u32::MAX));
    assert_eq!(parse_radix("100000000", 16, u32::MAX), None);
    assert_eq!(parse_radix("", 16, u32::MAX), None);
    assert_eq!(parse_radix("+", 10, 255), None);
    assert_eq!(parse_radix("256", 10, 255), None);
    assert_eq!(parse_radix("12a", 10, 255), None);
}

#[test]
fn small_string_helpers() {
    assert_eq!(trim_hex_prefix("0x0x1F"), "1F");
    assert_eq!(trim_hex_prefix("x0"), "x0");
    assert_eq!(first_token_of("UART_CONF0"), "UART");
    assert_eq!(first_token_of("PLAIN"), "PLAIN");
    assert!(blank(" \t\n"));
    assert!(!blank(" a "));
    assert_eq!(count_ones(0x7), 3);
    assert_eq!(count_ones(u32::MAX), 32);
    assert!(str_lt("AES", "GPIO"));
    assert!(str_lt("GPIO", "GPIO0"));
    assert!(!str_lt("GPIO", "GPIO"));
}

use litevfs::text::{parse_number, to_decimal, to_hex, to_short_hex};

#[test]
fn hex_is_padded_and_lower_case() {
    assert_eq!("000000ff", to_hex(255, 8));
    assert_eq!("000000000000000a", to_hex(10, 16));
    assert_eq!("ffffffffffffffff", to_hex(u64::MAX, 16));
    assert_eq!("", to_hex(7, 0));
    assert_eq!("34", to_hex(0x1234, 2));
}

#[test]
fn short_hex_has_no_leading_zeros() {
    assert_eq!("0", to_short_hex(0));
    assert_eq!("f", to_short_hex(15));
    assert_eq!("10", to_short_hex(16));
    assert_eq!("deadbeef", to_short_hex(0xdead_beef));
}

#[test]
fn decimal_matches_the_standard_library() {
    for v in [0u64, 9, 10, 99, 100, 4096, 1234567890, u64::MAX] {
        assert_eq!(v.to_string(), to_decimal(v));
    }
}

#[test]
fn numbers_are_read_like_from_str_radix() {
    for text in [
        "", "+", "-1", "0", "+0", "7", "007", "18446744073709551615", "18446744073709551616",
        "1a", "ff", "FF", "+fF", "g", " 1", "1 ", "0x10", "ffffffffffffffff", "10000000000000000",
        "٣",
    ] {
        assert_eq!(u64::from_str_radix(text, 10).ok(), parse_number(text, false), "{:?}", text);
        assert_eq!(u64::from_str_radix(text, 16).ok(), parse_number(text, true), "{:?}", text);
    }
}

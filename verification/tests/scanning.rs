use chronik_lib::text::{
    find_byte, parse_decimal, parse_hex_group, parse_octet, split_ranges,
};

#[test]
fn find_byte_gives_the_first_position_or_the_end() {
    assert_eq!(find_byte("a.b.c", 0, 5, b'.'), 1);
    assert_eq!(find_byte("a.b.c", 2, 5, b'.'), 3);
    assert_eq!(find_byte("a.b.c", 4, 5, b'.'), 5);
    assert_eq!(find_byte("a.b.c", 0, 1, b'.'), 1);
    assert_eq!(find_byte("", 0, 0, b'.'), 0);
}

#[test]
fn split_ranges_gives_every_field() {
    assert_eq!(split_ranges("1.22.333", 0, 8, b'.'), vec![(0, 1), (2, 4), (5, 8)]);
    assert_eq!(split_ranges("abc", 0, 3, b'.'), vec![(0, 3)]);
    assert_eq!(split_ranges("", 0, 0, b'.'), vec![(0, 0)]);
    assert_eq!(split_ranges(".", 0, 1, b'.'), vec![(0, 0), (1, 1)]);
    assert_eq!(split_ranges("a::b", 0, 4, b':'), vec![(0, 1), (2, 2), (3, 4)]);
    assert_eq!(split_ranges("x:a:b:y", 2, 5, b':'), vec![(2, 3), (4, 5)]);
}

#[test]
fn decimals_are_read_up_to_the_bound() {
    assert_eq!(parse_decimal("65535", 0, 5, 65535), Some(65535));
    assert_eq!(parse_decimal("65536", 0, 5, 65535), None);
    assert_eq!(parse_decimal("0", 0, 1, 0), Some(0));
    assert_eq!(parse_decimal("1", 0, 1, 0), None);
    assert_eq!(parse_decimal("000123", 0, 6, 200), Some(123));
    assert_eq!(parse_decimal("", 0, 0, 10), None);
    assert_eq!(parse_decimal("12a", 0, 3, 1000), None);
    assert_eq!(parse_decimal("12a", 0, 2, 1000), Some(12));
    assert_eq!(parse_decimal("4294967295", 0, 10, u32::MAX), Some(u32::MAX));
    assert_eq!(parse_decimal("4294967296", 0, 10, u32::MAX), None);
    assert_eq!(parse_decimal("99999999999999999999999", 0, 23, u32::MAX), None);
    assert_eq!(parse_decimal("-1", 0, 2, 10), None);
}

#[test]
fn octets_have_no_leading_zero() {
    assert_eq!(parse_octet("0", 0, 1), Some(0));
    assert_eq!(parse_octet("255", 0, 3), Some(255));
    assert_eq!(parse_octet("256", 0, 3), None);
    assert_eq!(parse_octet("00", 0, 2), None);
    assert_eq!(parse_octet("012", 0, 3), None);
    assert_eq!(parse_octet("1000", 0, 4), None);
    assert_eq!(parse_octet("", 0, 0), None);
    assert_eq!(parse_octet("1f", 0, 2), None);
    assert_eq!(parse_octet("x42", 1, 3), Some(42));
}

#[test]
fn hex_groups_have_one_to_four_digits() {
    assert_eq!(parse_hex_group("0", 0, 1), Some(0));
    assert_eq!(parse_hex_group("ffff", 0, 4), Some(0xffff));
    assert_eq!(parse_hex_group("FfFf", 0, 4), Some(0xffff));
    assert_eq!(parse_hex_group("AbCd", 0, 4), Some(0xabcd));
    assert_eq!(parse_hex_group("0001", 0, 4), Some(1));
    assert_eq!(parse_hex_group("19af", 0, 4), Some(0x19af));
    assert_eq!(parse_hex_group("10000", 0, 5), None);
    assert_eq!(parse_hex_group("", 0, 0), None);
    assert_eq!(parse_hex_group("g", 0, 1), None);
    assert_eq!(parse_hex_group("1.2", 0, 3), None);
    assert_eq!(parse_hex_group("@", 0, 1), None);
    assert_eq!(parse_hex_group("`", 0, 1), None);
    assert_eq!(parse_hex_group("G", 0, 1), None);
    assert_eq!(parse_hex_group("/", 0, 1), None);
    assert_eq!(parse_hex_group(":", 0, 1), None);
}

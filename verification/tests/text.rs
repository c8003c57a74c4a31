use haloobot::text::{chars_of, read_decimal_u32, write_decimal};

#[test]
fn characters_of_a_text() {
    assert_eq!(chars_of("aä🎉"), vec!['a', 'ä', '🎉']);
    assert_eq!(chars_of(""), Vec::<char>::new());
}

#[test]
fn numbers_are_written_in_decimal() {
    assert_eq!(write_decimal(0), "0");
    assert_eq!(write_decimal(7), "7");
    assert_eq!(write_decimal(10), "10");
    assert_eq!(write_decimal(1234567890), "1234567890");
    assert_eq!(write_decimal(u64::MAX), "18446744073709551615");
}

#[test]
fn numbers_are_read_from_decimal() {
    assert_eq!(read_decimal_u32("0"), Some(0));
    assert_eq!(read_decimal_u32("42"), Some(42));
    assert_eq!(read_decimal_u32("0042"), Some(42));
    assert_eq!(read_decimal_u32("4294967295"), Some(u32::MAX));
    assert_eq!(read_decimal_u32("00000000000004294967295"), Some(u32::MAX));
}

#[test]
fn what_is_no_number_is_refused() {
    assert_eq!(read_decimal_u32(""), None);
    assert_eq!(read_decimal_u32("4294967296"), None);
    assert_eq!(read_decimal_u32("99999999999999999999999999"), None);
    assert_eq!(read_decimal_u32("+5"), None);
    assert_eq!(read_decimal_u32("-5"), None);
    assert_eq!(read_decimal_u32("1 "), None);
    assert_eq!(read_decimal_u32("1a"), None);
    assert_eq!(read_decimal_u32("٣"), None);
}

#[test]
fn written_numbers_are_read_back() {
    for n in [0u32, 1, 9, 10, 99, 100, 65535, 4294967295] {
        assert_eq!(read_decimal_u32(&write_decimal(n as u64)), Some(n));
    }
}

use hexdump::hex::{get_hex_value, get_hex_value_for_four_byte, get_hex_value_for_two_byte, hex_digit};

#[test]
fn hex_digits_are_lowercase() {
    let expected: Vec<char> = "0123456789abcdef".chars().collect();
    let mut nibble: u8 = 0;
    while nibble < 16 {
        assert_eq!(hex_digit(nibble), expected[nibble as usize]);
        nibble += 1;
    }
}

#[test]
fn two_byte_is_four_digits_most_significant_first() {
    assert_eq!(get_hex_value_for_two_byte(0x1234), "1234");
    assert_eq!(get_hex_value_for_two_byte(0x3412), "3412");
    assert_eq!(get_hex_value_for_two_byte(0), "0000");
    assert_eq!(get_hex_value_for_two_byte(0x00ab), "00ab");
    assert_eq!(get_hex_value_for_two_byte(0xab00), "ab00");
    assert_eq!(get_hex_value_for_two_byte(0xffff), "ffff");
    assert_eq!(get_hex_value_for_two_byte(0xbeef), "beef");
}

#[test]
fn four_byte_is_eight_digits_most_significant_first() {
    assert_eq!(get_hex_value_for_four_byte(0), "00000000");
    assert_eq!(get_hex_value_for_four_byte(32), "00000020");
    assert_eq!(get_hex_value_for_four_byte(5), "00000005");
    assert_eq!(get_hex_value_for_four_byte(0xdeadbeef), "deadbeef");
    assert_eq!(get_hex_value_for_four_byte(0x01234567), "01234567");
    assert_eq!(get_hex_value_for_four_byte(u32::MAX), "ffffffff");
}

#[test]
fn any_width_gives_two_digits_per_byte() {
    assert_eq!(get_hex_value(0x7f, 1), "7f");
    assert_eq!(get_hex_value(0x7f, 0), "");
    assert_eq!(get_hex_value(0x0123456789abcdef, 8), "0123456789abcdef");
    assert_eq!(get_hex_value(0xabc, 3), "000abc");
    assert_eq!(get_hex_value(1, 9), "000000000000000001");
}

#[test]
fn narrow_width_keeps_the_low_digits() {
    assert_eq!(get_hex_value(0x12345, 2), "2345");
    assert_eq!(get_hex_value(0x1ff, 1), "ff");
}

#[test]
fn encoding_agrees_with_std_formatting() {
    let samples: Vec<u32> = vec![0, 1, 15, 16, 255, 256, 4095, 65535, 65536, 0x00c0ffee, 0x80000000];
    for value in samples {
        assert_eq!(get_hex_value_for_four_byte(value), format!("{:08x}", value));
        let low: u16 = (value & 0xffff) as u16;
        assert_eq!(get_hex_value_for_two_byte(low), format!("{:04x}", low));
    }
}

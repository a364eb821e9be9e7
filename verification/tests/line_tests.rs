use hexdump::line::{
    check_is_little_endian, get_byte_line, is_byte_vec_equal, is_little_endian_probe, pack_word,
};

#[test]
fn packing_two_bytes_little_endian() {
    assert_eq!(pack_word(0x34, 0x12, true), 0x1234);
    assert_eq!(get_byte_line(&vec![0x34, 0x12], 0, true), "00000000 1234");
}

#[test]
fn packing_two_bytes_big_endian() {
    assert_eq!(pack_word(0x34, 0x12, false), 0x3412);
    assert_eq!(get_byte_line(&vec![0x34, 0x12], 0, false), "00000000 3412");
}

#[test]
fn odd_tail_little_endian() {
    assert_eq!(get_byte_line(&vec![0xab], 0, true), "00000000 00ab");
}

#[test]
fn odd_tail_big_endian() {
    assert_eq!(get_byte_line(&vec![0xab], 0, false), "00000000 ab00");
}

#[test]
fn odd_tail_after_full_words() {
    assert_eq!(get_byte_line(&vec![1, 2, 3], 16, true), "00000010 0201 0003");
    assert_eq!(get_byte_line(&vec![1, 2, 3], 16, false), "00000010 0102 0300");
}

#[test]
fn empty_window_is_the_offset_alone() {
    assert_eq!(get_byte_line(&Vec::new(), 0, true), "00000000");
    assert_eq!(get_byte_line(&Vec::new(), 0x1f0, false), "000001f0");
}

#[test]
fn full_window_has_eight_words() {
    let bytes: Vec<u8> = (0u8..16).collect();
    assert_eq!(
        get_byte_line(&bytes, 0x20, true),
        "00000020 0100 0302 0504 0706 0908 0b0a 0d0c 0f0e"
    );
    assert_eq!(
        get_byte_line(&bytes, 0x20, false),
        "00000020 0001 0203 0405 0607 0809 0a0b 0c0d 0e0f"
    );
}

#[test]
fn offset_is_eight_digits() {
    assert_eq!(get_byte_line(&vec![0xff, 0xff], u32::MAX, true), "ffffffff ffff");
    assert_eq!(get_byte_line(&vec![0, 1], 0x00abcdef, true), "00abcdef 0100");
}

#[test]
fn byte_vectors_compare_by_length_and_content() {
    assert!(is_byte_vec_equal(&vec![1, 2, 3], &vec![1, 2, 3]));
    assert!(is_byte_vec_equal(&Vec::new(), &Vec::new()));
    assert!(!is_byte_vec_equal(&vec![1, 2, 3], &vec![1, 2, 4]));
    assert!(!is_byte_vec_equal(&vec![9, 2, 3], &vec![1, 2, 3]));
    assert!(!is_byte_vec_equal(&vec![1, 2], &vec![1, 2, 3]));
    assert!(!is_byte_vec_equal(&vec![1, 2, 3], &vec![1, 2]));
    assert!(!is_byte_vec_equal(&Vec::new(), &vec![0]));
}

#[test]
fn probe_reads_the_low_byte_first() {
    assert!(is_little_endian_probe(1));
    assert!(!is_little_endian_probe(0x01000000));
    assert!(!is_little_endian_probe(0));
}

#[test]
fn probe_agrees_with_the_machine() {
    let low_first: bool = 1u32.to_ne_bytes()[0] == 1;
    assert_eq!(check_is_little_endian(), low_first);
}

use hashchain::encoding::encode_fields;

#[test]
fn genesis_fields_are_framed_in_order() {
    let bytes = encode_fields(0, 1_700_000_000, "0", "Genesis Block", 0);
    assert_eq!(bytes, b"0:1700000000:1:013:Genesis Block0:".to_vec());
}

#[test]
fn text_is_counted_in_utf8_bytes() {
    let bytes = encode_fields(7, 42, "ab", "h\u{e9}llo \u{2603}", 3);
    assert_eq!(bytes, b"7:42:2:ab10:h\xc3\xa9llo \xe2\x98\x833:".to_vec());
}

#[test]
fn empty_texts_and_largest_numbers() {
    let bytes = encode_fields(u64::MAX, u64::MAX, "", "", u64::MAX);
    assert_eq!(
        bytes,
        b"18446744073709551615:18446744073709551615:0:0:18446744073709551615:".to_vec()
    );
}

#[test]
fn numbers_are_written_without_leading_zeros() {
    assert_eq!(encode_fields(10, 100, "", "", 1000), b"10:100:0:0:1000:".to_vec());
    assert_eq!(encode_fields(9, 99, "", "", 909), b"9:99:0:0:909:".to_vec());
}

#[test]
fn digits_that_move_between_fields_change_the_bytes() {
    assert_ne!(encode_fields(1, 23, "0", "x", 0), encode_fields(12, 3, "0", "x", 0));
    assert_ne!(encode_fields(1, 2, "ab", "c", 0), encode_fields(1, 2, "a", "bc", 0));
    assert_ne!(encode_fields(1, 2, "a", "b1", 2), encode_fields(1, 2, "a", "b", 12));
    assert_ne!(encode_fields(1, 2, "3:", "", 0), encode_fields(1, 2, "", "3:", 0));
}

#[test]
fn equal_fields_give_equal_bytes() {
    assert_eq!(
        encode_fields(3, 4, "prev", "payload", 5),
        encode_fields(3, 4, "prev", "payload", 5)
    );
}

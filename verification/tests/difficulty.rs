use hashchain::difficulty::has_leading_zeros;

#[test]
fn difficulty_zero_is_always_met() {
    assert!(has_leading_zeros("", 0));
    assert!(has_leading_zeros("abc", 0));
    assert!(has_leading_zeros("000", 0));
}

#[test]
fn leading_zeros_are_counted_from_the_start() {
    assert!(has_leading_zeros("00ab", 1));
    assert!(has_leading_zeros("00ab", 2));
    assert!(!has_leading_zeros("00ab", 3));
    assert!(!has_leading_zeros("a00b", 1));
    assert!(!has_leading_zeros("0a0b", 2));
}

#[test]
fn difficulty_above_the_length_is_never_met() {
    assert!(!has_leading_zeros("", 1));
    assert!(!has_leading_zeros("0", 2));
    assert!(has_leading_zeros("000", 3));
    assert!(!has_leading_zeros("000", 4));
    assert!(!has_leading_zeros("000", u64::MAX));
}

#[test]
fn only_the_digit_zero_counts() {
    assert!(!has_leading_zeros("\u{660}0", 1));
    assert!(!has_leading_zeros("O0", 1));
    assert!(has_leading_zeros("0\u{e9}", 1));
    assert!(!has_leading_zeros("0\u{e9}", 2));
}

#[test]
fn a_full_width_digest_of_zeros_meets_sixty_four() {
    let zeros = "0".repeat(64);
    assert!(has_leading_zeros(&zeros, 64));
    assert!(!has_leading_zeros(&zeros, 65));
}

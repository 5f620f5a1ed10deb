use luhn_geometry::luhn;

#[test]
fn test_non_digit_cc_number() {
    assert!(!luhn("foo"));
}

#[test]
fn test_empty_cc_number() {
    assert!(!luhn(""));
    assert!(!luhn(" "));
    assert!(!luhn("  "));
    assert!(!luhn("    "));
}

#[test]
fn test_single_digit_cc_number() {
    assert!(!luhn("0"));
}

#[test]
fn test_two_digit_cc_number() {
    assert!(luhn(" 0 0 "));
}

#[test]
fn test_valid_cc_number() {
    assert!(luhn("4263 9826 4026 9299"));
    assert!(luhn("4539 3195 0343 6467"));
    assert!(luhn("7992 7398 713"));
}

#[test]
fn test_invalid_cc_number() {
    assert!(!luhn("4223 9826 4026 9299"));
    assert!(!luhn("4539 3195 0343 6476"));
    assert!(!luhn("8273 1232 7352 0569"));
}

#[test]
fn test_spaces_between_digits_do_not_matter() {
    assert_eq!(luhn("00"), luhn("0 0"));
    assert_eq!(luhn("4263982640269299"), luhn("4263 9826 4026 9299"));
    assert!(luhn("4 2 6 3 9 8 2 6 4 0 2 6 9 2 9 9"));
}

#[test]
fn test_whitespace_trimmed_at_both_ends() {
    assert!(luhn("\t00\n"));
    assert!(luhn("  4263 9826 4026 9299  "));
}

#[test]
fn test_interior_non_space_whitespace_rejected() {
    assert!(!luhn("0\t0"));
    assert!(!luhn("42\n63"));
}

#[test]
fn test_mixed_digits_and_letters_rejected() {
    assert!(!luhn("0a0"));
    assert!(!luhn("4263 9826 4026 929x"));
}

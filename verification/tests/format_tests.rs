use envctl::format::{decimal_string, is_maskable, mask};

#[test]
fn mask_hides_short_values_entirely() {
    assert_eq!(mask(""), "••••");
    assert_eq!(mask("abcd"), "••••");
    assert_eq!(mask("éa"), "••••");
    assert_eq!(mask("é€"), "é••••");
}

#[test]
fn mask_keeps_first_two_bytes_of_longer_values() {
    assert_eq!(mask("abcde"), "ab••••");
    assert_eq!(mask("éclair"), "é••••");
    assert_eq!(mask("a-very-long-secret"), "a-••••");
}

#[test]
fn decimal_digits() {
    assert_eq!(decimal_string(0), "0");
    assert_eq!(decimal_string(7), "7");
    assert_eq!(decimal_string(10), "10");
    assert_eq!(decimal_string(1234567890), "1234567890");
    assert_eq!(decimal_string(usize::MAX), usize::MAX.to_string());
}

#[test]
fn maskable_values() {
    assert!(is_maskable("abc"));
    assert!(is_maskable("secret"));
    assert!(is_maskable("éa"));
    assert!(!is_maskable("aéxyz"));
    assert!(is_maskable("éxyz"));
}

use summit_hip_numbers::text::{all_digits, digit, ends_with, keep_digits, same_text};

#[test]
fn digits_are_zero_to_nine() {
    for c in '0'..='9' {
        assert!(digit(c));
    }
    for c in ['/', ':', 'a', 'A', ' ', '٣', '３', '\0'] {
        assert!(!digit(c), "{:?}", c);
    }
    for c in '\0'..='\u{ff}' {
        assert_eq!(digit(c), c.is_ascii_digit());
    }
}

#[test]
fn runs_of_digits() {
    assert!(all_digits(""));
    assert!(all_digits("0"));
    assert!(all_digits("0123456789"));
    assert!(!all_digits("12a"));
    assert!(!all_digits("a12"));
    assert!(!all_digits("1 2"));
    assert!(!all_digits("-1"));
    assert!(!all_digits("١٢٣"));
}

#[test]
fn equal_texts() {
    assert!(same_text("", ""));
    assert!(same_text("once", "once"));
    assert!(same_text("héllo", "héllo"));
    assert!(!same_text("once", "Once"));
    assert!(!same_text("once", "onc"));
    assert!(!same_text("onc", "once"));
    assert!(!same_text("", "x"));
    assert!(!same_text("every", "evert"));
}

#[test]
fn suffixes() {
    assert!(ends_with("001.mp4", ".mp4"));
    assert!(ends_with("001.mp4", ""));
    assert!(ends_with("", ""));
    assert!(ends_with(".mp4", ".mp4"));
    assert!(ends_with("日本語.mp4", ".mp4"));
    assert!(ends_with("x日本語", "本語"));
    assert!(!ends_with("mp4", ".mp4"));
    assert!(!ends_with("001.mp4 ", ".mp4"));
    assert!(!ends_with("001.mp3", ".mp4"));
    assert!(!ends_with("", "x"));
    for (text, suffix) in [("abc", "bc"), ("abc", "ab"), ("abc", "abc"), ("abc", "xabc")] {
        assert_eq!(ends_with(text, suffix), text.ends_with(suffix));
    }
}

#[test]
fn digits_are_kept_in_order() {
    assert_eq!(keep_digits(""), "");
    assert_eq!(keep_digits("123"), "123");
    assert_eq!(keep_digits("a1b22c"), "122");
    assert_eq!(keep_digits("abc"), "");
    assert_eq!(keep_digits("٣4é5"), "45");
}

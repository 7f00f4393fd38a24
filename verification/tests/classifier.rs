use auto_number::classifier::{has_digits, is_to_autoid};

#[test]
fn empty_identifier_needs_assignment() {
    assert!(is_to_autoid(""));
}

#[test]
fn six_digits_need_assignment() {
    assert!(is_to_autoid("250601"));
    assert!(is_to_autoid("000000"));
    assert!(is_to_autoid("999999"));
}

#[test]
fn resolved_identifier_needs_no_assignment() {
    assert!(!is_to_autoid("2506011430"));
}

#[test]
fn malformed_identifier_needs_no_assignment() {
    assert!(!is_to_autoid("abc"));
    assert!(!is_to_autoid("12345"));
    assert!(!is_to_autoid("1234567"));
    assert!(!is_to_autoid("12345a"));
    assert!(!is_to_autoid("a23456"));
    assert!(!is_to_autoid(" 123456"));
    assert!(!is_to_autoid("123456 "));
    assert!(!is_to_autoid("123456\n"));
    assert!(!is_to_autoid("12 456"));
    assert!(!is_to_autoid("-12345"));
}

#[test]
fn digits_outside_ascii_are_no_digits() {
    assert!(!is_to_autoid("\u{661}\u{662}\u{663}\u{664}\u{665}\u{666}"));
    assert!(!is_to_autoid("12345\u{663}"));
    assert!(!is_to_autoid("\u{ff11}23456"));
    assert!(!has_digits("\u{661}\u{662}\u{663}", 3));
    assert!(!has_digits("\u{661}\u{662}\u{663}", 6));
}

#[test]
fn has_digits_counts_exactly() {
    assert!(has_digits("", 0));
    assert!(!has_digits("", 1));
    assert!(has_digits("7", 1));
    assert!(has_digits("0123456789", 10));
    assert!(!has_digits("0123456789", 9));
    assert!(!has_digits("0123456789", 11));
    assert!(!has_digits("012345678x", 10));
    assert!(!has_digits("/123456789", 10));
    assert!(!has_digits(":123456789", 10));
}

#[test]
fn classifier_agrees_with_anchored_pattern() {
    let six = regex::Regex::new("^[0-9]{6}$").unwrap();
    let ten = regex::Regex::new("^[0-9]{10}$").unwrap();
    let samples = vec![
        "", "0", "12345", "123456", "1234567", "250601", "2506011430", "25060114301", "abcdef",
        "12345a", "a12345", "123 56", "123456\n", "\n123456", "\u{661}\u{662}\u{663}\u{664}\u{665}\u{666}", "\u{ff11}\u{ff12}\u{ff13}\u{ff14}\u{ff15}\u{ff16}", "12345\u{666}",
        "0000000000", "9999999999", "999999999", "25-06-01", "      ", "\u{661}\u{662}\u{663}\u{664}\u{665}\u{666}\u{667}\u{668}\u{669}\u{660}",
    ];
    for s in samples {
        assert_eq!(has_digits(s, 6), six.is_match(s), "six digits: {:?}", s);
        assert_eq!(has_digits(s, 10), ten.is_match(s), "ten digits: {:?}", s);
        assert_eq!(is_to_autoid(s), s.is_empty() || six.is_match(s), "placeholder: {:?}", s);
    }
}

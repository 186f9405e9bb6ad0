use quil::text::{
    chars_of, copy_items, copy_texts, holds_text, name_char, push_decimal, push_signed_decimal,
    read_numeral, same_texts, text_is,
};

fn decimal(n: u64) -> String {
    let mut out = String::new();
    push_decimal(&mut out, n);
    out
}

#[test]
fn decimal_numerals_are_the_shortest() {
    assert_eq!(decimal(0), "0");
    assert_eq!(decimal(9), "9");
    assert_eq!(decimal(10), "10");
    assert_eq!(decimal(1234567890), "1234567890");
    assert_eq!(decimal(u64::MAX), "18446744073709551615");
    for n in [0u64, 1, 5, 99, 100, 101, 65535, 1 << 40] {
        assert_eq!(decimal(n), n.to_string());
    }
}

#[test]
fn decimal_numerals_are_appended() {
    let mut out = String::from("x=");
    push_decimal(&mut out, 42);
    push_signed_decimal(&mut out, -7);
    push_signed_decimal(&mut out, 7);
    assert_eq!(out, "x=42-77");
}

#[test]
fn numerals_are_read_back() {
    let text: Vec<char> = "ab0123456789cd".chars().collect();
    assert_eq!(read_numeral(&text, 2, 12), Some(123456789));
    assert_eq!(read_numeral(&text, 2, 3), Some(0));
    assert_eq!(read_numeral(&text, 5, 7), Some(34));
    assert_eq!(read_numeral(&text, 2, 2), None);
    assert_eq!(read_numeral(&text, 1, 4), None);
    assert_eq!(read_numeral(&text, 10, 13), None);
    for n in [0u64, 7, 10, 4096, u64::MAX - 1, u64::MAX] {
        let digits = chars_of(&n.to_string());
        assert_eq!(read_numeral(&digits, 0, digits.len()), Some(n));
    }
    let over = chars_of("18446744073709551616");
    assert_eq!(read_numeral(&over, 0, over.len()), None);
    let far_over = chars_of("184467440737095516150");
    assert_eq!(read_numeral(&far_over, 0, far_over.len()), None);
}

#[test]
fn name_characters() {
    for c in ['a', 'z', 'A', 'Z', '0', '9', '_', '-'] {
        assert!(name_char(c));
    }
    for c in ['[', ']', ' ', '%', '(', '.', 'é', '\n'] {
        assert!(!name_char(c));
    }
}

#[test]
fn texts_are_compared_and_copied() {
    assert_eq!(chars_of("héllo"), vec!['h', 'é', 'l', 'l', 'o']);
    assert!(text_is(&chars_of("CNOT"), "CNOT"));
    assert!(!text_is(&chars_of("CNOT"), "CNO"));
    assert!(!text_is(&chars_of("CNOT"), "CNOX"));
    assert!(text_is(&chars_of(""), ""));
    let a = vec!["x".to_string(), "y".to_string()];
    let b = vec!["y".to_string(), "x".to_string()];
    assert!(same_texts(&a, &a.clone()));
    assert!(!same_texts(&a, &b));
    assert!(!same_texts(&a, &vec!["x".to_string()]));
    assert_eq!(copy_texts(&a), a);
    assert!(holds_text(&a, &"y".to_string()));
    assert!(!holds_text(&a, &"z".to_string()));
    assert_eq!(copy_items(&vec![3u64, 1, 2]), vec![3, 1, 2]);
}

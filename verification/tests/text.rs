use anise::text::{chars_eq_str, push_decimal, trim_chars};

#[test]
fn trims_unicode_white_space() {
    assert_eq!(trim_chars("  a b \t\n"), vec!['a', ' ', 'b']);
    assert_eq!(trim_chars("\u{00A0}x\u{2003}"), vec!['x']);
    assert!(trim_chars(" \t ").is_empty());
    assert!(chars_eq_str(&vec!['L', 'T'], "LT"));
    assert!(!chars_eq_str(&vec!['L'], "LT"));
}

#[test]
fn writes_decimals() {
    let mut s = String::from("n=");
    push_decimal(&mut s, 0);
    assert_eq!(s, "n=0");
    let mut s = String::new();
    push_decimal(&mut s, 1_234_509);
    assert_eq!(s, "1234509");
    let mut s = String::new();
    push_decimal(&mut s, usize::MAX);
    assert_eq!(s, usize::MAX.to_string());
}

use shai_core::text::{chars_of, is_blank, is_white_space};

#[test]
fn white_space_agrees_with_std() {
    for u in 0u32..0x1_0000 {
        if let Some(c) = char::from_u32(u) {
            assert_eq!(is_white_space(c), c.is_whitespace(), "U+{:04X}", u);
        }
    }
}

#[test]
fn blank_and_chars() {
    assert!(is_blank(" \t\u{3000}\n"));
    assert!(is_blank(""));
    assert!(!is_blank(" x "));
    assert_eq!(chars_of("héllo"), vec!['h', 'é', 'l', 'l', 'o']);
}

use book_register::text::{is_whitespace, trimmed};

#[test]
fn is_whitespace_agrees_with_std() {
    for u in 0u32..=0x10FFFF {
        if let Some(c) = char::from_u32(u) {
            assert_eq!(is_whitespace(c), c.is_whitespace(), "U+{:04X}", u);
        }
    }
}

#[test]
fn trimmed_agrees_with_std() {
    for s in ["", "  ", " a ", "\u{3000}x\u{a0}", "\t\n ab c \r\n", "x"] {
        assert_eq!(trimmed(s), s.trim());
    }
}

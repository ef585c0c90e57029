use ratatui_vault::error_string::Error;
use ratatui_vault::text::{is_whitespace, split, str_eq, trim};

#[test]
fn is_whitespace_agrees_with_std_on_every_char() {
    for u in 0u32..=0x10FFFF {
        if let Some(c) = char::from_u32(u) {
            assert_eq!(is_whitespace(c), c.is_whitespace(), "U+{u:04X}");
        }
    }
}

#[test]
fn trim_agrees_with_std() {
    for s in ["", "  ", " a ", "\t\u{3000}x y\u{85}\n", "abc", "\r\nline\r\n"] {
        assert_eq!(trim(s), s.trim());
    }
}

#[test]
fn split_agrees_with_std() {
    for s in ["", "=", "a=b", "a==b=", "=x", "no sep", "ä=ö=ü"] {
        assert_eq!(split(s, '='), s.split('=').collect::<Vec<_>>());
    }
}

#[test]
fn str_eq_compares_text() {
    assert!(str_eq("get", "get"));
    assert!(!str_eq("get", "gets"));
    assert!(!str_eq("get", "got"));
}

#[test]
fn error_message_is_its_text() {
    let e = Error("boom".to_owned());
    assert_eq!(e.message(), "boom");
}

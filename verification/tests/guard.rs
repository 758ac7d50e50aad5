use stm_html::guard::{is_noisy_keyword, is_unsafe, keyword_char, safe_char};

#[test]
fn guard_accepts_the_allowed_characters() {
    assert!(!is_unsafe("#-._0123456789abcdefghijklmnopqrstuvwxyzABCDEFGHIJKLMNOPQRSTUVWXYZ"));
    assert!(!is_unsafe(""));
    assert!(!is_unsafe("System.Text.Json"));
    assert!(!is_unsafe("c#"));
}

#[test]
fn guard_rejects_any_other_character() {
    for value in ["\"", "\\", "{", "}", " ", "%", "/", ":", "é", "\u{0}", "a b", "abc\"", "a\nb"] {
        assert!(is_unsafe(value), "{:?}", value);
    }
}

#[test]
fn guard_judges_every_ascii_character() {
    for code in 0u8..128 {
        let c = code as char;
        let allowed = c.is_ascii_alphanumeric() || c == '#' || c == '-' || c == '.' || c == '_';
        assert_eq!(safe_char(c), allowed, "{:?}", c);
        assert_eq!(is_unsafe(&c.to_string()), !allowed, "{:?}", c);
    }
}

#[test]
fn guard_rejects_characters_next_to_the_allowed_ranges() {
    for c in ['/', ':', '@', '[', '`', '{', '"', ',', '$'] {
        assert!(!safe_char(c), "{:?}", c);
    }
}

#[test]
fn keyword_filter_is_stricter_than_the_guard() {
    assert!(!is_noisy_keyword("serde_json"));
    assert!(!is_noisy_keyword("Tokio-1"));
    assert!(!is_noisy_keyword(""));
    assert!(is_noisy_keyword("system.xml"));
    assert!(is_noisy_keyword("c#"));
    assert!(is_noisy_keyword("a b"));
    assert!(keyword_char('-') && keyword_char('_') && keyword_char('Z') && keyword_char('0'));
    assert!(!keyword_char('.') && !keyword_char('#'));
}

use trafmon::text::{chars_of, has_prefix_at, is_whitespace, occurs, same_text};

#[test]
fn whitespace_is_unicode_white_space() {
    for c in [' ', '\t', '\n', '\r', '\u{0B}', '\u{0C}', '\u{85}', '\u{A0}', '\u{2003}', '\u{3000}'] {
        assert!(is_whitespace(c));
        assert!(c.is_whitespace());
    }
    for c in ['a', '-', '_', '\u{200B}', '0'] {
        assert!(!is_whitespace(c));
        assert!(!c.is_whitespace());
    }
}

#[test]
fn substring_search() {
    let hay = chars_of("intel wi-fi 6");
    assert!(occurs(&hay, &chars_of("wi-fi")));
    assert!(occurs(&hay, &chars_of("")));
    assert!(!occurs(&hay, &chars_of("wifi")));
    assert!(has_prefix_at(&hay, 6, &chars_of("wi")));
    assert!(!has_prefix_at(&hay, 5, &chars_of("wi")));
}

#[test]
fn text_equality() {
    assert!(same_text("lo", "lo"));
    assert!(!same_text("lo", "lo0"));
    assert!(!same_text("网卡", "网"));
    assert_eq!(chars_of("网卡x"), vec!['网', '卡', 'x']);
}

use sm_action::text::find_separator;
use sm_action::text::is_blank_text;
use sm_action::text::is_whitespace_char;
use sm_action::text::trim;

#[test]
fn white_space_is_what_the_standard_library_takes_for_it() {
    for code in 0..=0x10FFFFu32 {
        if let Some(c) = char::from_u32(code) {
            assert_eq!(is_whitespace_char(c), c.is_whitespace(), "U+{:04X}", code);
        }
    }
}

#[test]
fn white_space_characters_by_name() {
    for c in [
        '\t', '\n', '\u{0B}', '\u{0C}', '\r', ' ', '\u{85}', '\u{A0}', '\u{1680}', '\u{2000}',
        '\u{200A}', '\u{2028}', '\u{2029}', '\u{202F}', '\u{205F}', '\u{3000}',
    ] {
        assert!(is_whitespace_char(c));
    }
    for c in ['a', '>', '\0', '\u{08}', '\u{0E}', '\u{200B}', '\u{FEFF}', '\u{1F}'] {
        assert!(!is_whitespace_char(c));
    }
}

#[test]
fn trim_removes_white_space_at_both_ends_only() {
    assert_eq!(trim("  a b  "), "a b");
    assert_eq!(trim("\t\n x \r\n"), "x");
    assert_eq!(trim("x"), "x");
    assert_eq!(trim(""), "");
    assert_eq!(trim("   "), "");
    assert_eq!(trim("\u{3000}é ü\u{A0}"), "é ü");
}

#[test]
fn trim_agrees_with_the_standard_library() {
    for s in [
        "",
        " ",
        "a",
        " a",
        "a ",
        " a b ",
        "\u{2003}multi\nline\u{2003}",
        "\u{200B}zero width\u{200B}",
        "  91ba3f10-a9a2-4795-bacf-0eee2d39a074 ",
    ] {
        assert_eq!(trim(s), s.trim());
    }
}

#[test]
fn blank_text_is_empty_or_white_space() {
    assert!(is_blank_text(""));
    assert!(is_blank_text("   "));
    assert!(is_blank_text(" \t\r\n\u{2028}"));
    assert!(!is_blank_text(" x "));
    assert!(!is_blank_text("exit 1"));
    assert!(!is_blank_text("\u{200B}"));
}

#[test]
fn separator_is_found_where_it_comes_first() {
    assert_eq!(find_separator("a > b"), Some(2));
    assert_eq!(find_separator(">"), Some(0));
    assert_eq!(find_separator("a>b>c"), Some(1));
    assert_eq!(find_separator("no separator"), None);
    assert_eq!(find_separator(""), None);
}

#[test]
fn separator_position_counts_characters() {
    assert_eq!(find_separator("é\u{3000}>x"), Some(2));
}

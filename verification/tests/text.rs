use platinium_os::text::{
    ends_with, same_text, split_whitespace, starts_with, trim_end_matches, trim_start_matches,
};

#[test]
fn same_text_compares_characters() {
    assert!(same_text("", ""));
    assert!(same_text("abc", "abc"));
    assert!(!same_text("abc", "abd"));
    assert!(!same_text("abc", "ab"));
    assert!(same_text("h\u{e9}", "h\u{e9}"));
}

#[test]
fn starts_and_ends_with() {
    assert!(starts_with("$(calc", "$"));
    assert!(starts_with("$(calc", "$("));
    assert!(!starts_with("calc", "$"));
    assert!(starts_with("abc", ""));
    assert!(!starts_with("a", "ab"));
    assert!(ends_with("2)", ")"));
    assert!(!ends_with("2", ")"));
    assert!(ends_with("\"", "\""));
    assert!(ends_with("\u{e9}x", "x"));
}

#[test]
fn trim_takes_every_repetition() {
    assert_eq!(trim_start_matches("$$name", "$"), "name");
    assert_eq!(trim_start_matches("$($(x", "$("), "x");
    assert_eq!(trim_start_matches("$(", "$("), "");
    assert_eq!(trim_start_matches("name", "$"), "name");
    assert_eq!(trim_end_matches("x))", ")"), "x");
    assert_eq!(trim_end_matches("\"\"", "\""), "");
    assert_eq!(trim_end_matches("ab", "ab"), "");
    assert_eq!(trim_end_matches("aab", "ab"), "a");
    assert_eq!(trim_start_matches("\u{e9}\u{e9}z", "\u{e9}"), "z");
}

#[test]
fn split_whitespace_gives_the_words() {
    assert_eq!(split_whitespace("echo hi"), vec!["echo", "hi"]);
    assert_eq!(split_whitespace("  a \t b\n"), vec!["a", "b"]);
    assert!(split_whitespace("").is_empty());
    assert!(split_whitespace("   ").is_empty());
    assert_eq!(split_whitespace("one"), vec!["one"]);
    assert_eq!(split_whitespace("a\u{a0}b"), vec!["a", "b"]);
}

#[test]
fn white_space_is_the_unicode_property() {
    let white = [
        '\u{9}', '\u{a}', '\u{b}', '\u{c}', '\u{d}', ' ', '\u{85}', '\u{a0}', '\u{1680}',
        '\u{2000}', '\u{2005}', '\u{200a}', '\u{2028}', '\u{2029}', '\u{202f}', '\u{205f}',
        '\u{3000}',
    ];
    for c in white {
        assert_eq!(split_whitespace(&format!("a{}b", c)), vec!["a", "b"]);
    }
    let black = [
        '\u{8}', '\u{e}', '\u{1f}', '!', '\u{84}', '\u{86}', '\u{9f}', '\u{a1}', '\u{167f}',
        '\u{1681}', '\u{180e}', '\u{1fff}', '\u{200b}', '\u{2027}', '\u{202a}', '\u{202e}',
        '\u{2030}', '\u{205e}', '\u{2060}', '\u{2fff}', '\u{3001}', '\u{feff}',
    ];
    for c in black {
        let text = format!("a{}b", c);
        assert_eq!(split_whitespace(&text), vec![text.clone()]);
    }
}

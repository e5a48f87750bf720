use lexfront::parse_identtifier::{is_identifier, is_unicode_valid, parse};

fn scan(line: &str) -> Option<(String, String, usize)> {
    parse(line)
}

fn found(name: &str, boundary: &str, length: usize) -> Option<(String, String, usize)> {
    Some((name.to_string(), boundary.to_string(), length))
}

#[test]
fn keyword_alone_is_a_boundary() {
    assert_eq!(scan("define"), found("", "define", 6));
}

#[test]
fn keyword_after_a_name_ends_it() {
    assert_eq!(scan("x1 and y"), found("x1", "and", 6));
}

#[test]
fn every_keyword_is_reserved() {
    for word in [
        "and", "break", "continue", "define", "else", "if", "import", "in", "is", "let", "not",
        "or", "return", "None", "True", "False",
    ] {
        let line = format!("{} x", word);
        assert_eq!(scan(&line), found("", word, word.len()));
    }
    assert_eq!(scan("none x"), found("none x", "", 6));
    assert_eq!(scan("android x"), found("android x", "", 9));
}

#[test]
fn keyword_before_an_apostrophe_ends_the_name() {
    assert_eq!(scan("a is'b"), found("a", "is", 4));
}

#[test]
fn plain_name_runs_to_the_end() {
    assert_eq!(scan("abc"), found("abc", "", 3));
    assert_eq!(scan(""), found("", "", 0));
}

#[test]
fn other_character_is_the_boundary() {
    assert_eq!(scan("abc+def"), found("abc", "+", 3));
    assert_eq!(scan("abc[0]"), found("abc", "[", 3));
    assert_eq!(scan("ab\u{e9}"), found("ab", "\u{e9}", 2));
    assert_eq!(scan("=x"), found("", "=", 0));
    assert_eq!(scan("define("), found("define", "(", 6));
}

#[test]
fn separators_are_folded() {
    assert_eq!(scan("a b"), found("a b", "", 3));
    assert_eq!(scan("a    b"), found("a b", "", 6));
    assert_eq!(scan("can't"), found("can't", "", 5));
    assert_eq!(scan("can ' t"), found("can't", "", 7));
    assert_eq!(scan("can ' tx"), found("can' tx", "", 8));
}

#[test]
fn leading_and_trailing_separators_are_dropped() {
    assert_eq!(scan("  abc"), found("abc", "", 5));
    assert_eq!(scan(" 'abc' "), found("abc", "", 7));
    assert_eq!(scan("abc  ="), found("abc", "=", 5));
}

#[test]
fn name_may_not_begin_with_a_digit_or_underscore() {
    assert_eq!(scan("1abc"), None);
    assert_eq!(scan("_abc"), None);
    assert_eq!(scan("  9"), None);
    assert_eq!(scan("a1_b"), found("a1_b", "", 4));
}

#[test]
fn character_classes() {
    for c in ['a', 'z', 'A', 'Z', '0', '9', ' ', '\'', '_'] {
        assert!(is_identifier(&(c as u32)));
    }
    for c in ['[', '\\', ']', '^', '`', '@', '{', '/', ':', '\u{e9}'] {
        assert!(!is_identifier(&(c as u32)));
    }
    assert!(is_unicode_valid(&0x41));
    assert!(is_unicode_valid(&0xFFFF));
    assert!(is_unicode_valid(&0x10FFFF));
    assert!(!is_unicode_valid(&0xD800));
    assert!(!is_unicode_valid(&0xDFFF));
    assert!(!is_unicode_valid(&0x110000));
}

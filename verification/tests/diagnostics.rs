use lexfront::init::{Group, Lines, Pairs, ParseError, StringUTF8};

#[test]
fn report_names_the_line_and_the_place() {
    let mut lines = Lines::from("src/a.ml", "x = \"ab", 6, 0);
    let e = StringUTF8::parse(&mut lines, false).unwrap_err();
    assert_eq!(
        e.report(&lines),
        "[Error 0004] x = \"ab\n              ^^^^^^^\nFile error at src/a.ml:7:8\n"
    );
}

#[test]
fn report_pads_the_code_to_four_digits() {
    let lines = Lines::new(None, "");
    let e = ParseError { status_code: 0, message: String::new() };
    assert_eq!(e.report(&lines), "[Error 0000] \n              \nFile error at main.ml:1:1\n");
    let e = ParseError { status_code: 12345, message: String::new() };
    assert!(e.report(&lines).starts_with("[Error 12345] "));
    let e = ParseError { status_code: 907, message: String::new() };
    assert!(e.report(&lines).starts_with("[Error 0907] "));
}

#[test]
fn report_counts_rows_and_columns_from_one() {
    let lines = Lines::from("p", "ab", usize::MAX, 109);
    let e = ParseError { status_code: 5, message: String::new() };
    let last = format!("File error at p:{}:110\n", usize::MAX as u128 + 1);
    assert!(e.report(&lines).ends_with(&last));
}

#[test]
fn unknown_escapes_are_noted() {
    let mut lines = Lines::new(None, "z\"a\\qb\\n\\-\"");
    let mut warnings = vec![77];
    let d = StringUTF8::parse_noting(&mut lines, false, &mut warnings).unwrap().unwrap();
    assert_eq!(d.string_utf8, "a\\qb\n\\-");
    assert_eq!(warnings, vec![77, 3, 8]);
}

#[test]
fn unknown_escapes_before_a_failure_are_noted() {
    let mut lines = Lines::new(None, "\"\\q\\u-\"");
    let mut warnings = Vec::new();
    let e = StringUTF8::parse_noting(&mut lines, false, &mut warnings).unwrap().unwrap_err();
    assert_eq!(e.status_code, 1);
    assert_eq!(warnings, vec![1]);
}

#[test]
fn raw_mode_notes_nothing() {
    let mut lines = Lines::new(None, "\"a\\qb\"");
    let mut warnings = Vec::new();
    let d = StringUTF8::parse_noting(&mut lines, true, &mut warnings).unwrap().unwrap();
    assert_eq!(d.string_utf8, "a\\qb");
    assert!(warnings.is_empty());
}

#[test]
fn backslash_outside_a_literal_is_not_noted() {
    let mut lines = Lines::new(None, "\\q \"a\" \\q");
    let mut warnings = Vec::new();
    StringUTF8::parse_noting(&mut lines, false, &mut warnings).unwrap().unwrap();
    assert!(warnings.is_empty());
}

#[test]
fn groups_note_the_escapes_of_their_literals() {
    let mut lines = Lines::new(None, "\\q(a\"\\q\" \"x\\-\")");
    let mut warnings = Vec::new();
    let g = Group::parse_noting(&mut lines, Pairs::Parentheses, &mut warnings).unwrap().unwrap();
    assert_eq!(g.body, "a\"\\q\" \"x\\-\"");
    assert_eq!(warnings, vec![1, 2]);
}

#[test]
fn split_notes_the_escapes_of_every_group() {
    let mut lines = Lines::new(None, "(\"\\q\")\\w[\"\\e\"](\"ab\\c\")");
    let mut warnings = Vec::new();
    let groups =
        Group::parse_groups_noting(&mut lines, Pairs::Parentheses, &mut warnings).unwrap().unwrap();
    assert_eq!(groups.len(), 3);
    assert_eq!(warnings, vec![1, 3]);
}

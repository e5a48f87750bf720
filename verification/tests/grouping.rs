use lexfront::init::{Group, Lines, Pairs};

fn extract(line: &str, pairs: Pairs) -> (Result<Group, lexfront::init::ParseError>, usize) {
    let mut lines = Lines::new(None, line);
    let r = Group::parse_checked(&mut lines, pairs).expect("a readable group");
    (r, lines.cols)
}

fn body(line: &str, pairs: Pairs) -> (String, usize) {
    let (r, cols) = extract(line, pairs);
    let g = r.expect("a group");
    assert_eq!(g.pairs, Some(pairs));
    (g.body, cols)
}

fn split(line: &str, pairs: Pairs) -> (Vec<(String, Option<Pairs>)>, usize) {
    let mut lines = Lines::new(None, line);
    let groups = Group::parse_groups(&mut lines, pairs).expect("a line that splits");
    (groups.into_iter().map(|g| (g.body, g.pairs)).collect(), lines.cols)
}

#[test]
fn nested_group_keeps_its_inner_delimiters() {
    assert_eq!(body("(a(b)c)", Pairs::Parentheses), ("a(b)c".to_string(), 5));
}

#[test]
fn delimiter_inside_a_string_does_not_close() {
    assert_eq!(body("(a\"x)y\"z)", Pairs::Parentheses), ("a\"x)y\"z".to_string(), 7));
}

#[test]
fn string_inside_a_group_is_decoded() {
    assert_eq!(body("(a\"x\\ty\"z)", Pairs::Parentheses), ("a\"x\ty\"z".to_string(), 8));
}

#[test]
fn text_before_the_group_is_dropped() {
    assert_eq!(body("f [1, 2] g", Pairs::Brackets), ("1, 2".to_string(), 6));
}

#[test]
fn each_pair_has_its_own_delimiters() {
    assert_eq!(body("{a}", Pairs::Braces).0, "a");
    assert_eq!(body("<a>", Pairs::Angles).0, "a");
    assert_eq!(body("[a]", Pairs::Brackets).0, "a");
    assert_eq!(body("(a)", Pairs::Parentheses).0, "a");
    assert_eq!(body("([a)]", Pairs::Parentheses).0, "[a");
}

#[test]
fn empty_group() {
    assert_eq!(body("()", Pairs::Parentheses), (String::new(), 0));
}

#[test]
fn quote_outside_a_group_is_plain() {
    assert_eq!(body("\"x\" (a)", Pairs::Parentheses), ("a".to_string(), 5));
    let (r, cols) = extract("\"(\" (a)", Pairs::Parentheses);
    assert_eq!(r.unwrap_err().status_code, 4);
    assert_eq!(cols, 2);
}

#[test]
fn unmatched_close_is_code_5() {
    let (r, cols) = extract("ab) (c)", Pairs::Parentheses);
    let e = r.unwrap_err();
    assert_eq!(e.status_code, 5);
    assert_eq!(e.message, "Syntax Error: Invalid ')' symbol!");
    assert_eq!(cols, 2);
    let (r, _) = extract("]", Pairs::Brackets);
    assert_eq!(r.unwrap_err().message, "Syntax Error: Invalid ']' symbol!");
    let (r, _) = extract("}", Pairs::Braces);
    assert_eq!(r.unwrap_err().message, "Syntax Error: Invalid '}' symbol!");
    let (r, _) = extract(">", Pairs::Angles);
    assert_eq!(r.unwrap_err().message, "Syntax Error: Invalid '>' symbol!");
}

#[test]
fn unmatched_open_exhausts_the_cursor() {
    let line = "x(a(b)c";
    let (text, cols) = body(line, Pairs::Parentheses);
    assert_eq!(text, "a(b)c");
    assert_eq!(cols, line.chars().count());
    let (text, cols) = body("no group", Pairs::Parentheses);
    assert_eq!(text, "");
    assert_eq!(cols, 8);
}

#[test]
fn closed_group_leaves_the_cursor_before_the_close() {
    let mut lines = Lines::new(None, "x(ab)y");
    let g = Group::parse(&mut lines, Pairs::Parentheses).unwrap();
    assert_eq!(g.body, "ab");
    assert!(lines.cols < lines.length);
    assert_eq!(lines.vector_char[lines.cols + 1], ')');
}

#[test]
fn string_error_inside_a_group_is_passed_on() {
    let (r, cols) = extract("(a\"bc)", Pairs::Parentheses);
    let e = r.unwrap_err();
    assert_eq!(e.status_code, 4);
    assert_eq!(e.message, "Syntax Error: Missing quotation marks at the end!");
    assert_eq!(cols, 2);
    let (r, _) = extract("(\"\\uD800\")", Pairs::Parentheses);
    assert_eq!(r.unwrap_err().status_code, 2);
    let (r, _) = extract("(\"\\u\")", Pairs::Parentheses);
    assert_eq!(r.unwrap_err().status_code, 1);
    let (r, _) = extract("(\"\\x1\")", Pairs::Parentheses);
    assert_eq!(r.unwrap_err().status_code, 3);
    let (r, _) = extract("(\"a\nb\")", Pairs::Parentheses);
    assert_eq!(r.unwrap_err().status_code, 0);
}

#[test]
fn unreadable_string_inside_a_group() {
    let mut lines = Lines::new(None, "(\"\\uzz\")");
    assert!(Group::parse_checked(&mut lines, Pairs::Parentheses).is_none());
    let mut lines = Lines::new(None, "a(\"\\uzz\")");
    assert!(Group::parse_groups_checked(&mut lines, Pairs::Parentheses).is_none());
}

#[test]
fn rescanning_a_wrapped_body_ends_past_the_close() {
    for line in ["(a(b)c)", "xx(a(b)c)yy", "()", "[x](y(z))", "(a\"x)y\"z)", "f(\"(\", \"\\q\")"] {
        let (text, _) = body(line, Pairs::Parentheses);
        let again = format!("({})", text);
        let (second, cols) = body(&again, Pairs::Parentheses);
        assert_eq!(second, text);
        assert_eq!(cols + 2, again.chars().count());
        let (groups, end) = split(&again, Pairs::Parentheses);
        assert_eq!(groups, vec![(text, Some(Pairs::Parentheses))]);
        assert_eq!(end, again.chars().count());
    }
}

#[test]
fn rescanning_differs_where_an_escape_was_decoded() {
    let (text, _) = body("(a\"x\\\"y)\"z)", Pairs::Parentheses);
    assert_eq!(text, "a\"x\"y)\"z");
    let again = format!("({})", text);
    let (second, cols) = body(&again, Pairs::Parentheses);
    assert_eq!(second, "a\"x\"y");
    assert_ne!(cols + 2, again.chars().count());
}

#[test]
fn line_is_split_into_text_and_groups() {
    let (groups, cols) = split("ab(c)d[e](f)", Pairs::Parentheses);
    assert_eq!(
        groups,
        vec![
            ("ab".to_string(), None),
            ("c".to_string(), Some(Pairs::Parentheses)),
            ("d[e]".to_string(), None),
            ("f".to_string(), Some(Pairs::Parentheses)),
        ]
    );
    assert_eq!(cols, 12);
}

#[test]
fn adjacent_groups_have_no_text_between() {
    let (groups, _) = split("<a><b>c", Pairs::Angles);
    assert_eq!(
        groups,
        vec![
            ("a".to_string(), Some(Pairs::Angles)),
            ("b".to_string(), Some(Pairs::Angles)),
            ("c".to_string(), None),
        ]
    );
}

#[test]
fn line_without_groups_is_one_fragment() {
    assert_eq!(split("plain", Pairs::Braces), (vec![("plain".to_string(), None)], 5));
    assert_eq!(split("", Pairs::Braces), (vec![], 0));
}

#[test]
fn unclosed_group_ends_the_split_at_the_line_end() {
    let (groups, cols) = split("a(bc", Pairs::Parentheses);
    assert_eq!(
        groups,
        vec![("a".to_string(), None), ("bc".to_string(), Some(Pairs::Parentheses))]
    );
    assert_eq!(cols, 4);
}

#[test]
fn split_fails_on_an_unmatched_close_inside_a_later_group() {
    let mut lines = Lines::new(None, "(a)b)");
    let groups = Group::parse_groups(&mut lines, Pairs::Parentheses).unwrap();
    assert_eq!(groups.len(), 2);
    assert_eq!(groups[1].body, "b)");
    let mut lines = Lines::new(None, "(a\"b)");
    let e = Group::parse_groups(&mut lines, Pairs::Parentheses).unwrap_err();
    assert_eq!(e.status_code, 4);
}

#[test]
fn split_starts_at_the_cursor() {
    let mut lines = Lines::from("main.ml", "(a)(b)", 0, 3);
    let groups = Group::parse_groups(&mut lines, Pairs::Parentheses).unwrap();
    assert_eq!(groups.len(), 1);
    assert_eq!(groups[0].body, "b");
    assert_eq!(lines.cols, 6);
}

use lexfront::init::{Lines, StringUTF8};
use lexfront::parse_string::{parse, parse_checked, parse_raw, slice_vector_chars};

fn decode(line: &str, raw: bool) -> (Result<StringUTF8, lexfront::init::ParseError>, usize) {
    let mut lines = Lines::new(None, line);
    let r = StringUTF8::parse_checked(&mut lines, raw).expect("a readable literal");
    (r, lines.cols)
}

fn decoded(line: &str) -> (String, usize, usize, usize) {
    let (r, cols) = decode(line, false);
    let d = r.expect("a decodable literal");
    (d.string_utf8, d.string_length, d.original_length, cols)
}

fn failure(line: &str) -> (usize, String, usize) {
    let (r, cols) = decode(line, false);
    let e = r.expect_err("a failing literal");
    (e.status_code, e.message, cols)
}

#[test]
fn plain_literal_is_copied() {
    assert_eq!(decoded("\"abc\""), ("abc".to_string(), 3, 3, 3));
}

#[test]
fn empty_literal() {
    assert_eq!(decoded("\"\""), (String::new(), 0, 0, 0));
}

#[test]
fn text_before_the_literal_is_skipped() {
    assert_eq!(decoded("let x = \"hi\" + y"), ("hi".to_string(), 2, 2, 10));
}

#[test]
fn line_without_quote_decodes_to_nothing() {
    assert_eq!(decoded("no literal here"), (String::new(), 0, 0, 15));
}

#[test]
fn parse_leaves_the_cursor_before_the_closing_quote() {
    let mut lines = Lines::from("file.ml", "\"ab\" tail", 3, 0);
    let d = StringUTF8::parse(&mut lines, false).unwrap();
    assert_eq!(d.string_utf8, "ab");
    assert_eq!(lines.cols, 2);
    assert_eq!(lines.vector_char[lines.cols + 1], '"');
    assert_eq!(lines.rows, 3);
    assert_eq!(lines.path, "file.ml");
}

#[test]
fn single_character_escapes() {
    let (text, n, raw, _) = decoded("\"\\0\\a\\b\\f\\n\\r\\s\\t\\v\\\\\\\"\\{\\'\\}\"");
    assert_eq!(text, "\x00\x07\x08\x0C\n\r \t\x0B\\\"{'}");
    assert_eq!(n, 14);
    assert_eq!(raw, 28);
}

#[test]
fn unicode_escape_takes_the_longest_digit_run() {
    // `\u0041b`: the run is `0041b`, five digits, so the code is 0x41B.
    assert_eq!(decoded("\"a\\u0041b\""), ("a\u{41B}".to_string(), 2, 8, 8));
}

#[test]
fn unicode_escape_ends_at_a_character_outside_the_run() {
    assert_eq!(decoded("\"a\\u0041 b\""), ("aA b".to_string(), 4, 9, 9));
}

#[test]
fn unicode_escape_has_no_fixed_width() {
    assert_eq!(decoded("\"\\u41\""), ("A".to_string(), 1, 4, 4));
    assert_eq!(decoded("\"\\u1F600\""), ("\u{1F600}".to_string(), 1, 7, 7));
}

#[test]
fn unicode_escape_takes_at_most_eight_digits() {
    assert_eq!(decoded("\"\\u000000410\""), ("A0".to_string(), 2, 11, 11));
}

#[test]
fn unicode_escape_without_digits_is_code_1() {
    let (code, message, cols) = failure("\"\\u-\"");
    assert_eq!(code, 1);
    assert_eq!(message, "Escape Error: Invalid \\u escape sequence!");
    assert_eq!(cols, 1);
}

#[test]
fn surrogate_is_code_2() {
    let (code, message, cols) = failure("\"\\uD800\"");
    assert_eq!(code, 2);
    assert_eq!(message, "Unicode Error: Unicode is within an invalid range!");
    assert_eq!(cols, 1);
    assert_eq!(failure("\"\\uDFFF\"").0, 2);
}

#[test]
fn value_beyond_the_last_code_point_is_code_2() {
    assert_eq!(failure("\"\\u110000\"").0, 2);
    assert_eq!(failure("\"\\uFFFFFFFF\"").0, 2);
    assert_eq!(decoded("\"\\u10FFFF\"").0, "\u{10FFFF}");
    assert_eq!(decoded("\"\\uD7FF\"").0, "\u{D7FF}");
    assert_eq!(decoded("\"\\uE000\"").0, "\u{E000}");
}

#[test]
fn byte_escape_takes_two_digits() {
    assert_eq!(decoded("\"\\x41\""), ("A".to_string(), 1, 4, 4));
    assert_eq!(decoded("\"\\xe9z\""), ("\u{E9}z".to_string(), 2, 5, 5));
    assert_eq!(decoded("\"\\x414\""), ("A4".to_string(), 2, 5, 5));
}

#[test]
fn byte_escape_with_one_digit_is_code_3() {
    let (code, message, cols) = failure("\"a\\x4\"");
    assert_eq!(code, 3);
    assert_eq!(message, "Byte Error: Invalid \\x escape: expected 2 hex digits!");
    assert_eq!(cols, 2);
}

#[test]
fn newline_inside_the_literal_is_code_0() {
    let (code, message, cols) = failure("\"ab\ncd\"");
    assert_eq!(code, 0);
    assert_eq!(message, "Syntax Error: Invalid newline character in the string!");
    assert_eq!(cols, 3);
}

#[test]
fn missing_closing_quote_is_code_4() {
    let (code, message, cols) = failure("\"abc");
    assert_eq!(code, 4);
    assert_eq!(message, "Syntax Error: Missing quotation marks at the end!");
    assert_eq!(cols, 4);
}

#[test]
fn unknown_escape_is_kept_as_text() {
    assert_eq!(decoded("\"a\\qb\""), ("a\\qb".to_string(), 4, 4, 4));
}

#[test]
fn backslash_before_the_end_of_the_line_is_text() {
    assert_eq!(failure("\"a\\").0, 4);
}

#[test]
fn digit_run_with_a_letter_beyond_f_is_not_decoded() {
    let mut lines = Lines::new(None, "\"\\u12g\"");
    assert!(StringUTF8::parse_checked(&mut lines, false).is_none());
    let mut lines = Lines::new(None, "\"\\xzz\"");
    assert!(StringUTF8::parse_checked(&mut lines, false).is_none());
    assert!(parse_checked("main.ml", "\"\\u12g\"", &0).is_none());
}

#[test]
fn raw_mode_knows_the_quote_escape_only() {
    let (r, cols) = decode("\"a\\nb\\\"c\\u41\"", true);
    let d = r.unwrap();
    assert_eq!(d.string_utf8, "a\\nb\"c\\u41");
    assert_eq!(d.string_length, 10);
    assert_eq!(d.original_length, 11);
    assert_eq!(cols, 11);
}

#[test]
fn raw_mode_reads_any_digit_run() {
    let (r, _) = decode("\"\\uzz\"", true);
    assert_eq!(r.unwrap().string_utf8, "\\uzz");
}

#[test]
fn source_length_is_never_below_decoded_length() {
    for line in ["\"\"", "\"abc\"", "\"a\\nb\"", "\"\\u0041\"", "\"\\x41\\x42\"", "\"\\q\""] {
        let (text, n, raw, _) = decoded(line);
        assert!(raw >= n);
        let body: String = line.chars().skip(1).take(raw).collect();
        assert_eq!(raw == n, text == body);
    }
}

fn escape(text: &str) -> String {
    let mut out = String::from("\"");
    for c in text.chars() {
        match c {
            '\x00' => out.push_str("\\0"),
            '\x07' => out.push_str("\\a"),
            '\x08' => out.push_str("\\b"),
            '\x0C' => out.push_str("\\f"),
            '\n' => out.push_str("\\n"),
            '\r' => out.push_str("\\r"),
            '\t' => out.push_str("\\t"),
            '\x0B' => out.push_str("\\v"),
            '\\' => out.push_str("\\\\"),
            '"' => out.push_str("\\\""),
            other => out.push(other),
        }
    }
    out.push('"');
    out
}

#[test]
fn escaping_and_decoding_gives_the_text_back() {
    for line in ["\"a\\u0041 \\x42\\n\\\\ \\\"q\\\" \\s\\{\\}\"", "\"\\0\\a\\b\\f\\r\\t\\v'\"", "\"\""] {
        let (text, _, _, _) = decoded(line);
        let source = escape(&text);
        let (again, n, raw, _) = decoded(&source);
        assert_eq!(again, text);
        assert_eq!(n, text.chars().count());
        assert_eq!(raw, source.chars().count() - 2);
    }
}

#[test]
fn plain_line_decoding() {
    let d = parse("main.ml", "x = \"a\\tb\"", &4).unwrap();
    assert_eq!(d.new_string, "a\tb");
    assert_eq!(d.string_length, 3);
    assert_eq!(d.original_length, 4);
    let e = parse("main.ml", "\"abc", &0).unwrap_err();
    assert_eq!(e.status_code, 4);
}

#[test]
fn plain_line_raw_decoding() {
    let d = parse_raw("main.ml", "\"a\\tb\\\"\"", &0).unwrap();
    assert_eq!(d.new_string, "a\\tb\"");
    assert_eq!(d.string_length, 5);
    assert_eq!(d.original_length, 6);
    let e = parse_raw("main.ml", "\"a\nb\"", &0).unwrap_err();
    assert_eq!(e.status_code, 0);
}

#[test]
fn bounded_slice_of_a_buffer() {
    let chars: Vec<char> = "Hello, world!\n".chars().collect();
    let n = chars.len();
    assert_eq!(slice_vector_chars(&chars, n, 0, 14), "Hello, world!\n");
    assert_eq!(slice_vector_chars(&chars, n, 7, 12), "world!\n");
    assert_eq!(slice_vector_chars(&chars, n, 7, 5), "world");
    assert_eq!(slice_vector_chars(&chars, n, 0, 100), "Hello, world!\n");
    assert_eq!(slice_vector_chars(&chars, n, 100, 150), "");
    assert_eq!(slice_vector_chars(&chars, n, 100, 50), "");
    assert_eq!(slice_vector_chars(&chars, n, 7, 0), "world!\n");
    assert_eq!(slice_vector_chars(&chars, 5, 0, 0), "Hello");
    assert_eq!(slice_vector_chars(&chars, 20, 0, 5), "Hello");
    assert_eq!(slice_vector_chars(&chars, 20, 0, 0), "");
    assert_eq!(slice_vector_chars(&chars, n, 14, 3), "");
    assert_eq!(slice_vector_chars(&chars, n, usize::MAX, usize::MAX), "");
}

#[test]
fn lines_are_built_with_defaults() {
    let lines = Lines::new(None, "héllo");
    assert_eq!(lines.vector_char, vec!['h', 'é', 'l', 'l', 'o']);
    assert_eq!(lines.length, 5);
    assert_eq!(lines.path, "main.ml");
    assert_eq!(lines.line, "héllo");
    assert_eq!((lines.rows, lines.cols), (0, 0));
    let named = Lines::new(Some("a.ml"), "");
    assert_eq!(named.path, "a.ml");
    assert_eq!(named.length, 0);
}

#[test]
fn lines_are_built_with_a_position() {
    let lines = Lines::from("b.ml", "abc", 7, 2);
    assert_eq!(lines.vector_char, vec!['a', 'b', 'c']);
    assert_eq!(lines.length, 3);
    assert_eq!(lines.path, "b.ml");
    assert_eq!(lines.line, "abc");
    assert_eq!((lines.rows, lines.cols), (7, 2));
}

#[test]
fn slice_of_a_line_never_fails() {
    let lines = Lines::new(None, "Hello, world");
    assert_eq!(lines.slice_lines(0, None), "Hello, world");
    assert_eq!(lines.slice_lines(7, None), "world");
    assert_eq!(lines.slice_lines(7, Some(3)), "wor");
    assert_eq!(lines.slice_lines(7, Some(0)), "");
    assert_eq!(lines.slice_lines(7, Some(usize::MAX)), "world");
    assert_eq!(lines.slice_lines(12, None), "");
    assert_eq!(lines.slice_lines(13, Some(1)), "");
    assert_eq!(lines.slice_lines(usize::MAX, None), "");
}

#[test]
fn cursor_beyond_the_line_is_left_alone() {
    let mut lines = Lines::from("main.ml", "\"ab\"", 0, 9);
    let d = StringUTF8::parse(&mut lines, false).unwrap();
    assert_eq!(d.string_utf8, "");
    assert_eq!(lines.cols, 9);
}

#[test]
fn decoding_starts_at_the_cursor() {
    let mut lines = Lines::from("main.ml", "\"ab\" \"cd\"", 0, 4);
    let d = StringUTF8::parse(&mut lines, false).unwrap();
    assert_eq!(d.string_utf8, "cd");
    assert_eq!(lines.cols, 7);
}

use http::request::{HttpMethod, Request};
use http::text::{
    after_space, after_word, chars_of, find, find_last_piece, first_piece_of, join_from,
    last_piece_of, lines_of, slice_of, split_at, string_from, string_of, trim,
};

fn chars(s: &str) -> Vec<char> {
    s.chars().collect()
}

fn rows(parts: &[&str]) -> Vec<Vec<char>> {
    parts.iter().map(|part| chars(part)).collect()
}

#[test]
fn strings_and_characters_convert_both_ways() {
    assert_eq!(chars_of("a\u{e9}/"), vec!['a', '\u{e9}', '/']);
    assert_eq!(chars_of(""), Vec::<char>::new());
    assert_eq!(string_of(&chars("hello"), 1, 4), "ell");
    assert_eq!(string_of(&chars("hello"), 2, 2), "");
    assert_eq!(string_from(&chars("hello")), "hello");
    assert_eq!(slice_of(&chars("hello"), 0, 2), chars("he"));
}

#[test]
fn characters_are_found_from_both_ends() {
    let text = chars("a:b:c");
    assert_eq!(find(&text, 0, ':'), 1);
    assert_eq!(find(&text, 2, ':'), 3);
    assert_eq!(find(&text, 4, ':'), 5);
    assert_eq!(find(&text, 5, ':'), 5);
    assert_eq!(find_last_piece(&text, ':'), 4);
    assert_eq!(find_last_piece(&chars("abc"), ':'), 0);
    assert_eq!(find_last_piece(&chars("abc:"), ':'), 4);
    assert_eq!(first_piece_of(&text, ':'), chars("a"));
    assert_eq!(last_piece_of(&text, ':'), chars("c"));
    assert_eq!(first_piece_of(&chars("abc"), ':'), chars("abc"));
    assert_eq!(last_piece_of(&chars("abc"), ':'), chars("abc"));
}

#[test]
fn white_space_is_skipped_and_trimmed() {
    let text = chars(" \t ab  c\u{2003}\n");
    assert_eq!(after_space(&text, 0), 3);
    assert_eq!(after_word(&text, 3), 5);
    assert_eq!(after_space(&text, 5), 7);
    assert_eq!(after_word(&text, 7), 8);
    assert_eq!(after_space(&text, 8), 10);
    assert_eq!(trim(&text), chars("ab  c"));
    assert_eq!(trim(&chars("   ")), chars(""));
    assert_eq!(trim(&chars("")), chars(""));
    assert_eq!(trim(&chars("x")), chars("x"));
}

#[test]
fn splitting_gives_one_piece_more_than_separators() {
    assert_eq!(split_at(&chars("a&b&c"), '&'), rows(&["a", "b", "c"]));
    assert_eq!(split_at(&chars(""), '&'), rows(&[""]));
    assert_eq!(split_at(&chars("&"), '&'), rows(&["", ""]));
    assert_eq!(split_at(&chars("a&&b&"), '&'), rows(&["a", "", "b", ""]));
}

#[test]
fn lines_end_at_line_feeds() {
    assert_eq!(lines_of(&chars("a\nb\r\nc")), rows(&["a", "b", "c"]));
    assert_eq!(lines_of(&chars("a\n")), rows(&["a"]));
    assert_eq!(lines_of(&chars("a\n\n")), rows(&["a", ""]));
    assert_eq!(lines_of(&chars("")), rows(&[]));
    assert_eq!(lines_of(&chars("\r\n")), rows(&[""]));
    assert_eq!(lines_of(&chars("a\r")), rows(&["a\r"]));
    assert_eq!(lines_of(&chars("a\rb\n\r")), rows(&["a\rb", "\r"]));
    for text in ["x\r\ny\n\nz", "\n\n", "\r\r\n", "one", "a\n\rb\r\n"] {
        let expected: Vec<Vec<char>> = text.lines().map(|line| chars(line)).collect();
        assert_eq!(lines_of(&chars(text)), expected);
    }
}

#[test]
fn rows_are_joined_with_the_separator_between_them() {
    let all = rows(&["a", "", "bc"]);
    assert_eq!(join_from(&all, 0, '\n'), "a\n\nbc");
    assert_eq!(join_from(&all, 1, '\n'), "\nbc");
    assert_eq!(join_from(&all, 2, '\n'), "bc");
    assert_eq!(join_from(&all, 3, '\n'), "");
}

#[test]
fn parts_of_a_message_are_parsed_one_by_one() {
    assert_eq!(
        Request::parse_status_line(&chars("DELETE /a/b HTTP/1.1")),
        (HttpMethod::Delete, "/a/b".to_string())
    );
    assert_eq!(Request::parse_status_line(&chars("DELETE")), (HttpMethod::Get, "/".to_string()));
    let params = Request::parse_query_params(&chars("/p?x:1&y:2"));
    assert_eq!(params.len(), 2);
    assert_eq!(params.get("x").unwrap(), "1");
    assert_eq!(params.get("y").unwrap(), "2");
    assert!(Request::parse_query_params(&chars("/p")).is_empty());
    let lines = rows(&["GET / HTTP/1.1", "A: 1", "B : 2", "", "body"]);
    let (headers, body_from) = Request::parse_headers(&lines, 1);
    assert_eq!(body_from, 4);
    assert_eq!(headers.len(), 2);
    assert_eq!(headers.get("A").unwrap(), "1");
    assert_eq!(headers.get("B").unwrap(), "2");
    let (headers, body_from) = Request::parse_headers(&lines, 5);
    assert_eq!(body_from, 5);
    assert!(headers.is_empty());
    let (headers, body_from) = Request::parse_headers(&lines, 3);
    assert_eq!(body_from, 4);
    assert!(headers.is_empty());
}

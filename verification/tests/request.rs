use http::request::{HttpMethod, Request, RequestData};
use http::matcher::RouteMatcher;

fn buffer_of(bytes: &[u8]) -> [u8; 1024] {
    let mut buffer = [0u8; 1024];
    buffer[..bytes.len()].copy_from_slice(bytes);
    buffer
}

#[test]
fn verbs_are_read_whatever_their_case() {
    assert_eq!(HttpMethod::from("GET"), HttpMethod::Get);
    assert_eq!(HttpMethod::from("get"), HttpMethod::Get);
    assert_eq!(HttpMethod::from("Post"), HttpMethod::Post);
    assert_eq!(HttpMethod::from("pUt"), HttpMethod::Put);
    assert_eq!(HttpMethod::from("PATCH"), HttpMethod::Patch);
    assert_eq!(HttpMethod::from("DELETE"), HttpMethod::Delete);
    assert_eq!(HttpMethod::from("OPTIONS"), HttpMethod::Options);
}

#[test]
fn unknown_verbs_are_errors() {
    assert_eq!(HttpMethod::from("BREW"), HttpMethod::Error);
    assert_eq!(HttpMethod::from(""), HttpMethod::Error);
    assert_eq!(HttpMethod::from("GET "), HttpMethod::Error);
    assert_eq!(HttpMethod::from("HEAD"), HttpMethod::Error);
}

#[test]
fn lowercase_verbs_are_matched_exactly() {
    assert_eq!(HttpMethod::from_lowercase("get"), HttpMethod::Get);
    assert_eq!(HttpMethod::from_lowercase("post"), HttpMethod::Post);
    assert_eq!(HttpMethod::from_lowercase("put"), HttpMethod::Put);
    assert_eq!(HttpMethod::from_lowercase("patch"), HttpMethod::Patch);
    assert_eq!(HttpMethod::from_lowercase("delete"), HttpMethod::Delete);
    assert_eq!(HttpMethod::from_lowercase("options"), HttpMethod::Options);
    assert_eq!(HttpMethod::from_lowercase("GET"), HttpMethod::Error);
}

#[test]
fn methods_are_printed_by_name() {
    assert_eq!(HttpMethod::Get.name(), "Get");
    assert_eq!(HttpMethod::Post.name(), "Post");
    assert_eq!(HttpMethod::Put.name(), "Put");
    assert_eq!(HttpMethod::Patch.name(), "Patch");
    assert_eq!(HttpMethod::Delete.name(), "Delete");
    assert_eq!(HttpMethod::Options.name(), "Options");
    assert_eq!(HttpMethod::Error.name(), "_");
}

#[test]
fn methods_have_keys_of_their_own() {
    let methods = [
        HttpMethod::Get,
        HttpMethod::Post,
        HttpMethod::Put,
        HttpMethod::Patch,
        HttpMethod::Delete,
        HttpMethod::Options,
        HttpMethod::Error,
    ];
    for (i, one) in methods.iter().enumerate() {
        assert_eq!(one.code() as usize, i);
    }
}

#[test]
fn request_is_read_from_a_buffer() {
    let message = b"GET /user/3?a:1&b:2 HTTP/1.1\r\nHost: localhost\r\nContent-Type: text/plain\r\n\r\nhello\nworld";
    let request = Request::new(buffer_of(message));
    assert_eq!(*request.method(), HttpMethod::Get);
    assert_eq!(request.route(), "/user/3?a:1&b:2");
    assert_eq!(request.get_header("Host").unwrap(), "localhost");
    assert_eq!(request.get_header("Content-Type").unwrap(), "text/plain");
    assert!(request.get_header("host").is_none());
    assert_eq!(request.get_query_params("a").unwrap(), "1");
    assert_eq!(request.get_query_params("b").unwrap(), "2");
    assert!(request.get_query_params("c").is_none());
    assert!(request.get_url_param("a").is_none());
    let mut body = b"hello\nworld".to_vec();
    body.resize(1024 - message.len() + body.len(), 0);
    assert_eq!(request.body(), &body[..]);
}

#[test]
fn empty_buffer_is_a_get_of_the_root() {
    let request = Request::new([0u8; 1024]);
    assert_eq!(*request.method(), HttpMethod::Get);
    assert_eq!(request.route(), "/");
    assert!(request.body().is_empty());
}

#[test]
fn bytes_that_are_no_text_are_replaced() {
    let request = Request::from_text("x");
    assert_eq!(request.body(), b"");
    let mut buffer = [b'a'; 1024];
    buffer[..18].copy_from_slice(b"GET / HTTP/1.1\n\n\xffb");
    let request = Request::new(buffer);
    let body = request.body();
    assert_eq!(&body[..5], b"\xef\xbf\xbdba");
    assert_eq!(body.len(), 1024 - 16 + 2);
}

#[test]
fn status_line_with_fewer_than_two_words_is_a_get_of_the_root() {
    for text in ["", "GET", "   ", "POST\r\nHost: x\r\n"] {
        let request = Request::from_text(text);
        assert_eq!(*request.method(), HttpMethod::Get);
        assert_eq!(request.route(), "/");
    }
}

#[test]
fn words_of_the_status_line_are_split_at_white_space() {
    let request = Request::from_text("  post \t /x\u{a0}HTTP/1.1 ");
    assert_eq!(*request.method(), HttpMethod::Post);
    assert_eq!(request.route(), "/x");
    let request = Request::from_text("BREW /pot");
    assert_eq!(*request.method(), HttpMethod::Error);
    assert_eq!(request.route(), "/pot");
}

#[test]
fn headers_end_at_the_first_empty_line() {
    let request = Request::from_text("GET / HTTP/1.1\nA: 1\n\nB: 2\nC: 3\n");
    assert_eq!(request.get_header("A").unwrap(), "1");
    assert!(request.get_header("B").is_none());
    assert_eq!(request.body(), b"B: 2\nC: 3");
}

#[test]
fn header_name_and_value_are_trimmed() {
    let request = Request::from_text("GET / HTTP/1.1\r\n  Accept \t:   text/html  \r\n\r\n");
    assert_eq!(request.get_header("Accept").unwrap(), "text/html");
    assert!(request.get_header("  Accept \t").is_none());
}

#[test]
fn header_value_is_what_follows_the_last_colon() {
    let request = Request::from_text("GET / HTTP/1.1\nHost: localhost:3000\nWeird\nEmpty:\n:x\n");
    assert_eq!(request.get_header("Host").unwrap(), "3000");
    assert_eq!(request.get_header("Weird").unwrap(), "Weird");
    assert_eq!(request.get_header("Empty").unwrap(), "");
    assert_eq!(request.get_header("").unwrap(), "x");
}

#[test]
fn later_header_of_a_name_stands() {
    let request = Request::from_text("GET / HTTP/1.1\nA: 1\nA: 2\n");
    assert_eq!(request.get_header("A").unwrap(), "2");
}

#[test]
fn body_lines_are_joined_by_line_feeds() {
    let request = Request::from_text("GET / HTTP/1.1\r\n\r\none\r\ntwo\r\n\r\nthree\r\n");
    assert_eq!(request.body(), b"one\ntwo\n\nthree");
    let request = Request::from_text("GET / HTTP/1.1\n\na\rb\r");
    assert_eq!(request.body(), b"a\rb\r");
    let request = Request::from_text("GET / HTTP/1.1\nA: 1");
    assert_eq!(request.body(), b"");
}

#[test]
fn query_parameters_are_cut_at_ampersands_and_colons() {
    let request = Request::from_text("GET /x?a:1&b:2:3&c HTTP/1.1");
    assert_eq!(request.route(), "/x?a:1&b:2:3&c");
    assert_eq!(request.get_query_params("a").unwrap(), "1");
    assert_eq!(request.get_query_params("b").unwrap(), "3");
    assert_eq!(request.get_query_params("c").unwrap(), "c");
    let request = Request::from_text("GET /x?a=1 HTTP/1.1");
    assert_eq!(request.get_query_params("a=1").unwrap(), "a=1");
    assert!(request.get_query_params("a").is_none());
}

#[test]
fn query_ends_at_a_second_question_mark() {
    let request = Request::from_text("GET /x?a:1?b:2 HTTP/1.1");
    assert_eq!(request.get_query_params("a").unwrap(), "1");
    assert!(request.get_query_params("b").is_none());
    let request = Request::from_text("GET /x? HTTP/1.1");
    assert_eq!(request.get_query_params("").unwrap(), "");
    let request = Request::from_text("GET /x HTTP/1.1");
    assert!(request.get_query_params("").is_none());
}

#[test]
fn parameters_can_be_set_after_parsing() {
    let mut request = Request::from_text("GET /user/3?q:1 HTTP/1.1");
    assert!(request.get_url_param("id").is_none());
    request.set_url_params(RouteMatcher::new("/user/:id").matches("/user/3"));
    assert_eq!(request.get_url_param("id").unwrap(), "3");
    request.set_url_params(None);
    assert_eq!(request.get_url_param("id").unwrap(), "3");
    request.set_query_params(None);
    assert_eq!(request.get_query_params("q").unwrap(), "1");
    request.set_query_params(RouteMatcher::new("/:r").matches("/s"));
    assert!(request.get_query_params("q").is_none());
    assert_eq!(request.get_query_params("r").unwrap(), "s");
    assert_eq!(request.route(), "/user/3?q:1");
}

#[test]
fn parsed_parts_are_kept_as_given() {
    let parts = Request::parse_text("PUT /a?k:v HTTP/1.1\nH: 1\n\nbody");
    assert_eq!(parts.method, HttpMethod::Put);
    assert_eq!(parts.route, "/a?k:v");
    assert_eq!(parts.body, b"body".to_vec());
    assert_eq!(parts.headers.get("H").unwrap(), "1");
    assert_eq!(parts.query_params.get("k").unwrap(), "v");
    let again = RequestData::new(
        parts.headers,
        parts.query_params,
        parts.body,
        HttpMethod::Delete,
        String::from("/b"),
    );
    assert_eq!(again.method, HttpMethod::Delete);
    assert_eq!(again.route, "/b");
    assert_eq!(again.headers.len(), 1);
    let parts = Request::parse_request(buffer_of(b"PATCH /p HTTP/1.1"));
    assert_eq!(parts.method, HttpMethod::Patch);
    assert_eq!(parts.route, "/p");
}

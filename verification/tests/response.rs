use http::response::Response;

fn text(response: &Response) -> String {
    String::from_utf8(response.build_response()).unwrap()
}

#[test]
fn new_response_is_an_empty_200() {
    assert_eq!(text(&Response::new()), "HTTP/1.1 200\r\n\r\n\r\n\r\n");
}

#[test]
fn response_is_framed_with_headers_and_body() {
    let mut response = Response::new();
    response.set_header("Content-Type", "application/json");
    response.set_status(404);
    response.set_body("{\"error\": \"not found\"}");
    assert_eq!(
        response.build_response(),
        b"HTTP/1.1 404\r\nContent-Type: application/json\r\n\r\n\r\n{\"error\": \"not found\"}\r\n"
            .to_vec()
    );
}

#[test]
fn there_is_one_line_for_each_header() {
    let mut response = Response::new();
    response.set_header("A", "1");
    response.set_header("B", "2");
    response.set_header("C", "3");
    assert_eq!(text(&response), "HTTP/1.1 200\r\nA: 1\r\nB: 2\r\nC: 3\r\n\r\n\r\n\r\n");
}

#[test]
fn setting_a_header_again_replaces_its_value() {
    let mut response = Response::new();
    response.set_header("A", "1");
    response.set_header("B", "2");
    response.set_header("A", "3");
    assert_eq!(text(&response), "HTTP/1.1 200\r\nA: 3\r\nB: 2\r\n\r\n\r\n\r\n");
}

#[test]
fn header_names_are_case_sensitive() {
    let mut response = Response::new();
    response.set_header("a", "1");
    response.set_header("A", "2");
    assert_eq!(text(&response), "HTTP/1.1 200\r\na: 1\r\nA: 2\r\n\r\n\r\n\r\n");
}

#[test]
fn status_is_written_in_decimal() {
    for (status, digits) in
        [(0usize, "0"), (7, "7"), (10, "10"), (200, "200"), (999, "999"), (1234567890, "1234567890")]
    {
        let mut response = Response::new();
        response.set_status(status);
        assert_eq!(text(&response), format!("HTTP/1.1 {}\r\n\r\n\r\n\r\n", digits));
    }
    let mut response = Response::new();
    response.set_status(usize::MAX);
    assert_eq!(text(&response), format!("HTTP/1.1 {}\r\n\r\n\r\n\r\n", usize::MAX));
}

#[test]
fn body_is_written_as_utf8() {
    let mut response = Response::new();
    response.set_body("caf\u{e9} \u{1f600}");
    assert_eq!(
        response.build_response(),
        b"HTTP/1.1 200\r\n\r\n\r\ncaf\xc3\xa9 \xf0\x9f\x98\x80\r\n".to_vec()
    );
}

#[test]
fn later_body_replaces_the_earlier() {
    let mut response = Response::new();
    response.set_body("one");
    response.set_body("two");
    assert_eq!(text(&response), "HTTP/1.1 200\r\n\r\n\r\ntwo\r\n");
}

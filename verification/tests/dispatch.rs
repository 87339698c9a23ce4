use http::dispatch::{find_handler, not_found_handler};
use http::request::{HttpMethod, Request};
use http::response::Response;
use http::router::Router;

#[test]
fn not_found_is_a_404_with_a_json_body() {
    let request = Request::from_text("GET /nowhere HTTP/1.1");
    let mut response = Response::new();
    not_found_handler(&request, &mut response);
    assert_eq!(
        response.build_response(),
        b"HTTP/1.1 404\r\nContent-Type: application/json\r\n\r\n\r\n{\"error\": \"not found\"}\r\n"
            .to_vec()
    );
}

#[test]
fn not_found_keeps_the_other_headers() {
    let request = Request::from_text("GET /nowhere HTTP/1.1");
    let mut response = Response::new();
    response.set_header("X", "1");
    response.set_header("Content-Type", "text/plain");
    response.set_body("old");
    not_found_handler(&request, &mut response);
    assert_eq!(
        response.build_response(),
        b"HTTP/1.1 404\r\nX: 1\r\nContent-Type: application/json\r\n\r\n\r\n{\"error\": \"not found\"}\r\n"
            .to_vec()
    );
}

fn tables() -> Vec<Router<u32>> {
    let mut first: Router<u32> = Router::new("/");
    first.get("/a/:x", 1);
    first.post("/b", 2);
    let mut second: Router<u32> = Router::new("/");
    second.get("/a/fixed", 3);
    second.get("/b", 4);
    vec![first, second]
}

#[test]
fn first_table_with_a_match_wins() {
    let routers = tables();
    let (handler, binding) = find_handler(&routers, &HttpMethod::Get, "/a/fixed").unwrap();
    assert_eq!(*handler, 1);
    assert_eq!(binding.unwrap().get("x").unwrap(), "fixed");
}

#[test]
fn later_tables_are_asked_where_earlier_ones_have_no_match() {
    let routers = tables();
    let (handler, binding) = find_handler(&routers, &HttpMethod::Get, "/b").unwrap();
    assert_eq!(*handler, 4);
    assert!(binding.unwrap().is_empty());
    let (handler, _) = find_handler(&routers, &HttpMethod::Post, "/b").unwrap();
    assert_eq!(*handler, 2);
}

#[test]
fn nothing_is_found_where_no_table_matches() {
    let routers = tables();
    assert!(find_handler(&routers, &HttpMethod::Get, "/c").is_none());
    assert!(find_handler(&routers, &HttpMethod::Delete, "/b").is_none());
    let none: Vec<Router<u32>> = Vec::new();
    assert!(find_handler(&none, &HttpMethod::Get, "/").is_none());
}

use whiteboard_sync::framer::Request;
use whiteboard_sync::model::Error;
use whiteboard_sync::route::{payload, route, route_by_parts, split_request_line, RequestLine, Route};

fn parts(method: &str, path: &str, version: &str) -> RequestLine {
    RequestLine { method: method.to_string(), path: path.to_string(), version: version.to_string() }
}

#[test]
fn request_line_falls_into_method_path_and_version() {
    assert_eq!(split_request_line("GET / HTTP/1.1"), Some(parts("GET", "/", "HTTP/1.1")));
    assert_eq!(
        split_request_line("POST /send_lines HTTP/1.1"),
        Some(parts("POST", "/send_lines", "HTTP/1.1"))
    );
    assert_eq!(split_request_line("a b c d e"), Some(parts("a", "b", "c d e")));
    assert_eq!(split_request_line("  "), Some(parts("", "", "")));
    assert_eq!(split_request_line("GET  /"), Some(parts("GET", "", "/")));
    assert_eq!(split_request_line("GET / "), Some(parts("GET", "/", "")));
    assert_eq!(split_request_line("\u{e9} \u{fc} \u{f6}"), Some(parts("\u{e9}", "\u{fc}", "\u{f6}")));
}

#[test]
fn request_line_with_fewer_than_two_spaces_has_no_parts() {
    assert_eq!(split_request_line(""), None);
    assert_eq!(split_request_line("GET"), None);
    assert_eq!(split_request_line("GET /"), None);
    assert_eq!(split_request_line(" "), None);
}

#[test]
fn each_route_by_its_request_line() {
    assert_eq!(route("GET / HTTP/1.1"), Route::Index);
    assert_eq!(route("GET /wasm/frontend.js HTTP/1.1"), Route::Script);
    assert_eq!(route("GET /wasm/frontend_bg.wasm HTTP/1.1"), Route::Wasm);
    assert_eq!(route("POST /hello HTTP/1.1"), Route::Hello);
    assert_eq!(route("POST /send_lines HTTP/1.1"), Route::SendLines);
    assert_eq!(route("GET /get_lines HTTP/1.1"), Route::GetLines);
    assert_eq!(route("POST /clear_lines HTTP/1.1"), Route::ClearLines);
}

#[test]
fn each_route_by_its_parts() {
    assert_eq!(route_by_parts(&parts("GET", "/", "HTTP/1.1")), Route::Index);
    assert_eq!(route_by_parts(&parts("GET", "/wasm/frontend.js", "HTTP/1.1")), Route::Script);
    assert_eq!(route_by_parts(&parts("GET", "/wasm/frontend_bg.wasm", "HTTP/1.1")), Route::Wasm);
    assert_eq!(route_by_parts(&parts("POST", "/hello", "HTTP/1.1")), Route::Hello);
    assert_eq!(route_by_parts(&parts("POST", "/send_lines", "HTTP/1.1")), Route::SendLines);
    assert_eq!(route_by_parts(&parts("GET", "/get_lines", "HTTP/1.1")), Route::GetLines);
    assert_eq!(route_by_parts(&parts("POST", "/clear_lines", "HTTP/1.1")), Route::ClearLines);
    assert_eq!(route_by_parts(&parts("POST", "/", "HTTP/1.1")), Route::NotFound);
    assert_eq!(route_by_parts(&parts("GET", "/hello", "HTTP/1.1")), Route::NotFound);
    assert_eq!(route_by_parts(&parts("GET", "/", "HTTP/1.0")), Route::NotFound);
    assert_eq!(route_by_parts(&parts("GET", "/", "HTTP/1.1 ")), Route::NotFound);
}

#[test]
fn anything_else_is_not_found() {
    assert_eq!(route(""), Route::NotFound);
    assert_eq!(route("GET /missing HTTP/1.1"), Route::NotFound);
    assert_eq!(route("GET /get_lines HTTP/1.0"), Route::NotFound);
    assert_eq!(route("GET /get_lines"), Route::NotFound);
    assert_eq!(route("POST /get_lines HTTP/1.1"), Route::NotFound);
    assert_eq!(route("GET /hello HTTP/1.1"), Route::NotFound);
    assert_eq!(route("GET  / HTTP/1.1"), Route::NotFound);
    assert_eq!(route(" GET / HTTP/1.1"), Route::NotFound);
    assert_eq!(route("get / http/1.1"), Route::NotFound);
    assert_eq!(route("GET / HTTP/1.1 "), Route::NotFound);
    assert_eq!(route("GET /?x HTTP/1.1"), Route::NotFound);
}

#[test]
fn routes_that_read_content() {
    assert!(Route::Hello.takes_content());
    assert!(Route::SendLines.takes_content());
    for route in [Route::Index, Route::Script, Route::Wasm, Route::GetLines, Route::ClearLines, Route::NotFound]
    {
        assert!(!route.takes_content());
    }
}

#[test]
fn payload_of_a_write_route_is_the_content() {
    let request =
        Request { request_line: "POST /hello HTTP/1.1".to_string(), content: Some("42".to_string()) };
    assert_eq!(payload(&request, Route::Hello), Ok(Some("42")));
    assert_eq!(payload(&request, Route::SendLines), Ok(Some("42")));
}

#[test]
fn payload_of_a_write_route_without_content_is_missing() {
    let request = Request { request_line: "POST /hello HTTP/1.1".to_string(), content: None };
    assert_eq!(payload(&request, Route::Hello), Err(Error::MissingContent));
    assert_eq!(payload(&request, Route::SendLines), Err(Error::MissingContent));
}

#[test]
fn payload_of_the_other_routes_is_none() {
    let request =
        Request { request_line: "GET / HTTP/1.1".to_string(), content: Some("x".to_string()) };
    for route in [Route::Index, Route::Script, Route::Wasm, Route::GetLines, Route::ClearLines, Route::NotFound]
    {
        assert_eq!(payload(&request, route), Ok(None));
    }
}

use whiteboard_sync::framer::{read_request, request_body, Framer};
use whiteboard_sync::model::Error;
use whiteboard_sync::route::Route;

fn stream(lines: &[&str]) -> Vec<String> {
    lines.iter().map(|line| line.to_string()).collect()
}

#[test]
fn empty_stream_is_no_request() {
    assert!(matches!(read_request(&stream(&[])), Ok(None)));
}

#[test]
fn blank_first_line_is_no_request() {
    assert!(matches!(read_request(&stream(&["", "GET / HTTP/1.1"])), Ok(None)));
}

#[test]
fn read_request_ends_at_the_first_blank_line() {
    let request = read_request(&stream(&[
        "GET /get_lines HTTP/1.1",
        "Host: localhost",
        "Accept: */*",
        "",
        "ignored",
    ]))
    .unwrap()
    .unwrap();
    assert_eq!(request.request_line, "GET /get_lines HTTP/1.1");
    assert_eq!(request.content, None);
}

#[test]
fn read_request_of_one_line() {
    let request = read_request(&stream(&["GET / HTTP/1.1"])).unwrap().unwrap();
    assert_eq!(request.request_line, "GET / HTTP/1.1");
    assert_eq!(request.content, None);
}

#[test]
fn write_request_takes_the_line_after_the_blank_line() {
    let request = read_request(&stream(&[
        "POST /send_lines HTTP/1.1",
        "Host: localhost",
        "Content-Type: application/json",
        "",
        "{\"lines\":{},\"flag\":\"none\"}",
        "",
        "never read",
    ]))
    .unwrap()
    .unwrap();
    assert_eq!(request.request_line, "POST /send_lines HTTP/1.1");
    assert_eq!(request.content.as_deref(), Some("{\"lines\":{},\"flag\":\"none\"}"));
}

#[test]
fn write_request_that_ends_with_the_stream() {
    let request =
        read_request(&stream(&["POST /hello HTTP/1.1", "Host: localhost", "", "42"])).unwrap().unwrap();
    assert_eq!(request.request_line, "POST /hello HTTP/1.1");
    assert_eq!(request.content.as_deref(), Some("42"));
}

#[test]
fn write_request_takes_the_last_line_as_content() {
    let request = read_request(&stream(&["POST /hello HTTP/1.1", "Host: x", "", "1", "2"]))
        .unwrap()
        .unwrap();
    assert_eq!(request.content.as_deref(), Some("2"));
}

#[test]
fn write_request_without_content_is_an_error() {
    let outcome = read_request(&stream(&["POST /send_lines HTTP/1.1", "Host: localhost"]));
    assert!(matches!(outcome, Err(Error::MissingContent)));
    let outcome = read_request(&stream(&["POST /hello HTTP/1.1"]));
    assert!(matches!(outcome, Err(Error::MissingContent)));
}

#[test]
fn write_request_with_only_the_blank_line_behind_the_headers() {
    let outcome = read_request(&stream(&["POST /send_lines HTTP/1.1", "Host: localhost", ""]));
    assert!(matches!(outcome, Err(Error::MissingContent)));
    let outcome = read_request(&stream(&[
        "POST /send_lines HTTP/1.1",
        "Host: h",
        "Content-Type: application/json",
        "",
    ]));
    assert!(matches!(outcome, Err(Error::MissingContent)));
}

#[test]
fn write_request_whose_headers_end_with_the_stream() {
    let outcome = read_request(&stream(&[
        "POST /send_lines HTTP/1.1",
        "Host: h",
        "Content-Type: application/json",
    ]));
    assert!(matches!(outcome, Err(Error::MissingContent)));
}

#[test]
fn write_request_with_two_blank_lines_behind_the_headers() {
    let outcome =
        read_request(&stream(&["POST /hello HTTP/1.1", "Host: h", "", "", "42", ""]));
    assert!(matches!(outcome, Err(Error::MissingContent)));
}

#[test]
fn write_request_without_headers_has_its_content() {
    let request = read_request(&stream(&["POST /hello HTTP/1.1", "", "42", ""])).unwrap().unwrap();
    assert_eq!(request.request_line, "POST /hello HTTP/1.1");
    assert_eq!(request.content.as_deref(), Some("42"));
}

#[test]
fn framer_without_content_line_reports_it_missing() {
    let mut framer = Framer::new();
    assert!(framer.push("POST /send_lines HTTP/1.1".to_string()));
    assert!(framer.push("Host: h".to_string()));
    assert!(framer.push("Content-Type: application/json".to_string()));
    assert!(framer.push("".to_string()));
    assert!(matches!(framer.finish(), Err(Error::MissingContent)));
}

#[test]
fn request_body_ends_with_the_blank_line() {
    assert_eq!(request_body("42".to_string()), "42\r\n\r\n");
    assert_eq!(request_body(String::new()), "\r\n\r\n");
    let lines: Vec<String> = format!(
        "POST /hello HTTP/1.1\r\nhost: h\r\n\r\n{}",
        request_body("42".to_string())
    )
    .split("\r\n")
    .map(|line| line.to_string())
    .collect();
    let request = read_request(&lines).unwrap().unwrap();
    assert_eq!(request.content.as_deref(), Some("42"));
}

#[test]
fn post_to_another_path_is_a_read_request() {
    let request = read_request(&stream(&["POST /clear_lines HTTP/1.1", "Host: x", "", "body"]))
        .unwrap()
        .unwrap();
    assert_eq!(request.request_line, "POST /clear_lines HTTP/1.1");
    assert_eq!(request.content, None);
}

#[test]
fn a_later_line_can_make_the_request_a_write_request() {
    let request =
        read_request(&stream(&["GET / HTTP/1.1", "POST /hello", "", "7", ""])).unwrap().unwrap();
    assert_eq!(request.request_line, "GET / HTTP/1.1");
    assert_eq!(request.content.as_deref(), Some("7"));
}

#[test]
fn classify_asks_for_post_at_the_start_and_a_write_path() {
    assert!(Framer::classify("POST /hello HTTP/1.1"));
    assert!(Framer::classify("POST /send_lines HTTP/1.1"));
    assert!(Framer::classify("POSTED to /hello"));
    assert!(!Framer::classify("POST /clear_lines HTTP/1.1"));
    assert!(!Framer::classify("GET /hello HTTP/1.1"));
    assert!(!Framer::classify(" POST /hello HTTP/1.1"));
    assert!(!Framer::classify("POST"));
    assert!(!Framer::classify(""));
}

#[test]
fn framer_says_when_to_stop_reading() {
    let mut framer = Framer::new();
    assert!(framer.push("GET / HTTP/1.1".to_string()));
    assert!(framer.push("Host: x".to_string()));
    assert!(!framer.push("".to_string()));
    assert!(!framer.push("late".to_string()));
    let request = framer.finish().unwrap().unwrap();
    assert_eq!(request.request_line, "GET / HTTP/1.1");
    assert_eq!(request.content, None);
}

#[test]
fn framer_reads_a_write_request_to_its_second_blank_line() {
    let mut framer = Framer::new();
    assert!(framer.push("POST /hello HTTP/1.1".to_string()));
    assert!(framer.push("Host: x".to_string()));
    assert!(framer.push("".to_string()));
    assert!(framer.push("42".to_string()));
    assert!(!framer.push("".to_string()));
    let request = framer.finish().unwrap().unwrap();
    assert_eq!(request.content.as_deref(), Some("42"));
}

#[test]
fn framer_without_lines_has_no_request() {
    assert!(matches!(Framer::new().finish(), Ok(None)));
}

#[test]
fn request_gives_its_parts_and_its_route() {
    let request = read_request(&stream(&["GET /get_lines HTTP/1.1", "Host: x", ""])).unwrap().unwrap();
    let parts = request.parts().unwrap();
    assert_eq!(parts.method, "GET");
    assert_eq!(parts.path, "/get_lines");
    assert_eq!(parts.version, "HTTP/1.1");
    assert_eq!(request.route(), Route::GetLines);
    let odd = read_request(&stream(&["nonsense", "Host: x", ""])).unwrap().unwrap();
    assert_eq!(odd.parts(), None);
    assert_eq!(odd.route(), Route::NotFound);
}

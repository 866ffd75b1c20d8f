use whiteboard_sync::reply::{ContentType, Status};
use whiteboard_sync::response::response_head;

#[test]
fn head_of_a_page() {
    assert_eq!(
        response_head(Status::Success, ContentType::Html, 1234),
        "HTTP/1.1 200 OK\r\n\
         access-control-allow-origin: *\r\n\
         access-control-allow-headers: Origin, X-Requested-With, Content-Type, Accept\r\n\
         content-type: text/html\r\n\
         content-length: 1234\r\n\
         \r\n"
    );
}

#[test]
fn head_of_the_not_found_page() {
    assert_eq!(
        response_head(Status::NotFound, ContentType::Html, 0),
        "HTTP/1.1 404 NOT FOUND\r\n\
         access-control-allow-origin: *\r\n\
         access-control-allow-headers: Origin, X-Requested-With, Content-Type, Accept\r\n\
         content-type: text/html\r\n\
         content-length: 0\r\n\
         \r\n"
    );
}

#[test]
fn head_of_script_and_program() {
    let script = response_head(Status::Success, ContentType::JavaScript, 7);
    assert!(script.contains("\r\ncontent-type: text/javascript\r\ncontent-length: 7\r\n\r\n"));
    let program = response_head(Status::Success, ContentType::Wasm, usize::MAX);
    assert!(program.ends_with(&format!(
        "\r\ncontent-type: application/wasm\r\ncontent-length: {}\r\n\r\n",
        usize::MAX
    )));
}

#[test]
fn head_names_each_header_once_and_in_order() {
    let head = response_head(Status::Success, ContentType::Wasm, 10);
    let lines: Vec<&str> = head.split("\r\n").collect();
    assert_eq!(lines.len(), 7);
    assert_eq!(lines[0], "HTTP/1.1 200 OK");
    assert!(lines[1].starts_with("access-control-allow-origin: "));
    assert!(lines[2].starts_with("access-control-allow-headers: "));
    assert!(lines[3].starts_with("content-type: "));
    assert!(lines[4].starts_with("content-length: "));
    assert_eq!(lines[5], "");
    assert_eq!(lines[6], "");
}

#[test]
fn head_of_an_empty_reply() {
    assert_eq!(
        response_head(Status::Success, ContentType::Json, 0),
        "HTTP/1.1 200 OK\r\n\
         access-control-allow-origin: *\r\n\
         access-control-allow-headers: Origin, X-Requested-With, Content-Type, Accept\r\n\
         content-type: application/json\r\n\
         content-length: 0\r\n\
         \r\n"
    );
}

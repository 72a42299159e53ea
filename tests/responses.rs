use web_framework::{Response, Status};

#[test]
fn text_hi_serializes_with_status_line_length_and_body() {
    let r = Response::text("hi");
    let wire = r.serialize();
    let expected = b"HTTP/1.1 200 OK\r\nContent-Length: 2\r\nContent-Type: text/plain\r\n\r\nhi".to_vec();
    assert_eq!(wire, expected);
    assert_eq!(r.status_code(), 200);
    assert_eq!(r.body(), b"hi");
}

#[test]
fn text_form_holds_head_then_body() {
    let r = Response::json("{}");
    assert_eq!(
        r.to_http_string(),
        "HTTP/1.1 200 OK\r\nContent-Length: 2\r\nContent-Type: application/json\r\n\r\n{}"
    );
    let t = Response::text("hi").to_http_string();
    assert!(t.ends_with("\r\n\r\nhi"));
    let body = &t[t.find("\r\n\r\n").unwrap() + 4..];
    assert_eq!(body.len(), 2);
}

#[test]
fn html_sets_content_type() {
    let r = Response::html("<h1>x</h1>");
    assert_eq!(r.headers().get("Content-Type").unwrap(), "text/html");
    assert_eq!(r.headers().get("Content-Length").unwrap(), "10");
}

#[test]
fn new_sets_content_length_only() {
    let r = Response::new(Status::InternalServerError, vec![1, 2, 3]);
    assert_eq!(r.headers().len(), 1);
    assert_eq!(r.headers().get("Content-Length").unwrap(), "3");
    assert_eq!(
        r.serialize(),
        b"HTTP/1.1 500 Internal Server Error\r\nContent-Length: 3\r\n\r\n\x01\x02\x03".to_vec()
    );
}

#[test]
fn empty_body_has_zero_length() {
    let r = Response::new(Status::OK, Vec::new());
    assert_eq!(r.serialize(), b"HTTP/1.1 200 OK\r\nContent-Length: 0\r\n\r\n".to_vec());
}

#[test]
fn status_builder_changes_status_line() {
    let r = Response::text("gone").status(Status::NotFound);
    assert_eq!(r.status_code(), 404);
    assert!(r.to_http_string().starts_with("HTTP/1.1 404 Not Found\r\n"));
    let r = Response::text("bad").status(Status::BadRequest);
    assert!(r.to_http_string().starts_with("HTTP/1.1 400 Bad Request\r\n"));
}

#[test]
fn header_builder_adds_and_replaces() {
    let r = Response::text("x").header("X-Id", "7").header("Content-Type", "text/csv");
    assert_eq!(r.headers().len(), 3);
    assert_eq!(r.headers().get("X-Id").unwrap(), "7");
    assert_eq!(
        r.to_http_string(),
        "HTTP/1.1 200 OK\r\nContent-Length: 1\r\nContent-Type: text/csv\r\nX-Id: 7\r\n\r\nx"
    );
}

#[test]
fn status_tuples() {
    assert_eq!(Status::OK.as_tuple(), (200, "OK"));
    assert_eq!(Status::NotFound.as_tuple(), (404, "Not Found"));
    assert_eq!(Status::BadRequest.as_tuple(), (400, "Bad Request"));
    assert_eq!(Status::InternalServerError.as_tuple(), (500, "Internal Server Error"));
}

#[test]
fn non_utf8_body_is_sent_raw() {
    let r = Response::new(Status::OK, vec![0xff, 0xfe]);
    let wire = r.serialize();
    assert_eq!(&wire[wire.len() - 2..], &[0xff, 0xfe]);
}

#[test]
fn large_length_is_written_in_decimal() {
    let r = Response::new(Status::OK, vec![0u8; 1234]);
    assert_eq!(r.headers().get("Content-Length").unwrap(), "1234");
}

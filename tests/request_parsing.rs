use web_framework::request::{parse_fields, FieldSyntax};
use web_framework::{ParseError, Request};

fn parse(text: &str) -> Result<Request, ParseError> {
    Request::from_bytes(text.as_bytes())
}

#[test]
fn parses_method_path_and_headers() {
    let req = parse("GET /hello HTTP/1.1\r\nHost: example.com\r\nAccept:  */*  \r\n\r\n").unwrap();
    assert_eq!(req.method, "GET");
    assert_eq!(req.path, "/hello");
    assert_eq!(req.headers.get("Host").unwrap(), "example.com");
    assert_eq!(req.headers.get("Accept").unwrap(), "*/*");
    assert_eq!(req.headers.len(), 2);
    assert_eq!(req.query.len(), 0);
    assert!(req.body.is_empty());
    assert_eq!(req.body_shortfall(), 0);
}

#[test]
fn query_string_round_trip() {
    let req = parse("GET /path?k1=v1&k2=v2 HTTP/1.1\r\n\r\n").unwrap();
    assert_eq!(req.path, "/path");
    assert_eq!(req.query.len(), 2);
    assert_eq!(req.query.get("k1").unwrap(), "v1");
    assert_eq!(req.query.get("k2").unwrap(), "v2");
}

#[test]
fn duplicate_query_key_last_wins() {
    let req = parse("GET /p?a=1&a=2 HTTP/1.1\r\n\r\n").unwrap();
    assert_eq!(req.query.get("a").unwrap(), "2");
    assert_eq!(req.query.len(), 1);
}

#[test]
fn query_pairs_without_equals_are_ignored() {
    let req = parse("GET /p?flag&x=1&&y= HTTP/1.1\r\n\r\n").unwrap();
    assert_eq!(req.query.len(), 2);
    assert!(req.query.get("flag").is_none());
    assert_eq!(req.query.get("x").unwrap(), "1");
    assert_eq!(req.query.get("y").unwrap(), "");
}

#[test]
fn query_is_not_percent_decoded() {
    let req = parse("GET /a%20b?q=%41 HTTP/1.1\r\n\r\n").unwrap();
    assert_eq!(req.path, "/a%20b");
    assert_eq!(req.query.get("q").unwrap(), "%41");
}

#[test]
fn body_within_first_read_matches_content_length() {
    let req = parse("POST /submit HTTP/1.1\r\nContent-Length: 5\r\n\r\nhello").unwrap();
    assert_eq!(req.method, "POST");
    assert_eq!(req.body, b"hello".to_vec());
    assert_eq!(req.body_shortfall(), 0);
}

#[test]
fn body_never_exceeds_content_length() {
    let req = parse("POST /s HTTP/1.1\r\nContent-Length: 3\r\n\r\nhello").unwrap();
    assert_eq!(req.body, b"hel".to_vec());
}

#[test]
fn short_body_is_completed_by_a_second_read() {
    let mut req = parse("POST /s HTTP/1.1\r\nContent-Length: 8\r\n\r\nabc").unwrap();
    assert_eq!(req.body, b"abc".to_vec());
    assert_eq!(req.body_shortfall(), 5);
    req.append_body(b"defgh");
    assert_eq!(req.body, b"abcdefgh".to_vec());
    assert_eq!(req.body.len(), 8);
    assert_eq!(req.body_shortfall(), 0);
}

#[test]
fn missing_content_length_means_empty_body() {
    let req = parse("POST /s HTTP/1.1\r\nHost: x\r\n\r\ntrailing").unwrap();
    assert!(req.body.is_empty());
}

#[test]
fn unparsable_content_length_counts_as_zero() {
    let req = parse("POST /s HTTP/1.1\r\nContent-Length: -4\r\n\r\nabc").unwrap();
    assert!(req.body.is_empty());
    let req = parse("POST /s HTTP/1.1\r\nContent-Length: 99999999999999999999999\r\n\r\nabc").unwrap();
    assert!(req.body.is_empty());
    let req = parse("POST /s HTTP/1.1\r\nContent-Length: +2\r\n\r\nabc").unwrap();
    assert_eq!(req.body, b"ab".to_vec());
}

#[test]
fn missing_separator_is_an_error() {
    let r = parse("GET / HTTP/1.1\r\nHost: x\r\n");
    assert!(matches!(r, Err(ParseError::MissingHeaderBodySeparator)));
}

#[test]
fn request_line_with_one_token_is_malformed() {
    assert!(matches!(parse("GET\r\n\r\n"), Err(ParseError::MalformedRequestLine)));
    assert!(matches!(parse(""), Err(ParseError::MalformedRequestLine)));
    assert!(matches!(parse("   \r\n\r\n"), Err(ParseError::MalformedRequestLine)));
}

#[test]
fn header_lines_without_colon_are_skipped() {
    let req = parse("GET / HTTP/1.1\r\nnonsense\r\nX-A: 1\r\n\r\n").unwrap();
    assert_eq!(req.headers.len(), 1);
    assert_eq!(req.headers.get("X-A").unwrap(), "1");
}

#[test]
fn header_value_keeps_later_colons() {
    let req = parse("GET / HTTP/1.1\r\nHost: localhost:7878\r\n\r\n").unwrap();
    assert_eq!(req.headers.get("Host").unwrap(), "localhost:7878");
}

#[test]
fn binary_body_is_kept_raw() {
    let mut data = b"POST /b HTTP/1.1\r\nContent-Length: 3\r\n\r\n".to_vec();
    data.extend_from_slice(&[0xff, 0x00, 0xfe]);
    let req = Request::from_bytes(&data).unwrap();
    assert_eq!(req.body, vec![0xff, 0x00, 0xfe]);
}

#[test]
fn parse_fields_reads_query_and_header_syntax() {
    let q = parse_fields(b"a=1&b=2=3", FieldSyntax::Query);
    assert_eq!(q.get("a").unwrap(), "1");
    assert_eq!(q.get("b").unwrap(), "2=3");
    let h = parse_fields(b" Name :  value \r\nOther:x", FieldSyntax::Header);
    assert_eq!(h.get("Name").unwrap(), "value");
    assert_eq!(h.get("Other").unwrap(), "x");
}

fn request_of_size(total: usize) -> Vec<u8> {
    let start = b"GET /big HTTP/1.1\r\nX-Pad: ".to_vec();
    let end = b"\r\n\r\n".to_vec();
    let pad = total - start.len() - end.len();
    let mut data = start;
    data.extend(std::iter::repeat(b'a').take(pad));
    data.extend(end);
    data
}

#[test]
fn header_block_filling_the_whole_first_read_parses() {
    let data = request_of_size(1024);
    assert_eq!(data.len(), 1024);
    let req = Request::from_bytes(&data).unwrap();
    assert_eq!(req.path, "/big");
    assert_eq!(req.headers.get("X-Pad").unwrap().len(), 1024 - 30);
}

#[test]
fn header_block_cut_by_the_first_read_is_refused() {
    let data = request_of_size(1025);
    let r = Request::from_bytes(&data[..1024]);
    assert!(matches!(r, Err(ParseError::MissingHeaderBodySeparator)));
}

#[test]
fn invalid_utf8_in_path_is_replaced() {
    let data = b"GET /a\xffb HTTP/1.1\r\n\r\n".to_vec();
    let req = Request::from_bytes(&data).unwrap();
    assert_eq!(req.path, "/a\u{fffd}b");
}

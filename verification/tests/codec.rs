//! Wire codec tests: request parsing, response building and the
//! serialize/parse round trip of the header section.

use wserver::request::{ErrorKind, Method, Request};
use wserver::response::{title_case, Response, ResponseBuilder};
use wserver::status::Status;

fn parse_ok(data: &[u8]) -> Request {
    Request::parse(data).expect("request should parse")
}

#[test]
fn parses_simple_get() {
    let req = parse_ok(b"GET /about HTTP/1.1\r\nHost: example\r\n\r\n");
    assert_eq!(req.method, Method::Get);
    assert_eq!(req.path, b"/about".to_vec());
    assert_eq!(req.protocol, b"HTTP/1.1".to_vec());
    assert_eq!(req.headers.get(b"host"), Some(&b"example".to_vec()));
    assert!(req.body.is_empty());
}

#[test]
fn parses_body_verbatim() {
    let req = parse_ok(b"POST / HTTP/1.1\r\nContent-Length: 5\r\n\r\nhello");
    assert_eq!(req.method, Method::Post);
    assert_eq!(req.body, b"hello".to_vec());
}

#[test]
fn header_names_lowercased_and_values_trimmed() {
    let req = parse_ok(b"GET / HTTP/1.1\r\nX-ToKeN:  abc \r\n\r\n");
    assert_eq!(req.headers.get(b"x-token"), Some(&b"abc".to_vec()));
}

#[test]
fn header_without_colon_gets_empty_value() {
    let req = parse_ok(b"GET / HTTP/1.1\r\nWeird\r\n\r\n");
    assert_eq!(req.headers.get(b"weird"), Some(&b"".to_vec()));
}

#[test]
fn later_header_wins() {
    let req = parse_ok(b"GET / HTTP/1.1\r\nA: 1\r\nA: 2\r\n\r\n");
    assert_eq!(req.headers.get(b"a"), Some(&b"2".to_vec()));
}

#[test]
fn empty_read_is_no_data() {
    let e = Request::parse(b"").unwrap_err();
    assert_eq!(e.kind, ErrorKind::NoData);
}

#[test]
fn full_buffer_is_too_large() {
    let data = vec![b'a'; 4096];
    let e = Request::parse(&data).unwrap_err();
    assert_eq!(e.kind, ErrorKind::TooLarge);
}

#[test]
fn missing_separator_is_bad_format() {
    let e = Request::parse(b"GET / HTTP/1.1\r\nHost: x\r\n").unwrap_err();
    assert_eq!(e.kind, ErrorKind::BadFormat);
}

#[test]
fn short_status_line_is_bad_format() {
    let e = Request::parse(b"GET /\r\n\r\n").unwrap_err();
    assert_eq!(e.kind, ErrorKind::BadFormat);
}

#[test]
fn unknown_method_is_bad_format() {
    let e = Request::parse(b"FROB / HTTP/1.1\r\n\r\n").unwrap_err();
    assert_eq!(e.kind, ErrorKind::BadFormat);
}

#[test]
fn all_methods_parse() {
    for (text, m) in [
        ("GET", Method::Get),
        ("HEAD", Method::Head),
        ("POST", Method::Post),
        ("PUT", Method::Put),
        ("DELETE", Method::Delete),
        ("CONNECT", Method::Connect),
        ("OPTIONS", Method::Options),
        ("TRACE", Method::Trace),
        ("PATCH", Method::Patch),
    ] {
        assert_eq!(Method::from_bytes(text.as_bytes()), Some(m));
    }
    assert_eq!(Method::from_bytes(b"get"), None);
}

#[test]
fn title_case_canonicalizes() {
    assert_eq!(title_case(b"content-type"), b"Content-Type".to_vec());
    assert_eq!(title_case(b"x-two-PARTS"), b"X-Two-PARTS".to_vec());
    assert_eq!(title_case(b""), b"".to_vec());
}

#[test]
fn status_line_text() {
    assert_eq!(Status::OK.as_str(), "200 Ok");
    assert_eq!(Status::TemporaryRedirect.as_str(), "307 Temporary Redirect");
    assert_eq!(Status::NotFound.as_str(), "404 Not Found");
    assert_eq!(Status::MethodNotAllowed.as_str(), "405 Method Not Allowed");
    assert_eq!(Status::InternalServerError.as_str(), "500 Internal Server Error");
}

#[test]
fn serializes_exact_bytes() {
    let res: Response = ResponseBuilder::new().status(Status::OK).body(b"hi".to_vec());
    let bytes = res.to_bytes();
    assert_eq!(bytes, b"HTTP/1.1 200 Ok\r\nContent-Length: 2\r\n\r\nhi".to_vec());
}

#[test]
fn content_length_matches_body_length() {
    let res: Response = ResponseBuilder::new()
        .status(Status::OK)
        .body(b"twelve bytes".to_vec());
    assert_eq!(res.headers.get(b"Content-Length"), Some(&b"12".to_vec()));
}

#[test]
fn explicit_content_length_kept() {
    let res: Response = ResponseBuilder::new()
        .header(b"content-length", b"99")
        .body(b"hi".to_vec());
    assert_eq!(res.headers.get(b"Content-Length"), Some(&b"99".to_vec()));
}

#[test]
fn builder_header_overwrites_same_name() {
    let res = ResponseBuilder::new()
        .header(b"x-a", b"1")
        .header(b"X-A", b"2")
        .into_response();
    assert_eq!(res.headers.get(b"X-A"), Some(&b"2".to_vec()));
    assert_eq!(res.headers.len(), 2); // X-A and Content-Length
}

#[test]
fn builder_headers_adds_all() {
    let hs = vec![
        (b"x-one".to_vec(), b"alpha".to_vec()),
        (b"x-two".to_vec(), b"beta".to_vec()),
    ];
    let res = ResponseBuilder::new().headers(&hs).into_response();
    assert_eq!(res.headers.get(b"X-One"), Some(&b"alpha".to_vec()));
    assert_eq!(res.headers.get(b"X-Two"), Some(&b"beta".to_vec()));
}

#[test]
fn version_override_is_written() {
    let res = ResponseBuilder::new().version("HTTP/1.0").into_response();
    let bytes = res.to_bytes();
    assert!(bytes.starts_with(b"HTTP/1.0 200 Ok\r\n"));
}

/// Serializing a response with a body and no explicit length produces
/// a `Content-Length` equal to the body length, and feeding the
/// serialized header lines back through the request parser recovers
/// the same header map with lower-cased names.
#[test]
fn header_round_trip() {
    let res: Response = ResponseBuilder::new()
        .header(b"x-one", b"alpha")
        .header(b"content-type", b"text/plain")
        .body(b"body!".to_vec());
    assert_eq!(res.headers.get(b"Content-Length"), Some(&b"5".to_vec()));
    let bytes = res.to_bytes();

    // Rebuild the stream as a request: same header section and body,
    // a request line in front.
    let first_crlf = bytes.windows(2).position(|w| w == b"\r\n").unwrap();
    let mut request_bytes = b"GET / HTTP/1.1".to_vec();
    request_bytes.extend_from_slice(&bytes[first_crlf..]);
    let req = Request::parse(&request_bytes).expect("round trip should parse");

    assert_eq!(req.headers.get(b"x-one"), Some(&b"alpha".to_vec()));
    assert_eq!(req.headers.get(b"content-type"), Some(&b"text/plain".to_vec()));
    assert_eq!(req.headers.get(b"content-length"), Some(&b"5".to_vec()));
    assert_eq!(req.body, b"body!".to_vec());
}

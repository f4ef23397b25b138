use minihttp::http_request::{HTTPRequest, ParseError};

#[test]
fn test_set_from_buffer() {
    let mut request = HTTPRequest::new();
    let input = "GET /index HTTP/1.1\r\nHost: example.com\r\nUser-Agent: curl/7.68.0\r\n\r\n";
    request.set_from_buffer(input.as_bytes()).unwrap();

    assert_eq!(request.method().as_slice(), b"GET");
    assert_eq!(request.endpoint().as_slice(), b"/index");
    assert_eq!(request.protocol().as_slice(), b"HTTP/1.1");

    let headers = request.headers();
    assert_eq!(headers.len(), 2);
    assert_eq!(headers.get(&b"Host"[..]).unwrap().as_slice(), b"example.com");
    assert_eq!(
        headers.get(&b"User-Agent"[..]).unwrap().as_slice(),
        b"curl/7.68.0"
    );
}

#[test]
fn test_set_from_request_line() {
    let mut request = HTTPRequest::new();
    let request_line = "POST /submit HTTP/1.0";
    request.set_from_buffer(request_line.as_bytes()).unwrap();

    assert_eq!(request.method().as_slice(), b"POST");
    assert_eq!(request.endpoint().as_slice(), b"/submit");
    assert_eq!(request.protocol().as_slice(), b"HTTP/1.0");
}

#[test]
fn request_line_too_few_tokens_is_malformed() {
    let mut request = HTTPRequest::new();
    let r = request.set_from_buffer(b"GET /index\r\n\r\n");
    assert_eq!(r, Err(ParseError::MalformedRequestLine));
}

#[test]
fn empty_buffer_is_malformed() {
    let mut request = HTTPRequest::new();
    assert_eq!(
        request.set_from_buffer(b""),
        Err(ParseError::MalformedRequestLine)
    );
}

#[test]
fn body_captures_exactly_declared_length() {
    let mut request = HTTPRequest::new();
    request
        .set_from_buffer(b"POST /files/a.txt HTTP/1.1\r\nContent-Length: 3\r\n\r\nabcXYZ")
        .unwrap();
    assert_eq!(request.body().as_slice(), b"abc");
}

#[test]
fn zero_content_length_gives_empty_body() {
    let mut request = HTTPRequest::new();
    request
        .set_from_buffer(b"POST /submit HTTP/1.1\r\nContent-Length: 0\r\n\r\nleftover")
        .unwrap();
    assert_eq!(request.body().as_slice(), b"");
}

#[test]
fn absent_content_length_gives_empty_body() {
    let mut request = HTTPRequest::new();
    request
        .set_from_buffer(b"POST /submit HTTP/1.1\r\n\r\nleftover")
        .unwrap();
    assert_eq!(request.body().as_slice(), b"");
}

#[test]
fn unparsable_content_length_gives_empty_body() {
    let mut request = HTTPRequest::new();
    request
        .set_from_buffer(b"POST /submit HTTP/1.1\r\nContent-Length: many\r\n\r\nabc")
        .unwrap();
    assert_eq!(request.body().as_slice(), b"");
}

#[test]
fn oversized_content_length_gives_empty_body() {
    let mut request = HTTPRequest::new();
    request
        .set_from_buffer(
            b"POST /submit HTTP/1.1\r\nContent-Length: 99999999999999999999999999\r\n\r\nabc",
        )
        .unwrap();
    assert_eq!(request.body().as_slice(), b"");
}

#[test]
fn short_body_is_truncated() {
    let mut request = HTTPRequest::new();
    let r = request.set_from_buffer(b"POST /submit HTTP/1.1\r\nContent-Length: 10\r\n\r\nabc");
    assert_eq!(r, Err(ParseError::TruncatedBody));
}

#[test]
fn duplicate_header_keeps_last_value() {
    let mut request = HTTPRequest::new();
    request
        .set_from_buffer(b"GET / HTTP/1.1\r\nHost: one\r\nHost: two\r\n\r\n")
        .unwrap();
    let headers = request.headers();
    assert_eq!(headers.len(), 1);
    assert_eq!(headers.get(&b"Host"[..]).unwrap().as_slice(), b"two");
}

#[test]
fn header_line_without_separator_is_skipped() {
    let mut request = HTTPRequest::new();
    request
        .set_from_buffer(b"GET / HTTP/1.1\r\nNoSeparatorHere\r\nHost: ok\r\n\r\n")
        .unwrap();
    let headers = request.headers();
    assert_eq!(headers.len(), 1);
    assert_eq!(headers.get(&b"Host"[..]).unwrap().as_slice(), b"ok");
}

#[test]
fn request_complete_tracks_missing_body_bytes() {
    assert!(!minihttp::http_request::request_complete(
        b"POST /x HTTP/1.1\r\nContent-Length: 5\r\n\r\nab"
    ));
    assert!(minihttp::http_request::request_complete(
        b"POST /x HTTP/1.1\r\nContent-Length: 5\r\n\r\nabcde"
    ));
    assert!(minihttp::http_request::request_complete(b"bad line\r\n\r\n"));
}

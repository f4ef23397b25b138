use minihttp::http_response::{HTTPBody, HTTPHeaders, HTTPResponse};

#[test]
fn serialize_plain_text_round_trip() {
    let mut response = HTTPResponse::new(b"HTTP/1.1 200 OK".to_vec());
    response.set_body_as_plain_text(b"text/plain".to_vec(), b"hello".to_vec());
    let bytes = response.get_formatted_response();
    assert_eq!(
        bytes.as_slice(),
        &b"HTTP/1.1 200 OK\r\nContent-Type: text/plain\r\nContent-Length: 5\r\n\r\nhello"[..]
    );
}

#[test]
fn serialize_twice_is_identical() {
    let mut response = HTTPResponse::new(b"HTTP/1.1 200 OK".to_vec());
    response.set_body_as_plain_text(b"text/plain".to_vec(), b"same".to_vec());
    let first = response.get_formatted_response();
    let second = response.get_formatted_response();
    assert_eq!(first, second);
}

#[test]
fn serialize_without_body_ends_with_blank_line() {
    let response = HTTPResponse::new(b"HTTP/1.1 404 Not Found".to_vec());
    let bytes = response.get_formatted_response();
    assert_eq!(bytes.as_slice(), &b"HTTP/1.1 404 Not Found\r\n\r\n"[..]);
}

#[test]
fn headers_format_in_fixed_order() {
    let mut headers = HTTPHeaders::new();
    headers.set_content_encoding(b"gzip".to_vec());
    headers.set_content_length(b"2".to_vec());
    headers.set_content_type(b"text/plain".to_vec());
    let bytes = headers.get_formatted();
    assert_eq!(
        bytes.as_slice(),
        &b"Content-Type: text/plain\r\nContent-Length: 2\r\nContent-Encoding: gzip\r\n"[..]
    );
}

#[test]
fn unset_headers_are_omitted() {
    let mut headers = HTTPHeaders::new();
    assert_eq!(headers.get_formatted().as_slice(), b"");
    headers.set_content_length(b"0".to_vec());
    assert_eq!(headers.get_formatted().as_slice(), b"Content-Length: 0\r\n");
}

#[test]
fn set_body_overwrites_earlier_body_and_headers() {
    let mut response = HTTPResponse::new(b"HTTP/1.1 200 OK".to_vec());
    response.set_body_as_plain_text(b"text/plain".to_vec(), b"first".to_vec());
    response.set_body_as_plain_text(b"application/octet-stream".to_vec(), b"no".to_vec());
    let bytes = response.get_formatted_response();
    assert_eq!(
        bytes.as_slice(),
        &b"HTTP/1.1 200 OK\r\nContent-Type: application/octet-stream\r\nContent-Length: 2\r\n\r\nno"[..]
    );
}

#[test]
fn content_length_counts_bytes_in_decimal() {
    let mut response = HTTPResponse::new(b"HTTP/1.1 200 OK".to_vec());
    let body: Vec<u8> = vec![65u8; 1234];
    response.set_body_as_plain_text(b"text/plain".to_vec(), body);
    let bytes = response.get_formatted_response();
    let text = String::from_utf8(bytes).unwrap();
    assert!(text.contains("Content-Length: 1234\r\n"));
}

#[test]
fn body_wrapper_keeps_bytes() {
    let body = HTTPBody::new(b"payload".to_vec());
    assert_eq!(body.get_formatted().as_slice(), b"payload");
}

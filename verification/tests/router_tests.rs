use std::io::Read;

use minihttp::http_request::HTTPRequest;
use minihttp::router::{
    dispatch, file_action_of, handle_file_post, handle_file_request, handle_get_request,
    handle_post_request, handle_root, handle_user_agent, FileAction,
};

fn parse(buffer: &[u8]) -> HTTPRequest {
    let mut request = HTTPRequest::new();
    request.set_from_buffer(buffer).unwrap();
    request
}

fn body_of(serialized: &[u8]) -> Vec<u8> {
    let mut i = 0;
    while i + 3 < serialized.len() {
        if &serialized[i..i + 4] == b"\r\n\r\n" {
            return serialized[i + 4..].to_vec();
        }
        i += 1;
    }
    Vec::new()
}

#[test]
fn get_root_is_bare_ok() {
    let request = parse(b"GET / HTTP/1.1\r\n\r\n");
    let response = dispatch(&request, None, false);
    assert_eq!(
        response.get_formatted_response().as_slice(),
        &b"HTTP/1.1 200 OK\r\n\r\n"[..]
    );
}

#[test]
fn echo_without_accept_encoding_is_plain() {
    let request = parse(b"GET /echo/hello HTTP/1.1\r\n\r\n");
    let response = dispatch(&request, None, false);
    assert_eq!(
        response.get_formatted_response().as_slice(),
        &b"HTTP/1.1 200 OK\r\nContent-Type: text/plain\r\nContent-Length: 5\r\n\r\nhello"[..]
    );
}

#[test]
fn echo_with_gzip_compresses_the_text() {
    let request = parse(b"GET /echo/hi HTTP/1.1\r\nAccept-Encoding: gzip\r\n\r\n");
    let response = dispatch(&request, None, false);
    let bytes = response.get_formatted_response();
    let body = body_of(&bytes);
    let head = String::from_utf8_lossy(&bytes[..bytes.len() - body.len()]).to_string();
    assert!(head.starts_with("HTTP/1.1 200 OK\r\n"));
    assert!(head.contains("Content-Encoding: gzip\r\n"));
    let mut decoder = flate2::read::GzDecoder::new(&body[..]);
    let mut decompressed = Vec::new();
    decoder.read_to_end(&mut decompressed).unwrap();
    assert_eq!(decompressed.as_slice(), b"hi");
}

#[test]
fn echo_gzip_token_found_among_others() {
    let request = parse(b"GET /echo/x HTTP/1.1\r\nAccept-Encoding: deflate, gzip , br\r\n\r\n");
    let response = dispatch(&request, None, false);
    let bytes = response.get_formatted_response();
    let text = String::from_utf8_lossy(&bytes).to_string();
    assert!(text.contains("Content-Encoding: gzip\r\n"));
}

#[test]
fn echo_ignores_lookalike_tokens() {
    let request = parse(b"GET /echo/x HTTP/1.1\r\nAccept-Encoding: gzipped\r\n\r\n");
    let response = dispatch(&request, None, false);
    assert_eq!(
        response.get_formatted_response().as_slice(),
        &b"HTTP/1.1 200 OK\r\nContent-Type: text/plain\r\nContent-Length: 1\r\n\r\nx"[..]
    );
}

#[test]
fn echo_keeps_later_slashes() {
    let request = parse(b"GET /echo/a/b HTTP/1.1\r\n\r\n");
    let response = handle_get_request(&request, None);
    assert_eq!(
        response.get_formatted_response().as_slice(),
        &b"HTTP/1.1 200 OK\r\nContent-Type: text/plain\r\nContent-Length: 3\r\n\r\na/b"[..]
    );
}

#[test]
fn user_agent_is_reflected() {
    let request = parse(b"GET /user-agent HTTP/1.1\r\nUser-Agent: curl/7.68.0\r\n\r\n");
    let response = dispatch(&request, None, false);
    assert_eq!(
        response.get_formatted_response().as_slice(),
        &b"HTTP/1.1 200 OK\r\nContent-Type: text/plain\r\nContent-Length: 11\r\n\r\ncurl/7.68.0"[..]
    );
}

#[test]
fn user_agent_missing_still_ok() {
    let request = parse(b"GET /user-agent HTTP/1.1\r\n\r\n");
    let response = handle_user_agent(&request);
    assert_eq!(
        response.get_formatted_response().as_slice(),
        &b"HTTP/1.1 200 OK\r\n\r\n"[..]
    );
}

#[test]
fn file_post_then_get_round_trip() {
    // an in-memory stand-in for the storage root: the write keeps the bytes,
    // the later read hands them back
    let request = parse(b"POST /files/note.txt HTTP/1.1\r\nContent-Length: 3\r\n\r\nabc");
    let mut stored: Option<Vec<u8>> = None;
    let write_ok = match file_action_of(&request) {
        FileAction::WriteFile(name, content) => {
            assert_eq!(name.as_slice(), b"note.txt");
            stored = Some(content);
            true
        }
        _ => false,
    };
    let response = dispatch(&request, None, write_ok);
    assert_eq!(
        response.get_formatted_response().as_slice(),
        &b"HTTP/1.1 201 Created\r\n\r\n"[..]
    );

    let request = parse(b"GET /files/note.txt HTTP/1.1\r\n\r\n");
    match file_action_of(&request) {
        FileAction::ReadFile(name) => assert_eq!(name.as_slice(), b"note.txt"),
        _ => panic!("expected a file read"),
    }
    let response = dispatch(&request, stored, false);
    assert_eq!(
        response.get_formatted_response().as_slice(),
        &b"HTTP/1.1 200 OK\r\nContent-Type: application/octet-stream\r\nContent-Length: 3\r\n\r\nabc"[..]
    );
}

#[test]
fn file_get_missing_is_not_found() {
    let request = parse(b"GET /files/missing.txt HTTP/1.1\r\n\r\n");
    let response = dispatch(&request, None, false);
    assert_eq!(
        response.get_formatted_response().as_slice(),
        &b"HTTP/1.1 404 Not Found\r\n\r\n"[..]
    );
}

#[test]
fn unmatched_path_is_not_found() {
    let request = parse(b"GET /nope HTTP/1.1\r\n\r\n");
    let response = dispatch(&request, None, false);
    assert_eq!(
        response.get_formatted_response().as_slice(),
        &b"HTTP/1.1 404 Not Found\r\n\r\n"[..]
    );
}

#[test]
fn unknown_method_is_not_found() {
    let request = parse(b"PUT / HTTP/1.1\r\n\r\n");
    let response = dispatch(&request, None, false);
    assert_eq!(
        response.get_formatted_response().as_slice(),
        &b"HTTP/1.1 404 Not Found\r\n\r\n"[..]
    );
}

#[test]
fn post_outside_files_is_not_found() {
    let request = parse(b"POST /echo/hi HTTP/1.1\r\n\r\n");
    let response = handle_post_request(&request, true);
    assert_eq!(
        response.get_formatted_response().as_slice(),
        &b"HTTP/1.1 404 Not Found\r\n\r\n"[..]
    );
}

#[test]
fn file_handlers_follow_outcomes() {
    let ok = handle_file_request(Some(b"data".to_vec()));
    assert_eq!(
        ok.get_formatted_response().as_slice(),
        &b"HTTP/1.1 200 OK\r\nContent-Type: application/octet-stream\r\nContent-Length: 4\r\n\r\ndata"[..]
    );
    let missing = handle_file_request(None);
    assert_eq!(
        missing.get_formatted_response().as_slice(),
        &b"HTTP/1.1 404 Not Found\r\n\r\n"[..]
    );
    let created = handle_file_post(true);
    assert_eq!(
        created.get_formatted_response().as_slice(),
        &b"HTTP/1.1 201 Created\r\n\r\n"[..]
    );
    let failed = handle_file_post(false);
    assert_eq!(
        failed.get_formatted_response().as_slice(),
        &b"HTTP/1.1 404 Not Found\r\n\r\n"[..]
    );
}

#[test]
fn root_handler_alone_is_bare_ok() {
    let response = handle_root();
    assert_eq!(
        response.get_formatted_response().as_slice(),
        &b"HTTP/1.1 200 OK\r\n\r\n"[..]
    );
}

#[test]
fn file_action_of_other_routes_is_none() {
    let request = parse(b"GET /echo/hi HTTP/1.1\r\n\r\n");
    assert!(matches!(file_action_of(&request), FileAction::NoFile));
    let request = parse(b"PUT /files/x HTTP/1.1\r\n\r\n");
    assert!(matches!(file_action_of(&request), FileAction::NoFile));
}

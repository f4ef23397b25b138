//! Routing and the handlers: method and path pick one of the fixed routes
//! (root, echo, user-agent reflection, file read, file write), every other
//! request gets `404 Not Found`. The echo route negotiates gzip through the
//! `Accept-Encoding` header; compression itself is flate2's work, trusted
//! behind `gzip_data`. The file routes are pure functions of the outcome of
//! the file operation, which a caller performs outside this crate.
use vstd::prelude::*;
use crate::bytes::{spec_trim, find_from, find_byte, trim_slice, subvec, bytes_eq, starts_with};
use crate::http_request::{HTTPRequest, ReqView};
use crate::http_response::{
    HTTPResponse, RespView, HeadersView, plain_body_view, dec_digits, opt_bytes_view,
};

verus! {

pub open spec fn status_ok() -> Seq<u8> {
    seq![
        'H' as u8, 'T' as u8, 'T' as u8, 'P' as u8, '/' as u8, '1' as u8, '.' as u8, '1' as u8,
        ' ' as u8, '2' as u8, '0' as u8, '0' as u8, ' ' as u8, 'O' as u8, 'K' as u8,
    ]
}

pub open spec fn status_created() -> Seq<u8> {
    seq![
        'H' as u8, 'T' as u8, 'T' as u8, 'P' as u8, '/' as u8, '1' as u8, '.' as u8, '1' as u8,
        ' ' as u8, '2' as u8, '0' as u8, '1' as u8, ' ' as u8, 'C' as u8, 'r' as u8, 'e' as u8,
        'a' as u8, 't' as u8, 'e' as u8, 'd' as u8,
    ]
}

pub open spec fn status_not_found() -> Seq<u8> {
    seq![
        'H' as u8, 'T' as u8, 'T' as u8, 'P' as u8, '/' as u8, '1' as u8, '.' as u8, '1' as u8,
        ' ' as u8, '4' as u8, '0' as u8, '4' as u8, ' ' as u8, 'N' as u8, 'o' as u8, 't' as u8,
        ' ' as u8, 'F' as u8, 'o' as u8, 'u' as u8, 'n' as u8, 'd' as u8,
    ]
}

pub open spec fn text_plain() -> Seq<u8> {
    seq![
        't' as u8, 'e' as u8, 'x' as u8, 't' as u8, '/' as u8, 'p' as u8, 'l' as u8, 'a' as u8,
        'i' as u8, 'n' as u8,
    ]
}

pub open spec fn octet_stream() -> Seq<u8> {
    seq![
        'a' as u8, 'p' as u8, 'p' as u8, 'l' as u8, 'i' as u8, 'c' as u8, 'a' as u8, 't' as u8,
        'i' as u8, 'o' as u8, 'n' as u8, '/' as u8, 'o' as u8, 'c' as u8, 't' as u8, 'e' as u8,
        't' as u8, '-' as u8, 's' as u8, 't' as u8, 'r' as u8, 'e' as u8, 'a' as u8, 'm' as u8,
    ]
}

pub open spec fn user_agent_key() -> Seq<u8> {
    seq![
        'U' as u8, 's' as u8, 'e' as u8, 'r' as u8, '-' as u8, 'A' as u8, 'g' as u8, 'e' as u8,
        'n' as u8, 't' as u8,
    ]
}

pub open spec fn accept_encoding_key() -> Seq<u8> {
    seq![
        'A' as u8, 'c' as u8, 'c' as u8, 'e' as u8, 'p' as u8, 't' as u8, '-' as u8, 'E' as u8,
        'n' as u8, 'c' as u8, 'o' as u8, 'd' as u8, 'i' as u8, 'n' as u8, 'g' as u8,
    ]
}

pub open spec fn spec_gzip() -> Seq<u8> {
    seq!['g' as u8, 'z' as u8, 'i' as u8, 'p' as u8]
}

pub open spec fn get_token() -> Seq<u8> {
    seq!['G' as u8, 'E' as u8, 'T' as u8]
}

pub open spec fn post_token() -> Seq<u8> {
    seq!['P' as u8, 'O' as u8, 'S' as u8, 'T' as u8]
}

pub open spec fn root_path() -> Seq<u8> {
    seq!['/' as u8]
}

pub open spec fn echo_prefix() -> Seq<u8> {
    seq!['/' as u8, 'e' as u8, 'c' as u8, 'h' as u8, 'o' as u8, '/' as u8]
}

pub open spec fn user_agent_path() -> Seq<u8> {
    seq![
        '/' as u8, 'u' as u8, 's' as u8, 'e' as u8, 'r' as u8, '-' as u8, 'a' as u8, 'g' as u8,
        'e' as u8, 'n' as u8, 't' as u8,
    ]
}

pub open spec fn files_prefix() -> Seq<u8> {
    seq!['/' as u8, 'f' as u8, 'i' as u8, 'l' as u8, 'e' as u8, 's' as u8, '/' as u8]
}

fn status_ok_vec() -> (r: Vec<u8>)
    ensures
        r@ == status_ok(),
{
    let r: Vec<u8> = vec![
        'H' as u8, 'T' as u8, 'T' as u8, 'P' as u8, '/' as u8, '1' as u8, '.' as u8, '1' as u8,
        ' ' as u8, '2' as u8, '0' as u8, '0' as u8, ' ' as u8, 'O' as u8, 'K' as u8,
    ];
    proof {
        assert(r@ =~= status_ok());
    }
    r
}

fn status_created_vec() -> (r: Vec<u8>)
    ensures
        r@ == status_created(),
{
    let r: Vec<u8> = vec![
        'H' as u8, 'T' as u8, 'T' as u8, 'P' as u8, '/' as u8, '1' as u8, '.' as u8, '1' as u8,
        ' ' as u8, '2' as u8, '0' as u8, '1' as u8, ' ' as u8, 'C' as u8, 'r' as u8, 'e' as u8,
        'a' as u8, 't' as u8, 'e' as u8, 'd' as u8,
    ];
    proof {
        assert(r@ =~= status_created());
    }
    r
}

fn status_not_found_vec() -> (r: Vec<u8>)
    ensures
        r@ == status_not_found(),
{
    let r: Vec<u8> = vec![
        'H' as u8, 'T' as u8, 'T' as u8, 'P' as u8, '/' as u8, '1' as u8, '.' as u8, '1' as u8,
        ' ' as u8, '4' as u8, '0' as u8, '4' as u8, ' ' as u8, 'N' as u8, 'o' as u8, 't' as u8,
        ' ' as u8, 'F' as u8, 'o' as u8, 'u' as u8, 'n' as u8, 'd' as u8,
    ];
    proof {
        assert(r@ =~= status_not_found());
    }
    r
}

fn text_plain_vec() -> (r: Vec<u8>)
    ensures
        r@ == text_plain(),
{
    let r: Vec<u8> = vec![
        't' as u8, 'e' as u8, 'x' as u8, 't' as u8, '/' as u8, 'p' as u8, 'l' as u8, 'a' as u8,
        'i' as u8, 'n' as u8,
    ];
    proof {
        assert(r@ =~= text_plain());
    }
    r
}

fn octet_stream_vec() -> (r: Vec<u8>)
    ensures
        r@ == octet_stream(),
{
    let r: Vec<u8> = vec![
        'a' as u8, 'p' as u8, 'p' as u8, 'l' as u8, 'i' as u8, 'c' as u8, 'a' as u8, 't' as u8,
        'i' as u8, 'o' as u8, 'n' as u8, '/' as u8, 'o' as u8, 'c' as u8, 't' as u8, 'e' as u8,
        't' as u8, '-' as u8, 's' as u8, 't' as u8, 'r' as u8, 'e' as u8, 'a' as u8, 'm' as u8,
    ];
    proof {
        assert(r@ =~= octet_stream());
    }
    r
}

fn user_agent_key_vec() -> (r: Vec<u8>)
    ensures
        r@ == user_agent_key(),
{
    let r: Vec<u8> = vec![
        'U' as u8, 's' as u8, 'e' as u8, 'r' as u8, '-' as u8, 'A' as u8, 'g' as u8, 'e' as u8,
        'n' as u8, 't' as u8,
    ];
    proof {
        assert(r@ =~= user_agent_key());
    }
    r
}

fn accept_encoding_key_vec() -> (r: Vec<u8>)
    ensures
        r@ == accept_encoding_key(),
{
    let r: Vec<u8> = vec![
        'A' as u8, 'c' as u8, 'c' as u8, 'e' as u8, 'p' as u8, 't' as u8, '-' as u8, 'E' as u8,
        'n' as u8, 'c' as u8, 'o' as u8, 'd' as u8, 'i' as u8, 'n' as u8, 'g' as u8,
    ];
    proof {
        assert(r@ =~= accept_encoding_key());
    }
    r
}

fn gzip_vec() -> (r: Vec<u8>)
    ensures
        r@ == spec_gzip(),
{
    let r: Vec<u8> = vec!['g' as u8, 'z' as u8, 'i' as u8, 'p' as u8];
    proof {
        assert(r@ =~= spec_gzip());
    }
    r
}

fn get_token_vec() -> (r: Vec<u8>)
    ensures
        r@ == get_token(),
{
    let r: Vec<u8> = vec!['G' as u8, 'E' as u8, 'T' as u8];
    proof {
        assert(r@ =~= get_token());
    }
    r
}

fn post_token_vec() -> (r: Vec<u8>)
    ensures
        r@ == post_token(),
{
    let r: Vec<u8> = vec!['P' as u8, 'O' as u8, 'S' as u8, 'T' as u8];
    proof {
        assert(r@ =~= post_token());
    }
    r
}

fn root_path_vec() -> (r: Vec<u8>)
    ensures
        r@ == root_path(),
{
    let r: Vec<u8> = vec!['/' as u8];
    proof {
        assert(r@ =~= root_path());
    }
    r
}

fn echo_prefix_vec() -> (r: Vec<u8>)
    ensures
        r@ == echo_prefix(),
{
    let r: Vec<u8> = vec!['/' as u8, 'e' as u8, 'c' as u8, 'h' as u8, 'o' as u8, '/' as u8];
    proof {
        assert(r@ =~= echo_prefix());
    }
    r
}

fn user_agent_path_vec() -> (r: Vec<u8>)
    ensures
        r@ == user_agent_path(),
{
    let r: Vec<u8> = vec![
        '/' as u8, 'u' as u8, 's' as u8, 'e' as u8, 'r' as u8, '-' as u8, 'a' as u8, 'g' as u8,
        'e' as u8, 'n' as u8, 't' as u8,
    ];
    proof {
        assert(r@ =~= user_agent_path());
    }
    r
}

fn files_prefix_vec() -> (r: Vec<u8>)
    ensures
        r@ == files_prefix(),
{
    let r: Vec<u8> = vec![
        '/' as u8, 'f' as u8, 'i' as u8, 'l' as u8, 'e' as u8, 's' as u8, '/' as u8,
    ];
    proof {
        assert(r@ =~= files_prefix());
    }
    r
}

/// A response of just a status line: no headers, no body.
pub open spec fn bare_view(status: Seq<u8>) -> RespView {
    RespView {
        status: status,
        headers: HeadersView {
            content_type: None,
            content_length: None,
            content_encoding: None,
        },
        body: None,
    }
}

/// Whether the comma-separated list in `v`, each element trimmed of
/// surrounding whitespace, holds the exact token `gzip` at or after
/// position `p`.
pub open spec fn has_gzip_from(v: Seq<u8>, p: int) -> bool
    decreases v.len() - p when 0 <= p <= v.len() via has_gzip_decreases
{
    let c = find_from(v, p, 44);
    if c < v.len() {
        spec_trim(v.subrange(p, c)) == spec_gzip() || has_gzip_from(v, c + 1)
    } else {
        spec_trim(v.subrange(p, v.len() as int)) == spec_gzip()
    }
}

#[via_fn]
proof fn has_gzip_decreases(v: Seq<u8>, p: int) {
    if 0 <= p <= v.len() {
        crate::bytes::lemma_find_from(v, p, 44);
    }
}

/// Whether the request asks for gzip: an `Accept-Encoding` header is
/// present and one of its comma-separated tokens is exactly `gzip`.
pub open spec fn accepts_gzip(headers: Map<Seq<u8>, Seq<u8>>) -> bool {
    headers.contains_key(accept_encoding_key()) && has_gzip_from(
        headers[accept_encoding_key()],
        0,
    )
}

/// Scans a comma-separated header value for the token `gzip`.
fn has_gzip_token(v: &[u8]) -> (r: bool)
    ensures
        r == has_gzip_from(v@, 0),
{
    let g = gzip_vec();
    let mut p: usize = 0;
    loop
        invariant
            0 <= p <= v@.len(),
            g@ == spec_gzip(),
            has_gzip_from(v@, 0) == has_gzip_from(v@, p as int),
        decreases v@.len() - p,
    {
        let c = find_byte(v, p, 44);
        let seg = trim_slice(vstd::slice::slice_subrange(v, p, c));
        if bytes_eq(seg, g.as_slice()) {
            return true;
        }
        if c >= v.len() {
            return false;
        }
        p = c + 1;
    }
}

/// What became of the echoed text under gzip: status 200, `text/plain`,
/// `Content-Encoding: gzip`, and a body that decompresses to exactly `t`,
/// with `Content-Length` matching the compressed bytes.
pub open spec fn gzip_echo_ok(t: Seq<u8>, r: RespView) -> bool {
    match r.body {
        Some(b) => r.status == status_ok() && r.headers.content_type == Some(text_plain())
            && r.headers.content_encoding == Some(spec_gzip()) && gunzip_of(b) == Some(t)
            && r.headers.content_length == Some(dec_digits(b.len() as int)),
        None => false,
    }
}

/// The text the echo route reflects: everything after the `/echo/` prefix.
pub open spec fn echo_text(endpoint: Seq<u8>) -> Seq<u8> {
    endpoint.subrange(6, endpoint.len() as int)
}

pub open spec fn is_echo(endpoint: Seq<u8>) -> bool {
    endpoint.len() >= 6 && endpoint.subrange(0, 6) == echo_prefix()
}

/// The file name a file route speaks of: everything after `/files/`.
pub open spec fn file_name_text(endpoint: Seq<u8>) -> Seq<u8> {
    endpoint.subrange(7, endpoint.len() as int)
}

pub open spec fn is_files(endpoint: Seq<u8>) -> bool {
    endpoint.len() >= 7 && endpoint.subrange(0, 7) == files_prefix()
}

/// The echo route's contract. Without gzip in `Accept-Encoding` the reply
/// is the text as plain `200 OK`. With gzip asked for, the reply is either
/// the compressed form (the usual case) or, if compression failed, the
/// same plain reply with no `Content-Encoding` set.
pub open spec fn echo_ok(req: ReqView, r: RespView) -> bool {
    let t = echo_text(req.endpoint);
    if accepts_gzip(req.headers) {
        gzip_echo_ok(t, r) || r == plain_body_view(status_ok(), text_plain(), t)
    } else {
        r == plain_body_view(status_ok(), text_plain(), t)
    }
}

/// The user-agent route's reply: the `User-Agent` value as plain text, or a
/// bare `200 OK` when the header is absent.
pub open spec fn user_agent_view(req: ReqView) -> RespView {
    if req.headers.contains_key(user_agent_key()) {
        plain_body_view(status_ok(), text_plain(), req.headers[user_agent_key()])
    } else {
        bare_view(status_ok())
    }
}

/// The file-read reply: the contents as `application/octet-stream`, or
/// `404 Not Found` when no storage root is configured, the file is absent,
/// or reading failed — the caller collapses all of those into `None`.
pub open spec fn file_read_view(content: Option<Seq<u8>>) -> RespView {
    match content {
        Some(c) => plain_body_view(status_ok(), octet_stream(), c),
        None => bare_view(status_not_found()),
    }
}

/// The file-write reply: `201 Created` on full success, else `404`.
pub open spec fn file_write_view(write_ok: bool) -> RespView {
    if write_ok {
        bare_view(status_created())
    } else {
        bare_view(status_not_found())
    }
}

/// The routing table for GET, first match wins.
pub open spec fn get_response_ok(req: ReqView, content: Option<Seq<u8>>, r: RespView) -> bool {
    if req.endpoint == root_path() {
        r == bare_view(status_ok())
    } else if is_echo(req.endpoint) {
        echo_ok(req, r)
    } else if req.endpoint == user_agent_path() {
        r == user_agent_view(req)
    } else if is_files(req.endpoint) {
        r == file_read_view(content)
    } else {
        r == bare_view(status_not_found())
    }
}

/// The routing table for POST: only the file-write route exists.
pub open spec fn post_response_view(req: ReqView, write_ok: bool) -> RespView {
    if is_files(req.endpoint) {
        file_write_view(write_ok)
    } else {
        bare_view(status_not_found())
    }
}

/// The whole dispatch: by method, then by path.
pub open spec fn dispatch_ok(
    req: ReqView,
    content: Option<Seq<u8>>,
    write_ok: bool,
    r: RespView,
) -> bool {
    if req.method == get_token() {
        get_response_ok(req, content, r)
    } else if req.method == post_token() {
        r == post_response_view(req, write_ok)
    } else {
        r == bare_view(status_not_found())
    }
}

/// What flate2's gzip decoder reads out of a byte sequence: the original
/// bytes for a well-formed stream, nothing for a damaged one. Named here so
/// contracts can say "this body decompresses to that text" without writing
/// the DEFLATE format out.
pub uninterp spec fn gunzip_of(data: Seq<u8>) -> Option<Seq<u8>>;

/// Relies on flate2::write::GzEncoder: feeding it `data` and finishing
/// yields a gzip stream that flate2's own decoder reads back as exactly
/// `data`. Encoding failures (which an in-memory sink does not produce in
/// practice) come back as `None`.
#[verifier::external_body]
fn gzip_data(data: &Vec<u8>) -> (r: Option<Vec<u8>>)
    ensures
        (r matches Some(g) ==> gunzip_of(g@) == Some(data@)),
{
    let mut encoder = flate2::write::GzEncoder::new(Vec::new(), flate2::Compression::default());
    if std::io::Write::write_all(&mut encoder, data.as_slice()).is_err() {
        return None;
    }
    match encoder.finish() {
        Ok(v) => Some(v),
        Err(_) => None,
    }
}

/// The root route: a bare `200 OK`.
pub fn handle_root() -> (r: HTTPResponse)
    ensures
        r@ == bare_view(status_ok()),
{
    HTTPResponse::new(status_ok_vec())
}

/// The echo route: reflects the text after `/echo/`, compressed when the
/// request accepts gzip and compression succeeds.
pub fn handle_echo(request: &HTTPRequest) -> (r: HTTPResponse)
    requires
        request.wf(),
        is_echo(request@.endpoint),
    ensures
        echo_ok(request@, r@),
{
    let ep = request.endpoint();
    let text = subvec(ep.as_slice(), 6, ep.len());
    let mut response = HTTPResponse::new(status_ok_vec());
    let key = accept_encoding_key_vec();
    let wants_gzip = match request.headers().get(key.as_slice()) {
        Some(v) => has_gzip_token(v.as_slice()),
        None => false,
    };
    if wants_gzip {
        match gzip_data(&text) {
            Some(compressed) => {
                response.set_content_encoding(gzip_vec());
                response.set_body_as_plain_text(text_plain_vec(), compressed);
                return response;
            },
            None => {},
        }
    }
    response.set_body_as_plain_text(text_plain_vec(), text);
    response
}

/// The user-agent route: reflects the `User-Agent` header as plain text; a
/// request without one still gets `200 OK`, with no body.
pub fn handle_user_agent(request: &HTTPRequest) -> (r: HTTPResponse)
    requires
        request.wf(),
    ensures
        r@ == user_agent_view(request@),
{
    let mut response = HTTPResponse::new(status_ok_vec());
    let key = user_agent_key_vec();
    match request.headers().get(key.as_slice()) {
        Some(v) => {
            let body = vstd::slice::slice_to_vec(v.as_slice());
            response.set_body_as_plain_text(text_plain_vec(), body);
        },
        None => {},
    }
    response
}

/// The file-read route, as a function of the read's outcome: `None` stands
/// for "no storage root, not found, or unreadable" alike.
pub fn handle_file_request(file_content: Option<Vec<u8>>) -> (r: HTTPResponse)
    ensures
        r@ == file_read_view(opt_bytes_view(file_content)),
{
    match file_content {
        Some(content) => {
            let mut response = HTTPResponse::new(status_ok_vec());
            response.set_body_as_plain_text(octet_stream_vec(), content);
            response
        },
        None => HTTPResponse::new(status_not_found_vec()),
    }
}

/// The file-write route, as a function of the write's outcome: `true`
/// means the storage root was configured and the whole body was written.
pub fn handle_file_post(write_ok: bool) -> (r: HTTPResponse)
    ensures
        r@ == file_write_view(write_ok),
{
    if write_ok {
        HTTPResponse::new(status_created_vec())
    } else {
        HTTPResponse::new(status_not_found_vec())
    }
}

/// Routes a GET request. `file_content` is the outcome of reading the file
/// a `/files/` endpoint names; it is ignored on every other route.
pub fn handle_get_request(request: &HTTPRequest, file_content: Option<Vec<u8>>) -> (r:
    HTTPResponse)
    requires
        request.wf(),
    ensures
        get_response_ok(request@, opt_bytes_view(file_content), r@),
{
    let ep = request.endpoint();
    let root = root_path_vec();
    if bytes_eq(ep.as_slice(), root.as_slice()) {
        return handle_root();
    }
    let echo = echo_prefix_vec();
    if starts_with(ep.as_slice(), echo.as_slice()) {
        return handle_echo(request);
    }
    let ua = user_agent_path_vec();
    if bytes_eq(ep.as_slice(), ua.as_slice()) {
        return handle_user_agent(request);
    }
    let files = files_prefix_vec();
    if starts_with(ep.as_slice(), files.as_slice()) {
        return handle_file_request(file_content);
    }
    HTTPResponse::new(status_not_found_vec())
}

/// Routes a POST request. `write_ok` is the outcome of writing the body to
/// the file a `/files/` endpoint names; it is ignored on every other route.
pub fn handle_post_request(request: &HTTPRequest, write_ok: bool) -> (r: HTTPResponse)
    requires
        request.wf(),
    ensures
        r@ == post_response_view(request@, write_ok),
{
    let ep = request.endpoint();
    let files = files_prefix_vec();
    if starts_with(ep.as_slice(), files.as_slice()) {
        handle_file_post(write_ok)
    } else {
        HTTPResponse::new(status_not_found_vec())
    }
}

/// The whole dispatch: GET and POST go to their routing tables, any other
/// method gets `404 Not Found`.
pub fn dispatch(request: &HTTPRequest, file_content: Option<Vec<u8>>, write_ok: bool) -> (r:
    HTTPResponse)
    requires
        request.wf(),
    ensures
        dispatch_ok(request@, opt_bytes_view(file_content), write_ok, r@),
{
    let m = request.method();
    let get = get_token_vec();
    if bytes_eq(m.as_slice(), get.as_slice()) {
        return handle_get_request(request, file_content);
    }
    let post = post_token_vec();
    if bytes_eq(m.as_slice(), post.as_slice()) {
        return handle_post_request(request, write_ok);
    }
    HTTPResponse::new(status_not_found_vec())
}

/// The file operation a request calls for, so that a caller doing real
/// file work can perform it and hand the outcome to `dispatch`.
pub enum FileAction {
    /// No file route is hit.
    NoFile,
    /// `GET /files/<name>`: read the named file.
    ReadFile(Vec<u8>),
    /// `POST /files/<name>`: write the request body to the named file.
    WriteFile(Vec<u8>, Vec<u8>),
}

/// Which file operation, if any, `dispatch` will expect the outcome of.
pub fn file_action_of(request: &HTTPRequest) -> (r: FileAction)
    requires
        request.wf(),
    ensures
        match r {
            FileAction::ReadFile(name) => request@.method == get_token() && is_files(
                request@.endpoint,
            ) && name@ == file_name_text(request@.endpoint),
            FileAction::WriteFile(name, content) => request@.method == post_token() && is_files(
                request@.endpoint,
            ) && name@ == file_name_text(request@.endpoint) && content@ == request@.body,
            FileAction::NoFile => !(request@.method == get_token() && is_files(request@.endpoint))
                && !(request@.method == post_token() && is_files(request@.endpoint)),
        },
{
    let ep = request.endpoint();
    let files = files_prefix_vec();
    if !starts_with(ep.as_slice(), files.as_slice()) {
        return FileAction::NoFile;
    }
    let name = subvec(ep.as_slice(), 7, ep.len());
    let m = request.method();
    let get = get_token_vec();
    if bytes_eq(m.as_slice(), get.as_slice()) {
        return FileAction::ReadFile(name);
    }
    let post = post_token_vec();
    if bytes_eq(m.as_slice(), post.as_slice()) {
        let body = vstd::slice::slice_to_vec(request.body().as_slice());
        return FileAction::WriteFile(name, body);
    }
    FileAction::NoFile
}

} // verus!

//! The response object model: a status line, the three optional headers the
//! server emits (`Content-Type`, `Content-Length`, `Content-Encoding`, in
//! that fixed order), and an optional body. Serialization is pinned to
//! `spec_serialize`, so that the framing — status line, header lines, blank
//! line, raw body, no trailing terminator — is proved rather than assumed.
use vstd::prelude::*;
use crate::bytes::{crlf, push_bytes};

verus! {

/// The bytes of `Content-Type: `.
pub open spec fn content_type_prefix() -> Seq<u8> {
    seq![
        'C' as u8, 'o' as u8, 'n' as u8, 't' as u8, 'e' as u8, 'n' as u8, 't' as u8, '-' as u8,
        'T' as u8, 'y' as u8, 'p' as u8, 'e' as u8, ':' as u8, ' ' as u8,
    ]
}

/// The bytes of `Content-Length: `.
pub open spec fn content_length_prefix() -> Seq<u8> {
    seq![
        'C' as u8, 'o' as u8, 'n' as u8, 't' as u8, 'e' as u8, 'n' as u8, 't' as u8, '-' as u8,
        'L' as u8, 'e' as u8, 'n' as u8, 'g' as u8, 't' as u8, 'h' as u8, ':' as u8, ' ' as u8,
    ]
}

/// The bytes of `Content-Encoding: `.
pub open spec fn content_encoding_prefix() -> Seq<u8> {
    seq![
        'C' as u8, 'o' as u8, 'n' as u8, 't' as u8, 'e' as u8, 'n' as u8, 't' as u8, '-' as u8,
        'E' as u8, 'n' as u8, 'c' as u8, 'o' as u8, 'd' as u8, 'i' as u8, 'n' as u8, 'g' as u8,
        ':' as u8, ' ' as u8,
    ]
}

fn content_type_prefix_vec() -> (r: Vec<u8>)
    ensures
        r@ == content_type_prefix(),
{
    let r: Vec<u8> = vec![
        'C' as u8, 'o' as u8, 'n' as u8, 't' as u8, 'e' as u8, 'n' as u8, 't' as u8, '-' as u8,
        'T' as u8, 'y' as u8, 'p' as u8, 'e' as u8, ':' as u8, ' ' as u8,
    ];
    proof {
        assert(r@ =~= content_type_prefix());
    }
    r
}

fn content_length_prefix_vec() -> (r: Vec<u8>)
    ensures
        r@ == content_length_prefix(),
{
    let r: Vec<u8> = vec![
        'C' as u8, 'o' as u8, 'n' as u8, 't' as u8, 'e' as u8, 'n' as u8, 't' as u8, '-' as u8,
        'L' as u8, 'e' as u8, 'n' as u8, 'g' as u8, 't' as u8, 'h' as u8, ':' as u8, ' ' as u8,
    ];
    proof {
        assert(r@ =~= content_length_prefix());
    }
    r
}

fn content_encoding_prefix_vec() -> (r: Vec<u8>)
    ensures
        r@ == content_encoding_prefix(),
{
    let r: Vec<u8> = vec![
        'C' as u8, 'o' as u8, 'n' as u8, 't' as u8, 'e' as u8, 'n' as u8, 't' as u8, '-' as u8,
        'E' as u8, 'n' as u8, 'c' as u8, 'o' as u8, 'd' as u8, 'i' as u8, 'n' as u8, 'g' as u8,
        ':' as u8, ' ' as u8,
    ];
    proof {
        assert(r@ =~= content_encoding_prefix());
    }
    r
}

fn crlf_vec() -> (r: Vec<u8>)
    ensures
        r@ == crlf(),
{
    let r: Vec<u8> = vec![13u8, 10u8];
    proof {
        assert(r@ =~= crlf());
    }
    r
}

/// The decimal digit string of a non-negative number, most significant
/// digit first, no sign and no leading zero (a single `0` for zero).
pub open spec fn dec_digits(n: int) -> Seq<u8>
    decreases n when n >= 0
{
    if n < 10 {
        seq![(48 + n) as u8]
    } else {
        dec_digits(n / 10) + seq![(48 + n % 10) as u8]
    }
}

/// Renders a number the way `Content-Length` carries it.
pub fn usize_to_decimal(n: usize) -> (r: Vec<u8>)
    ensures
        r@ == dec_digits(n as int),
    decreases n,
{
    if n < 10 {
        let mut v: Vec<u8> = Vec::new();
        v.push(48 + n as u8);
        proof {
            assert(v@ =~= dec_digits(n as int));
        }
        v
    } else {
        let mut v = usize_to_decimal(n / 10);
        v.push(48 + (n % 10) as u8);
        proof {
            assert(v@ =~= dec_digits(n as int));
        }
        v
    }
}

/// The mathematical content of the header set.
pub ghost struct HeadersView {
    pub content_type: Option<Seq<u8>>,
    pub content_length: Option<Seq<u8>>,
    pub content_encoding: Option<Seq<u8>>,
}

/// One `Name: value` line, or nothing when the header is unset.
pub open spec fn header_line(prefix: Seq<u8>, v: Option<Seq<u8>>) -> Seq<u8> {
    match v {
        Some(value) => prefix + value + crlf(),
        None => Seq::empty(),
    }
}

/// The serialized header block, in the fixed emission order.
pub open spec fn spec_format_headers(h: HeadersView) -> Seq<u8> {
    header_line(content_type_prefix(), h.content_type) + header_line(
        content_length_prefix(),
        h.content_length,
    ) + header_line(content_encoding_prefix(), h.content_encoding)
}

/// The three response headers this server may emit, each set independently
/// and left out of the wire format while unset.
pub struct HTTPHeaders {
    content_type: Option<Vec<u8>>,
    content_length: Option<Vec<u8>>,
    content_encoding: Option<Vec<u8>>,
}

pub open spec fn opt_bytes_view(o: Option<Vec<u8>>) -> Option<Seq<u8>> {
    match o {
        Some(v) => Some(v@),
        None => None,
    }
}

impl View for HTTPHeaders {
    type V = HeadersView;

    closed spec fn view(&self) -> HeadersView {
        HeadersView {
            content_type: opt_bytes_view(self.content_type),
            content_length: opt_bytes_view(self.content_length),
            content_encoding: opt_bytes_view(self.content_encoding),
        }
    }
}

impl Default for HTTPHeaders {
    /// All three headers unset.
    fn default() -> (r: Self)
        ensures
            r@.content_type is None,
            r@.content_length is None,
            r@.content_encoding is None,
    {
        HTTPHeaders { content_type: None, content_length: None, content_encoding: None }
    }
}

impl HTTPHeaders {
    /// An empty header set.
    pub fn new() -> (r: Self)
        ensures
            r@.content_type is None,
            r@.content_length is None,
            r@.content_encoding is None,
    {
        HTTPHeaders { content_type: None, content_length: None, content_encoding: None }
    }

    /// Sets `Content-Type`, replacing an earlier value.
    pub fn set_content_type(&mut self, content_type: Vec<u8>)
        ensures
            final(self)@ == (HeadersView { content_type: Some(content_type@), ..old(self)@ }),
    {
        self.content_type = Some(content_type);
    }

    /// Sets `Content-Length`, replacing an earlier value.
    pub fn set_content_length(&mut self, content_length: Vec<u8>)
        ensures
            final(self)@ == (HeadersView { content_length: Some(content_length@), ..old(self)@ }),
    {
        self.content_length = Some(content_length);
    }

    /// Sets `Content-Encoding`, replacing an earlier value.
    pub fn set_content_encoding(&mut self, content_encoding: Vec<u8>)
        ensures
            final(self)@ == (HeadersView {
                content_encoding: Some(content_encoding@),
                ..old(self)@
            }),
    {
        self.content_encoding = Some(content_encoding);
    }

    /// The header block as it goes on the wire.
    pub fn get_formatted(&self) -> (r: Vec<u8>)
        ensures
            r@ == spec_format_headers(self@),
    {
        let mut out: Vec<u8> = Vec::new();
        if let Some(ct) = &self.content_type {
            let p = content_type_prefix_vec();
            push_bytes(&mut out, p.as_slice());
            push_bytes(&mut out, ct.as_slice());
            let nl = crlf_vec();
            push_bytes(&mut out, nl.as_slice());
        }
        let ghost after_ct = out@;
        if let Some(cl) = &self.content_length {
            let p = content_length_prefix_vec();
            push_bytes(&mut out, p.as_slice());
            push_bytes(&mut out, cl.as_slice());
            let nl = crlf_vec();
            push_bytes(&mut out, nl.as_slice());
        }
        let ghost after_cl = out@;
        if let Some(ce) = &self.content_encoding {
            let p = content_encoding_prefix_vec();
            push_bytes(&mut out, p.as_slice());
            push_bytes(&mut out, ce.as_slice());
            let nl = crlf_vec();
            push_bytes(&mut out, nl.as_slice());
        }
        proof {
            assert(after_ct =~= header_line(content_type_prefix(), self@.content_type));
            assert(after_cl =~= after_ct + header_line(
                content_length_prefix(),
                self@.content_length,
            ));
            assert(out@ =~= after_cl + header_line(
                content_encoding_prefix(),
                self@.content_encoding,
            ));
            assert(out@ =~= spec_format_headers(self@));
        }
        out
    }
}

/// The raw bytes of a response body.
pub struct HTTPBody {
    body: Vec<u8>,
}

impl View for HTTPBody {
    type V = Seq<u8>;

    closed spec fn view(&self) -> Seq<u8> {
        self.body@
    }
}

impl HTTPBody {
    /// Wraps the given bytes.
    pub fn new(body: Vec<u8>) -> (r: Self)
        ensures
            r@ == body@,
    {
        HTTPBody { body }
    }

    /// The body exactly as it goes on the wire.
    pub fn get_formatted(&self) -> (r: &Vec<u8>)
        ensures
            r@ == self@,
    {
        &self.body
    }
}

/// The mathematical content of a response.
pub ghost struct RespView {
    pub status: Seq<u8>,
    pub headers: HeadersView,
    pub body: Option<Seq<u8>>,
}

/// The full wire form: status line, header block, blank line, body bytes,
/// and nothing after the body.
pub open spec fn spec_serialize(v: RespView) -> Seq<u8> {
    v.status + crlf() + spec_format_headers(v.headers) + crlf() + (match v.body {
        Some(b) => b,
        None => Seq::empty(),
    })
}

/// A response under construction: a status line fixed at creation, the
/// header set, and an optional body.
pub struct HTTPResponse {
    status_line: Vec<u8>,
    headers: HTTPHeaders,
    body: Option<HTTPBody>,
}

impl View for HTTPResponse {
    type V = RespView;

    closed spec fn view(&self) -> RespView {
        RespView {
            status: self.status_line@,
            headers: self.headers@,
            body: match self.body {
                Some(b) => Some(b@),
                None => None,
            },
        }
    }
}

impl Default for HTTPResponse {
    /// An empty status line, no headers, no body.
    fn default() -> (r: Self)
        ensures
            r@.status == Seq::<u8>::empty(),
            r@.headers.content_type is None,
            r@.headers.content_length is None,
            r@.headers.content_encoding is None,
            r@.body is None,
    {
        HTTPResponse { status_line: Vec::new(), headers: HTTPHeaders::new(), body: None }
    }
}

impl HTTPResponse {
    /// A response with the given status line, no headers and no body.
    pub fn new(status_line: Vec<u8>) -> (r: Self)
        ensures
            r@.status == status_line@,
            r@.headers.content_type is None,
            r@.headers.content_length is None,
            r@.headers.content_encoding is None,
            r@.body is None,
    {
        HTTPResponse { status_line, headers: HTTPHeaders::new(), body: None }
    }

    /// Installs `body` with the given `Content-Type` and a `Content-Length`
    /// of exactly the body's byte count; an earlier body or value of those
    /// two headers is replaced, `Content-Encoding` is left alone.
    pub fn set_body_as_plain_text(&mut self, content_type: Vec<u8>, body: Vec<u8>)
        ensures
            final(self)@.status == old(self)@.status,
            final(self)@.headers.content_type == Some(content_type@),
            final(self)@.headers.content_length == Some(dec_digits(body@.len() as int)),
            final(self)@.headers.content_encoding == old(self)@.headers.content_encoding,
            final(self)@.body == Some(body@),
    {
        let len_str = usize_to_decimal(body.len());
        self.headers.set_content_length(len_str);
        self.headers.set_content_type(content_type);
        self.body = Some(HTTPBody::new(body));
    }

    /// Sets `Content-Encoding` on this response.
    pub fn set_content_encoding(&mut self, content_encoding: Vec<u8>)
        ensures
            final(self)@.status == old(self)@.status,
            final(self)@.headers.content_type == old(self)@.headers.content_type,
            final(self)@.headers.content_length == old(self)@.headers.content_length,
            final(self)@.headers.content_encoding == Some(content_encoding@),
            final(self)@.body == old(self)@.body,
    {
        self.headers.set_content_encoding(content_encoding);
    }

    /// Read access to the header set.
    pub fn get_headers(&self) -> (r: &HTTPHeaders)
        ensures
            r@ == self@.headers,
    {
        &self.headers
    }

    /// Serializes the response: status line, each set header in the fixed
    /// order, a blank line, then the raw body bytes and nothing more. Pure:
    /// two calls on the same response yield the same bytes.
    pub fn get_formatted_response(&self) -> (r: Vec<u8>)
        ensures
            r@ == spec_serialize(self@),
    {
        let mut out: Vec<u8> = Vec::new();
        push_bytes(&mut out, self.status_line.as_slice());
        let nl = crlf_vec();
        push_bytes(&mut out, nl.as_slice());
        let hdrs = self.headers.get_formatted();
        push_bytes(&mut out, hdrs.as_slice());
        push_bytes(&mut out, nl.as_slice());
        if let Some(b) = &self.body {
            let bb = b.get_formatted();
            push_bytes(&mut out, bb.as_slice());
        }
        proof {
            assert(out@ =~= spec_serialize(self@));
        }
        out
    }
}

/// The view of a plain-text response: status `status`, body `body` under
/// `Content-Type` `ctype`, a matching `Content-Length`, and no encoding.
pub open spec fn plain_body_view(status: Seq<u8>, ctype: Seq<u8>, body: Seq<u8>) -> RespView {
    RespView {
        status: status,
        headers: HeadersView {
            content_type: Some(ctype),
            content_length: Some(dec_digits(body.len() as int)),
            content_encoding: None,
        },
        body: Some(body),
    }
}

/// Serializing a freshly built plain-text response yields exactly the
/// status line, the `Content-Type` and `Content-Length` lines, a blank
/// line, and then the body bytes — for every status, type and body.
pub proof fn lemma_serialize_plain_text(status: Seq<u8>, ctype: Seq<u8>, body: Seq<u8>)
    ensures
        spec_serialize(plain_body_view(status, ctype, body)) == status + crlf()
            + content_type_prefix() + ctype + crlf() + content_length_prefix() + dec_digits(
            body.len() as int,
        ) + crlf() + crlf() + body,
{
    assert(spec_serialize(plain_body_view(status, ctype, body)) =~= status + crlf()
        + content_type_prefix() + ctype + crlf() + content_length_prefix() + dec_digits(
        body.len() as int,
    ) + crlf() + crlf() + body);
}

/// Serialization is a function of the response alone: two serializations of
/// the same response are byte-for-byte identical.
pub proof fn lemma_serialize_repeatable(first: Seq<u8>, second: Seq<u8>, v: RespView)
    requires
        first == spec_serialize(v),
        second == spec_serialize(v),
    ensures
        first == second,
{
}

} // verus!

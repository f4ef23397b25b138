//! Parsing of one HTTP/1.1 request from a byte buffer: the request line
//! (method, endpoint, protocol), the header block up to the blank line, and a
//! body framed by `Content-Length`. The whole parse is pinned to the spec
//! function `spec_parse_request`.
use vstd::prelude::*;
use crate::bytes::{
    find_from, find_colon_space, spec_trim, find_byte, find_separator, trim_slice, subvec,
    lemma_find_colon_space,
};
use crate::headers::HeaderMap;

verus! {

/// Why a buffer failed to parse as a request.
#[derive(Clone, Copy, Debug, PartialEq, Eq, Structural)]
pub enum ParseError {
    /// The first line does not hold three non-empty space-separated tokens.
    MalformedRequestLine,
    /// The buffer ends before the declared `Content-Length` is reached.
    TruncatedBody,
}

/// The bytes of the header name `Content-Length`.
pub open spec fn content_length_key() -> Seq<u8> {
    seq![
        'C' as u8, 'o' as u8, 'n' as u8, 't' as u8, 'e' as u8, 'n' as u8, 't' as u8, '-' as u8,
        'L' as u8, 'e' as u8, 'n' as u8, 'g' as u8, 't' as u8, 'h' as u8,
    ]
}

/// Runtime copy of `content_length_key`.
pub fn content_length_key_vec() -> (r: Vec<u8>)
    ensures
        r@ == content_length_key(),
{
    let r: Vec<u8> = vec![
        'C' as u8, 'o' as u8, 'n' as u8, 't' as u8, 'e' as u8, 'n' as u8, 't' as u8, '-' as u8,
        'L' as u8, 'e' as u8, 'n' as u8, 'g' as u8, 't' as u8, 'h' as u8,
    ];
    proof {
        assert(r@ =~= content_length_key());
    }
    r
}

/// The mathematical content of a parsed request.
pub ghost struct ReqView {
    pub method: Seq<u8>,
    pub endpoint: Seq<u8>,
    pub protocol: Seq<u8>,
    pub headers: Map<Seq<u8>, Seq<u8>>,
    pub body: Seq<u8>,
}

/// Splits a (not yet trimmed) request line into its three tokens: the bytes
/// before the first space, between the first and second space, and from the
/// second space to the next space or the end. `None` when fewer than three
/// tokens are present or one of the three is empty.
pub open spec fn parse_request_line(line: Seq<u8>) -> Option<(Seq<u8>, Seq<u8>, Seq<u8>)> {
    let t = spec_trim(line);
    let i = find_from(t, 0, 32);
    if i == 0 || i >= t.len() {
        None
    } else {
        let j = find_from(t, i + 1, 32);
        if j == i + 1 || j >= t.len() {
            None
        } else {
            let k = find_from(t, j + 1, 32);
            if k == j + 1 {
                None
            } else {
                Some((t.subrange(0, i), t.subrange(i + 1, j), t.subrange(j + 1, k)))
            }
        }
    }
}

/// Reads header lines starting at `p` until a blank line or the end of the
/// buffer, folding each `Name: value` line into `acc` (a repeated name keeps
/// the last value); a line without the `": "` separator is skipped. Yields
/// the final mapping and the position where the body starts.
pub open spec fn parse_headers_from(
    s: Seq<u8>,
    p: int,
    acc: Map<Seq<u8>, Seq<u8>>,
) -> (Map<Seq<u8>, Seq<u8>>, int)
    decreases s.len() - p when 0 <= p <= s.len() via parse_headers_decreases
{
    if p >= s.len() {
        (acc, p)
    } else {
        let e = find_from(s, p, 10);
        let next = if e < s.len() {
            e + 1
        } else {
            s.len() as int
        };
        let t = spec_trim(s.subrange(p, e));
        if t.len() == 0 {
            (acc, next)
        } else {
            let c = find_colon_space(t, 0);
            let acc2 = if c < t.len() {
                acc.insert(t.subrange(0, c), t.subrange(c + 2, t.len() as int))
            } else {
                acc
            };
            parse_headers_from(s, next, acc2)
        }
    }
}

#[via_fn]
proof fn parse_headers_decreases(s: Seq<u8>, p: int, acc: Map<Seq<u8>, Seq<u8>>) {
    if 0 <= p < s.len() {
        crate::bytes::lemma_find_from(s, p, 10);
    }
}

pub open spec fn is_digit(b: u8) -> bool {
    48 <= b <= 57
}

pub open spec fn all_digits(s: Seq<u8>) -> bool {
    forall|i: int| 0 <= i < s.len() ==> is_digit(#[trigger] s[i])
}

/// The number the decimal digit string stands for.
pub open spec fn digits_val(s: Seq<u8>) -> int
    decreases s.len(),
{
    if s.len() == 0 {
        0
    } else {
        digits_val(s.drop_last()) * 10 + (s.last() - 48)
    }
}

/// The body length a header mapping declares: the value of `Content-Length`
/// read as a decimal number, or zero when the header is absent, empty,
/// non-numeric or too large for the machine.
pub open spec fn spec_content_length(headers: Map<Seq<u8>, Seq<u8>>) -> int {
    if headers.contains_key(content_length_key()) {
        let v = headers[content_length_key()];
        if v.len() > 0 && all_digits(v) && digits_val(v) <= usize::MAX {
            digits_val(v)
        } else {
            0
        }
    } else {
        0
    }
}

/// One whole request out of a byte buffer: the first line as the request
/// line, then the header block, then exactly the declared number of body
/// bytes. Bytes past the body are left alone.
pub open spec fn spec_parse_request(s: Seq<u8>) -> Result<ReqView, ParseError> {
    let e = find_from(s, 0, 10);
    let line = s.subrange(0, e);
    let hstart = if e < s.len() {
        e + 1
    } else {
        s.len() as int
    };
    match parse_request_line(line) {
        None => Err(ParseError::MalformedRequestLine),
        Some(rl) => {
            let hb = parse_headers_from(s, hstart, Map::empty());
            let n = spec_content_length(hb.0);
            if hb.1 + n <= s.len() {
                Ok(
                    ReqView {
                        method: rl.0,
                        endpoint: rl.1,
                        protocol: rl.2,
                        headers: hb.0,
                        body: s.subrange(hb.1, hb.1 + n),
                    },
                )
            } else {
                Err(ParseError::TruncatedBody)
            }
        },
    }
}

proof fn lemma_digits_val_nonneg(s: Seq<u8>)
    requires
        all_digits(s),
    ensures
        digits_val(s) >= 0,
    decreases s.len(),
{
    if s.len() > 0 {
        assert(all_digits(s.drop_last())) by {
            assert(forall|i: int| 0 <= i < s.len() - 1 ==> s.drop_last()[i] == #[trigger] s[i]);
        }
        lemma_digits_val_nonneg(s.drop_last());
    }
}

/// Appending one digit multiplies the value by ten and adds the digit.
proof fn lemma_digits_step(s: Seq<u8>, i: int)
    requires
        0 <= i < s.len(),
    ensures
        digits_val(s.subrange(0, i + 1)) == digits_val(s.subrange(0, i)) * 10 + (s[i] - 48),
{
    let t = s.subrange(0, i + 1);
    assert(t.drop_last() =~= s.subrange(0, i));
    assert(t.last() == s[i]);
}

/// A digit string is worth at least any of its prefixes.
proof fn lemma_digits_prefix_le(s: Seq<u8>, i: int)
    requires
        all_digits(s),
        0 <= i <= s.len(),
    ensures
        digits_val(s.subrange(0, i)) <= digits_val(s),
    decreases s.len() - i,
{
    if i == s.len() {
        assert(s.subrange(0, i) =~= s);
    } else {
        lemma_digits_step(s, i);
        assert(all_digits(s.subrange(0, i))) by {
            assert(forall|j: int| 0 <= j < i ==> s.subrange(0, i)[j] == #[trigger] s[j]);
        }
        lemma_digits_val_nonneg(s.subrange(0, i));
        assert(digits_val(s.subrange(0, i)) <= digits_val(s.subrange(0, i + 1)));
        lemma_digits_prefix_le(s, i + 1);
    }
}

/// Reads a decimal number the way the body framing wants it: the value of
/// the digits, or zero on an empty string, a non-digit, or overflow.
fn parse_decimal(s: &[u8]) -> (r: usize)
    ensures
        r == (if s@.len() > 0 && all_digits(s@) && digits_val(s@) <= usize::MAX {
            digits_val(s@)
        } else {
            0
        }),
{
    let mut acc: usize = 0;
    let mut i: usize = 0;
    while i < s.len()
        invariant
            0 <= i <= s@.len(),
            all_digits(s@.subrange(0, i as int)),
            acc == digits_val(s@.subrange(0, i as int)),
        decreases s@.len() - i,
    {
        let b = s[i];
        if b < 48 || b > 57 {
            return 0;
        }
        proof {
            lemma_digits_step(s@, i as int);
            assert(all_digits(s@.subrange(0, i + 1))) by {
                assert(forall|j: int|
                    0 <= j < i + 1 ==> s@.subrange(0, i + 1)[j] == #[trigger] s@[j]);
                assert(forall|j: int|
                    0 <= j < i ==> s@.subrange(0, i as int)[j] == #[trigger] s@[j]);
            }
        }
        let d = (b - 48) as usize;
        match acc.checked_mul(10) {
            Some(x) => {
                match x.checked_add(d) {
                    Some(y) => {
                        acc = y;
                    },
                    None => {
                        proof {
                            if all_digits(s@) {
                                lemma_digits_prefix_le(s@, i + 1);
                            }
                        }
                        return 0;
                    },
                }
            },
            None => {
                proof {
                    if all_digits(s@) {
                        lemma_digits_prefix_le(s@, i + 1);
                    }
                }
                return 0;
            },
        }
        i = i + 1;
    }
    proof {
        assert(s@.subrange(0, s@.len() as int) =~= s@);
    }
    acc
}

/// Positions only move forward through the header block.
proof fn lemma_parse_headers_bounds(s: Seq<u8>, p: int, acc: Map<Seq<u8>, Seq<u8>>)
    requires
        0 <= p <= s.len(),
    ensures
        p <= parse_headers_from(s, p, acc).1 <= s.len(),
    decreases s.len() - p,
{
    if p < s.len() {
        crate::bytes::lemma_find_from(s, p, 10);
        let e = find_from(s, p, 10);
        let next = if e < s.len() {
            e + 1
        } else {
            s.len() as int
        };
        let t = spec_trim(s.subrange(p, e));
        if t.len() != 0 {
            let c = find_colon_space(t, 0);
            let acc2 = if c < t.len() {
                acc.insert(t.subrange(0, c), t.subrange(c + 2, t.len() as int))
            } else {
                acc
            };
            lemma_parse_headers_bounds(s, next, acc2);
        }
    }
}

/// A declared length is never negative.
pub proof fn lemma_content_length_nonneg(h: Map<Seq<u8>, Seq<u8>>)
    ensures
        spec_content_length(h) >= 0,
{
    if h.contains_key(content_length_key()) {
        let v = h[content_length_key()];
        if v.len() > 0 && all_digits(v) && digits_val(v) <= usize::MAX {
            lemma_digits_val_nonneg(v);
        }
    }
}

/// Every request line of three whitespace-free tokens parses back to
/// exactly those tokens.
pub proof fn lemma_request_line_tokens(m: Seq<u8>, p: Seq<u8>, v: Seq<u8>)
    requires
        m.len() > 0,
        p.len() > 0,
        v.len() > 0,
        forall|i: int| 0 <= i < m.len() ==> !crate::bytes::is_ws(#[trigger] m[i]),
        forall|i: int| 0 <= i < p.len() ==> !crate::bytes::is_ws(#[trigger] p[i]),
        forall|i: int| 0 <= i < v.len() ==> !crate::bytes::is_ws(#[trigger] v[i]),
    ensures
        parse_request_line(m + seq![32u8] + p + seq![32u8] + v) == Some((m, p, v)),
{
    let line = m + seq![32u8] + p + seq![32u8] + v;
    let lm = m.len() as int;
    let lp = p.len() as int;
    let lv = v.len() as int;
    assert(line.len() == lm + 1 + lp + 1 + lv);
    assert(forall|i: int| 0 <= i < lm ==> line[i] == #[trigger] m[i]);
    assert(line[lm] == 32);
    assert(forall|i: int| 0 <= i < lp ==> line[lm + 1 + i] == #[trigger] p[i]);
    assert(line[lm + 1 + lp] == 32);
    assert(forall|i: int| 0 <= i < lv ==> line[lm + 1 + lp + 1 + i] == #[trigger] v[i]);
    assert(!crate::bytes::is_ws(line[0]));
    assert(!crate::bytes::is_ws(line[line.len() - 1]));
    crate::bytes::lemma_trim_exact(line);
    assert(forall|i: int| 0 <= i < lm ==> #[trigger] line[i] != 32);
    crate::bytes::lemma_find_from_at(line, 0, 32, lm);
    assert(forall|i: int| lm + 1 <= i < lm + 1 + lp ==> #[trigger] line[i] != 32);
    crate::bytes::lemma_find_from_at(line, lm + 1, 32, lm + 1 + lp);
    assert(forall|i: int|
        lm + 1 + lp + 1 <= i < line.len() ==> #[trigger] line[i] != 32);
    crate::bytes::lemma_find_from_at(line, lm + 1 + lp + 1, 32, line.len() as int);
    assert(line.subrange(0, lm) =~= m);
    assert(line.subrange(lm + 1, lm + 1 + lp) =~= p);
    assert(line.subrange(lm + 1 + lp + 1, line.len() as int) =~= v);
}

/// A buffer holding just such a request line and its terminator parses to a
/// request with exactly those three fields, no headers and no body.
pub proof fn lemma_request_line_fields(m: Seq<u8>, p: Seq<u8>, v: Seq<u8>)
    requires
        m.len() > 0,
        p.len() > 0,
        v.len() > 0,
        forall|i: int| 0 <= i < m.len() ==> !crate::bytes::is_ws(#[trigger] m[i]),
        forall|i: int| 0 <= i < p.len() ==> !crate::bytes::is_ws(#[trigger] p[i]),
        forall|i: int| 0 <= i < v.len() ==> !crate::bytes::is_ws(#[trigger] v[i]),
    ensures
        spec_parse_request(m + seq![32u8] + p + seq![32u8] + v + crate::bytes::crlf()) == Ok::<
            ReqView,
            ParseError,
        >(
            ReqView {
                method: m,
                endpoint: p,
                protocol: v,
                headers: Map::empty(),
                body: Seq::empty(),
            },
        ),
{
    let line = m + seq![32u8] + p + seq![32u8] + v;
    let buf = m + seq![32u8] + p + seq![32u8] + v + crate::bytes::crlf();
    assert(buf =~= line + crate::bytes::crlf());
    let ll = line.len() as int;
    assert(forall|i: int| 0 <= i < ll ==> buf[i] == #[trigger] line[i]);
    assert(buf[ll] == 13 && buf[ll + 1] == 10);
    assert(forall|i: int| 0 <= i < ll ==> #[trigger] buf[i] != 10) by {
        lemma_request_line_tokens_ws(m, p, v);
    }
    crate::bytes::lemma_find_from_at(buf, 0, 10, ll + 1);
    assert(buf.subrange(0, ll + 1) =~= line + seq![13u8]);
    assert(!crate::bytes::is_ws(line[0]) && !crate::bytes::is_ws(line[ll - 1]));
    crate::bytes::lemma_trim_trailing_cr(line);
    crate::bytes::lemma_trim_exact(line);
    assert(spec_trim(buf.subrange(0, ll + 1)) == spec_trim(line));
    lemma_request_line_tokens(m, p, v);
    assert(parse_request_line(buf.subrange(0, ll + 1)) == Some((m, p, v)));
    assert(parse_headers_from(buf, buf.len() as int, Map::empty()) == (
        Map::<Seq<u8>, Seq<u8>>::empty(),
        buf.len() as int,
    ));
    assert(!Map::<Seq<u8>, Seq<u8>>::empty().contains_key(content_length_key()));
    assert(buf.subrange(buf.len() as int, buf.len() as int) =~= Seq::<u8>::empty());
}

/// The bytes of a line of three whitespace-free tokens are never line
/// breaks.
proof fn lemma_request_line_tokens_ws(m: Seq<u8>, p: Seq<u8>, v: Seq<u8>)
    requires
        forall|i: int| 0 <= i < m.len() ==> !crate::bytes::is_ws(#[trigger] m[i]),
        forall|i: int| 0 <= i < p.len() ==> !crate::bytes::is_ws(#[trigger] p[i]),
        forall|i: int| 0 <= i < v.len() ==> !crate::bytes::is_ws(#[trigger] v[i]),
    ensures
        forall|i: int|
            0 <= i < (m + seq![32u8] + p + seq![32u8] + v).len() ==> #[trigger] (m + seq![32u8] + p
                + seq![32u8] + v)[i] != 10,
{
    let line = m + seq![32u8] + p + seq![32u8] + v;
    assert forall|i: int| 0 <= i < line.len() implies #[trigger] line[i] != 10 by {
        let lm = m.len() as int;
        let lp = p.len() as int;
        if i < lm {
            assert(line[i] == m[i]);
        } else if i == lm {
        } else if i < lm + 1 + lp {
            assert(line[i] == p[i - lm - 1]);
        } else if i == lm + 1 + lp {
        } else {
            assert(line[i] == v[i - (lm + 1 + lp + 1)]);
        }
    }
}

/// One well-formed `Name: value` header line folds exactly one binding into
/// the mapping and moves the scan past its terminator.
pub proof fn lemma_header_line_folds(
    s: Seq<u8>,
    p: int,
    acc: Map<Seq<u8>, Seq<u8>>,
    name: Seq<u8>,
    value: Seq<u8>,
)
    requires
        name.len() > 0,
        value.len() > 0,
        forall|i: int|
            0 <= i < name.len() ==> !crate::bytes::is_ws(#[trigger] name[i]) && name[i] != 58,
        !crate::bytes::is_ws(value[0]),
        !crate::bytes::is_ws(value[value.len() - 1]),
        forall|i: int| 0 <= i < value.len() ==> #[trigger] value[i] != 10,
        0 <= p,
        p + name.len() + 2 + value.len() + 2 <= s.len(),
        s.subrange(p, p + name.len() + 2 + value.len() + 2) == name + seq![58u8, 32u8] + value
            + crate::bytes::crlf(),
    ensures
        parse_headers_from(s, p, acc) == parse_headers_from(
            s,
            p + name.len() + 2 + value.len() + 2,
            acc.insert(name, value),
        ),
{
    let l = name + seq![58u8, 32u8] + value;
    let ln = name.len() as int;
    let ll = l.len() as int;
    let w = s.subrange(p, p + ll + 2);
    assert(w =~= l + crate::bytes::crlf());
    assert(forall|i: int| 0 <= i < ll + 2 ==> s[p + i] == #[trigger] w[i]);
    assert(forall|i: int| 0 <= i < ln ==> l[i] == #[trigger] name[i]);
    assert(l[ln] == 58 && l[ln + 1] == 32);
    assert(forall|i: int| 0 <= i < value.len() ==> l[ln + 2 + i] == #[trigger] value[i]);
    assert(forall|i: int| 0 <= i < ll ==> #[trigger] l[i] != 10);
    assert(s[p + ll] == w[ll] && w[ll] == 13);
    assert(s[p + ll + 1] == w[ll + 1] && w[ll + 1] == 10);
    assert forall|i: int| p <= i < p + ll + 1 implies #[trigger] s[i] != 10 by {
        assert(s[i] == w[i - p]);
        if i - p < ll {
            assert(w[i - p] == l[i - p]);
        } else {
            assert(w[i - p] == 13);
        }
    }
    crate::bytes::lemma_find_from_at(s, p, 10, p + ll + 1);
    assert(find_from(s, p, 10) == p + ll + 1);
    assert(s.subrange(p, p + ll + 1) =~= l + seq![13u8]);
    assert(!crate::bytes::is_ws(l[0]) && !crate::bytes::is_ws(l[ll - 1]));
    crate::bytes::lemma_trim_trailing_cr(l);
    assert(spec_trim(s.subrange(p, p + ll + 1)) == l);
    assert(forall|i: int| 0 <= i < ln ==> #[trigger] l[i] != 58);
    crate::bytes::lemma_find_colon_space_at(l, 0, ln);
    assert(find_colon_space(l, 0) == ln);
    assert(l.subrange(0, ln) =~= name);
    assert(l.subrange(ln + 2, ll) =~= value);
}

/// When one name is written twice, the binding written last is the one the
/// mapping keeps.
pub proof fn lemma_last_duplicate_wins(
    acc: Map<Seq<u8>, Seq<u8>>,
    name: Seq<u8>,
    first: Seq<u8>,
    second: Seq<u8>,
)
    ensures
        acc.insert(name, first).insert(name, second) == acc.insert(name, second),
{
    assert(acc.insert(name, first).insert(name, second) =~= acc.insert(name, second));
}

/// A parsed body is exactly as long as the declared `Content-Length`; with
/// the header absent the body is empty.
pub proof fn lemma_body_framing(s: Seq<u8>)
    ensures
        match spec_parse_request(s) {
            Ok(rv) => rv.body.len() == spec_content_length(rv.headers) && (
            !rv.headers.contains_key(content_length_key()) ==> rv.body == Seq::<u8>::empty()),
            Err(_) => true,
        },
{
    let e = find_from(s, 0, 10);
    let hstart = if e < s.len() {
        e + 1
    } else {
        s.len() as int
    };
    if parse_request_line(s.subrange(0, e)) is Some {
        crate::bytes::lemma_find_from(s, 0, 10);
        lemma_parse_headers_bounds(s, hstart, Map::empty());
        let hb = parse_headers_from(s, hstart, Map::empty());
        lemma_content_length_nonneg(hb.0);
        let n = spec_content_length(hb.0);
        if hb.1 + n <= s.len() {
            assert(s.subrange(hb.1, hb.1 + n).len() == n);
            if n == 0 {
                assert(s.subrange(hb.1, hb.1) =~= Seq::<u8>::empty());
            }
        }
    }
}

/// A request once parsed: three request-line tokens, the header mapping and
/// the raw body bytes.
pub struct HTTPRequest {
    method: Vec<u8>,
    endpoint: Vec<u8>,
    protocol: Vec<u8>,
    headers: HeaderMap,
    body: Vec<u8>,
}

impl View for HTTPRequest {
    type V = ReqView;

    closed spec fn view(&self) -> ReqView {
        ReqView {
            method: self.method@,
            endpoint: self.endpoint@,
            protocol: self.protocol@,
            headers: self.headers@,
            body: self.body@,
        }
    }
}

impl HTTPRequest {
    /// Internal well-formedness: the header table keeps names unique.
    pub closed spec fn wf(&self) -> bool {
        self.headers.wf()
    }

    /// An empty request, to be filled by `set_from_buffer`.
    pub fn new() -> (r: Self)
        ensures
            r.wf(),
            r@.method == Seq::<u8>::empty(),
            r@.endpoint == Seq::<u8>::empty(),
            r@.protocol == Seq::<u8>::empty(),
            r@.headers == Map::<Seq<u8>, Seq<u8>>::empty(),
            r@.body == Seq::<u8>::empty(),
    {
        HTTPRequest {
            method: Vec::new(),
            endpoint: Vec::new(),
            protocol: Vec::new(),
            headers: HeaderMap::new(),
            body: Vec::new(),
        }
    }

    /// Fills the three request-line fields from one line; headers and body
    /// stay as they were. Fails exactly when the line does not split into
    /// three non-empty tokens.
    pub fn set_from_request_line(&mut self, line: &[u8]) -> (r: Result<(), ParseError>)
        requires
            old(self).wf(),
        ensures
            final(self).wf(),
            match parse_request_line(line@) {
                Some(t) => r is Ok && final(self)@.method == t.0 && final(self)@.endpoint == t.1
                    && final(self)@.protocol == t.2 && final(self)@.headers == old(self)@.headers
                    && final(self)@.body == old(self)@.body,
                None => r == Err::<(), ParseError>(ParseError::MalformedRequestLine)
                    && final(self)@ == old(self)@,
            },
    {
        let t = trim_slice(line);
        let i = find_byte(t, 0, 32);
        if i == 0 || i >= t.len() {
            return Err(ParseError::MalformedRequestLine);
        }
        let j = find_byte(t, i + 1, 32);
        if j == i + 1 || j >= t.len() {
            return Err(ParseError::MalformedRequestLine);
        }
        let k = find_byte(t, j + 1, 32);
        if k == j + 1 {
            return Err(ParseError::MalformedRequestLine);
        }
        proof {
            crate::bytes::lemma_find_from(t@, (j + 1) as int, 32);
        }
        self.method = subvec(t, 0, i);
        self.endpoint = subvec(t, i + 1, j);
        self.protocol = subvec(t, j + 1, k);
        Ok(())
    }

    /// Parses a whole request out of `buffer`, as `spec_parse_request` reads
    /// it: request line, headers up to the blank line, then exactly the
    /// declared number of body bytes.
    pub fn set_from_buffer(&mut self, buffer: &[u8]) -> (r: Result<(), ParseError>)
        requires
            old(self).wf(),
        ensures
            final(self).wf(),
            match spec_parse_request(buffer@) {
                Ok(rv) => r is Ok && final(self)@ == rv,
                Err(e) => r == Err::<(), ParseError>(e),
            },
    {
        let e = find_byte(buffer, 0, 10);
        let line = vstd::slice::slice_subrange(buffer, 0, e);
        if let Err(err) = self.set_from_request_line(line) {
            return Err(err);
        }
        let hstart: usize = if e < buffer.len() {
            e + 1
        } else {
            buffer.len()
        };
        let mut hm = HeaderMap::new();
        let mut p: usize = hstart;
        let mut scanning: bool = true;
        while scanning
            invariant
                0 <= hstart <= p <= buffer@.len(),
                hm.wf(),
                parse_headers_from(buffer@, hstart as int, Map::empty()) == (if scanning {
                    parse_headers_from(buffer@, p as int, hm@)
                } else {
                    (hm@, p as int)
                }),
            decreases buffer@.len() - p + (if scanning { 1int } else { 0int }),
        {
            if p >= buffer.len() {
                scanning = false;
            } else {
                let e2 = find_byte(buffer, p, 10);
                let next: usize = if e2 < buffer.len() {
                    e2 + 1
                } else {
                    buffer.len()
                };
                let tl = trim_slice(vstd::slice::slice_subrange(buffer, p, e2));
                if tl.len() == 0 {
                    p = next;
                    scanning = false;
                } else {
                    let c = find_separator(tl);
                    if c < tl.len() {
                        proof {
                            lemma_find_colon_space(tl@, 0);
                        }
                        let nm = subvec(tl, 0, c);
                        let vl = subvec(tl, c + 2, tl.len());
                        hm.insert(nm, vl);
                    }
                    p = next;
                }
            }
        }
        let key = content_length_key_vec();
        let n: usize = match hm.get(key.as_slice()) {
            None => 0,
            Some(v) => parse_decimal(v.as_slice()),
        };
        self.headers = hm;
        if n <= buffer.len() - p {
            self.body = subvec(buffer, p, p + n);
            Ok(())
        } else {
            Err(ParseError::TruncatedBody)
        }
    }

    /// The HTTP method token.
    pub fn method(&self) -> (r: &Vec<u8>)
        ensures
            r@ == self@.method,
    {
        &self.method
    }

    /// The request target, with its leading `/`.
    pub fn endpoint(&self) -> (r: &Vec<u8>)
        ensures
            r@ == self@.endpoint,
    {
        &self.endpoint
    }

    /// The protocol version token.
    pub fn protocol(&self) -> (r: &Vec<u8>)
        ensures
            r@ == self@.protocol,
    {
        &self.protocol
    }

    /// The header table.
    pub fn headers(&self) -> (r: &HeaderMap)
        requires
            self.wf(),
        ensures
            r@ == self@.headers,
            r.wf(),
    {
        &self.headers
    }

    /// The raw body bytes; empty when no positive `Content-Length` was given.
    pub fn body(&self) -> (r: &Vec<u8>)
        ensures
            r@ == self@.body,
    {
        &self.body
    }
}

/// Whether `buffer` already holds a whole request: used by a caller that
/// reads from a stream to decide when to stop reading. A malformed request
/// line also counts as complete, since more bytes cannot mend it.
pub fn request_complete(buffer: &[u8]) -> (r: bool)
    ensures
        r == !(spec_parse_request(buffer@) == Err::<ReqView, ParseError>(ParseError::TruncatedBody)),
{
    let mut probe = HTTPRequest::new();
    match probe.set_from_buffer(buffer) {
        Err(ParseError::TruncatedBody) => false,
        _ => true,
    }
}

} // verus!

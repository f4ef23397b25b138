//! Byte-level helpers shared by the request parser and the response
//! serializer: whitespace trimming, byte search, and small slice utilities,
//! each verified against a spec-level counterpart over `Seq<u8>`.
use vstd::prelude::*;

verus! {

/// The two-byte line terminator of the wire format.
pub open spec fn crlf() -> Seq<u8> {
    seq![13u8, 10u8]
}

/// ASCII whitespace as `str::trim` of the wire lines understands it.
pub open spec fn is_ws(b: u8) -> bool {
    b == 32 || b == 9 || b == 13 || b == 10
}

/// Index of the first occurrence of `b` in `s` at or after `from`,
/// or `s.len()` if there is none.
pub open spec fn find_from(s: Seq<u8>, from: int, b: u8) -> int
    decreases s.len() - from when 0 <= from <= s.len()
{
    if from >= s.len() {
        s.len() as int
    } else if s[from] == b {
        from
    } else {
        find_from(s, from + 1, b)
    }
}

pub proof fn lemma_find_from(s: Seq<u8>, from: int, b: u8)
    requires
        0 <= from <= s.len(),
    ensures
        from <= find_from(s, from, b) <= s.len(),
        find_from(s, from, b) < s.len() ==> s[find_from(s, from, b)] == b,
        forall|i: int| from <= i < find_from(s, from, b) ==> s[i] != b,
    decreases s.len() - from,
{
    if from < s.len() && s[from] != b {
        lemma_find_from(s, from + 1, b);
    }
}

/// Index of the first non-whitespace byte at or after `from`,
/// or `s.len()` if the rest is all whitespace.
pub open spec fn skip_ws(s: Seq<u8>, from: int) -> int
    decreases s.len() - from when 0 <= from <= s.len()
{
    if from >= s.len() {
        s.len() as int
    } else if is_ws(s[from]) {
        skip_ws(s, from + 1)
    } else {
        from
    }
}

/// One past the last non-whitespace byte strictly before `to`,
/// or `0` if the bytes before `to` are all whitespace.
pub open spec fn rskip_ws(s: Seq<u8>, to: int) -> int
    decreases to when 0 <= to <= s.len()
{
    if to <= 0 {
        0
    } else if is_ws(s[to - 1]) {
        rskip_ws(s, to - 1)
    } else {
        to
    }
}

/// `s` with leading and trailing ASCII whitespace removed.
pub open spec fn spec_trim(s: Seq<u8>) -> Seq<u8> {
    let a = skip_ws(s, 0);
    let b = rskip_ws(s, s.len() as int);
    if a < b {
        s.subrange(a, b)
    } else {
        Seq::empty()
    }
}

/// Index of the first `": "` separator pair in `s`, or `s.len()` if none.
pub open spec fn find_colon_space(s: Seq<u8>, from: int) -> int
    decreases s.len() - from when 0 <= from <= s.len()
{
    if from + 1 >= s.len() {
        s.len() as int
    } else if s[from] == 58 && s[from + 1] == 32 {
        from
    } else {
        find_colon_space(s, from + 1)
    }
}

pub proof fn lemma_find_colon_space(s: Seq<u8>, from: int)
    requires
        0 <= from <= s.len(),
    ensures
        from <= find_colon_space(s, from) <= s.len(),
        find_colon_space(s, from) < s.len() ==> find_colon_space(s, from) + 1 < s.len()
            && s[find_colon_space(s, from)] == 58 && s[find_colon_space(s, from) + 1] == 32,
        forall|i: int| from <= i < find_colon_space(s, from) && i + 1 < s.len()
            ==> !(#[trigger] s[i] == 58 && s[i + 1] == 32),
    decreases s.len() - from,
{
    if from + 1 < s.len() && !(s[from] == 58 && s[from + 1] == 32) {
        lemma_find_colon_space(s, from + 1);
    }
}

/// Pins `find_from` down: a position with no earlier occurrence is the one
/// found, and a range with no occurrence at all yields the length.
pub proof fn lemma_find_from_at(s: Seq<u8>, from: int, b: u8, k: int)
    requires
        0 <= from <= k <= s.len(),
        forall|i: int| from <= i < k ==> s[i] != b,
        k == s.len() || s[k] == b,
    ensures
        find_from(s, from, b) == k,
    decreases k - from,
{
    if from < k {
        lemma_find_from_at(s, from + 1, b, k);
    }
}

/// Pins `find_colon_space` down the same way.
pub proof fn lemma_find_colon_space_at(s: Seq<u8>, from: int, k: int)
    requires
        0 <= from <= k <= s.len(),
        forall|i: int| from <= i < k && i + 1 < s.len() ==> !(#[trigger] s[i] == 58 && s[i + 1]
            == 32),
        k == s.len() || (k + 1 < s.len() && s[k] == 58 && s[k + 1] == 32),
    ensures
        find_colon_space(s, from) == k,
    decreases k - from,
{
    if from < k {
        lemma_find_colon_space_at(s, from + 1, k);
    } else {
        if k + 1 >= s.len() && k < s.len() {
            assert(find_colon_space(s, from) == s.len());
        }
    }
}

/// A sequence whose two ends are not whitespace is its own trimmed form.
pub proof fn lemma_trim_exact(s: Seq<u8>)
    requires
        s.len() == 0 || (!is_ws(s[0]) && !is_ws(s[s.len() - 1])),
    ensures
        spec_trim(s) == s,
{
    if s.len() == 0 {
        assert(spec_trim(s) =~= s);
    } else {
        assert(skip_ws(s, 0) == 0);
        assert(rskip_ws(s, s.len() as int) == s.len());
        assert(spec_trim(s) =~= s);
    }
}

/// Trimming strips one trailing carriage return off a line whose own ends
/// are not whitespace.
pub proof fn lemma_trim_trailing_cr(x: Seq<u8>)
    requires
        x.len() > 0,
        !is_ws(x[0]),
        !is_ws(x[x.len() - 1]),
    ensures
        spec_trim(x + seq![13u8]) == x,
{
    let s = x + seq![13u8];
    assert(s[0] == x[0]);
    assert(skip_ws(s, 0) == 0);
    assert(s[s.len() - 1] == 13);
    assert(s[x.len() - 1] == x[x.len() - 1]);
    assert(rskip_ws(s, s.len() as int) == rskip_ws(s, x.len() as int));
    assert(rskip_ws(s, x.len() as int) == x.len());
    assert(spec_trim(s) =~= x);
}

/// Executable search for a byte, proved equal to `find_from`.
pub fn find_byte(s: &[u8], from: usize, b: u8) -> (r: usize)
    requires
        from <= s@.len(),
    ensures
        r == find_from(s@, from as int, b),
        from <= r <= s@.len(),
        r < s@.len() ==> s@[r as int] == b,
{
    proof {
        lemma_find_from(s@, from as int, b);
    }
    let mut i: usize = from;
    while i < s.len()
        invariant
            from <= i <= s@.len(),
            find_from(s@, from as int, b) == find_from(s@, i as int, b),
        decreases s@.len() - i,
    {
        if s[i] == b {
            return i;
        }
        i = i + 1;
    }
    i
}

/// Executable search for the first `": "` pair, proved equal to
/// `find_colon_space`.
pub fn find_separator(s: &[u8]) -> (r: usize)
    ensures
        r == find_colon_space(s@, 0),
        0 <= r <= s@.len(),
        r < s@.len() ==> r + 1 < s@.len() && s@[r as int] == 58 && s@[r as int + 1] == 32,
{
    proof {
        lemma_find_colon_space(s@, 0);
    }
    let mut i: usize = 0;
    while s.len() > 0 && i < s.len() - 1
        invariant
            0 <= i <= s@.len(),
            find_colon_space(s@, 0) == find_colon_space(s@, i as int),
        decreases s@.len() - i,
    {
        if s[i] == 58 && s[i + 1] == 32 {
            return i;
        }
        i = i + 1;
    }
    proof {
        if i < s@.len() {
            assert(find_colon_space(s@, i as int) == s@.len());
        }
    }
    s.len()
}

/// Executable trim, proved equal to `spec_trim`.
pub fn trim_slice<'a>(s: &'a [u8]) -> (r: &'a [u8])
    ensures
        r@ == spec_trim(s@),
{
    let mut a: usize = 0;
    while a < s.len() && is_ws_byte(s[a])
        invariant
            0 <= a <= s@.len(),
            skip_ws(s@, 0) == skip_ws(s@, a as int),
        decreases s@.len() - a,
    {
        a = a + 1;
    }
    let mut b: usize = s.len();
    while b > 0 && is_ws_byte(s[b - 1])
        invariant
            0 <= b <= s@.len(),
            rskip_ws(s@, s@.len() as int) == rskip_ws(s@, b as int),
        decreases b,
    {
        b = b - 1;
    }
    if a < b {
        vstd::slice::slice_subrange(s, a, b)
    } else {
        let r = vstd::slice::slice_subrange(s, 0, 0);
        proof {
            assert(r@ =~= spec_trim(s@));
        }
        r
    }
}

/// Whether a byte counts as ASCII whitespace.
pub fn is_ws_byte(b: u8) -> (r: bool)
    ensures
        r == is_ws(b),
{
    b == 32 || b == 9 || b == 13 || b == 10
}

/// Copies `s[i..j]` into a fresh vector.
pub fn subvec(s: &[u8], i: usize, j: usize) -> (r: Vec<u8>)
    requires
        i <= j <= s@.len(),
    ensures
        r@ == s@.subrange(i as int, j as int),
{
    vstd::slice::slice_to_vec(vstd::slice::slice_subrange(s, i, j))
}

/// Byte-for-byte equality of two slices.
pub fn bytes_eq(a: &[u8], b: &[u8]) -> (r: bool)
    ensures
        r == (a@ == b@),
{
    if a.len() != b.len() {
        proof {
            assert(a@.len() != b@.len());
        }
        return false;
    }
    let mut i: usize = 0;
    while i < a.len()
        invariant
            0 <= i <= a@.len(),
            a@.len() == b@.len(),
            forall|k: int| 0 <= k < i ==> a@[k] == b@[k],
        decreases a@.len() - i,
    {
        if a[i] != b[i] {
            return false;
        }
        i = i + 1;
    }
    proof {
        assert(a@ =~= b@);
    }
    true
}

/// Whether `s` begins with `prefix`.
pub fn starts_with(s: &[u8], prefix: &[u8]) -> (r: bool)
    ensures
        r == (prefix@.len() <= s@.len() && s@.subrange(0, prefix@.len() as int) == prefix@),
{
    if prefix.len() > s.len() {
        return false;
    }
    let head = vstd::slice::slice_subrange(s, 0, prefix.len());
    bytes_eq(head, prefix)
}

/// Appends all of `src` to `dst`.
pub fn push_bytes(dst: &mut Vec<u8>, src: &[u8])
    ensures
        final(dst)@ == old(dst)@ + src@,
{
    let mut i: usize = 0;
    while i < src.len()
        invariant
            0 <= i <= src@.len(),
            dst@ == old(dst)@ + src@.subrange(0, i as int),
        decreases src@.len() - i,
    {
        dst.push(src[i]);
        proof {
            assert(dst@ =~= old(dst)@ + src@.subrange(0, i + 1));
        }
        i = i + 1;
    }
    proof {
        assert(src@.subrange(0, src@.len() as int) =~= src@);
    }
}

} // verus!

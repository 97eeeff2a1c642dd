//! HTTP response parsing: locating the header/body delimiter of a raw
//! response, probing headers for the declared size and for range support.

use vstd::prelude::*;
use vstd::string::StringSliceAdditionalSpecFns;
use crate::error::DownloaderError;

verus! {

/// The bytes of an ASCII string, one byte per character.
pub open spec fn ascii_bytes_of(s: Seq<char>) -> Seq<u8> {
    Seq::new(s.len(), |i: int| s[i] as u8)
}

/// Whether the four-byte CRLFCRLF header/body delimiter sits at offset `i`.
pub open spec fn is_delim_at(s: Seq<u8>, i: int) -> bool {
    &&& 0 <= i
    &&& i + 4 <= s.len()
    &&& s[i] == '\r' as u8
    &&& s[i + 1] == '\n' as u8
    &&& s[i + 2] == '\r' as u8
    &&& s[i + 3] == '\n' as u8
}

/// The first offset at or after `i` that follows a CRLFCRLF delimiter:
/// the body would start there. `None` if no delimiter occurs at or after `i`.
pub open spec fn body_start_from(s: Seq<u8>, i: int) -> Option<int>
    decreases s.len() - i,
{
    if i < 0 || i + 4 > s.len() {
        None
    } else if is_delim_at(s, i) {
        Some(i + 4)
    } else {
        body_start_from(s, i + 1)
    }
}

/// Where the body of a raw response starts: right after the first
/// CRLFCRLF delimiter, or `None` if the response has none.
pub open spec fn body_start_spec(s: Seq<u8>) -> Option<int> {
    body_start_from(s, 0)
}

/// Scans a raw response forward for the first CRLFCRLF delimiter and
/// returns the offset just past it — the start of the body.
///
/// `None` exactly when the response holds no delimiter; a returned
/// position is the first one, never a later occurrence.
pub fn find_body_start(response: &[u8]) -> (r: Option<usize>)
    ensures
        r is Some <==> body_start_spec(response@) is Some,
        r is Some ==> r->0 == body_start_spec(response@)->0,
        r is Some ==> {
            &&& 4 <= r->0 <= response@.len()
            &&& is_delim_at(response@, r->0 - 4)
            &&& forall|j: int| 0 <= j < r->0 - 4 ==> !is_delim_at(response@, j)
        },
        r is None ==> forall|j: int| !is_delim_at(response@, j),
{
    let n = response.len();
    if n < 4 {
        proof {
            assert(body_start_from(response@, 0) is None);
            assert(forall|j: int| !is_delim_at(response@, j));
        }
        return None;
    }
    let mut i: usize = 0;
    while i <= n - 4
        invariant
            n == response@.len(),
            4 <= n,
            i <= n - 3,
            body_start_from(response@, 0) == body_start_from(response@, i as int),
            forall|j: int| 0 <= j < i ==> !is_delim_at(response@, j),
        decreases n - i,
    {
        if response[i] == 13u8 && response[i + 1] == 10u8 && response[i + 2] == 13u8
            && response[i + 3] == 10u8 {
            proof {
                assert(is_delim_at(response@, i as int));
                assert(body_start_from(response@, i as int) == Some(i + 4 as int));
            }
            return Some(i + 4);
        }
        proof {
            assert(!is_delim_at(response@, i as int));
        }
        i += 1;
    }
    proof {
        assert(body_start_from(response@, i as int) is None);
        assert(forall|j: int| j >= i ==> !is_delim_at(response@, j));
    }
    None
}

/// Splits a raw response at its first header/body delimiter and returns
/// the body bytes after it.
///
/// Succeeds exactly when the delimiter is present and at least one byte
/// follows it; a missing delimiter and an empty body are both protocol
/// failures.
pub fn extract_body(response: &[u8]) -> (r: Result<Vec<u8>, DownloaderError>)
    ensures
        r is Ok <==> (body_start_spec(response@) is Some && body_start_spec(response@)->0
            < response@.len()),
        r is Ok ==> r->Ok_0@ == response@.subrange(
            body_start_spec(response@)->0,
            response@.len() as int,
        ),
        r is Err ==> r->Err_0 is ResponseError,
{
    match find_body_start(response) {
        Some(pos) => {
            if pos < response.len() {
                let body = vstd::slice::slice_subrange(response, pos, response.len());
                Ok(vstd::slice::slice_to_vec(body))
            } else {
                Err(
                    DownloaderError::ResponseError(
                        String::from_str("Received empty response body"),
                    ),
                )
            }
        },
        None => Err(
            DownloaderError::ResponseError(String::from_str("Could not find response body")),
        ),
    }
}

/// Whether `n` occurs in `h` starting at offset `i`.
pub open spec fn match_at(h: Seq<u8>, n: Seq<u8>, i: int) -> bool {
    &&& 0 <= i
    &&& i + n.len() <= h.len()
    &&& h.subrange(i, i + n.len() as int) == n
}

/// Whether `n` occurs anywhere in `h`.
pub open spec fn contains_seq(h: Seq<u8>, n: Seq<u8>) -> bool {
    exists|i: int| match_at(h, n, i)
}

/// Byte-level substring search: whether `needle` occurs in `haystack`.
pub fn contains_bytes(haystack: &[u8], needle: &[u8]) -> (r: bool)
    ensures
        r <==> contains_seq(haystack@, needle@),
{
    let hn = haystack.len();
    let nn = needle.len();
    if nn > hn {
        proof {
            assert(forall|i: int| !match_at(haystack@, needle@, i));
        }
        return false;
    }
    if nn == 0 {
        proof {
            assert(haystack@.subrange(0, 0) =~= needle@);
            assert(match_at(haystack@, needle@, 0));
        }
        return true;
    }
    let mut i: usize = 0;
    while i <= hn - nn
        invariant
            hn == haystack@.len(),
            nn == needle@.len(),
            1 <= nn <= hn,
            i <= hn - nn + 1,
            forall|q: int| 0 <= q < i ==> !match_at(haystack@, needle@, q),
        decreases hn - i,
    {
        let mut k: usize = 0;
        let mut mismatch = false;
        while k < nn
            invariant
                hn == haystack@.len(),
                nn == needle@.len(),
                i + nn <= hn,
                k <= nn,
                !mismatch ==> forall|q: int| 0 <= q < k ==> haystack@[i + q] == needle@[q],
                mismatch ==> haystack@.subrange(i as int, i + nn as int) != needle@,
            decreases nn - k,
        {
            if haystack[i + k] != needle[k] {
                proof {
                    let sub = haystack@.subrange(i as int, i + nn as int);
                    assert(sub[k as int] != needle@[k as int]);
                }
                mismatch = true;
                k = nn;
            } else {
                k += 1;
            }
        }
        if !mismatch {
            proof {
                assert(haystack@.subrange(i as int, i + nn as int) =~= needle@);
                assert(match_at(haystack@, needle@, i as int));
            }
            return true;
        }
        proof {
            assert(!match_at(haystack@, needle@, i as int));
        }
        i += 1;
    }
    proof {
        assert(forall|q: int| !match_at(haystack@, needle@, q));
    }
    false
}

/// The header text whose presence signals that the peer honours range
/// requests.
pub open spec fn accept_ranges_marker() -> Seq<u8> {
    ascii_bytes_of("Accept-Ranges: bytes"@)
}

/// Whether the response declares support for byte-range requests, by a
/// case-sensitive search for the accept-ranges header value.
pub fn supports_range_requests(response: &[u8]) -> (r: bool)
    ensures
        r <==> contains_seq(response@, accept_ranges_marker()),
{
    let marker = "Accept-Ranges: bytes";
    proof {
        reveal_strlit("Accept-Ranges: bytes");
        assert(forall|i: int| 0 <= i < marker@.len() ==> (marker@[i] as nat) < 128);
        assert(vstd::string::is_ascii(marker));
        broadcast use vstd::string::is_ascii_spec_bytes;

        assert(marker.spec_bytes() =~= accept_ranges_marker());
    }
    let needle = marker.as_bytes();
    contains_bytes(response, needle)
}

/// Lowercases one byte if it is an ASCII capital letter.
pub open spec fn to_lower(b: u8) -> u8 {
    if 'A' as u8 <= b && b <= 'Z' as u8 {
        (b + 32) as u8
    } else {
        b
    }
}

/// The header name the prober looks for, lowercase, colon included.
pub open spec fn content_length_name() -> Seq<u8> {
    ascii_bytes_of("content-length:"@)
}

/// Whether offset `i` begins a header line whose name is
/// "content-length", compared case-insensitively, colon included.
pub open spec fn cl_header_at(s: Seq<u8>, i: int) -> bool {
    &&& 0 <= i
    &&& i == 0 || s[i - 1] == '\n' as u8
    &&& i + content_length_name().len() <= s.len()
    &&& forall|k: int|
        0 <= k < content_length_name().len() ==> to_lower(#[trigger] s[i + k])
            == content_length_name()[k]
}

/// The first content-length header line at or after offset `i`.
pub open spec fn cl_pos_from(s: Seq<u8>, i: int) -> Option<int>
    decreases s.len() + 1 - i,
{
    if i < 0 || i + content_length_name().len() > s.len() {
        None
    } else if cl_header_at(s, i) {
        Some(i)
    } else {
        cl_pos_from(s, i + 1)
    }
}

/// The first content-length header line of the response, if any.
pub open spec fn cl_pos(s: Seq<u8>) -> Option<int> {
    cl_pos_from(s, 0)
}

/// The end of the line that offset `i` sits on: the next line feed at or
/// after `i`, or the end of the response.
pub open spec fn line_end_from(s: Seq<u8>, i: int) -> int
    decreases s.len() - i,
{
    if i < 0 || i >= s.len() {
        s.len() as int
    } else if s[i] == '\n' as u8 {
        i
    } else {
        line_end_from(s, i + 1)
    }
}

/// ASCII whitespace, as trimmed around a header value.
pub open spec fn is_space(b: u8) -> bool {
    ||| b == ' ' as u8
    ||| b == '\t' as u8
    ||| b == '\r' as u8
    ||| b == '\n' as u8
    ||| b == 11u8
    ||| b == 12u8
}

/// The first non-whitespace offset at or after `i`.
pub open spec fn skip_ws(s: Seq<u8>, i: int) -> int
    decreases s.len() - i,
{
    if i < 0 || i >= s.len() {
        i
    } else if is_space(s[i]) {
        skip_ws(s, i + 1)
    } else {
        i
    }
}

/// The end of the last non-whitespace run strictly before `j`, scanning
/// backwards over trailing whitespace.
pub open spec fn rskip_ws(s: Seq<u8>, j: int) -> int
    decreases j,
{
    if j <= 0 || j > s.len() {
        if j > s.len() {
            j
        } else {
            0
        }
    } else if is_space(s[j - 1]) {
        rskip_ws(s, j - 1)
    } else {
        j
    }
}

/// `s` with leading and trailing whitespace removed.
pub open spec fn trimmed(s: Seq<u8>) -> Seq<u8> {
    let a = skip_ws(s, 0);
    let b = rskip_ws(s, s.len() as int);
    if a <= b {
        s.subrange(a, b)
    } else {
        Seq::empty()
    }
}

/// An ASCII decimal digit.
pub open spec fn is_digit(b: u8) -> bool {
    '0' as u8 <= b && b <= '9' as u8
}

/// Whether every byte of `s` is a decimal digit.
pub open spec fn all_digits(s: Seq<u8>) -> bool {
    forall|i: int| 0 <= i < s.len() ==> is_digit(#[trigger] s[i])
}

/// The number the digit string `s` denotes, most significant digit first.
pub open spec fn dec_value(s: Seq<u8>) -> nat
    decreases s.len(),
{
    if s.len() == 0 {
        0
    } else {
        dec_value(s.drop_last()) * 10 + (s.last() - '0' as u8) as nat
    }
}

/// The declared total size of the resource: the number carried by the
/// response's first content-length header line, provided that line's
/// value — the rest of the line, whitespace trimmed — is a non-empty
/// digit string whose value fits in a `u64`. `None` when the header is
/// absent or its value malformed.
pub open spec fn content_length_spec(s: Seq<u8>) -> Option<u64> {
    match cl_pos(s) {
        None => None,
        Some(p) => {
            let vstart = p + content_length_name().len();
            let t = trimmed(s.subrange(vstart, line_end_from(s, vstart)));
            if t.len() > 0 && all_digits(t) && dec_value(t) <= u64::MAX {
                Some(dec_value(t) as u64)
            } else {
                None
            }
        },
    }
}

/// Backward whitespace skipping never goes below 0 nor past its start.
proof fn lemma_rskip_ws_bounds(s: Seq<u8>, j: int)
    requires
        0 <= j <= s.len(),
    ensures
        0 <= rskip_ws(s, j) <= j,
    decreases j,
{
    if j <= 0 {
    } else if is_space(s[j - 1]) {
        lemma_rskip_ws_bounds(s, j - 1);
    } else {
    }
}

/// A digit string is worth at least any of its prefixes.
proof fn lemma_dec_value_prefix_le(s: Seq<u8>, m: int)
    requires
        0 <= m <= s.len(),
    ensures
        dec_value(s.take(m)) <= dec_value(s),
    decreases s.len() - m,
{
    if m == s.len() {
        assert(s.take(m) =~= s);
    } else {
        assert(s.take(m + 1).drop_last() =~= s.take(m));
        assert(s.take(m + 1).last() == s[m]);
        assert(dec_value(s.take(m + 1)) == dec_value(s.take(m)) * 10 + (s[m] - '0' as u8) as nat);
        lemma_dec_value_prefix_le(s, m + 1);
    }
}

/// Lowercases one byte if it is an ASCII capital letter.
fn lower_byte(b: u8) -> (r: u8)
    ensures
        r == to_lower(b),
{
    if b >= 65 && b <= 90 {
        b + 32
    } else {
        b
    }
}

/// The byte form of the header name the prober looks for.
fn content_length_needle() -> (r: &'static [u8])
    ensures
        r@ == content_length_name(),
        r@.len() == 15,
{
    let name = "content-length:";
    proof {
        reveal_strlit("content-length:");
        assert(forall|i: int| 0 <= i < name@.len() ==> (name@[i] as nat) < 128);
        assert(vstd::string::is_ascii(name));
        broadcast use vstd::string::is_ascii_spec_bytes;

        assert(name.spec_bytes() =~= content_length_name());
    }
    name.as_bytes()
}

/// Whether a content-length header line begins at offset `i`.
fn cl_header_match(response: &[u8], name: &[u8], i: usize) -> (r: bool)
    requires
        name@ == content_length_name(),
        i + name@.len() <= response@.len(),
    ensures
        r == cl_header_at(response@, i as int),
{
    let n = response.len();
    if i > 0 && response[i - 1] != 10u8 {
        return false;
    }
    let mut k: usize = 0;
    while k < name.len()
        invariant
            n == response@.len(),
            name@ == content_length_name(),
            i + name@.len() <= response@.len(),
            k <= name@.len(),
            i == 0 || response@[i - 1] == '\n' as u8,
            forall|q: int|
                0 <= q < k ==> to_lower(#[trigger] response@[i + q]) == content_length_name()[q],
        decreases name@.len() - k,
    {
        if lower_byte(response[i + k]) != name[k] {
            proof {
                assert(to_lower(response@[i + k]) != content_length_name()[k as int]);
            }
            return false;
        }
        k += 1;
    }
    true
}

/// Extracts the declared total size from a raw probe response.
///
/// Scans for the first header line named "content-length"
/// (case-insensitively), takes the rest of that line as the value, trims
/// surrounding whitespace, and parses it as a decimal number. Fails with
/// a protocol error exactly when the header is absent, the value is
/// empty or non-numeric, or the number does not fit in 64 bits.
#[verifier::loop_isolation(false)]
pub fn parse_content_length(response: &[u8]) -> (r: Result<u64, DownloaderError>)
    ensures
        r is Ok <==> content_length_spec(response@) is Some,
        r is Ok ==> r->Ok_0 == content_length_spec(response@)->0,
        r is Err ==> r->Err_0 is ResponseError,
{
    let n = response.len();
    let name = content_length_needle();
    let nl = name.len();
    if n < nl {
        proof {
            assert(cl_pos_from(response@, 0) is None);
        }
        return Err(
            DownloaderError::ResponseError(String::from_str("Content-Length header not found")),
        );
    }
    let mut i: usize = 0;
    let mut found: bool = false;
    while !found && i <= n - nl
        invariant
            n == response@.len(),
            nl == content_length_name().len(),
            name@ == content_length_name(),
            nl <= n,
            i <= n - nl + 1,
            cl_pos_from(response@, 0) == cl_pos_from(response@, i as int),
            found ==> cl_header_at(response@, i as int) && cl_pos_from(response@, 0) == Some(
                i as int,
            ),
        decreases n - i + (if found { 0int } else { 1int }),
    {
        if cl_header_match(response, name, i) {
            found = true;
        } else {
            i += 1;
        }
    }
    if !found {
        proof {
            assert(cl_pos_from(response@, i as int) is None);
        }
        return Err(
            DownloaderError::ResponseError(String::from_str("Content-Length header not found")),
        );
    }
    let vstart = i + nl;
    let mut lend: usize = vstart;
    while lend < n && response[lend] != 10u8
        invariant
            n == response@.len(),
            vstart <= lend <= n,
            line_end_from(response@, vstart as int) == line_end_from(response@, lend as int),
        decreases n - lend,
    {
        lend += 1;
    }
    proof {
        assert(line_end_from(response@, lend as int) == lend as int);
    }
    let raw = vstd::slice::slice_subrange(response, vstart, lend);
    let rn = raw.len();
    let ghost traw = trimmed(raw@);
    let mut a: usize = 0;
    while a < rn && is_space_byte(raw[a])
        invariant
            rn == raw@.len(),
            a <= rn,
            skip_ws(raw@, 0) == skip_ws(raw@, a as int),
        decreases rn - a,
    {
        a += 1;
    }
    proof {
        assert(skip_ws(raw@, a as int) == a as int);
    }
    let mut b: usize = rn;
    while b > a && is_space_byte(raw[b - 1])
        invariant
            rn == raw@.len(),
            a <= b <= rn,
            a == skip_ws(raw@, 0),
            rskip_ws(raw@, rn as int) == rskip_ws(raw@, b as int),
        decreases b,
    {
        b -= 1;
    }
    proof {
        if a < b {
            assert(!is_space(raw@[b - 1]));
            assert(rskip_ws(raw@, b as int) == b as int);
            assert(traw == raw@.subrange(a as int, b as int));
        } else {
            assert(b == a);
            lemma_rskip_ws_bounds(raw@, b as int);
            assert(rskip_ws(raw@, rn as int) <= a as int);
            assert(traw.len() == 0);
        }
    }
    if a >= b {
        proof {
            assert(cl_pos(response@) == Some(i as int));
            assert(line_end_from(response@, vstart as int) == lend as int);
            assert(trimmed(response@.subrange(vstart as int, lend as int)) == traw);
            assert(content_length_spec(response@) is None);
        }
        return Err(
            DownloaderError::ResponseError(String::from_str("Invalid Content-Length header")),
        );
    }
    let mut value: u64 = 0;
    let mut idx: usize = a;
    while idx < b
        invariant
            rn == raw@.len(),
            a <= idx <= b <= rn,
            a < b,
            traw == raw@.subrange(a as int, b as int),
            value as nat == dec_value(raw@.subrange(a as int, idx as int)),
            forall|q: int| a <= q < idx ==> is_digit(#[trigger] raw@[q]),
        decreases b - idx,
    {
        let c = raw[idx];
        if c < 48 || c > 57 {
            proof {
                assert(traw[idx - a] == raw@[idx as int]);
                assert(!is_digit(traw[idx - a]));
                assert(!all_digits(traw));
                assert(cl_pos(response@) == Some(i as int));
                assert(line_end_from(response@, vstart as int) == lend as int);
                assert(trimmed(response@.subrange(vstart as int, lend as int)) == traw);
                assert(content_length_spec(response@) is None);
            }
            return Err(
                DownloaderError::ResponseError(String::from_str("Invalid Content-Length header")),
            );
        }
        let d = c - 48;
        if value > (u64::MAX - (d as u64)) / 10 {
            proof {
                let pre = raw@.subrange(a as int, idx + 1);
                assert(pre.drop_last() =~= raw@.subrange(a as int, idx as int));
                assert(pre.last() == raw@[idx as int]);
                assert(dec_value(pre) == value as nat * 10 + d as nat);
                assert(dec_value(pre) > u64::MAX) by (nonlinear_arith)
                    requires
                        dec_value(pre) == value as nat * 10 + d as nat,
                        d < 10,
                        value > (u64::MAX - (d as u64)) / 10,
                ;
                if all_digits(traw) {
                    assert(traw.take(idx + 1 - a) =~= pre);
                    lemma_dec_value_prefix_le(traw, idx + 1 - a);
                    assert(dec_value(traw) > u64::MAX);
                }
                assert(cl_pos(response@) == Some(i as int));
                assert(line_end_from(response@, vstart as int) == lend as int);
                assert(trimmed(response@.subrange(vstart as int, lend as int)) == traw);
                assert(content_length_spec(response@) is None);
            }
            return Err(
                DownloaderError::ResponseError(String::from_str("Invalid Content-Length header")),
            );
        }
        proof {
            let pre = raw@.subrange(a as int, idx + 1);
            assert(pre.drop_last() =~= raw@.subrange(a as int, idx as int));
            assert(pre.last() == raw@[idx as int]);
            assert(value as nat * 10 + d as nat <= u64::MAX) by (nonlinear_arith)
                requires
                    d < 10,
                    value <= (u64::MAX - (d as u64)) / 10,
            ;
        }
        value = value * 10 + (d as u64);
        idx += 1;
    }
    proof {
        assert forall|j: int| 0 <= j < traw.len() implies is_digit(#[trigger] traw[j]) by {
            assert(traw[j] == raw@[a + j]);
        }
        assert(all_digits(traw));
        assert(value as nat == dec_value(traw));
        assert(cl_pos(response@) == Some(i as int));
        assert(line_end_from(response@, vstart as int) == lend as int);
        assert(trimmed(response@.subrange(vstart as int, lend as int)) == traw);
        assert(content_length_spec(response@) == Some(value));
    }
    Ok(value)
}

/// Whether `b` is ASCII whitespace.
fn is_space_byte(b: u8) -> (r: bool)
    ensures
        r == is_space(b),
{
    b == 32 || b == 9 || b == 13 || b == 10 || b == 11 || b == 12
}

/// Parses a raw probe response into the pair the planner needs: whether
/// the peer supports byte-range requests, and the declared total size.
///
/// Fails with a protocol error exactly when the size header is absent or
/// malformed; range support alone never fails the probe.
pub fn parse_head_response(response: &[u8]) -> (r: Result<(bool, u64), DownloaderError>)
    ensures
        r is Ok <==> content_length_spec(response@) is Some,
        r is Ok ==> r->Ok_0.0 == contains_seq(response@, accept_ranges_marker()),
        r is Ok ==> r->Ok_0.1 == content_length_spec(response@)->0,
        r is Err ==> r->Err_0 is ResponseError,
{
    let supports_range = supports_range_requests(response);
    match parse_content_length(response) {
        Ok(content_length) => Ok((supports_range, content_length)),
        Err(e) => Err(e),
    }
}

} // verus!

//! Wire framing of the two requests the downloader sends: the metadata
//! probe and the per-segment range request. Line endings are CRLF and a
//! blank line terminates each request.

use vstd::prelude::*;
use crate::decimal::{dec_rep, u64_to_string};

verus! {

/// The exact text of the metadata probe for `path` on `host`.
pub open spec fn head_request_spec(path: Seq<char>, host: Seq<char>) -> Seq<char> {
    "HEAD "@ + path + " HTTP/1.1\r\nHost: "@ + host
        + "\r\nConnection: close\r\nUser-Agent: rust-downloader/1.0\r\n\r\n"@
}

/// The exact text of the range request for bytes `start..=end` of
/// `path` on `host`.
pub open spec fn range_request_spec(
    path: Seq<char>,
    host: Seq<char>,
    start: u64,
    end: u64,
) -> Seq<char> {
    "GET "@ + path + " HTTP/1.1\r\nHost: "@ + host + "\r\nRange: bytes="@ + dec_rep(start as nat)
        + "-"@ + dec_rep(end as nat) + "\r\nUser-Agent: rust-downloader/1.0\r\n\r\n"@
}

/// Frames the metadata probe request, character for character.
pub fn build_head_request(path: &str, host: &str) -> (r: String)
    ensures
        r@ == head_request_spec(path@, host@),
{
    let mut s = String::from_str("HEAD ");
    s.append(path);
    s.append(" HTTP/1.1\r\nHost: ");
    s.append(host);
    s.append("\r\nConnection: close\r\nUser-Agent: rust-downloader/1.0\r\n\r\n");
    proof {
        assert(s@ =~= head_request_spec(path@, host@));
    }
    s
}

/// Frames one segment's range request, character for character.
pub fn build_range_request(path: &str, host: &str, start: u64, end: u64) -> (r: String)
    ensures
        r@ == range_request_spec(path@, host@, start, end),
{
    let mut s = String::from_str("GET ");
    s.append(path);
    s.append(" HTTP/1.1\r\nHost: ");
    s.append(host);
    s.append("\r\nRange: bytes=");
    let start_text = u64_to_string(start);
    s.append(start_text.as_str());
    s.append("-");
    let end_text = u64_to_string(end);
    s.append(end_text.as_str());
    s.append("\r\nUser-Agent: rust-downloader/1.0\r\n\r\n");
    proof {
        assert(s@ =~= range_request_spec(path@, host@, start, end));
    }
    s
}

} // verus!

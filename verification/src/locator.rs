//! Splitting the source locator into the hostname and path that every
//! request names. The parse itself is the `url` crate's work; the
//! library states its outcome and builds on it.

use vstd::prelude::*;
use crate::error::DownloaderError;

verus! {

/// The host of the URL written `s`, as `url::Url::host_str` yields it
/// after a successful parse: `None` when `s` does not parse as an
/// absolute URL, or when the URL has no host.
pub uninterp spec fn url_host_of(s: Seq<char>) -> Option<Seq<char>>;

/// The path of the URL written `s`, as `url::Url::path` yields it after
/// a successful parse; meaningful only where `url_host_of` is `Some`.
pub uninterp spec fn url_path_of(s: Seq<char>) -> Seq<char>;

/// Relies on `url::Url::parse`, `url::Url::host_str` and
/// `url::Url::path`: all three are pure functions of the input text, so
/// the host and path extracted here depend on `url_text` alone. The
/// error payload is the parse error's own description (or the empty-host
/// one), about which nothing is claimed.
#[verifier::external_body]
fn split_url_raw(url_text: &str) -> (r: Result<(String, String), String>)
    ensures
        r is Ok <==> url_host_of(url_text@) is Some,
        r is Ok ==> r->Ok_0.0@ == url_host_of(url_text@)->Some_0,
        r is Ok ==> r->Ok_0.1@ == url_path_of(url_text@),
{
    match url::Url::parse(url_text) {
        Ok(parsed) => match parsed.host_str() {
            Some(host) => Ok((host.to_string(), parsed.path().to_string())),
            None => Err(url::ParseError::EmptyHost.to_string()),
        },
        Err(e) => Err(e.to_string()),
    }
}

/// Splits a source locator into the hostname and the path that the
/// probe and every range request will name.
///
/// Succeeds exactly when the locator parses as a URL with a host; a
/// locator without one fails with a URL error carrying the parser's
/// description.
pub fn split_url(url_text: &str) -> (r: Result<(String, String), DownloaderError>)
    ensures
        r is Ok <==> url_host_of(url_text@) is Some,
        r is Ok ==> r->Ok_0.0@ == url_host_of(url_text@)->Some_0,
        r is Ok ==> r->Ok_0.1@ == url_path_of(url_text@),
        r is Err ==> r->Err_0 is UrlParseError,
{
    match split_url_raw(url_text) {
        Ok(pair) => Ok(pair),
        Err(message) => Err(DownloaderError::UrlParseError(message)),
    }
}

} // verus!

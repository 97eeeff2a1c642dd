//! The downloader's error taxonomy: transport, protocol, file and input
//! failures, each carrying a descriptive payload.

use vstd::prelude::*;

verus! {

/// Every failure the downloader can surface, tagged by its originating kind.
#[derive(Debug)]
pub enum DownloaderError {
    /// A low-level I/O operation failed.
    IoError(String),
    /// Building the TLS machinery or the handshake proper failed.
    TlsError(String),
    /// The TLS handshake could not complete.
    TlsHandshakeError(String),
    /// The source locator could not be parsed, or lacks a host.
    UrlParseError(String),
    /// Name resolution produced no usable address.
    DnsError(String),
    /// A file could not be created, read or written, or an expected
    /// artifact is missing, or the segment list is empty.
    FileError(String),
    /// The TCP connection could not be established.
    ConnectionError(String),
    /// The peer's response is missing or malformed: no size header, no
    /// header/body delimiter, or an empty body.
    ResponseError(String),
    /// The caller supplied an invalid worker count or total size.
    UserInputError(String),
}

impl DownloaderError {
    /// A human-readable rendering of the error: a kind prefix, then the payload.
    pub fn message(&self) -> (r: String)
        ensures
            r@ == self.prefix_spec() + self.payload_spec(),
    {
        let prefix: &str = match self {
            DownloaderError::IoError(_) => "IO error: ",
            DownloaderError::TlsError(_) => "TLS error: ",
            DownloaderError::TlsHandshakeError(_) => "TLS handshake error: ",
            DownloaderError::UrlParseError(_) => "URL parse error: ",
            DownloaderError::DnsError(_) => "DNS error: ",
            DownloaderError::FileError(_) => "File error: ",
            DownloaderError::ConnectionError(_) => "Connection error: ",
            DownloaderError::ResponseError(_) => "Server response error: ",
            DownloaderError::UserInputError(_) => "Invalid input: ",
        };
        let payload: &str = match self {
            DownloaderError::IoError(s) => s.as_str(),
            DownloaderError::TlsError(s) => s.as_str(),
            DownloaderError::TlsHandshakeError(s) => s.as_str(),
            DownloaderError::UrlParseError(s) => s.as_str(),
            DownloaderError::DnsError(s) => s.as_str(),
            DownloaderError::FileError(s) => s.as_str(),
            DownloaderError::ConnectionError(s) => s.as_str(),
            DownloaderError::ResponseError(s) => s.as_str(),
            DownloaderError::UserInputError(s) => s.as_str(),
        };
        let mut out = String::new();
        out.append(prefix);
        out.append(payload);
        out
    }

    /// The kind prefix that `message` puts before the payload.
    pub open spec fn prefix_spec(&self) -> Seq<char> {
        match self {
            DownloaderError::IoError(_) => "IO error: "@,
            DownloaderError::TlsError(_) => "TLS error: "@,
            DownloaderError::TlsHandshakeError(_) => "TLS handshake error: "@,
            DownloaderError::UrlParseError(_) => "URL parse error: "@,
            DownloaderError::DnsError(_) => "DNS error: "@,
            DownloaderError::FileError(_) => "File error: "@,
            DownloaderError::ConnectionError(_) => "Connection error: "@,
            DownloaderError::ResponseError(_) => "Server response error: "@,
            DownloaderError::UserInputError(_) => "Invalid input: "@,
        }
    }

    /// The descriptive payload the error carries.
    pub open spec fn payload_spec(&self) -> Seq<char> {
        match self {
            DownloaderError::IoError(s) => s@,
            DownloaderError::TlsError(s) => s@,
            DownloaderError::TlsHandshakeError(s) => s@,
            DownloaderError::UrlParseError(s) => s@,
            DownloaderError::DnsError(s) => s@,
            DownloaderError::FileError(s) => s@,
            DownloaderError::ConnectionError(s) => s@,
            DownloaderError::ResponseError(s) => s@,
            DownloaderError::UserInputError(s) => s@,
        }
    }
}

} // verus!

use parallel_downloader::decimal::u64_to_string;
use parallel_downloader::error::DownloaderError;
use parallel_downloader::http::{
    extract_body, find_body_start, parse_content_length, parse_head_response,
    supports_range_requests,
};
use parallel_downloader::locator::split_url;
use parallel_downloader::request::{build_head_request, build_range_request};

#[test]
fn content_length_header_yields_its_number() {
    let response = b"HTTP/1.1 200 OK\r\nAccept-Ranges: bytes\r\nContent-Length: 1024\r\n\r\n";
    assert_eq!(parse_content_length(response).unwrap(), 1024);
}

#[test]
fn content_length_is_matched_case_insensitively() {
    let response = b"HTTP/1.1 200 OK\r\ncOnTeNt-LeNgTh: 7\r\n\r\n";
    assert_eq!(parse_content_length(response).unwrap(), 7);
}

#[test]
fn missing_content_length_is_a_response_error() {
    let response = b"HTTP/1.1 200 OK\r\nAccept-Ranges: bytes\r\n\r\n";
    let result = parse_content_length(response);
    assert!(matches!(result, Err(DownloaderError::ResponseError(_))));
}

#[test]
fn non_numeric_content_length_is_a_response_error() {
    let response = b"HTTP/1.1 200 OK\r\nContent-Length: abc\r\n\r\n";
    let result = parse_content_length(response);
    assert!(matches!(result, Err(DownloaderError::ResponseError(_))));
}

#[test]
fn empty_content_length_is_a_response_error() {
    let response = b"HTTP/1.1 200 OK\r\nContent-Length: \r\n\r\n";
    let result = parse_content_length(response);
    assert!(matches!(result, Err(DownloaderError::ResponseError(_))));
}

#[test]
fn oversized_content_length_is_a_response_error() {
    let response = b"HTTP/1.1 200 OK\r\nContent-Length: 99999999999999999999\r\n\r\n";
    let result = parse_content_length(response);
    assert!(matches!(result, Err(DownloaderError::ResponseError(_))));
}

#[test]
fn content_length_at_the_largest_size_still_parses() {
    let response = b"HTTP/1.1 200 OK\r\nContent-Length: 18446744073709551615\r\n\r\n";
    assert_eq!(parse_content_length(response).unwrap(), u64::MAX);
}

#[test]
fn only_a_line_start_counts_as_the_size_header() {
    let response = b"HTTP/1.1 200 OK\r\nX-Content-Length: 5\r\n\r\n";
    let result = parse_content_length(response);
    assert!(matches!(result, Err(DownloaderError::ResponseError(_))));
}

#[test]
fn head_response_reports_range_support_and_size() {
    let response = b"HTTP/1.1 200 OK\r\nAccept-Ranges: bytes\r\nContent-Length: 1024\r\n\r\n";
    let (supports_range, total) = parse_head_response(response).unwrap();
    assert!(supports_range);
    assert_eq!(total, 1024);

    let response = b"HTTP/1.1 200 OK\r\nContent-Length: 1024\r\n\r\n";
    let (supports_range, total) = parse_head_response(response).unwrap();
    assert!(!supports_range);
    assert_eq!(total, 1024);
}

#[test]
fn range_support_is_a_case_sensitive_match() {
    assert!(supports_range_requests(
        b"HTTP/1.1 200 OK\r\nAccept-Ranges: bytes\r\n\r\n"
    ));
    assert!(!supports_range_requests(
        b"HTTP/1.1 200 OK\r\naccept-ranges: bytes\r\n\r\n"
    ));
}

#[test]
fn body_follows_the_first_delimiter() {
    let response = b"HTTP/1.1 206 Partial Content\r\n\r\nHELLO";
    let body = extract_body(response).unwrap();
    assert_eq!(body, b"HELLO".to_vec());
}

#[test]
fn missing_delimiter_is_a_response_error() {
    let response = b"HTTP/1.1 206 Partial Content - no blank line";
    let result = extract_body(response);
    assert!(matches!(result, Err(DownloaderError::ResponseError(_))));
}

#[test]
fn empty_body_is_a_response_error() {
    let response = b"HTTP/1.1 206 Partial Content\r\n\r\n";
    let result = extract_body(response);
    assert!(matches!(result, Err(DownloaderError::ResponseError(_))));
}

#[test]
fn find_body_start_returns_the_first_match() {
    let response = b"a\r\n\r\nb\r\n\r\nc";
    assert_eq!(find_body_start(response), Some(5));
    assert_eq!(find_body_start(b"abc"), None);
}

#[test]
fn head_request_is_framed_exactly() {
    let request = build_head_request("/file.jpg", "example.com");
    assert_eq!(
        request,
        "HEAD /file.jpg HTTP/1.1\r\nHost: example.com\r\nConnection: close\r\nUser-Agent: rust-downloader/1.0\r\n\r\n"
    );
}

#[test]
fn range_request_is_framed_exactly() {
    let request = build_range_request("/file.jpg", "example.com", 250, 499);
    assert_eq!(
        request,
        "GET /file.jpg HTTP/1.1\r\nHost: example.com\r\nRange: bytes=250-499\r\nUser-Agent: rust-downloader/1.0\r\n\r\n"
    );
}

#[test]
fn numbers_render_in_decimal() {
    assert_eq!(u64_to_string(0), "0");
    assert_eq!(u64_to_string(9), "9");
    assert_eq!(u64_to_string(1024), "1024");
    assert_eq!(u64_to_string(u64::MAX), "18446744073709551615");
}

#[test]
fn split_url_yields_host_and_path() {
    let (host, path) = split_url("https://example.com/dir/file.jpg").unwrap();
    assert_eq!(host, "example.com");
    assert_eq!(path, "/dir/file.jpg");
}

#[test]
fn split_url_rejects_text_without_a_host() {
    let result = split_url("not a url");
    assert!(matches!(result, Err(DownloaderError::UrlParseError(_))));
    let result = split_url("data:text/plain,hello");
    assert!(matches!(result, Err(DownloaderError::UrlParseError(_))));
}

#[test]
fn error_messages_carry_their_kind_prefix() {
    let error = DownloaderError::FileError("missing part".to_string());
    assert_eq!(error.message(), "File error: missing part");
    let error = DownloaderError::UserInputError("bad count".to_string());
    assert_eq!(error.message(), "Invalid input: bad count");
}

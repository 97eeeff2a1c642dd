//! Verified core of a parallel HTTP(S) range downloader: segment planning,
//! request framing, response parsing, and ordered reassembly.

pub mod config;
pub mod decimal;
pub mod downloader;
pub mod error;
pub mod http;
pub mod locator;
pub mod request;

pub use config::DownloadConfig;
pub use downloader::DownloadManager;
pub use error::DownloaderError;

//! Configuration for one download: source locator, output path and the
//! number of concurrent connections. Immutable once built.

use vstd::prelude::*;

verus! {

/// The parameters of a single download.
#[derive(Clone)]
pub struct DownloadConfig {
    /// The URL of the file to download.
    pub url: String,
    /// The name of the output file where the download will be saved.
    pub output_file: String,
    /// The number of concurrent connections to use.
    pub num_connections: usize,
}

impl DownloadConfig {
    /// Builds a configuration from its three parameters, unchanged.
    pub fn new(url: String, output_file: String, num_connections: usize) -> (r: Self)
        ensures
            r.url == url,
            r.output_file == output_file,
            r.num_connections == num_connections,
    {
        Self { url, output_file, num_connections }
    }
}

} // verus!

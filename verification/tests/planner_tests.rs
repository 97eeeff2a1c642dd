use parallel_downloader::config::DownloadConfig;
use parallel_downloader::downloader::{collect_results, merge_parts, plan, DownloadManager};
use parallel_downloader::error::DownloaderError;

#[test]
fn test_download_config_creation() {
    let config = DownloadConfig::new(
        "https://cobweb.cs.uga.edu/~perdisci/CSCI6760-F21/Project2-TestFiles/Uga-VII.jpg"
            .to_string(),
        "output.jpg".to_string(),
        4,
    );
    assert_eq!(
        config.url,
        "https://cobweb.cs.uga.edu/~perdisci/CSCI6760-F21/Project2-TestFiles/Uga-VII.jpg"
    );
    assert_eq!(config.output_file, "output.jpg");
    assert_eq!(config.num_connections, 4);
}

#[test]
fn test_download_manager_creation() {
    let config = DownloadConfig::new(
        "https://cobweb.cs.uga.edu/~perdisci/CSCI6760-F21/Project2-TestFiles/Uga-VII.jpg"
            .to_string(),
        "output.jpg".to_string(),
        4,
    );
    let manager = DownloadManager::new(config.clone(), 1000).unwrap();
    assert_eq!(manager.config.url, config.url);
    assert_eq!(manager.config.output_file, config.output_file);
    assert_eq!(manager.config.num_connections, config.num_connections);
}

#[test]
fn test_merge_parts_empty() {
    let parts: Vec<Vec<u8>> = Vec::new();
    let result = merge_parts(&parts);
    assert!(
        result.is_err(),
        "Expected merge_parts to fail when no parts exist."
    );
    assert!(matches!(result, Err(DownloaderError::FileError(_))));
}

#[test]
fn plan_partitions_thousand_bytes_into_four_parts() {
    let parts = plan(1000, 4).unwrap();
    assert_eq!(parts.len(), 4);
    let bounds: Vec<(u64, u64)> = parts.iter().map(|p| (p.start, p.end)).collect();
    assert_eq!(bounds, vec![(0, 249), (250, 499), (500, 749), (750, 999)]);
    for (i, p) in parts.iter().enumerate() {
        assert_eq!(p.part_number, i);
    }
}

#[test]
fn plan_is_contiguous_with_remainder_in_last_part() {
    let parts = plan(10, 3).unwrap();
    assert_eq!(parts.len(), 3);
    assert_eq!(parts[0].start, 0);
    for i in 0..parts.len() - 1 {
        assert_eq!(parts[i].end + 1, parts[i + 1].start);
    }
    assert_eq!(parts[2].end, 9);
}

#[test]
fn plan_single_part_covers_everything() {
    let parts = plan(7, 1).unwrap();
    assert_eq!(parts.len(), 1);
    assert_eq!((parts[0].start, parts[0].end), (0, 6));
}

#[test]
fn plan_rejects_zero_count() {
    let result = plan(1000, 0);
    assert!(matches!(result, Err(DownloaderError::UserInputError(_))));
}

#[test]
fn plan_rejects_zero_total_size() {
    let result = plan(0, 4);
    assert!(matches!(result, Err(DownloaderError::UserInputError(_))));
}

#[test]
fn manager_rejects_zero_connections() {
    let config = DownloadConfig::new(
        "https://example.com/file.jpg".to_string(),
        "output.jpg".to_string(),
        0,
    );
    let result = DownloadManager::new(config, 1000);
    assert!(matches!(result, Err(DownloaderError::UserInputError(_))));
}

#[test]
fn merge_parts_concatenates_in_index_order() {
    let parts: Vec<Vec<u8>> = vec![b"AB".to_vec(), b"C".to_vec(), b"DEF".to_vec()];
    let merged = merge_parts(&parts).unwrap();
    assert_eq!(merged, b"ABCDEF".to_vec());
}

#[test]
fn merged_parts_reassemble_the_original_resource() {
    let resource: Vec<u8> = (0..1000u32).map(|i| (i % 251) as u8).collect();
    let parts = plan(1000, 4).unwrap();
    let mut bodies: Vec<Vec<u8>> = Vec::new();
    for p in &parts {
        bodies.push(resource[p.start as usize..=p.end as usize].to_vec());
    }
    for body in &bodies {
        assert_eq!(body.len(), 250);
    }
    let merged = merge_parts(&bodies).unwrap();
    assert_eq!(merged.len(), 1000);
    assert_eq!(merged, resource);
}

#[test]
fn collect_results_succeeds_when_all_workers_succeed() {
    let results: Vec<Result<u64, DownloaderError>> = vec![Ok(250), Ok(250), Ok(250)];
    assert!(collect_results(results).is_ok());
}

#[test]
fn collect_results_surfaces_the_first_error_only() {
    let results: Vec<Result<u64, DownloaderError>> = vec![
        Ok(250),
        Err(DownloaderError::DnsError("first".to_string())),
        Err(DownloaderError::FileError("second".to_string())),
    ];
    match collect_results(results) {
        Err(DownloaderError::DnsError(message)) => assert_eq!(message, "first"),
        other => panic!("expected the first error back, got {:?}", other),
    }
}

#[test]
fn remote_target_names_host_and_path_of_the_locator() {
    let config = DownloadConfig::new(
        "https://cobweb.cs.uga.edu/~perdisci/CSCI6760-F21/Project2-TestFiles/Uga-VII.jpg"
            .to_string(),
        "output.jpg".to_string(),
        4,
    );
    let manager = DownloadManager::new(config, 1000).unwrap();
    let (host, path) = manager.remote_target().unwrap();
    assert_eq!(host, "cobweb.cs.uga.edu");
    assert_eq!(path, "/~perdisci/CSCI6760-F21/Project2-TestFiles/Uga-VII.jpg");
}

#[test]
fn part_requests_carry_each_planned_range() {
    let config = DownloadConfig::new(
        "https://example.com/file.jpg".to_string(),
        "output.jpg".to_string(),
        4,
    );
    let manager = DownloadManager::new(config, 1000).unwrap();
    let request = manager.part_request("example.com", "/file.jpg", 2);
    assert_eq!(
        request,
        "GET /file.jpg HTTP/1.1\r\nHost: example.com\r\nRange: bytes=500-749\r\nUser-Agent: rust-downloader/1.0\r\n\r\n"
    );
}

#[test]
fn part_filenames_keep_directory_and_extension() {
    let config = DownloadConfig::new(
        "https://example.com/file.jpg".to_string(),
        "output.jpg".to_string(),
        4,
    );
    let manager = DownloadManager::new(config, 1000).unwrap();
    assert_eq!(manager.get_part_filename(0), "part0.jpg");
    assert_eq!(manager.get_part_filename(3), "part3.jpg");

    let config = DownloadConfig::new(
        "https://example.com/a.tar.gz".to_string(),
        "downloads/archive.tar.gz".to_string(),
        2,
    );
    let manager = DownloadManager::new(config, 1000).unwrap();
    assert_eq!(manager.get_part_filename(1), "downloads/part1.gz");

    let config = DownloadConfig::new(
        "https://example.com/raw".to_string(),
        "rawfile".to_string(),
        2,
    );
    let manager = DownloadManager::new(config, 1000).unwrap();
    assert_eq!(manager.get_part_filename(0), "part0");
}

use rawst_dl::engine::{
    create_http_task, download_mode, validate_thread_count, DownloadMode,
};
use rawst_dl::errors::{fetch_status_outcome, probe_status_outcome, RawstErr};
use rawst_dl::task::{range_header_value, ChunkType, HttpTask};
use rawst_dl::utils::Locator;

fn locator() -> Locator {
    Locator {
        text: "http://example.com/data.bin".to_string(),
        path: "/data.bin".to_string(),
        authority: Some("example.com".to_string()),
    }
}

fn length_headers(len: &str) -> Vec<(String, String)> {
    vec![("content-length".to_string(), len.to_string())]
}

#[test]
fn sum_invariant_holds_at_completion() {
    // fetch a 1000-byte resource over 3 connections to completion: the task
    // total equals the sum of the chunk counters, the whole designed span
    let mut task = HttpTask::new(
        locator(),
        "data.bin".to_string(),
        length_headers("1000"),
        Vec::new(),
        "t0".to_string(),
    );
    task.calculate_chunks(3);
    let spans: Vec<u64> = match &task.chunk_data {
        ChunkType::Multiple(chunks) => {
            chunks.iter().map(|c| c.y_offset - c.x_offset + 1).collect()
        }
        _ => panic!("expected a multiple-chunk layout"),
    };
    // segments arrive out of order and in pieces
    task.record_downloaded(2, spans[2]);
    task.record_downloaded(0, 100);
    task.record_downloaded(1, spans[1]);
    task.record_downloaded(0, spans[0] - 100);

    match &task.chunk_data {
        ChunkType::Multiple(chunks) => {
            assert!(chunks.iter().all(|c| c.is_downloaded()));
            let counters: u64 = chunks.iter().map(|c| c.downloaded).sum();
            assert_eq!(task.total_downloaded, counters);
            assert_eq!(task.total_downloaded, task.content_length() + 1);
        }
        _ => panic!("expected a multiple-chunk layout"),
    }
}

#[test]
fn capability_downgrade_forces_sequential() {
    // Accept-Ranges: none with 4 requested connections: the layout is a
    // single range, never 4
    let headers = vec![
        ("content-length".to_string(), "1000".to_string()),
        ("accept-ranges".to_string(), "none".to_string()),
    ];
    let (task, eff) = create_http_task(locator(), None, headers, Vec::new(), "t0".to_string(), 4)
        .expect("task creation should succeed");
    assert_eq!(eff, 1);
    assert!(matches!(task.chunk_data, ChunkType::Single(_)));
}

#[test]
fn range_support_keeps_requested_parallelism() {
    let headers = vec![
        ("content-length".to_string(), "1000".to_string()),
        ("accept-ranges".to_string(), "bytes".to_string()),
    ];
    let (task, eff) = create_http_task(locator(), None, headers, Vec::new(), "t0".to_string(), 4)
        .expect("task creation should succeed");
    assert_eq!(eff, 4);
    match &task.chunk_data {
        ChunkType::Multiple(chunks) => assert_eq!(chunks.len(), 4),
        _ => panic!("expected a multiple-chunk layout"),
    }
}

#[test]
fn missing_accept_ranges_means_no_partial_content() {
    let (task, eff) = create_http_task(
        locator(),
        None,
        length_headers("1000"),
        Vec::new(),
        "t0".to_string(),
        4,
    )
    .expect("task creation should succeed");
    assert!(!task.allows_partial_content());
    assert_eq!(eff, 1);
}

#[test]
fn unknown_size_is_fetched_whole() {
    let (task, eff) = create_http_task(locator(), None, Vec::new(), Vec::new(), "t0".to_string(), 4)
        .expect("task creation should succeed");
    assert_eq!(eff, 1);
    assert!(matches!(task.chunk_data, ChunkType::Whole));
}

#[test]
fn tiny_resource_falls_back_to_one_connection() {
    // 8 bytes split 7 ways has no valid layout; the engine falls back to one
    let headers = vec![
        ("content-length".to_string(), "8".to_string()),
        ("accept-ranges".to_string(), "bytes".to_string()),
    ];
    let (task, eff) = create_http_task(locator(), None, headers, Vec::new(), "t0".to_string(), 7)
        .expect("task creation should succeed");
    assert_eq!(eff, 1);
    assert!(matches!(task.chunk_data, ChunkType::Single(_)));
}

#[test]
fn thread_count_bounds() {
    assert!(validate_thread_count(1).is_ok());
    assert!(validate_thread_count(8).is_ok());
    assert_eq!(
        validate_thread_count(0).unwrap_err(),
        RawstErr::InvalidThreadCount
    );
    assert_eq!(
        validate_thread_count(9).unwrap_err(),
        RawstErr::InvalidThreadCount
    );
    let r = create_http_task(
        locator(),
        None,
        length_headers("1000"),
        Vec::new(),
        "t0".to_string(),
        9,
    );
    assert_eq!(r.unwrap_err(), RawstErr::InvalidThreadCount);
}

#[test]
fn fetch_mode_follows_thread_count() {
    assert_eq!(download_mode(1), DownloadMode::Sequential);
    assert_eq!(download_mode(2), DownloadMode::Concurrent);
    assert_eq!(download_mode(8), DownloadMode::Concurrent);
}

#[test]
fn range_header_asks_for_the_chunk_bytes() {
    let mut task = HttpTask::new(
        locator(),
        "data.bin".to_string(),
        length_headers("1000"),
        Vec::new(),
        "t0".to_string(),
    );
    task.calculate_chunks(3);
    match &task.chunk_data {
        ChunkType::Multiple(chunks) => {
            assert_eq!(range_header_value(&chunks[0]), "bytes=0-333");
            assert_eq!(range_header_value(&chunks[1]), "bytes=334-667");
            assert_eq!(range_header_value(&chunks[2]), "bytes=668-1000");
        }
        _ => panic!("expected a multiple-chunk layout"),
    }
}

#[test]
fn probe_statuses_map_one_to_one() {
    assert!(probe_status_outcome(200).is_ok());
    assert_eq!(probe_status_outcome(400).unwrap_err(), RawstErr::BadRequest);
    assert_eq!(
        probe_status_outcome(401).unwrap_err(),
        RawstErr::Unauthorized
    );
    assert_eq!(probe_status_outcome(403).unwrap_err(), RawstErr::Forbidden);
    assert_eq!(probe_status_outcome(404).unwrap_err(), RawstErr::NotFound);
    assert_eq!(
        probe_status_outcome(500).unwrap_err(),
        RawstErr::InternalServerError
    );
    assert_eq!(
        probe_status_outcome(418).unwrap_err(),
        RawstErr::Unknown(418)
    );
    // the probe accepts only 200
    assert_eq!(
        probe_status_outcome(204).unwrap_err(),
        RawstErr::Unknown(204)
    );
}

#[test]
fn fetch_statuses_accept_any_success() {
    assert!(fetch_status_outcome(200).is_ok());
    assert!(fetch_status_outcome(206).is_ok());
    assert!(fetch_status_outcome(299).is_ok());
    assert_eq!(fetch_status_outcome(404).unwrap_err(), RawstErr::NotFound);
    assert_eq!(
        fetch_status_outcome(301).unwrap_err(),
        RawstErr::Unknown(301)
    );
}

#[test]
fn sequential_whole_file_counts_bytes() {
    let mut task = HttpTask::new(
        locator(),
        "data.bin".to_string(),
        Vec::new(),
        Vec::new(),
        "t0".to_string(),
    );
    task.record_downloaded(0, 700);
    task.record_downloaded(0, 300);
    assert_eq!(task.total_downloaded, 1000);
}

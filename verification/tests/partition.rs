use rawst_dl::task::{ChunkType, HttpTask};
use rawst_dl::utils::Locator;

fn locator() -> Locator {
    Locator {
        text: "http://example.com/data.bin".to_string(),
        path: "/data.bin".to_string(),
        authority: Some("example.com".to_string()),
    }
}

fn task_with_length(len: &str) -> HttpTask {
    HttpTask::new(
        locator(),
        "data.bin".to_string(),
        vec![("content-length".to_string(), len.to_string())],
        Vec::new(),
        "t0".to_string(),
    )
}

#[test]
fn concrete_three_way_split() {
    // total_size 1000 split three ways: [0,333], [334,667], [668,1000]
    let mut task = task_with_length("1000");
    assert_eq!(task.content_length(), 1000);
    task.calculate_chunks(3);
    match &task.chunk_data {
        ChunkType::Multiple(chunks) => {
            assert_eq!(chunks.len(), 3);
            assert_eq!((chunks[0].x_offset, chunks[0].y_offset), (0, 333));
            assert_eq!((chunks[1].x_offset, chunks[1].y_offset), (334, 667));
            assert_eq!((chunks[2].x_offset, chunks[2].y_offset), (668, 1000));
            // inclusive bounds: sizes 334, 334, 333, summing to 1001
            let sizes: Vec<u64> = chunks
                .iter()
                .map(|c| c.y_offset - c.x_offset + 1)
                .collect();
            assert_eq!(sizes, vec![334, 334, 333]);
            assert_eq!(sizes.iter().sum::<u64>(), 1001);
        }
        _ => panic!("expected a multiple-chunk layout"),
    }
}

#[test]
fn coverage_has_no_gaps_or_overlaps() {
    // every thread count from 1 to 8 tiles [0, total] contiguously
    for n in 1..=8u64 {
        let mut task = task_with_length("10000");
        task.calculate_chunks(n);
        match &task.chunk_data {
            ChunkType::Single(c) => {
                assert_eq!(n, 1);
                assert_eq!((c.x_offset, c.y_offset), (0, 10000));
            }
            ChunkType::Multiple(chunks) => {
                assert_eq!(chunks.len() as u64, n);
                assert_eq!(chunks[0].x_offset, 0);
                assert_eq!(chunks[chunks.len() - 1].y_offset, 10000);
                for w in chunks.windows(2) {
                    assert_eq!(w[1].x_offset, w[0].y_offset + 1);
                }
                for c in chunks.iter() {
                    assert!(c.x_offset <= c.y_offset);
                }
            }
            ChunkType::Whole => panic!("unexpected whole-file layout"),
        }
    }
}

#[test]
fn single_connection_gets_one_range() {
    let mut task = task_with_length("500");
    task.calculate_chunks(1);
    match &task.chunk_data {
        ChunkType::Single(c) => {
            assert_eq!(c.x_offset, 0);
            assert_eq!(c.y_offset, 500);
            assert_eq!(c.downloaded, 0);
        }
        _ => panic!("expected a single-chunk layout"),
    }
}

#[test]
fn fresh_task_has_no_layout() {
    let task = task_with_length("42");
    assert!(matches!(task.chunk_data, ChunkType::Whole));
    assert_eq!(task.total_downloaded, 0);
}

#[test]
fn missing_or_malformed_length_means_unknown() {
    let task = HttpTask::new(
        locator(),
        "data.bin".to_string(),
        Vec::new(),
        Vec::new(),
        "t0".to_string(),
    );
    assert_eq!(task.content_length(), 0);

    let task = task_with_length("12x4");
    assert_eq!(task.content_length(), 0);
}

#[test]
fn one_byte_resource_single_connection() {
    let mut task = task_with_length("1");
    task.calculate_chunks(1);
    match &task.chunk_data {
        ChunkType::Single(c) => assert_eq!((c.x_offset, c.y_offset), (0, 1)),
        _ => panic!("expected a single-chunk layout"),
    }
}

#[test]
fn largest_tracked_length_parses() {
    let task = task_with_length("18446744073709551615");
    assert_eq!(task.content_length(), u64::MAX);
}

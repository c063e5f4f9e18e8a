use rawst_dl::engine::{plan_resume, record_needs_fetch};
use rawst_dl::errors::RawstErr;
use rawst_dl::history::{Record, RecordStatus};
use rawst_dl::task::{ChunkType, HttpTask};
use rawst_dl::utils::Locator;

fn locator() -> Locator {
    Locator {
        text: "http://example.com/data.bin".to_string(),
        path: "/data.bin".to_string(),
        authority: Some("example.com".to_string()),
    }
}

fn pending_record(file_size: u64, threads_used: usize) -> Record {
    Record::new(
        "id0".to_string(),
        "http://example.com/data.bin".to_string(),
        "data.bin".to_string(),
        file_size,
        "/tmp/downloads".to_string(),
        threads_used,
        "t0".to_string(),
        Vec::new(),
    )
}

fn length_headers(len: &str) -> Vec<(String, String)> {
    vec![("content-length".to_string(), len.to_string())]
}

#[test]
fn resume_advances_offsets_past_disk_bytes() {
    // a 1000-byte download split 3 ways, interrupted with 334 + 100 + 0
    // bytes on disk: chunk 0 is complete, chunk 1 starts at 434, chunk 2 is
    // untouched, and only 1001 - 434 bytes are still owed
    let record = pending_record(1000, 3);
    let sizes = vec![334u64, 100, 0];
    let task = plan_resume(
        &record,
        locator(),
        length_headers("1000"),
        Vec::new(),
        "t1".to_string(),
        &sizes,
    )
    .expect("plan should succeed");

    assert_eq!(task.total_downloaded, 434);
    match &task.chunk_data {
        ChunkType::Multiple(chunks) => {
            assert_eq!(chunks.len(), 3);
            // chunk 0: full span on disk, left in place, reported complete
            assert_eq!(chunks[0].x_offset, 0);
            assert_eq!(chunks[0].downloaded, 334);
            assert!(chunks[0].is_downloaded());
            // chunk 1: start advanced past the 100 bytes already present
            assert_eq!(chunks[1].x_offset, 434);
            assert_eq!(chunks[1].y_offset, 667);
            assert_eq!(chunks[1].downloaded, 100);
            assert!(!chunks[1].is_downloaded());
            // chunk 2: untouched
            assert_eq!(chunks[2].x_offset, 668);
            assert_eq!(chunks[2].downloaded, 0);
            // the ranges still to be requested cover exactly the missing bytes
            let remaining: u64 = chunks
                .iter()
                .filter(|c| !c.is_downloaded())
                .map(|c| c.y_offset - c.x_offset + 1)
                .sum();
            assert_eq!(remaining, 1001 - 434);
        }
        _ => panic!("expected a multiple-chunk layout"),
    }
}

#[test]
fn resume_single_connection() {
    let record = pending_record(500, 1);
    let sizes = vec![120u64];
    let task = plan_resume(
        &record,
        locator(),
        length_headers("500"),
        Vec::new(),
        "t1".to_string(),
        &sizes,
    )
    .expect("plan should succeed");
    assert_eq!(task.total_downloaded, 120);
    match &task.chunk_data {
        ChunkType::Single(c) => {
            assert_eq!(c.x_offset, 120);
            assert_eq!(c.y_offset, 500);
            assert_eq!(c.downloaded, 120);
        }
        _ => panic!("expected a single-chunk layout"),
    }
}

#[test]
fn resume_rejects_size_mismatch() {
    // the fresh probe reports a different size than the record: the ranges
    // would be invalid, so this is a hard error
    let record = pending_record(1000, 3);
    let sizes = vec![0u64, 0, 0];
    let r = plan_resume(
        &record,
        locator(),
        length_headers("999"),
        Vec::new(),
        "t1".to_string(),
        &sizes,
    );
    assert_eq!(r.unwrap_err(), RawstErr::InvalidArgs);
}

#[test]
fn resume_rejects_bad_thread_count() {
    let record = pending_record(1000, 0);
    let r = plan_resume(
        &record,
        locator(),
        length_headers("1000"),
        Vec::new(),
        "t1".to_string(),
        &[],
    );
    assert_eq!(r.unwrap_err(), RawstErr::InvalidThreadCount);

    let record = pending_record(1000, 9);
    let r = plan_resume(
        &record,
        locator(),
        length_headers("1000"),
        Vec::new(),
        "t1".to_string(),
        &[],
    );
    assert_eq!(r.unwrap_err(), RawstErr::InvalidThreadCount);
}

#[test]
fn resume_rejects_artifacts_that_do_not_match_the_layout() {
    // wrong artifact count
    let record = pending_record(1000, 3);
    let r = plan_resume(
        &record,
        locator(),
        length_headers("1000"),
        Vec::new(),
        "t1".to_string(),
        &[0u64, 0],
    );
    assert_eq!(r.unwrap_err(), RawstErr::FileError);

    // an artifact larger than its chunk's designed span
    let r = plan_resume(
        &record,
        locator(),
        length_headers("1000"),
        Vec::new(),
        "t1".to_string(),
        &[335u64, 0, 0],
    );
    assert_eq!(r.unwrap_err(), RawstErr::FileError);
}

#[test]
fn resume_rejects_unknown_size() {
    let record = pending_record(0, 2);
    let r = plan_resume(
        &record,
        locator(),
        Vec::new(),
        Vec::new(),
        "t1".to_string(),
        &[0u64, 0],
    );
    assert_eq!(r.unwrap_err(), RawstErr::InvalidArgs);
}

#[test]
fn completed_record_needs_no_fetch() {
    // re-resuming a finished download is a no-op: the decision that gates
    // every network request says so before any probe is made
    let mut record = pending_record(1000, 3);
    assert!(record_needs_fetch(&record));
    record.status = RecordStatus::Completed;
    assert!(!record_needs_fetch(&record));
}

#[test]
fn fully_downloaded_chunks_are_skipped() {
    // every artifact already at full span: nothing remains to request
    let record = pending_record(1000, 3);
    let sizes = vec![334u64, 334, 333];
    let task = plan_resume(
        &record,
        locator(),
        length_headers("1000"),
        Vec::new(),
        "t1".to_string(),
        &sizes,
    )
    .expect("plan should succeed");
    assert_eq!(task.total_downloaded, 1001);
    match &task.chunk_data {
        ChunkType::Multiple(chunks) => {
            assert!(chunks.iter().all(|c| c.is_downloaded()));
        }
        _ => panic!("expected a multiple-chunk layout"),
    }
}

#[test]
fn advance_offsets_directly() {
    let mut task = HttpTask::new(
        locator(),
        "data.bin".to_string(),
        length_headers("1000"),
        Vec::new(),
        "t0".to_string(),
    );
    task.calculate_chunks(2);
    task.calculate_x_offsets(&[100, 200]);
    match &task.chunk_data {
        ChunkType::Multiple(chunks) => {
            assert_eq!(chunks[0].x_offset, 100);
            assert_eq!(chunks[0].downloaded, 100);
            assert_eq!(chunks[1].x_offset, 701);
            assert_eq!(chunks[1].downloaded, 200);
        }
        _ => panic!("expected a multiple-chunk layout"),
    }
}

#[test]
fn resume_rejects_untrackable_size() {
    // a size at the counter's ceiling cannot be accounted for
    let record = pending_record(u64::MAX, 2);
    let r = plan_resume(
        &record,
        locator(),
        length_headers("18446744073709551615"),
        Vec::new(),
        "t1".to_string(),
        &[0u64, 0],
    );
    assert_eq!(r.unwrap_err(), RawstErr::InvalidArgs);
}

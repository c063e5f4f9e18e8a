use rawst_dl::io::merge_buffers;
use rawst_dl::task::{ChunkType, HttpTask};
use rawst_dl::utils::Locator;

fn locator() -> Locator {
    Locator {
        text: "http://example.com/data.bin".to_string(),
        path: "/data.bin".to_string(),
        authority: Some("example.com".to_string()),
    }
}

#[test]
fn merge_places_each_chunk_at_its_designed_offset() {
    // chunks of a 1000-byte-offset layout, artifact i filled with byte value
    // i: after the merge, chunk i's pattern sits at [x_offset_i, y_offset_i]
    let mut task = HttpTask::new(
        locator(),
        "data.bin".to_string(),
        vec![("content-length".to_string(), "1000".to_string())],
        Vec::new(),
        "t0".to_string(),
    );
    task.calculate_chunks(3);
    let chunks = match &task.chunk_data {
        ChunkType::Multiple(chunks) => chunks.clone(),
        _ => panic!("expected a multiple-chunk layout"),
    };
    let parts: Vec<Vec<u8>> = chunks
        .iter()
        .enumerate()
        .map(|(i, c)| vec![i as u8; (c.y_offset - c.x_offset + 1) as usize])
        .collect();

    let merged = merge_buffers(&parts);

    assert_eq!(merged.len(), 1001);
    for (i, c) in chunks.iter().enumerate() {
        for offset in c.x_offset..=c.y_offset {
            assert_eq!(merged[offset as usize], i as u8);
        }
    }
    // the boundaries in particular
    assert_eq!(merged[333], 0);
    assert_eq!(merged[334], 1);
    assert_eq!(merged[667], 1);
    assert_eq!(merged[668], 2);
    assert_eq!(merged[1000], 2);
}

#[test]
fn merge_keeps_artifact_order() {
    let parts = vec![b"abc".to_vec(), b"".to_vec(), b"de".to_vec()];
    let merged = merge_buffers(&parts);
    assert_eq!(merged, b"abcde".to_vec());
}

#[test]
fn merge_of_nothing_is_empty() {
    let parts: Vec<Vec<u8>> = Vec::new();
    assert!(merge_buffers(&parts).is_empty());
}

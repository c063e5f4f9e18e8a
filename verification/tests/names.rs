use base64::Engine;
use rawst_dl::engine::{create_http_task, make_task_id};
use rawst_dl::errors::RawstErr;
use rawst_dl::io::split_links;
use rawst_dl::task::HttpTask;
use rawst_dl::utils::{
    chunk_file_name, extract_filename_from_header, extract_filename_from_url, parse_u64,
    u64_to_string, Locator,
};

#[test]
fn decimal_rendering() {
    assert_eq!(u64_to_string(0), "0");
    assert_eq!(u64_to_string(7), "7");
    assert_eq!(u64_to_string(1000), "1000");
    assert_eq!(u64_to_string(u64::MAX), "18446744073709551615");
}

#[test]
fn decimal_parsing() {
    assert_eq!(parse_u64("0"), Some(0));
    assert_eq!(parse_u64("1000"), Some(1000));
    assert_eq!(parse_u64("18446744073709551615"), Some(u64::MAX));
    assert_eq!(parse_u64("18446744073709551616"), None);
    assert_eq!(parse_u64(""), None);
    assert_eq!(parse_u64("12x4"), None);
    assert_eq!(parse_u64("-3"), None);
    assert_eq!(parse_u64(" 5"), None);
}

#[test]
fn chunk_artifact_names() {
    assert_eq!(chunk_file_name("file.txt", 0), "file.txt.part-0.tmp");
    assert_eq!(chunk_file_name("file.txt", 3), "file.txt.part-3.tmp");
    assert_eq!(chunk_file_name("deadbeef", 12), "deadbeef.part-12.tmp");
}

#[test]
fn filename_from_url_takes_the_last_segment() {
    let iri = Locator {
        text: "http://example.com/path/to/file.tar.gz?query#frag".to_string(),
        path: "/path/to/file.tar.gz".to_string(),
        authority: Some("example.com".to_string()),
    };
    assert_eq!(extract_filename_from_url(&iri), "file.tar.gz");
}

#[test]
fn filename_from_url_falls_back_to_the_host() {
    let root = Locator {
        text: "http://example.com/".to_string(),
        path: "/".to_string(),
        authority: Some("example.com".to_string()),
    };
    assert_eq!(extract_filename_from_url(&root), "example.com.html");

    let no_dot = Locator {
        text: "http://example.com/downloads/latest".to_string(),
        path: "/downloads/latest".to_string(),
        authority: Some("example.com".to_string()),
    };
    assert_eq!(extract_filename_from_url(&no_dot), "example.com.html");
}

#[test]
fn filename_from_header_reads_the_disposition() {
    let headers = vec![(
        "content-disposition".to_string(),
        "attachment; filename=\"report.pdf\"".to_string(),
    )];
    assert_eq!(
        extract_filename_from_header(&headers),
        Some("report.pdf".to_string())
    );

    let unquoted = vec![(
        "content-disposition".to_string(),
        "attachment;filename=data.bin".to_string(),
    )];
    assert_eq!(
        extract_filename_from_header(&unquoted),
        Some("data.bin".to_string())
    );
}

#[test]
fn filename_from_header_absent_or_unusable() {
    assert_eq!(extract_filename_from_header(&Vec::new()), None);

    let no_filename = vec![("content-disposition".to_string(), "inline".to_string())];
    assert_eq!(extract_filename_from_header(&no_filename), None);

    // an absolute path is refused, so the caller falls back to the locator
    let absolute = vec![(
        "content-disposition".to_string(),
        "attachment; filename=\"/etc/name\"".to_string(),
    )];
    assert_eq!(extract_filename_from_header(&absolute), None);
}

#[test]
fn save_as_keeps_the_derived_extension() {
    let iri = Locator {
        text: "http://example.com/archive.tar.gz".to_string(),
        path: "/archive.tar.gz".to_string(),
        authority: Some("example.com".to_string()),
    };
    let save_as = "backup".to_string();
    let (task, _) = create_http_task(
        iri,
        Some(&save_as),
        vec![("content-length".to_string(), "10".to_string())],
        Vec::new(),
        "t0".to_string(),
        1,
    )
    .expect("task creation should succeed");
    assert_eq!(task.filename, "backup.gz");
}

#[test]
fn hashed_artifact_base_name_is_the_digest() {
    // the base name is the SHA-256 of locator text followed by timestamp:
    // here sha256("abc"), a well-known digest
    let task = HttpTask::new(
        Locator {
            text: "ab".to_string(),
            path: "/x.y".to_string(),
            authority: Some("h".to_string()),
        },
        "x.y".to_string(),
        Vec::new(),
        Vec::new(),
        "c".to_string(),
    );
    assert_eq!(
        task.hashed_file_name(),
        "ba7816bf8f01cfea414140de5dae2223b00361a396177a9cb410ff61f20015ad"
    );
}

#[test]
fn task_ids_are_base64_of_the_timestamp() {
    assert_eq!(make_task_id(0, None), "AAAAAAAAAAA=");
    let expected = base64::prelude::BASE64_STANDARD.encode(1700000000i64.to_be_bytes());
    assert_eq!(make_task_id(1700000000, None), expected);
    let mut with_index = expected.clone();
    with_index.push_str("4");
    assert_eq!(make_task_id(1700000000, Some(4)), with_index);
}

#[test]
fn link_lists_split_into_trimmed_lines() {
    let lines = split_links("http://a.example/x.bin\r\n  http://b.example/y.bin\n");
    assert_eq!(
        lines,
        vec![
            "http://a.example/x.bin".to_string(),
            "http://b.example/y.bin".to_string(),
            "".to_string(),
        ]
    );
    assert_eq!(split_links(""), vec!["".to_string()]);
}

#[test]
fn error_messages_name_the_failure() {
    assert_eq!(
        RawstErr::Unreachable.message(),
        "Unreachable: The request was not able to reach the server"
    );
    assert_eq!(RawstErr::Unknown(418).message(), "Unknown Error: status 418");
}

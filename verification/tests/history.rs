use rawst_dl::args::HistoryArgs;
use rawst_dl::errors::RawstErr;
use rawst_dl::history::{
    add_record, check_history_args, get_recent_pending, get_record, update_record,
    HistoryAction, HistoryManager, Record, RecordStatus,
};

fn record(id: &str, status: RecordStatus) -> Record {
    let mut r = Record::new(
        id.to_string(),
        "http://example.com/a.bin".to_string(),
        "a.bin".to_string(),
        1000,
        "/tmp/downloads".to_string(),
        3,
        "t0".to_string(),
        Vec::new(),
    );
    r.status = status;
    r
}

#[test]
fn new_records_start_pending() {
    let r = Record::new(
        "id1".to_string(),
        "http://example.com/a.bin".to_string(),
        "a.bin".to_string(),
        1000,
        "/tmp/downloads".to_string(),
        3,
        "t0".to_string(),
        Vec::new(),
    );
    assert!(matches!(r.status, RecordStatus::Pending));
    assert_eq!(r.id, "id1");
    assert_eq!(r.file_size, 1000);
    assert_eq!(r.threads_used, 3);
}

#[test]
fn lookup_by_id_finds_the_first_match() {
    let mut records = Vec::new();
    add_record(&mut records, record("a", RecordStatus::Completed));
    add_record(&mut records, record("b", RecordStatus::Pending));
    assert_eq!(records.len(), 2);

    let found = get_record(&records, &"b".to_string()).expect("should find b");
    assert_eq!(found.id, "b");
    assert!(get_record(&records, &"c".to_string()).is_none());
}

#[test]
fn recent_pending_scans_from_the_end() {
    let mut records = Vec::new();
    add_record(&mut records, record("a", RecordStatus::Pending));
    add_record(&mut records, record("b", RecordStatus::Completed));
    add_record(&mut records, record("c", RecordStatus::Pending));
    add_record(&mut records, record("d", RecordStatus::Completed));

    let found = get_recent_pending(&records).expect("one record is pending");
    assert_eq!(found.id, "c");

    let all_done = vec![record("x", RecordStatus::Completed)];
    assert!(get_recent_pending(&all_done).is_none());
}

#[test]
fn updating_marks_every_match_completed() {
    let mut records = Vec::new();
    add_record(&mut records, record("a", RecordStatus::Pending));
    add_record(&mut records, record("b", RecordStatus::Pending));
    update_record(&mut records, &"a".to_string());
    assert!(matches!(records[0].status, RecordStatus::Completed));
    assert!(matches!(records[1].status, RecordStatus::Pending));
}

#[test]
fn history_requests_are_classified() {
    assert_eq!(
        check_history_args(HistoryArgs { show: true, clear: false }),
        Ok(HistoryAction::Show)
    );
    assert_eq!(
        check_history_args(HistoryArgs { show: false, clear: true }),
        Ok(HistoryAction::Clear)
    );
    assert_eq!(
        check_history_args(HistoryArgs { show: true, clear: true }),
        Ok(HistoryAction::Show)
    );
    assert_eq!(
        check_history_args(HistoryArgs { show: false, clear: false }),
        Err(RawstErr::InvalidArgs)
    );
}

#[test]
fn manager_remembers_its_store_path() {
    let m = HistoryManager::new("/tmp/history.json".to_string());
    assert_eq!(m.file_path, "/tmp/history.json");
}

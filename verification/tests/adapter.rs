use agentfs_fskit::adapter::{
    make_stats, marshal_classified, marshal_data, marshal_listing, marshal_stats, marshal_text,
    marshal_unit, ClassifiedOutcome, DataOutcome, ListOutcome, StatsOutcome, TextOutcome,
    UnitOutcome,
};

#[test]
fn read_bytes_cross_unchanged() {
    let (result, buffer) = marshal_data(DataOutcome::Found(b"hello".to_vec()));
    assert!(result.success);
    assert_eq!(result.error_code, 0);
    assert_eq!(buffer.data.as_deref(), Some(b"hello".as_slice()));
    assert_eq!(buffer.len, 5);
    assert_eq!(buffer.capacity, 5);
}

#[test]
fn missing_path_returns_not_found_with_no_allocation() {
    let (result, buffer) = marshal_data(DataOutcome::Absent);
    assert!(!result.success);
    assert_eq!(result.error_code, libc::ENOENT);
    assert!(buffer.data.is_none());
    assert_eq!(buffer.len, 0);
    assert_eq!(buffer.capacity, 0);

    let (result, text) = marshal_text(TextOutcome::Absent);
    assert_eq!(result.error_code, libc::ENOENT);
    assert!(text.is_none());

    let (result, payload) = marshal_listing(ListOutcome::Absent);
    assert_eq!(result.error_code, libc::ENOENT);
    assert!(payload.is_none());

    let (result, stats) = marshal_stats(StatsOutcome::Absent);
    assert_eq!(result.error_code, libc::ENOENT);
    assert!(stats.is_none());
}

#[test]
fn capability_failures_become_the_generic_io_error() {
    let (result, buffer) = marshal_data(DataOutcome::Failed);
    assert_eq!(result.error_code, libc::EIO);
    assert!(buffer.data.is_none());
    assert_eq!(marshal_unit(UnitOutcome::Failed).error_code, libc::EIO);
    assert!(marshal_unit(UnitOutcome::Done).success);
}

#[test]
fn classified_failures_forward_the_canonical_errno() {
    let result = marshal_classified(ClassifiedOutcome::Domain(libc::ENOTEMPTY));
    assert!(!result.success);
    assert_eq!(result.error_code, libc::ENOTEMPTY);
    assert!(marshal_classified(ClassifiedOutcome::Done).success);
    assert_eq!(marshal_classified(ClassifiedOutcome::Failed).error_code, libc::EIO);
}

#[test]
fn symlink_targets_cross_unchanged_unless_unrepresentable() {
    let (result, text) = marshal_text(TextOutcome::Found(b"../target".to_vec()));
    assert!(result.success);
    assert_eq!(text, Some(b"../target".to_vec()));

    let (result, text) = marshal_text(TextOutcome::Found(b"bad\0target".to_vec()));
    assert_eq!(result.error_code, libc::EIO);
    assert!(text.is_none());
}

#[test]
fn listings_are_serialized_into_one_payload() {
    let entries = vec![b"file1".to_vec(), b"dir1".to_vec()];
    let (result, payload) = marshal_listing(ListOutcome::Found(entries));
    assert!(result.success);
    assert_eq!(payload, Some(b"[\"file1\",\"dir1\"]".to_vec()));
}

#[test]
fn truncate_then_stat_reports_the_stored_size() {
    let stats = make_stats(42, 0o100644, 1, 1000, 1000, 4096, 10, 20, 30);
    let (result, reported) = marshal_stats(StatsOutcome::Found(stats));
    assert!(result.success);
    let reported = reported.unwrap();
    assert_eq!(reported.size, 4096);
    assert_eq!(reported.ino, 42);
    assert_eq!(reported.mtime, 20);
}

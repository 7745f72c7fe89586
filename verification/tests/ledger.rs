use lansend::ledger::{FileRecord, FileStatus, StoreError, TransferLog};

fn row(id: i64, path: &str, size: u64, is_dir: bool, status: FileStatus) -> FileRecord {
    FileRecord { id, relative_path: path.to_string(), size, is_dir, status }
}

fn shape(log: &TransferLog) -> Vec<(i64, String, u64, bool, FileStatus)> {
    log.records()
        .into_iter()
        .map(|r| (r.id, r.relative_path, r.size, r.is_dir, r.status))
        .collect()
}

#[test]
fn new_ledger_is_empty() {
    let log = TransferLog::new(7);
    assert_eq!(log.transfer_id(), 7);
    assert_eq!(log.count_total(), 0);
    assert_eq!(log.count_pending(), 0);
    assert_eq!(log.count_skipped(), 0);
    assert_eq!(log.get_total_sent_bytes(), Ok(0));
    assert!(log.get_pending_files().is_empty());
}

#[test]
fn add_file_appends_pending_rows_with_growing_ids() {
    let mut log = TransferLog::new(1);
    log.add_file("src", 0, true).unwrap();
    log.add_file("src/a.txt", 5, false).unwrap();
    assert_eq!(
        shape(&log),
        vec![
            (1, "src".to_string(), 0, true, FileStatus::Pending),
            (2, "src/a.txt".to_string(), 5, false, FileStatus::Pending),
        ]
    );
}

#[test]
fn add_file_ignores_a_path_that_is_there() {
    let mut log = TransferLog::new(1);
    log.add_file("a.txt", 5, false).unwrap();
    log.mark_sent("a.txt");
    log.add_file("a.txt", 99, true).unwrap();
    assert_eq!(shape(&log), vec![(1, "a.txt".to_string(), 5, false, FileStatus::Sent)]);
}

#[test]
fn add_file_fails_when_no_id_is_left() {
    let mut log =
        TransferLog::restore(1, vec![row(i64::MAX, "a", 1, false, FileStatus::Pending)]).unwrap();
    assert_eq!(log.add_file("b", 1, false), Err(StoreError::Full));
    assert_eq!(log.count_total(), 1);
    assert_eq!(log.add_file("a", 1, false), Ok(()));
}

#[test]
fn marks_change_only_the_named_row() {
    let mut log = TransferLog::new(1);
    log.add_file("a", 1, false).unwrap();
    log.add_file("b", 2, false).unwrap();
    log.add_file("c", 3, false).unwrap();
    log.mark_sent("b");
    log.mark_skipped("c");
    log.mark_sent("missing");
    assert_eq!(
        shape(&log),
        vec![
            (1, "a".to_string(), 1, false, FileStatus::Pending),
            (2, "b".to_string(), 2, false, FileStatus::Sent),
            (3, "c".to_string(), 3, false, FileStatus::Skipped),
        ]
    );
}

#[test]
fn pending_files_come_in_ledger_order() {
    let mut log = TransferLog::new(1);
    for (name, size) in [("a", 1u64), ("b", 2), ("c", 3), ("d", 4)] {
        log.add_file(name, size, false).unwrap();
    }
    log.mark_sent("b");
    let pending: Vec<(i64, String, u64)> = log
        .get_pending_files()
        .into_iter()
        .map(|r| (r.id, r.relative_path, r.size))
        .collect();
    assert_eq!(
        pending,
        vec![(1, "a".to_string(), 1), (3, "c".to_string(), 3), (4, "d".to_string(), 4)]
    );
}

#[test]
fn counts_and_sent_bytes_follow_the_marks() {
    let mut log = TransferLog::new(1);
    for (name, size) in [("a", 10u64), ("b", 20), ("c", 30), ("d", 40), ("e", 50)] {
        log.add_file(name, size, false).unwrap();
    }
    log.mark_sent("a");
    log.mark_sent("d");
    log.mark_skipped("c");
    assert_eq!(log.count_total(), 5);
    assert_eq!(log.count_pending(), 2);
    assert_eq!(log.count_skipped(), 1);
    assert_eq!(log.get_total_sent_bytes(), Ok(50));
}

#[test]
fn sent_bytes_overflow_is_reported() {
    let log = TransferLog::restore(
        1,
        vec![
            row(1, "a", u64::MAX, false, FileStatus::Sent),
            row(2, "b", 1, false, FileStatus::Sent),
        ],
    )
    .unwrap();
    assert_eq!(log.get_total_sent_bytes(), Err(StoreError::Overflow));
    let fits = TransferLog::restore(
        1,
        vec![
            row(1, "a", u64::MAX, false, FileStatus::Sent),
            row(2, "b", 1, false, FileStatus::Pending),
        ],
    )
    .unwrap();
    assert_eq!(fits.get_total_sent_bytes(), Ok(u64::MAX));
}

#[test]
fn reset_empties_the_ledger_and_ids_start_over() {
    let mut log = TransferLog::new(3);
    log.add_file("a", 1, false).unwrap();
    log.mark_sent("a");
    log.reset();
    assert_eq!(log.count_total(), 0);
    assert_eq!(log.transfer_id(), 3);
    log.add_file("a", 1, false).unwrap();
    assert_eq!(shape(&log), vec![(1, "a".to_string(), 1, false, FileStatus::Pending)]);
}

#[test]
fn restore_takes_sound_rows_as_they_are() {
    let log = TransferLog::restore(
        9,
        vec![
            row(2, "a", 1, false, FileStatus::Sent),
            row(5, "b", 0, true, FileStatus::Skipped),
        ],
    )
    .unwrap();
    assert_eq!(log.transfer_id(), 9);
    assert_eq!(
        shape(&log),
        vec![
            (2, "a".to_string(), 1, false, FileStatus::Sent),
            (5, "b".to_string(), 0, true, FileStatus::Skipped),
        ]
    );
}

#[test]
fn restore_refuses_a_repeated_path() {
    let rows = vec![
        row(1, "a", 1, false, FileStatus::Pending),
        row(2, "b", 1, false, FileStatus::Pending),
        row(3, "a", 1, false, FileStatus::Pending),
    ];
    assert!(matches!(TransferLog::restore(1, rows), Err(StoreError::Corrupt)));
}

#[test]
fn restore_refuses_ids_that_do_not_grow() {
    let same = vec![
        row(1, "a", 1, false, FileStatus::Pending),
        row(1, "b", 1, false, FileStatus::Pending),
    ];
    assert!(matches!(TransferLog::restore(1, same), Err(StoreError::Corrupt)));
    let falling = vec![
        row(2, "a", 1, false, FileStatus::Pending),
        row(1, "b", 1, false, FileStatus::Pending),
    ];
    assert!(matches!(TransferLog::restore(1, falling), Err(StoreError::Corrupt)));
}

#[test]
fn file_status_words_round_trip() {
    for status in [FileStatus::Pending, FileStatus::Sent, FileStatus::Skipped] {
        assert_eq!(FileStatus::from_text(status.as_str()), Some(status));
    }
    assert_eq!(FileStatus::Pending.as_str(), "Pending");
    assert_eq!(FileStatus::Sent.as_str(), "Sent");
    assert_eq!(FileStatus::Skipped.as_str(), "Skipped");
    assert_eq!(FileStatus::from_text("sent"), None);
    assert_eq!(FileStatus::from_text(""), None);
    assert_eq!(FileStatus::from_text("Completed"), None);
}

#[test]
fn duplicate_copies_every_field() {
    let record = row(4, "a/b", 17, false, FileStatus::Skipped);
    let copy = record.duplicate();
    assert_eq!(
        (copy.id, copy.relative_path, copy.size, copy.is_dir, copy.status),
        (4, "a/b".to_string(), 17, false, FileStatus::Skipped)
    );
}

#[test]
fn newest_is_the_row_added_last() {
    let mut log = TransferLog::new(1);
    assert!(log.newest().is_none());
    log.add_file("a", 1, false).unwrap();
    log.add_file("b", 2, false).unwrap();
    let last = log.newest().unwrap();
    assert_eq!((last.id, last.relative_path.as_str(), last.size), (2, "b", 2));
    log.add_file("a", 5, false).unwrap();
    assert_eq!(log.newest().unwrap().relative_path, "b");
}

#[test]
fn contains_path_finds_exactly_the_recorded_paths() {
    let mut log = TransferLog::new(1);
    assert!(!log.contains_path("a"));
    log.add_file("a", 1, false).unwrap();
    log.add_file("b/c", 1, false).unwrap();
    assert!(log.contains_path("a"));
    assert!(log.contains_path("b/c"));
    assert!(!log.contains_path("b"));
    assert!(!log.contains_path("A"));
}

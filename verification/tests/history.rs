use lansend::history::{Db, Transfer, TransferStatus};
use lansend::ledger::StoreError;

fn ids(db: &Db) -> Vec<i64> {
    db.list_transfers().into_iter().map(|t| t.id).collect()
}

fn stored(id: i64) -> Transfer {
    Transfer {
        id,
        path: format!("/src/{}", id),
        ip: "10.0.0.2".to_string(),
        port: 9000,
        status: TransferStatus::Completed,
        created_at: "2024-01-01 00:00:00".to_string(),
        listing_complete: true,
        exclude_patterns: None,
    }
}

#[test]
fn init_is_empty() {
    let db = Db::init();
    assert!(db.list_transfers().is_empty());
    assert!(matches!(db.get_transfer(1), Err(StoreError::NotFound)));
}

#[test]
fn add_transfer_records_a_pending_row_and_returns_its_id() {
    let mut db = Db::init();
    let first = db.add_transfer("/home/u/src", "10.0.0.2", 9000, None, "t0").unwrap();
    let second = db
        .add_transfer("/home/u/other", "10.0.0.3", 9001, Some("[\"*.log\"]".to_string()), "t1")
        .unwrap();
    assert_eq!((first, second), (1, 2));
    let row = db.get_transfer(2).unwrap();
    assert_eq!(row.id, 2);
    assert_eq!(row.path, "/home/u/other");
    assert_eq!(row.ip, "10.0.0.3");
    assert_eq!(row.port, 9001);
    assert_eq!(row.status, TransferStatus::Pending);
    assert_eq!(row.created_at, "t1");
    assert!(!row.listing_complete);
    assert_eq!(row.exclude_patterns, Some("[\"*.log\"]".to_string()));
    assert_eq!(db.get_transfer(1).unwrap().exclude_patterns, None);
}

#[test]
fn add_transfer_fails_when_no_id_is_left() {
    let mut db = Db::restore(vec![stored(i64::MAX)]).unwrap();
    assert_eq!(db.add_transfer("/p", "h", 1, None, "t"), Err(StoreError::Full));
    assert_eq!(ids(&db), vec![i64::MAX]);
}

#[test]
fn new_ids_exceed_every_id_in_the_catalog() {
    let mut db = Db::restore(vec![stored(3), stored(8)]).unwrap();
    assert_eq!(db.add_transfer("/p", "h", 1, None, "t"), Ok(9));
    db.delete_transfer(3);
    assert_eq!(db.add_transfer("/p", "h", 1, None, "t"), Ok(10));
}

#[test]
fn list_transfers_is_newest_first() {
    let mut db = Db::init();
    for _ in 0..4 {
        db.add_transfer("/p", "h", 1, None, "t").unwrap();
    }
    assert_eq!(ids(&db), vec![4, 3, 2, 1]);
}

#[test]
fn updates_touch_only_the_row_with_the_id() {
    let mut db = Db::init();
    db.add_transfer("/a", "h", 1, None, "t").unwrap();
    db.add_transfer("/b", "h", 1, None, "t").unwrap();
    db.update_status(2, TransferStatus::Failed);
    db.set_listing_complete(1, true);
    db.update_excludes(2, "[\"x\"]");
    db.update_status(99, TransferStatus::Completed);
    let a = db.get_transfer(1).unwrap();
    let b = db.get_transfer(2).unwrap();
    assert_eq!((a.status, a.listing_complete, a.exclude_patterns), (TransferStatus::Pending, true, None));
    assert_eq!(
        (b.status, b.listing_complete, b.exclude_patterns),
        (TransferStatus::Failed, false, Some("[\"x\"]".to_string()))
    );
}

#[test]
fn delete_transfer_removes_the_row_and_keeps_the_rest() {
    let mut db = Db::init();
    for _ in 0..3 {
        db.add_transfer("/p", "h", 1, None, "t").unwrap();
    }
    db.delete_transfer(2);
    assert_eq!(ids(&db), vec![3, 1]);
    assert!(matches!(db.get_transfer(2), Err(StoreError::NotFound)));
    db.delete_transfer(2);
    assert_eq!(ids(&db), vec![3, 1]);
}

#[test]
fn catalog_restore_refuses_ids_that_do_not_grow() {
    assert!(matches!(Db::restore(vec![stored(2), stored(2)]), Err(StoreError::Corrupt)));
    assert!(matches!(Db::restore(vec![stored(2), stored(1)]), Err(StoreError::Corrupt)));
    assert_eq!(ids(&Db::restore(vec![stored(1), stored(5)]).unwrap()), vec![5, 1]);
}

#[test]
fn transfer_status_words_round_trip() {
    for status in [TransferStatus::Pending, TransferStatus::Completed, TransferStatus::Failed] {
        assert_eq!(TransferStatus::from_text(status.as_str()), Some(status));
    }
    assert_eq!(TransferStatus::Completed.as_str(), "Completed");
    assert_eq!(TransferStatus::Failed.as_str(), "Failed");
    assert_eq!(TransferStatus::from_text("Sent"), None);
}

use lansend::ledger::{FileStatus, TransferLog};
use lansend::protocol::ServerResponse;
use lansend::sender::{send_pending_files, Action, Event, Phase, SendError, SendSession, Step};

const MIB: u64 = 1024 * 1024;

fn ledger(entries: &[(&str, u64, bool)]) -> TransferLog {
    let mut log = TransferLog::new(1);
    for (path, size, is_dir) in entries {
        log.add_file(path, *size, *is_dir).unwrap();
    }
    log
}

fn patterns(items: &[&str]) -> Vec<String> {
    items.iter().map(|s| s.to_string()).collect()
}

fn statuses(session: &SendSession) -> Vec<(String, FileStatus)> {
    session.log().records().into_iter().map(|r| (r.relative_path, r.status)).collect()
}

fn marked(step: &Step) -> Option<(String, FileStatus)> {
    step.mark.as_ref().map(|m| (m.relative_path.clone(), m.status))
}

fn expect_probe(step: &Step, path: &str) {
    assert!(matches!(&step.action, Action::Probe { relative_path } if relative_path == path));
    assert!(step.mark.is_none());
}

fn expect_offer(step: &Step, path: &str, size: u64, is_dir: bool) {
    match &step.action {
        Action::Offer(meta) => {
            assert_eq!((meta.relative_path.as_str(), meta.size, meta.is_dir), (path, size, is_dir));
        }
        other => panic!("expected an offer, got {:?}", other),
    }
    assert!(step.mark.is_none());
}

fn expect_settled(step: &Step, path: &str, status: FileStatus) {
    assert!(matches!(step.action, Action::Continue));
    assert_eq!(marked(step), Some((path.to_string(), status)));
}

fn offer(session: &mut SendSession, path: &str, size: u64, is_dir: bool) {
    expect_probe(&session.step(Event::Tick), path);
    expect_offer(&session.step(Event::Exists(true)), path, size, is_dir);
}

#[test]
fn simple_push_marks_the_file_sent() {
    let mut session = send_pending_files(ledger(&[("a.txt", 5, false)]), &Vec::new());
    offer(&mut session, "a.txt", 5, false);
    let open = session.step(Event::Response(ServerResponse::Send));
    assert!(matches!(&open.action, Action::Open { relative_path } if relative_path == "a.txt"));
    let stream = session.step(Event::Opened { size: 5 });
    assert!(matches!(
        &stream.action,
        Action::Stream { relative_path, offset: 0, len: 5 } if relative_path == "a.txt"
    ));
    assert_eq!(statuses(&session), vec![("a.txt".to_string(), FileStatus::Pending)]);
    expect_settled(&session.step(Event::Streamed), "a.txt", FileStatus::Sent);
    assert!(matches!(session.step(Event::Tick).action, Action::Finish));
    assert_eq!(session.phase(), Phase::Done);
    let progress = session.progress();
    assert_eq!((progress.files_sent, progress.skipped, progress.session_bytes), (1, 0, 5));
    let log = session.into_log();
    let rows: Vec<_> = log
        .records()
        .into_iter()
        .map(|r| (r.relative_path, r.size, r.is_dir, r.status))
        .collect();
    assert_eq!(rows, vec![("a.txt".to_string(), 5, false, FileStatus::Sent)]);
}

#[test]
fn resume_streams_the_remainder_from_the_offset() {
    let mut session = send_pending_files(ledger(&[("big", 10 * MIB, false)]), &Vec::new());
    offer(&mut session, "big", 10 * MIB, false);
    session.step(Event::Response(ServerResponse::Resume { offset: 3 * MIB }));
    assert_eq!(session.phase(), Phase::Opening { offset: 3 * MIB });
    let stream = session.step(Event::Opened { size: 10 * MIB });
    match stream.action {
        Action::Stream { relative_path, offset, len } => {
            assert_eq!((relative_path.as_str(), offset, len), ("big", 3 * MIB, 7 * MIB));
        }
        other => panic!("expected a stream, got {:?}", other),
    }
    expect_settled(&session.step(Event::Streamed), "big", FileStatus::Sent);
    assert_eq!(session.progress().session_bytes, 7 * MIB);
    assert_eq!(session.progress().files_sent, 1);
}

#[test]
fn exclude_change_on_resume_skips_without_traffic() {
    let log = ledger(&[("src/keep.txt", 4, false), ("src/skip.log", 9, false)]);
    let mut session = send_pending_files(log, &patterns(&["*.log"]));
    assert_eq!(session.progress().pending_size, 13);
    offer(&mut session, "src/keep.txt", 4, false);
    session.step(Event::Response(ServerResponse::Send));
    session.step(Event::Opened { size: 4 });
    expect_settled(&session.step(Event::Streamed), "src/keep.txt", FileStatus::Sent);
    expect_settled(&session.step(Event::Tick), "src/skip.log", FileStatus::Skipped);
    assert!(matches!(session.step(Event::Tick).action, Action::Finish));
    assert_eq!(
        statuses(&session),
        vec![
            ("src/keep.txt".to_string(), FileStatus::Sent),
            ("src/skip.log".to_string(), FileStatus::Skipped),
        ]
    );
    let progress = session.progress();
    assert_eq!((progress.files_sent, progress.skipped, progress.pending_size), (1, 1, 4));
}

#[test]
fn server_error_aborts_and_leaves_the_record_pending() {
    let mut session = send_pending_files(ledger(&[("../evil", 1, false)]), &Vec::new());
    offer(&mut session, "../evil", 1, false);
    let abort =
        session.step(Event::Response(ServerResponse::Error { message: "Invalid path".to_string() }));
    assert!(matches!(
        &abort.action,
        Action::Abort(SendError::Rejected { message }) if message == "Invalid path"
    ));
    assert!(abort.mark.is_none());
    assert_eq!(session.phase(), Phase::Failed);
    assert_eq!(statuses(&session), vec![("../evil".to_string(), FileStatus::Pending)]);
    assert!(matches!(session.step(Event::Tick).action, Action::Abort(SendError::Protocol)));
}

#[test]
fn pre_existing_file_is_marked_skipped() {
    let mut session = send_pending_files(ledger(&[("notes.md", 7, false)]), &Vec::new());
    offer(&mut session, "notes.md", 7, false);
    expect_settled(
        &session.step(Event::Response(ServerResponse::Skip)),
        "notes.md",
        FileStatus::Skipped,
    );
    let progress = session.progress();
    assert_eq!((progress.files_sent, progress.skipped, progress.session_bytes), (0, 1, 0));
    assert_eq!(progress.pending_size, 0);
}

#[test]
fn acknowledged_directory_is_marked_sent() {
    let mut session = send_pending_files(ledger(&[("dir", 0, true)]), &Vec::new());
    offer(&mut session, "dir", 0, true);
    expect_settled(&session.step(Event::Response(ServerResponse::Skip)), "dir", FileStatus::Sent);
    assert_eq!(session.progress().files_sent, 0);
    assert_eq!(session.progress().skipped, 0);
}

#[test]
fn tree_of_directories_moves_no_payload() {
    let log = ledger(&[("top", 0, true), ("top/a", 0, true), ("top/a/b", 0, true)]);
    let mut session = send_pending_files(log, &Vec::new());
    for path in ["top", "top/a", "top/a/b"] {
        offer(&mut session, path, 0, true);
        expect_settled(&session.step(Event::Response(ServerResponse::Skip)), path, FileStatus::Sent);
    }
    assert!(matches!(session.step(Event::Tick).action, Action::Finish));
    assert_eq!(session.progress().session_bytes, 0);
    assert!(statuses(&session).iter().all(|(_, status)| *status == FileStatus::Sent));
}

#[test]
fn directory_answered_with_send_or_resume_is_marked_sent_without_payload() {
    for response in [ServerResponse::Send, ServerResponse::Resume { offset: 3 }] {
        let mut session = send_pending_files(ledger(&[("dir", 0, true)]), &Vec::new());
        offer(&mut session, "dir", 0, true);
        expect_settled(&session.step(Event::Response(response)), "dir", FileStatus::Sent);
    }
}

#[test]
fn empty_file_is_streamed_with_no_bytes_and_marked_sent() {
    let mut session = send_pending_files(ledger(&[("empty", 0, false)]), &Vec::new());
    offer(&mut session, "empty", 0, false);
    session.step(Event::Response(ServerResponse::Send));
    let stream = session.step(Event::Opened { size: 0 });
    assert!(matches!(stream.action, Action::Stream { offset: 0, len: 0, .. }));
    expect_settled(&session.step(Event::Streamed), "empty", FileStatus::Sent);
    assert_eq!(session.progress().files_sent, 1);
    assert_eq!(session.progress().session_bytes, 0);
}

#[test]
fn changed_file_aborts_and_stays_pending() {
    let mut session = send_pending_files(ledger(&[("a.txt", 5, false)]), &Vec::new());
    offer(&mut session, "a.txt", 5, false);
    session.step(Event::Response(ServerResponse::Send));
    let abort = session.step(Event::Opened { size: 6 });
    assert!(matches!(
        &abort.action,
        Action::Abort(SendError::FileChanged { relative_path }) if relative_path == "a.txt"
    ));
    assert!(abort.mark.is_none());
    assert_eq!(statuses(&session), vec![("a.txt".to_string(), FileStatus::Pending)]);
}

#[test]
fn changed_file_is_noticed_on_resume_too() {
    let mut session = send_pending_files(ledger(&[("a.txt", 5, false)]), &Vec::new());
    offer(&mut session, "a.txt", 5, false);
    session.step(Event::Response(ServerResponse::Resume { offset: 2 }));
    let abort = session.step(Event::Opened { size: 4 });
    assert!(matches!(abort.action, Action::Abort(SendError::FileChanged { .. })));
}

#[test]
fn resume_beyond_the_end_is_a_protocol_error() {
    let mut session = send_pending_files(ledger(&[("a.txt", 5, false)]), &Vec::new());
    offer(&mut session, "a.txt", 5, false);
    let abort = session.step(Event::Response(ServerResponse::Resume { offset: 6 }));
    assert!(matches!(abort.action, Action::Abort(SendError::Protocol)));
    assert_eq!(statuses(&session), vec![("a.txt".to_string(), FileStatus::Pending)]);
}

#[test]
fn resume_at_the_very_end_streams_nothing() {
    let mut session = send_pending_files(ledger(&[("a.txt", 5, false)]), &Vec::new());
    offer(&mut session, "a.txt", 5, false);
    session.step(Event::Response(ServerResponse::Resume { offset: 5 }));
    let stream = session.step(Event::Opened { size: 5 });
    assert!(matches!(stream.action, Action::Stream { offset: 5, len: 0, .. }));
}

#[test]
fn vanished_file_is_skipped_without_an_offer() {
    let mut session = send_pending_files(ledger(&[("gone", 8, false), ("here", 2, false)]), &Vec::new());
    expect_probe(&session.step(Event::Tick), "gone");
    expect_settled(&session.step(Event::Exists(false)), "gone", FileStatus::Skipped);
    assert_eq!(session.progress().pending_size, 2);
    assert_eq!(session.progress().skipped, 1);
    expect_probe(&session.step(Event::Tick), "here");
}

#[test]
fn an_event_out_of_turn_aborts() {
    let mut early = send_pending_files(ledger(&[("a", 1, false)]), &Vec::new());
    assert!(matches!(early.step(Event::Streamed).action, Action::Abort(SendError::Protocol)));
    assert_eq!(early.phase(), Phase::Failed);

    let mut probing = send_pending_files(ledger(&[("a", 1, false)]), &Vec::new());
    probing.step(Event::Tick);
    assert!(matches!(
        probing.step(Event::Response(ServerResponse::Send)).action,
        Action::Abort(SendError::Protocol)
    ));

    let mut offered = send_pending_files(ledger(&[("a", 1, false)]), &Vec::new());
    offer(&mut offered, "a", 1, false);
    assert!(matches!(offered.step(Event::Tick).action, Action::Abort(SendError::Protocol)));
    assert_eq!(statuses(&offered), vec![("a".to_string(), FileStatus::Pending)]);
}

#[test]
fn completed_transfer_sends_nothing_when_run_again() {
    let mut log = ledger(&[("a", 10, false), ("b", 20, false), ("d", 0, true)]);
    log.mark_sent("a");
    log.mark_skipped("b");
    log.mark_sent("d");
    let mut session = send_pending_files(log, &patterns(&["*.log"]));
    let first = session.step(Event::Tick);
    assert!(matches!(first.action, Action::Finish));
    assert!(first.mark.is_none());
    assert!(matches!(session.step(Event::Tick).action, Action::Finish));
    let progress = session.progress();
    assert_eq!(progress.session_bytes, 0);
    assert_eq!(progress.pending_size, 0);
    assert_eq!(progress.bytes_before, 10);
    assert_eq!(progress.files_sent, 3);
    assert_eq!(progress.skipped, 1);
}

#[test]
fn settled_records_never_return_to_pending_during_a_run() {
    let log = ledger(&[("a", 1, false), ("b.log", 2, false), ("c", 3, false), ("d", 0, true)]);
    let mut session = send_pending_files(log, &patterns(&["*.log"]));
    let script = vec![
        Event::Tick,
        Event::Exists(true),
        Event::Response(ServerResponse::Send),
        Event::Opened { size: 1 },
        Event::Streamed,
        Event::Tick,
        Event::Tick,
        Event::Exists(false),
        Event::Tick,
        Event::Exists(true),
        Event::Response(ServerResponse::Skip),
        Event::Tick,
    ];
    let mut before = statuses(&session);
    for event in script {
        session.step(event);
        let after = statuses(&session);
        assert_eq!(after.len(), before.len());
        for (was, is) in before.iter().zip(after.iter()) {
            assert_eq!(was.0, is.0);
            assert!(was.1 == is.1 || (was.1 == FileStatus::Pending && is.1 != FileStatus::Pending));
        }
        before = after;
    }
    assert_eq!(
        before,
        vec![
            ("a".to_string(), FileStatus::Sent),
            ("b.log".to_string(), FileStatus::Skipped),
            ("c".to_string(), FileStatus::Skipped),
            ("d".to_string(), FileStatus::Sent),
        ]
    );
    assert_eq!(session.phase(), Phase::Done);
}

#[test]
fn only_pending_records_are_queued() {
    let mut log = ledger(&[("a", 1, false), ("b", 2, false), ("c", 4, false)]);
    log.mark_sent("a");
    let mut session = send_pending_files(log, &Vec::new());
    let progress = session.progress();
    assert_eq!(progress.pending_size, 6);
    assert_eq!(progress.bytes_before, 1);
    assert_eq!(progress.files_sent, 1);
    assert_eq!(progress.bytes_sent(), 1);
    assert_eq!(progress.remaining(), 6);
    expect_probe(&session.step(Event::Tick), "b");
}

#[test]
fn patterns_that_do_not_compile_exclude_nothing() {
    let mut session = send_pending_files(ledger(&[("[", 1, false)]), &patterns(&["[", "a**"]));
    expect_probe(&session.step(Event::Tick), "[");
}

#[test]
fn progress_totals_stop_at_the_largest_value() {
    let mut log = ledger(&[("a", u64::MAX, false), ("b", u64::MAX, false), ("c", 5, false)]);
    log.mark_sent("a");
    log.mark_sent("b");
    let session = send_pending_files(log, &Vec::new());
    assert_eq!(session.progress().bytes_before, u64::MAX);
    assert_eq!(session.progress().bytes_sent(), u64::MAX);
    let huge = send_pending_files(ledger(&[("a", u64::MAX, false), ("b", 7, false)]), &Vec::new());
    assert_eq!(huge.progress().pending_size, u64::MAX);
}

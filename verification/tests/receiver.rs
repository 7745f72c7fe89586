use lansend::framing::FrameError;
use lansend::protocol::{FileMetadata, ServerResponse};
use lansend::receiver::{after_read, decide, locate, next_read, Action, Plan, Tally};

const MIB: u64 = 1024 * 1024;

fn file(path: &str, size: u64) -> FileMetadata {
    FileMetadata { relative_path: path.to_string(), size, is_dir: false }
}

fn dir(path: &str) -> FileMetadata {
    FileMetadata { relative_path: path.to_string(), size: 0, is_dir: true }
}

fn is_send(plan: &Plan) -> bool {
    matches!(plan.response, ServerResponse::Send)
}

fn is_skip(plan: &Plan) -> bool {
    matches!(plan.response, ServerResponse::Skip)
}

#[test]
fn simple_push_to_a_fresh_receiver_is_sent_in_full() {
    let meta = file("a.txt", 5);
    let dest = locate(&meta).unwrap();
    assert_eq!(dest.target, "a.txt");
    assert_eq!(dest.temp, "a.txt.tmp");
    let plan = decide(&meta, None, None);
    assert_eq!(plan.action, Action::Receive { offset: 0 });
    assert!(is_send(&plan));
    assert_eq!(plan.expect, 5);
}

#[test]
fn resume_after_crash_starts_at_the_staged_length() {
    let plan = decide(&file("big", 10 * MIB), None, Some(3 * MIB));
    assert_eq!(plan.action, Action::Receive { offset: 3 * MIB });
    assert!(matches!(plan.response, ServerResponse::Resume { offset } if offset == 3 * MIB));
    assert_eq!(plan.expect, 7 * MIB);
}

#[test]
fn path_traversal_is_answered_with_an_error_and_touches_nothing() {
    let meta = file("../evil", 4);
    assert!(locate(&meta).is_none());
    for (target, temp) in [(None, None), (Some(4), None), (None, Some(4)), (Some(1), Some(2))] {
        let plan = decide(&meta, target, temp);
        assert_eq!(plan.action, Action::Reply);
        assert!(matches!(&plan.response, ServerResponse::Error { message } if message == "Invalid path"));
        assert_eq!(plan.expect, 0);
    }
}

#[test]
fn traversal_is_refused_for_directories_and_hidden_in_the_middle() {
    for path in ["..", "a/../../b", "a/b/..", "x\\..\\y", "/abs", "\\abs", "C:\\abs", "d:rel"] {
        for meta in [file(path, 1), dir(path)] {
            let plan = decide(&meta, None, None);
            assert_eq!(plan.action, Action::Reply, "{}", path);
            assert!(matches!(plan.response, ServerResponse::Error { .. }), "{}", path);
            assert!(locate(&meta).is_none(), "{}", path);
        }
    }
}

#[test]
fn a_file_that_names_nothing_is_refused() {
    for path in ["", ".", "./", "//"] {
        let plan = decide(&file(path, 1), None, None);
        assert_eq!(plan.action, Action::Reply, "{:?}", path);
        assert!(matches!(plan.response, ServerResponse::Error { .. }), "{:?}", path);
    }
    let base = decide(&dir("."), None, None);
    assert_eq!(base.action, Action::CreateDir);
    assert_eq!(locate(&dir(".")).unwrap().target, "");
}

#[test]
fn pre_existing_identical_file_is_skipped() {
    for temp in [None, Some(0), Some(3), Some(7), Some(100)] {
        let plan = decide(&file("notes.md", 7), Some(7), temp);
        assert_eq!(plan.action, Action::Reply);
        assert!(is_skip(&plan));
        assert_eq!(plan.expect, 0);
    }
}

#[test]
fn a_target_of_another_size_does_not_count_as_present() {
    let plan = decide(&file("notes.md", 7), Some(6), None);
    assert_eq!(plan.action, Action::Receive { offset: 0 });
    assert!(is_send(&plan));
    assert_eq!(plan.expect, 7);
}

#[test]
fn directory_is_created_and_answered_with_skip() {
    let meta = dir("dir/");
    assert_eq!(locate(&meta).unwrap().target, "dir");
    let plan = decide(&meta, None, None);
    assert_eq!(plan.action, Action::CreateDir);
    assert!(is_skip(&plan));
    assert_eq!(plan.expect, 0);
    let again = decide(&dir("src/deep/dir"), Some(4096), Some(1));
    assert_eq!(again.action, Action::CreateDir);
}

#[test]
fn empty_file_is_sent_with_no_payload() {
    let plan = decide(&file("empty", 0), None, None);
    assert_eq!(plan.action, Action::Receive { offset: 0 });
    assert!(is_send(&plan));
    assert_eq!(plan.expect, 0);
}

#[test]
fn staged_file_of_exactly_the_announced_size_is_promoted() {
    let plan = decide(&file("big", 10), None, Some(10));
    assert_eq!(plan.action, Action::Promote);
    assert!(is_skip(&plan));
    assert_eq!(plan.expect, 0);
    let empty = decide(&file("empty", 0), None, Some(0));
    assert_eq!(empty.action, Action::Promote);
    let stale_target = decide(&file("big", 10), Some(3), Some(10));
    assert_eq!(stale_target.action, Action::Promote);
}

#[test]
fn staged_file_longer_than_announced_is_replaced_from_scratch() {
    let plan = decide(&file("big", 10), None, Some(11));
    assert_eq!(plan.action, Action::Receive { offset: 0 });
    assert!(is_send(&plan));
    assert_eq!(plan.expect, 10);
    let empty = decide(&file("empty", 0), None, Some(1));
    assert_eq!(empty.action, Action::Receive { offset: 0 });
    assert!(is_send(&empty));
    assert_eq!(empty.expect, 0);
}

#[test]
fn empty_staged_file_means_send_from_the_start() {
    let plan = decide(&file("big", 10), None, Some(0));
    assert_eq!(plan.action, Action::Receive { offset: 0 });
    assert!(is_send(&plan));
    assert_eq!(plan.expect, 10);
}

#[test]
fn resume_offsets_cover_every_partial_length() {
    for staged in 1..10u64 {
        let plan = decide(&file("f", 10), None, Some(staged));
        assert_eq!(plan.action, Action::Receive { offset: staged });
        assert_eq!(plan.expect, 10 - staged);
    }
}

#[test]
fn names_are_resolved_before_they_are_staged() {
    let dest = locate(&file("./src//dir/./a.txt", 1)).unwrap();
    assert_eq!(dest.target, "src/dir/a.txt");
    assert_eq!(dest.temp, "src/dir/a.txt.tmp");
}

#[test]
fn next_read_never_exceeds_what_is_due() {
    assert_eq!(next_read(0, 1024), 0);
    assert_eq!(next_read(10, 1024), 10);
    assert_eq!(next_read(1024, 1024), 1024);
    assert_eq!(next_read(7 * MIB, 1024 * 1024), 1024 * 1024);
    assert_eq!(next_read(u64::MAX, 16), 16);
    assert_eq!(next_read(5, 0), 0);
}

#[test]
fn after_read_counts_down_and_notices_a_closed_stream() {
    assert_eq!(after_read(10, 4), Ok(6));
    assert_eq!(after_read(10, 10), Ok(0));
    assert_eq!(after_read(0, 0), Ok(0));
    assert_eq!(after_read(10, 0), Err(FrameError::ConnectionClosed));
    assert_eq!(after_read(3, 4), Err(FrameError::ConnectionClosed));
}

#[test]
fn tally_counts_skips_bytes_and_files() {
    let mut tally = Tally::new();
    tally.planned(&decide(&file("a", 5), Some(5), None));
    tally.planned(&decide(&file("b", 5), None, Some(5)));
    tally.planned(&decide(&dir("d"), None, None));
    tally.planned(&decide(&file("../x", 5), None, None));
    tally.planned(&decide(&file("c", 5), None, None));
    tally.wrote(3);
    tally.wrote(2);
    tally.delivered();
    assert_eq!(tally, Tally { files: 1, skipped: 2, bytes: 5 });
}

#[test]
fn payload_len_follows_the_response() {
    assert_eq!(ServerResponse::Send.payload_len(10), 10);
    assert_eq!(ServerResponse::Skip.payload_len(10), 0);
    assert_eq!(ServerResponse::Resume { offset: 4 }.payload_len(10), 6);
    assert_eq!(ServerResponse::Resume { offset: 10 }.payload_len(10), 0);
    assert_eq!(ServerResponse::Resume { offset: 11 }.payload_len(10), 0);
    assert_eq!(ServerResponse::Error { message: "x".to_string() }.payload_len(10), 0);
}

#[test]
fn whatever_is_renamed_has_the_announced_size() {
    let probes = [None, Some(0), Some(1), Some(4), Some(5), Some(6), Some(9)];
    for size in [0u64, 1, 5, 9] {
        for target in probes {
            for temp in probes {
                let plan = decide(&file("f", size), target, temp);
                match plan.action {
                    Action::Reply => assert_eq!(target, Some(size)),
                    Action::Promote => assert_eq!(temp, Some(size)),
                    Action::Receive { offset } => {
                        assert_eq!(offset + plan.expect, size);
                        assert!(offset == 0 || temp == Some(offset));
                    }
                    Action::CreateDir => panic!("a file is no directory"),
                }
            }
        }
    }
}

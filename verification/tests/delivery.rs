use lansend::ledger::{FileStatus, TransferLog};
use lansend::protocol::FileMetadata;
use lansend::receiver::{after_read, decide, locate, next_read, Action as Handling};
use lansend::sender::{send_pending_files, Action, Event};
use std::collections::{BTreeMap, BTreeSet};

/// A source tree: relative path to contents, `None` for a directory.
type Tree = BTreeMap<String, Option<Vec<u8>>>;

#[derive(Default, Debug, PartialEq)]
struct Disk {
    dirs: BTreeSet<String>,
    files: BTreeMap<String, Vec<u8>>,
}

fn size_at(disk: &Disk, name: &str) -> Option<u64> {
    disk.files.get(name).map(|bytes| bytes.len() as u64)
}

/// The receiver's side of one offer; payload arrives in chunks of `chunk`
/// bytes and stops for good after `limit` bytes. True if it ran to its end.
fn receive(disk: &mut Disk, meta: &FileMetadata, payload: &[u8], limit: usize, chunk: usize) -> bool {
    let names = match locate(meta) {
        Some(names) => names,
        None => return true,
    };
    let plan = decide(meta, size_at(disk, &names.target), size_at(disk, &names.temp));
    match plan.action {
        Handling::Reply => true,
        Handling::CreateDir => {
            disk.dirs.insert(names.target);
            true
        }
        Handling::Promote => {
            let bytes = disk.files.remove(&names.temp).unwrap();
            disk.files.insert(names.target, bytes);
            true
        }
        Handling::Receive { offset } => {
            if offset == 0 {
                disk.files.insert(names.temp.clone(), Vec::new());
            }
            let mut remaining = plan.expect;
            let mut at = 0;
            while remaining > 0 {
                let want = next_read(remaining, chunk).min(limit - at).min(payload.len() - at);
                match after_read(remaining, want) {
                    Ok(left) => remaining = left,
                    Err(_) => return false,
                }
                disk.files.get_mut(&names.temp).unwrap().extend_from_slice(&payload[at..at + want]);
                at += want;
            }
            let bytes = disk.files.remove(&names.temp).unwrap();
            disk.files.insert(names.target, bytes);
            true
        }
    }
}

/// One send run. With `cut` set, the run dies at the given offer after
/// that many payload bytes arrived. Returns the ledger and whether the run
/// finished.
fn run(log: TransferLog, tree: &Tree, disk: &mut Disk, cut: Option<(usize, usize)>) -> (TransferLog, bool) {
    let mut session = send_pending_files(log, &Vec::new());
    let mut event = Event::Tick;
    let mut offers = 0;
    let mut offered: Option<FileMetadata> = None;
    loop {
        let step = session.step(event);
        event = match step.action {
            Action::Continue => Event::Tick,
            Action::Probe { relative_path } => Event::Exists(tree.contains_key(&relative_path)),
            Action::Offer(meta) => {
                offers += 1;
                let names = locate(&meta);
                let plan = match &names {
                    Some(names) => decide(&meta, size_at(disk, &names.target), size_at(disk, &names.temp)),
                    None => decide(&meta, None, None),
                };
                let dying = matches!(cut, Some((at, _)) if at == offers);
                let source = tree[&meta.relative_path].clone().unwrap_or_default();
                let from = source.len() - plan.expect as usize;
                if dying {
                    receive(disk, &meta, &source[from..], cut.unwrap().1, 3);
                    return (session.into_log(), false);
                }
                if matches!(plan.action, Handling::Receive { .. }) {
                    offered = Some(FileMetadata {
                        relative_path: meta.relative_path.clone(),
                        size: meta.size,
                        is_dir: meta.is_dir,
                    });
                } else {
                    assert!(receive(disk, &meta, &source[from..], usize::MAX, 3));
                }
                Event::Response(plan.response)
            }
            Action::Open { relative_path } => {
                Event::Opened { size: tree[&relative_path].as_ref().unwrap().len() as u64 }
            }
            Action::Stream { relative_path, offset, len } => {
                let source = tree[&relative_path].as_ref().unwrap();
                let payload = &source[offset as usize..(offset + len) as usize];
                assert!(receive(disk, &offered.take().unwrap(), payload, usize::MAX, 3));
                Event::Streamed
            }
            Action::Finish => return (session.into_log(), true),
            Action::Abort(error) => panic!("the run failed: {:?}", error),
        };
    }
}

fn sample_tree() -> Tree {
    let mut tree = Tree::new();
    tree.insert("src".to_string(), None);
    tree.insert("src/empty".to_string(), Some(Vec::new()));
    tree.insert("src/a.txt".to_string(), Some(b"hello".to_vec()));
    tree.insert("src/deep".to_string(), None);
    tree.insert("src/deep/big.bin".to_string(), Some((0..=255u8).cycle().take(1000).collect()));
    tree.insert("src/deep/notes.md".to_string(), Some(b"seven!!".to_vec()));
    tree
}

fn ledger_of(tree: &Tree) -> TransferLog {
    let mut log = TransferLog::new(1);
    for (path, contents) in tree {
        let size = contents.as_ref().map(|bytes| bytes.len() as u64).unwrap_or(0);
        log.add_file(path, size, contents.is_none()).unwrap();
    }
    log
}

fn assert_delivered(tree: &Tree, disk: &Disk) {
    for (path, contents) in tree {
        match contents {
            None => assert!(disk.dirs.contains(path), "{} is missing", path),
            Some(bytes) => assert_eq!(disk.files.get(path), Some(bytes), "{} differs", path),
        }
    }
    assert_eq!(disk.files.len(), tree.values().filter(|c| c.is_some()).count());
}

#[test]
fn uninterrupted_push_delivers_the_tree() {
    let tree = sample_tree();
    let mut disk = Disk::default();
    let (log, finished) = run(ledger_of(&tree), &tree, &mut disk, None);
    assert!(finished);
    assert_eq!(log.count_pending(), 0);
    assert_delivered(&tree, &disk);
}

#[test]
fn push_cut_off_anywhere_and_resumed_delivers_the_tree() {
    let tree = sample_tree();
    for offer in 1..=6 {
        for taken in [0usize, 1, 2, 4, 5, 6, 7, 500, 999, 1000, 5000] {
            let mut disk = Disk::default();
            let (log, finished) = run(ledger_of(&tree), &tree, &mut disk, Some((offer, taken)));
            assert!(!finished);
            let (log, finished) = run(log, &tree, &mut disk, None);
            assert!(finished);
            assert_eq!(log.count_pending(), 0);
            assert_delivered(&tree, &disk);
        }
    }
}

#[test]
fn push_cut_off_again_and_again_delivers_the_tree() {
    let tree = sample_tree();
    let mut seed: u64 = 0x2545_f491_4f6c_dd1d;
    for _ in 0..200 {
        let mut disk = Disk::default();
        let mut log = ledger_of(&tree);
        for _ in 0..8 {
            seed ^= seed << 13;
            seed ^= seed >> 7;
            seed ^= seed << 17;
            let offer = 1 + (seed % 4) as usize;
            let taken = ((seed >> 8) % 1100) as usize;
            let (next, _) = run(log, &tree, &mut disk, Some((offer, taken)));
            log = next;
        }
        let (log, finished) = run(log, &tree, &mut disk, None);
        assert!(finished);
        assert_eq!(log.count_pending(), 0);
        assert_delivered(&tree, &disk);
    }
}

#[test]
fn rerun_of_a_delivered_tree_moves_nothing() {
    let tree = sample_tree();
    let mut disk = Disk::default();
    let (log, _) = run(ledger_of(&tree), &tree, &mut disk, None);
    let settled: Vec<FileStatus> = log.records().into_iter().map(|r| r.status).collect();
    let (log, finished) = run(log, &tree, &mut disk, None);
    assert!(finished);
    assert_eq!(log.records().into_iter().map(|r| r.status).collect::<Vec<_>>(), settled);
    assert_delivered(&tree, &disk);
    let (fresh, finished) = run(ledger_of(&tree), &tree, &mut disk, None);
    assert!(finished);
    assert!(fresh.records().iter().all(|r| r.is_dir || r.status == FileStatus::Skipped));
    assert_delivered(&tree, &disk);
}

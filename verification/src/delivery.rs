//! The two peers together: a source tree, a receiver's disk that follows
//! the receiver's decisions, and send runs that may be cut off anywhere.
//! Whatever the cuts, once a run leaves nothing pending the disk holds
//! every entry of the tree that no pattern excludes.

use crate::exclude::any_matches;
use crate::ledger::{has_path, ledger_wf, with_status, FileRecordView, FileStatus};
use crate::paths::{resolved, staged, tmp_suffix};
use crate::protocol::{FileMetadataView, ServerResponseView};
use crate::receiver::{accepts, payload_for, planned_action, planned_response, Action};
use crate::sender::{
    advances, begun, current, lemma_advances_composes, lemma_pending_queue, lemma_step_advances,
    metadata_of, session_wf, step_spec, ActionView, EventView, Phase, SessionView,
};
use vstd::prelude::*;

verus! {

/// An entry of the source tree.
pub enum Node {
    Dir,
    File(Seq<u8>),
}

/// What lies under the receiver's base directory, by resolved name.
pub struct Disk {
    pub dirs: Set<Seq<char>>,
    pub files: Map<Seq<char>, Seq<u8>>,
}

/// The bytes of an entry; a directory has none.
pub open spec fn bytes_of(node: Node) -> Seq<u8> {
    match node {
        Node::Dir => Seq::empty(),
        Node::File(bytes) => bytes,
    }
}

/// The size found at a name, if a file is there.
pub open spec fn size_at(disk: Disk, name: Seq<char>) -> Option<u64> {
    if disk.files.contains_key(name) {
        Some(disk.files[name].len() as u64)
    } else {
        None
    }
}

/// The response the receiver gives to `meta` with `disk` as it is.
pub open spec fn response_on(disk: Disk, meta: FileMetadataView) -> ServerResponseView {
    let target = resolved(meta.relative_path);
    planned_response(meta, size_at(disk, target), size_at(disk, staged(target)))
}

/// The action the receiver takes on `meta` with `disk` as it is.
pub open spec fn action_on(disk: Disk, meta: FileMetadataView) -> Action {
    let target = resolved(meta.relative_path);
    planned_action(meta, size_at(disk, target), size_at(disk, staged(target)))
}

/// The disk after the receiver handled `meta` and `arrived` bytes of
/// payload came in behind its response. Payload goes to the staged name
/// only; the rename to the final name happens once all that was announced
/// has arrived, and never otherwise.
pub open spec fn received(disk: Disk, meta: FileMetadataView, arrived: Seq<u8>) -> Disk {
    let target = resolved(meta.relative_path);
    let temp = staged(target);
    match action_on(disk, meta) {
        Action::Reply => disk,
        Action::CreateDir => Disk { dirs: disk.dirs.insert(target), ..disk },
        Action::Promote => Disk {
            files: disk.files.remove(temp).insert(target, disk.files[temp]),
            ..disk
        },
        Action::Receive { offset } => {
            let held = if offset == 0 {
                Seq::<u8>::empty()
            } else {
                disk.files[temp]
            };
            if arrived.len() == response_on(disk, meta).payload_len(meta.size) {
                Disk { files: disk.files.remove(temp).insert(target, held + arrived), ..disk }
            } else {
                Disk { files: disk.files.insert(temp, held + arrived), ..disk }
            }
        },
    }
}

/// Whether a ledger row describes an entry of the tree as it is.
pub open spec fn describes(row: FileRecordView, tree: Map<Seq<char>, Node>) -> bool {
    &&& tree.contains_key(row.relative_path)
    &&& row.is_dir == (tree[row.relative_path] is Dir)
    &&& row.size == bytes_of(tree[row.relative_path]).len()
    &&& row.size <= u64::MAX
}

/// Whether the final and staged names of different entries all differ.
pub open spec fn no_clash(tree: Map<Seq<char>, Node>) -> bool {
    forall|p: Seq<char>, q: Seq<char>|
        #![trigger tree.contains_key(p), tree.contains_key(q)]
        tree.contains_key(p) && tree.contains_key(q) && p != q ==> {
            &&& resolved(p) != resolved(q)
            &&& staged(resolved(p)) != resolved(q)
            &&& staged(resolved(p)) != staged(resolved(q))
        }
}

/// Whether `part` is a beginning of `whole`.
pub open spec fn begins(part: Seq<u8>, whole: Seq<u8>) -> bool {
    part.len() <= whole.len() && part == whole.subrange(0, part.len() as int)
}

/// Whether the disk holds the entry at `path`: the directory, or the file
/// with exactly the entry's bytes.
pub open spec fn holds(disk: Disk, path: Seq<char>, node: Node) -> bool {
    match node {
        Node::Dir => disk.dirs.contains(resolved(path)),
        Node::File(bytes) => disk.files.contains_key(resolved(path)) && disk.files[resolved(path)]
            == bytes,
    }
}

/// Whether the disk holds nothing wrong for the tree: a file under an
/// entry's final name is the entry, and one under its staged name is a
/// beginning of it.
pub open spec fn faithful(disk: Disk, tree: Map<Seq<char>, Node>) -> bool {
    forall|p: Seq<char>| #[trigger]
        tree.contains_key(p) ==> {
            &&& disk.files.contains_key(resolved(p)) ==> disk.files[resolved(p)] == bytes_of(tree[p])
            &&& disk.files.contains_key(staged(resolved(p))) ==> begins(
                disk.files[staged(resolved(p))],
                bytes_of(tree[p]),
            )
            &&& bytes_of(tree[p]).len() <= u64::MAX
        }
}

/// Whether every settled row that no pattern excludes is held by the disk.
pub open spec fn accounted(
    ledger: Seq<FileRecordView>,
    disk: Disk,
    tree: Map<Seq<char>, Node>,
    patterns: Seq<Seq<char>>,
) -> bool {
    forall|i: int|
        0 <= i < ledger.len() && (#[trigger] ledger[i]).status != FileStatus::Pending && !any_matches(
            patterns,
            ledger[i].relative_path,
        ) ==> holds(disk, ledger[i].relative_path, tree[ledger[i].relative_path])
}

/// The state two peers are in between runs and between records: every row
/// describes an entry, names do not clash, the disk is faithful, and what
/// the ledger calls settled is there.
pub open spec fn sound(
    ledger: Seq<FileRecordView>,
    disk: Disk,
    tree: Map<Seq<char>, Node>,
    patterns: Seq<Seq<char>>,
) -> bool {
    &&& ledger_wf(ledger)
    &&& forall|i: int| 0 <= i < ledger.len() ==> describes(#[trigger] ledger[i], tree)
    &&& no_clash(tree)
    &&& faithful(disk, tree)
    &&& accounted(ledger, disk, tree, patterns)
}

/// The receiver's handling of an entry of a faithful disk keeps the disk
/// faithful and loses nothing it holds; and if all the payload arrived (or
/// none was due), the entry is held afterwards, unless it was refused.
pub proof fn lemma_received_faithful(
    disk: Disk,
    tree: Map<Seq<char>, Node>,
    row: FileRecordView,
    taken: nat,
)
    requires
        no_clash(tree),
        faithful(disk, tree),
        describes(row, tree),
    ensures
        ({
            let meta = metadata_of(row);
            let source = bytes_of(tree[row.relative_path]);
            let payload = payload_for(source, response_on(disk, meta));
            let arrived = payload.take(
                if taken <= payload.len() {
                    taken as int
                } else {
                    payload.len() as int
                },
            );
            let after = received(disk, meta, arrived);
            &&& payload.len() == response_on(disk, meta).payload_len(meta.size)
            &&& faithful(after, tree)
            &&& forall|q: Seq<char>| #[trigger]
                tree.contains_key(q) && holds(disk, q, tree[q]) ==> holds(after, q, tree[q])
            &&& accepts(meta) && taken >= payload.len() ==> holds(
                after,
                row.relative_path,
                tree[row.relative_path],
            )
        }),
{
    let p = row.relative_path;
    let meta = metadata_of(row);
    let source = bytes_of(tree[p]);
    let target = resolved(p);
    let temp = staged(target);
    let response = response_on(disk, meta);
    let payload = payload_for(source, response);
    let cut: int = if taken <= payload.len() {
        taken as int
    } else {
        payload.len() as int
    };
    let arrived = payload.take(cut);
    let after = received(disk, meta, arrived);
    assert(tree.contains_key(p));
    assert(temp.len() == target.len() + 4) by {
        assert(tmp_suffix().len() == 4);
    }
    assert(temp != target);
    assert forall|q: Seq<char>| #[trigger] tree.contains_key(q) && q != p implies {
        &&& after.files.contains_key(resolved(q)) == disk.files.contains_key(resolved(q))
        &&& after.files.contains_key(resolved(q)) ==> after.files[resolved(q)]
            == disk.files[resolved(q)]
        &&& after.files.contains_key(staged(resolved(q))) == disk.files.contains_key(
            staged(resolved(q)),
        )
        &&& after.files.contains_key(staged(resolved(q))) ==> after.files[staged(resolved(q))]
            == disk.files[staged(resolved(q))]
    } by {
        assert(tree.contains_key(p) && tree.contains_key(q));
        assert(tree.contains_key(q) && tree.contains_key(p));
    }
    match action_on(disk, meta) {
        Action::Promote => {
            assert(disk.files[temp] =~= source);
        },
        Action::Receive { offset } => {
            let held = if offset == 0 {
                Seq::<u8>::empty()
            } else {
                disk.files[temp]
            };
            assert(held + arrived =~= source.subrange(0, offset + cut));
            if cut == payload.len() {
                assert(source.subrange(0, offset + cut) =~= source);
            }
        },
        _ => {},
    }
    assert forall|q: Seq<char>| #[trigger] tree.contains_key(q) implies {
        &&& after.files.contains_key(resolved(q)) ==> after.files[resolved(q)] == bytes_of(tree[q])
        &&& after.files.contains_key(staged(resolved(q))) ==> begins(
            after.files[staged(resolved(q))],
            bytes_of(tree[q]),
        )
    } by {
        if q != p {
            assert(tree.contains_key(q) && q != p);
        }
    }
    assert forall|q: Seq<char>| #[trigger]
        tree.contains_key(q) && holds(disk, q, tree[q]) implies holds(after, q, tree[q]) by {
        if q != p {
            assert(tree.contains_key(q) && q != p);
        }
    }
}

/// Whether the session stands between two records.
pub open spec fn between(s: SessionView) -> bool {
    s.phase == Phase::Ready || s.phase == Phase::Done || s.phase == Phase::Failed
}

/// The session a new run begins with on the ledger as it stands, with the
/// patterns that were in force.
pub open spec fn rerun(s: SessionView) -> SessionView {
    SessionView { queue: with_status(s.ledger, FileStatus::Pending), next: 0, phase: Phase::Ready, ..s }
}

/// One whole transaction of the next record between the two peers: the
/// sender steps as `step_spec` says, every event being what the tree and
/// the receiver give; the receiver handles the offer, and all the payload
/// that the sender streams arrives.
pub open spec fn exchange(s: SessionView, disk: Disk, tree: Map<Seq<char>, Node>) -> (
    SessionView,
    Disk,
) {
    let first = step_spec(s, EventView::Tick);
    match first.1 {
        ActionView::Probe { relative_path } => {
            let probed = step_spec(first.0, EventView::Exists(tree.contains_key(relative_path)));
            match probed.1 {
                ActionView::Offer(meta) => {
                    let answered = step_spec(
                        probed.0,
                        EventView::Response(response_on(disk, meta)),
                    );
                    match answered.1 {
                        ActionView::Open { relative_path } => {
                            let source = bytes_of(tree[relative_path]);
                            let opened = step_spec(
                                answered.0,
                                EventView::Opened { size: source.len() as u64 },
                            );
                            match opened.1 {
                                ActionView::Stream { relative_path, offset, len } => (
                                    step_spec(opened.0, EventView::Streamed).0,
                                    received(disk, meta, source.subrange(offset as int, offset + len)),
                                ),
                                _ => (opened.0, received(disk, meta, Seq::empty())),
                            }
                        },
                        _ => (answered.0, received(disk, meta, Seq::empty())),
                    }
                },
                _ => (probed.0, disk),
            }
        },
        _ => (first.0, disk),
    }
}

/// A transaction that is cut off: the receiver handled the offer of the
/// next record and `taken` bytes of its payload arrived (all of it, if
/// `taken` is that much or more), but the sender died before it recorded
/// anything. The next run begins on the ledger as it was.
pub open spec fn crash(s: SessionView, disk: Disk, tree: Map<Seq<char>, Node>, taken: nat) -> (
    SessionView,
    Disk,
) {
    let first = step_spec(s, EventView::Tick);
    match first.1 {
        ActionView::Probe { relative_path } => {
            let meta = metadata_of(current(s));
            let payload = payload_for(bytes_of(tree[relative_path]), response_on(disk, meta));
            let arrived = payload.take(
                if taken <= payload.len() {
                    taken as int
                } else {
                    payload.len() as int
                },
            );
            (rerun(s), received(disk, meta, arrived))
        },
        _ => (rerun(s), disk),
    }
}

/// What happens next between the peers.
pub enum Move {
    /// The next record's transaction runs to its end.
    Exchange,
    /// The next record's transaction is cut off after `taken` payload bytes.
    Crash { taken: nat },
    /// The run ends with nothing under way, and a new one begins.
    Restart,
}

/// The peers after one move.
pub open spec fn moved(s: SessionView, disk: Disk, tree: Map<Seq<char>, Node>, m: Move) -> (
    SessionView,
    Disk,
) {
    match m {
        Move::Exchange => exchange(s, disk, tree),
        Move::Crash { taken } => crash(s, disk, tree, taken),
        Move::Restart => (rerun(s), disk),
    }
}

/// The peers after a run of moves.
pub open spec fn played(s: SessionView, disk: Disk, tree: Map<Seq<char>, Node>, moves: Seq<Move>) -> (
    SessionView,
    Disk,
)
    decreases moves.len(),
{
    if moves.len() == 0 {
        (s, disk)
    } else {
        let before = played(s, disk, tree, moves.drop_last());
        moved(before.0, before.1, tree, moves.last())
    }
}

/// What the model keeps true from move to move.
pub open spec fn steady(s: SessionView, disk: Disk, tree: Map<Seq<char>, Node>) -> bool {
    &&& session_wf(s)
    &&& between(s)
    &&& forall|k: int| 0 <= k < s.queue.len() ==> describes(#[trigger] s.queue[k], tree)
    &&& sound(s.ledger, disk, tree, s.patterns)
}

/// Every pending row of a ledger is one of its rows.
pub proof fn lemma_queue_rows(ledger: Seq<FileRecordView>)
    ensures
        forall|k: int|
            0 <= k < with_status(ledger, FileStatus::Pending).len() ==> ledger.contains(
                #[trigger] with_status(ledger, FileStatus::Pending)[k],
            ),
    decreases ledger.len(),
{
    reveal(Seq::filter);
    let queue = with_status(ledger, FileStatus::Pending);
    if ledger.len() > 0 {
        let rest = ledger.drop_last();
        lemma_queue_rows(rest);
        let shorter = with_status(rest, FileStatus::Pending);
        assert forall|k: int| 0 <= k < queue.len() implies ledger.contains(#[trigger] queue[k]) by {
            if k < shorter.len() {
                assert(rest.contains(shorter[k]));
                let i = choose|i: int| 0 <= i < rest.len() && rest[i] == shorter[k];
                assert(ledger[i] == rest[i]);
            } else {
                assert(ledger[ledger.len() - 1] == ledger.last());
            }
        }
    }
}

/// A ledger without pending rows has settled every row.
pub proof fn lemma_nothing_pending(ledger: Seq<FileRecordView>, i: int)
    requires
        with_status(ledger, FileStatus::Pending).len() == 0,
        0 <= i < ledger.len(),
    ensures
        ledger[i].status != FileStatus::Pending,
{
    if ledger[i].status == FileStatus::Pending {
        ledger.lemma_filter_contains(crate::ledger::in_status(FileStatus::Pending), i);
    }
}

/// A new run on a sound state is a steady one.
pub proof fn lemma_rerun_steady(s: SessionView, disk: Disk, tree: Map<Seq<char>, Node>)
    requires
        sound(s.ledger, disk, tree, s.patterns),
    ensures
        steady(rerun(s), disk, tree),
{
    lemma_pending_queue(s.ledger);
    lemma_queue_rows(s.ledger);
    let queue = with_status(s.ledger, FileStatus::Pending);
    assert forall|k: int| 0 <= k < queue.len() implies describes(#[trigger] queue[k], tree) by {
        assert(s.ledger.contains(queue[k]));
        let i = choose|i: int| 0 <= i < s.ledger.len() && s.ledger[i] == queue[k];
        assert(describes(s.ledger[i], tree));
    }
}

/// A disk with nothing on it.
pub open spec fn empty_disk() -> Disk {
    Disk { dirs: Set::empty(), files: Map::empty() }
}

/// The first run after a scan starts steady: the ledger's rows describe
/// the tree, all of them are pending, and the receiver's disk is empty.
pub proof fn lemma_first_run_steady(
    ledger: Seq<FileRecordView>,
    raw_patterns: Seq<Seq<char>>,
    tree: Map<Seq<char>, Node>,
)
    requires
        ledger_wf(ledger),
        no_clash(tree),
        forall|i: int| 0 <= i < ledger.len() ==> describes(#[trigger] ledger[i], tree),
        forall|i: int| 0 <= i < ledger.len() ==> (#[trigger] ledger[i]).status == FileStatus::Pending,
        forall|p: Seq<char>| #[trigger] tree.contains_key(p) ==> bytes_of(tree[p]).len() <= u64::MAX,
    ensures
        steady(begun(ledger, raw_patterns), empty_disk(), tree),
{
    let s = begun(ledger, raw_patterns);
    assert(rerun(s).queue == s.queue);
    lemma_rerun_steady(s, empty_disk(), tree);
}

/// A steady state stays steady when the ledger moves forward, the disk
/// stays faithful and loses nothing, and whatever was newly settled
/// without being excluded is on the disk.
pub proof fn lemma_carry(
    s: SessionView,
    after: SessionView,
    disk: Disk,
    disk_after: Disk,
    tree: Map<Seq<char>, Node>,
)
    requires
        steady(s, disk, tree),
        session_wf(after),
        between(after),
        after.queue == s.queue,
        after.patterns == s.patterns,
        advances(s.ledger, after.ledger),
        faithful(disk_after, tree),
        forall|q: Seq<char>| #[trigger]
            tree.contains_key(q) && holds(disk, q, tree[q]) ==> holds(disk_after, q, tree[q]),
        forall|i: int|
            0 <= i < s.ledger.len() && (#[trigger] s.ledger[i]).status == FileStatus::Pending
                && after.ledger[i].status != FileStatus::Pending && !any_matches(
                s.patterns,
                s.ledger[i].relative_path,
            ) ==> holds(disk_after, s.ledger[i].relative_path, tree[s.ledger[i].relative_path]),
    ensures
        steady(after, disk_after, tree),
{
    assert forall|i: int| 0 <= i < after.ledger.len() implies describes(
        #[trigger] after.ledger[i],
        tree,
    ) by {
        assert(describes(s.ledger[i], tree));
    }
    assert forall|i: int|
        0 <= i < after.ledger.len() && (#[trigger] after.ledger[i]).status != FileStatus::Pending
            && !any_matches(after.patterns, after.ledger[i].relative_path) implies holds(
        disk_after,
        after.ledger[i].relative_path,
        tree[after.ledger[i].relative_path],
    ) by {
        let q = s.ledger[i].relative_path;
        assert(describes(s.ledger[i], tree));
        assert(after.ledger[i].relative_path == q);
        if s.ledger[i].status != FileStatus::Pending {
            assert(holds(disk, q, tree[q]));
            assert(tree.contains_key(q));
        }
    }
}

/// A whole transaction keeps the peers steady and moves the ledger forward.
pub proof fn lemma_exchange_steady(s: SessionView, disk: Disk, tree: Map<Seq<char>, Node>)
    requires
        steady(s, disk, tree),
    ensures
        steady(exchange(s, disk, tree).0, exchange(s, disk, tree).1, tree),
        exchange(s, disk, tree).0.patterns == s.patterns,
        exchange(s, disk, tree).0.queue == s.queue,
        advances(s.ledger, exchange(s, disk, tree).0.ledger),
{
    let first = step_spec(s, EventView::Tick);
    lemma_step_advances(s, EventView::Tick);
    lemma_advances_composes(s.ledger, s.ledger, s.ledger);
    let result = exchange(s, disk, tree);
    if s.phase == Phase::Ready && s.next < s.queue.len() {
        let row = current(s);
        let p = row.relative_path;
        let meta = metadata_of(row);
        assert(describes(row, tree));
        if any_matches(s.patterns, p) {
            lemma_carry(s, first.0, disk, disk, tree);
        } else {
            let probed = step_spec(first.0, EventView::Exists(true));
            lemma_step_advances(first.0, EventView::Exists(true));
            let response = response_on(disk, meta);
            let answered = step_spec(probed.0, EventView::Response(response));
            lemma_step_advances(probed.0, EventView::Response(response));
            let source = bytes_of(tree[p]);
            let payload = payload_for(source, response);
            assert(probed.0.ledger == s.ledger);
            match answered.1 {
                ActionView::Open { relative_path } => {
                    let opened = step_spec(
                        answered.0,
                        EventView::Opened { size: source.len() as u64 },
                    );
                    lemma_step_advances(answered.0, EventView::Opened { size: source.len() as u64 });
                    let last = step_spec(opened.0, EventView::Streamed);
                    lemma_step_advances(opened.0, EventView::Streamed);
                    lemma_received_faithful(disk, tree, row, payload.len());
                    assert(payload.take(payload.len() as int) =~= payload);
                    assert(opened.0.ledger == s.ledger);
                    match opened.1 {
                        ActionView::Stream { relative_path, offset, len } => {
                            assert(source.subrange(offset as int, offset + len) =~= payload);
                            lemma_carry(s, last.0, disk, result.1, tree);
                        },
                        _ => {
                            assert(false);
                        },
                    }
                },
                _ => {
                    lemma_received_faithful(disk, tree, row, 0);
                    assert(payload.take(0) =~= Seq::<u8>::empty());
                    lemma_carry(s, answered.0, disk, result.1, tree);
                },
            }
        }
    } else {
        lemma_carry(s, first.0, disk, disk, tree);
    }
}

/// A transaction that is cut off keeps the peers steady: the ledger stays,
/// and the disk gains at most a beginning of the entry under its staged
/// name, or the whole entry under its final name.
pub proof fn lemma_crash_steady(s: SessionView, disk: Disk, tree: Map<Seq<char>, Node>, taken: nat)
    requires
        steady(s, disk, tree),
    ensures
        steady(crash(s, disk, tree, taken).0, crash(s, disk, tree, taken).1, tree),
        crash(s, disk, tree, taken).0.patterns == s.patterns,
        crash(s, disk, tree, taken).0.ledger == s.ledger,
{
    let first = step_spec(s, EventView::Tick);
    let result = crash(s, disk, tree, taken);
    match first.1 {
        ActionView::Probe { relative_path } => {
            let row = current(s);
            assert(describes(row, tree));
            lemma_received_faithful(disk, tree, row, taken);
            assert forall|i: int|
                0 <= i < s.ledger.len() && (#[trigger] s.ledger[i]).status != FileStatus::Pending
                    && !any_matches(s.patterns, s.ledger[i].relative_path) implies holds(
                result.1,
                s.ledger[i].relative_path,
                tree[s.ledger[i].relative_path],
            ) by {
                assert(describes(s.ledger[i], tree));
                assert(tree.contains_key(s.ledger[i].relative_path));
            }
            lemma_rerun_steady(SessionView { ..s }, result.1, tree);
        },
        _ => {
            lemma_rerun_steady(s, disk, tree);
        },
    }
}

/// Whatever the moves, the peers stay steady, the patterns stay in force,
/// and the ledger keeps its rows.
pub proof fn lemma_played_steady(
    s: SessionView,
    disk: Disk,
    tree: Map<Seq<char>, Node>,
    moves: Seq<Move>,
)
    requires
        steady(s, disk, tree),
    ensures
        steady(played(s, disk, tree, moves).0, played(s, disk, tree, moves).1, tree),
        played(s, disk, tree, moves).0.patterns == s.patterns,
        advances(s.ledger, played(s, disk, tree, moves).0.ledger),
    decreases moves.len(),
{
    if moves.len() == 0 {
        lemma_advances_composes(s.ledger, s.ledger, s.ledger);
    } else {
        let before = played(s, disk, tree, moves.drop_last());
        lemma_played_steady(s, disk, tree, moves.drop_last());
        let after = moved(before.0, before.1, tree, moves.last());
        match moves.last() {
            Move::Exchange => {
                lemma_exchange_steady(before.0, before.1, tree);
            },
            Move::Crash { taken } => {
                lemma_crash_steady(before.0, before.1, tree, taken);
                lemma_advances_composes(before.0.ledger, before.0.ledger, before.0.ledger);
            },
            Move::Restart => {
                lemma_rerun_steady(before.0, before.1, tree);
                lemma_advances_composes(before.0.ledger, before.0.ledger, before.0.ledger);
            },
        }
        lemma_advances_composes(s.ledger, before.0.ledger, after.0.ledger);
    }
}

/// Push, then resume as often as it takes: start from any steady state,
/// let whole transactions, cut-off transactions and new runs follow each
/// other in any order, and look at a moment when the ledger has nothing
/// pending. Then every entry of the tree that the ledger lists and no
/// pattern excludes is on the receiver's disk, a directory as a directory
/// and a file with exactly its bytes.
pub proof fn lemma_finished_transfer_is_delivered(
    s: SessionView,
    disk: Disk,
    tree: Map<Seq<char>, Node>,
    moves: Seq<Move>,
    path: Seq<char>,
)
    requires
        steady(s, disk, tree),
        with_status(played(s, disk, tree, moves).0.ledger, FileStatus::Pending).len() == 0,
        tree.contains_key(path),
        has_path(s.ledger, path),
        !any_matches(s.patterns, path),
    ensures
        holds(played(s, disk, tree, moves).1, path, tree[path]),
{
    let end = played(s, disk, tree, moves);
    lemma_played_steady(s, disk, tree, moves);
    let i = choose|i: int| 0 <= i < s.ledger.len() && (#[trigger] s.ledger[i]).relative_path == path;
    assert(end.0.ledger[i].relative_path == path);
    lemma_nothing_pending(end.0.ledger, i);
}

} // verus!

//! The sender's send phase as a state machine: one step per event, each
//! step naming the next thing to do on the network or the disk and the
//! ledger change it made.

use crate::exclude::{any_matches, compile_patterns, is_excluded, texts, texts_of, valid};
use crate::ledger::{
    ledger_wf, lemma_marked_wf, marked, sent_bytes, total_bytes, with_status,
    FileRecord, FileRecordView, FileStatus, TransferLog,
};
use crate::protocol::{FileMetadata, FileMetadataView, ServerResponse, ServerResponseView};
use vstd::prelude::*;
use vstd::string::*;

verus! {

/// Where the session stands within the transaction of the current record.
#[derive(Debug, Clone, Copy, PartialEq, Eq, Structural)]
pub enum Phase {
    /// Between records.
    Ready,
    /// Waiting to learn whether the source entry is still on disk.
    Probing,
    /// Metadata is out; waiting for the response.
    Offered,
    /// Waiting for the source file's current size; payload starts at `offset`.
    Opening { offset: u64 },
    /// Payload from `offset` on is flowing.
    Streaming { offset: u64 },
    /// Every pending record is settled.
    Done,
    /// The transfer was aborted.
    Failed,
}

/// The counters a progress display needs.
#[derive(Debug, Clone, Copy, PartialEq, Eq, Structural)]
pub struct Progress {
    /// The rows that were no longer pending when the run began, whatever
    /// settled them, and the files this run has delivered since.
    pub files_sent: u64,
    /// The rows that were skipped when the run began, and the records this
    /// run has skipped since.
    pub skipped: u64,
    /// Bytes delivered by earlier runs.
    pub bytes_before: u64,
    /// Bytes delivered by this run.
    pub session_bytes: u64,
    /// Bytes this run set out to deliver, less those of records it skipped.
    pub pending_size: u64,
}

impl Progress {
    /// Bytes delivered so far, earlier runs included.
    pub fn bytes_sent(&self) -> (n: u64)
        ensures
            n == sat_add(self.bytes_before, self.session_bytes),
    {
        self.bytes_before.saturating_add(self.session_bytes)
    }

    /// Bytes this run still has to deliver.
    pub fn remaining(&self) -> (n: u64)
        ensures
            n == sat_sub(self.pending_size, self.session_bytes),
    {
        self.pending_size.saturating_sub(self.session_bytes)
    }
}

/// Why the send phase gave up.
#[derive(Debug)]
pub enum SendError {
    /// The source file no longer has the size the ledger recorded.
    FileChanged { relative_path: String },
    /// The receiver answered with an error.
    Rejected { message: String },
    /// The receiver or the caller broke the order of the transaction, or
    /// asked to resume beyond the end of the file.
    Protocol,
}

/// Mathematical content of a [`SendError`].
pub enum SendErrorView {
    FileChanged { relative_path: Seq<char> },
    Rejected { message: Seq<char> },
    Protocol,
}

impl View for SendError {
    type V = SendErrorView;

    open spec fn view(&self) -> SendErrorView {
        match self {
            SendError::FileChanged { relative_path } => SendErrorView::FileChanged {
                relative_path: relative_path@,
            },
            SendError::Rejected { message } => SendErrorView::Rejected { message: message@ },
            SendError::Protocol => SendErrorView::Protocol,
        }
    }
}

/// What happened since the last step.
#[derive(Debug)]
pub enum Event {
    /// Nothing; the caller asks what to do next.
    Tick,
    /// The probe found the source entry (or not).
    Exists(bool),
    /// The receiver's response frame arrived.
    Response(ServerResponse),
    /// The source file is open and has `size` bytes now.
    Opened { size: u64 },
    /// The payload was written to the socket in full.
    Streamed,
}

/// Mathematical content of an [`Event`].
pub enum EventView {
    Tick,
    Exists(bool),
    Response(ServerResponseView),
    Opened { size: u64 },
    Streamed,
}

impl View for Event {
    type V = EventView;

    open spec fn view(&self) -> EventView {
        match self {
            Event::Tick => EventView::Tick,
            Event::Exists(found) => EventView::Exists(*found),
            Event::Response(response) => EventView::Response(response@),
            Event::Opened { size } => EventView::Opened { size: *size },
            Event::Streamed => EventView::Streamed,
        }
    }
}

/// What the caller has to do before the next step.
#[derive(Debug)]
pub enum Action {
    /// Nothing on the outside; step again with `Tick`.
    Continue,
    /// Find out whether the entry exists; answer with `Exists`.
    Probe { relative_path: String },
    /// Send this metadata frame and read one response frame; answer with `Response`.
    Offer(FileMetadata),
    /// Open the source file and report its size; answer with `Opened`.
    Open { relative_path: String },
    /// Write `len` bytes of the file from `offset` on to the socket; answer with `Streamed`.
    Stream { relative_path: String, offset: u64, len: u64 },
    /// The send phase is complete.
    Finish,
    /// The send phase failed.
    Abort(SendError),
}

/// Mathematical content of an [`Action`].
pub enum ActionView {
    Continue,
    Probe { relative_path: Seq<char> },
    Offer(FileMetadataView),
    Open { relative_path: Seq<char> },
    Stream { relative_path: Seq<char>, offset: u64, len: u64 },
    Finish,
    Abort(SendErrorView),
}

impl View for Action {
    type V = ActionView;

    open spec fn view(&self) -> ActionView {
        match self {
            Action::Continue => ActionView::Continue,
            Action::Probe { relative_path } => ActionView::Probe { relative_path: relative_path@ },
            Action::Offer(meta) => ActionView::Offer(meta@),
            Action::Open { relative_path } => ActionView::Open { relative_path: relative_path@ },
            Action::Stream { relative_path, offset, len } => ActionView::Stream {
                relative_path: relative_path@,
                offset: *offset,
                len: *len,
            },
            Action::Finish => ActionView::Finish,
            Action::Abort(e) => ActionView::Abort(e@),
        }
    }
}

/// A change a step made to the ledger, for the caller to repeat on the
/// durable copy.
#[derive(Debug)]
pub struct Mark {
    pub relative_path: String,
    pub status: FileStatus,
}

/// Mathematical content of a [`Mark`].
pub struct MarkView {
    pub relative_path: Seq<char>,
    pub status: FileStatus,
}

impl View for Mark {
    type V = MarkView;

    open spec fn view(&self) -> MarkView {
        MarkView { relative_path: self.relative_path@, status: self.status }
    }
}

/// The view of an optional mark.
pub open spec fn opt_mark(m: Option<Mark>) -> Option<MarkView> {
    match m {
        Some(mark) => Some(mark@),
        None => None,
    }
}

/// The outcome of one step.
#[derive(Debug)]
pub struct Step {
    pub action: Action,
    pub mark: Option<Mark>,
}

/// Mathematical content of a send session.
pub struct SessionView {
    /// The ledger as it stands.
    pub ledger: Seq<FileRecordView>,
    /// The records that were pending when the session began.
    pub queue: Seq<FileRecordView>,
    /// How many of them are settled.
    pub next: nat,
    pub phase: Phase,
    /// The texts of the exclude patterns in force.
    pub patterns: Seq<Seq<char>>,
    pub progress: Progress,
}

/// `a + b`, stopping at the largest value.
pub open spec fn sat_add(a: u64, b: u64) -> u64 {
    if a + b > u64::MAX {
        u64::MAX
    } else {
        (a + b) as u64
    }
}

/// `a - b`, stopping at zero.
pub open spec fn sat_sub(a: u64, b: u64) -> u64 {
    if a < b {
        0
    } else {
        (a - b) as u64
    }
}

/// `n`, stopping at the largest value.
pub open spec fn clamp(n: nat) -> u64 {
    if n > u64::MAX {
        u64::MAX
    } else {
        n as u64
    }
}

/// The session at its start: every pending record queued, nothing settled.
pub open spec fn begun(ledger: Seq<FileRecordView>, raw_patterns: Seq<Seq<char>>) -> SessionView {
    SessionView {
        ledger,
        queue: with_status(ledger, FileStatus::Pending),
        next: 0,
        phase: Phase::Ready,
        patterns: raw_patterns.filter(valid()),
        progress: Progress {
            files_sent: (ledger.len() - with_status(ledger, FileStatus::Pending).len()) as u64,
            skipped: with_status(ledger, FileStatus::Skipped).len() as u64,
            bytes_before: clamp(sent_bytes(ledger)),
            session_bytes: 0,
            pending_size: clamp(total_bytes(with_status(ledger, FileStatus::Pending))),
        },
    }
}

/// The record whose transaction is under way.
pub open spec fn current(s: SessionView) -> FileRecordView {
    s.queue[s.next as int]
}

/// The metadata frame for a record.
pub open spec fn metadata_of(r: FileRecordView) -> FileMetadataView {
    FileMetadataView { relative_path: r.relative_path, size: r.size, is_dir: r.is_dir }
}

/// The counters after a record was skipped.
pub open spec fn after_skip(p: Progress, size: u64) -> Progress {
    Progress { skipped: sat_add(p.skipped, 1), pending_size: sat_sub(p.pending_size, size), ..p }
}

/// The counters after `len` bytes of a file were delivered.
pub open spec fn after_delivery(p: Progress, len: u64) -> Progress {
    Progress {
        files_sent: sat_add(p.files_sent, 1),
        session_bytes: sat_add(p.session_bytes, len),
        ..p
    }
}

/// The session once the current record is settled as `status`.
pub open spec fn settled(s: SessionView, status: FileStatus, progress: Progress) -> SessionView {
    SessionView {
        ledger: marked(s.ledger, current(s).relative_path, status),
        next: s.next + 1,
        phase: Phase::Ready,
        progress,
        ..s
    }
}

/// The mark that settling the current record as `status` reports.
pub open spec fn mark_of(s: SessionView, status: FileStatus) -> Option<MarkView> {
    Some(MarkView { relative_path: current(s).relative_path, status })
}

/// The outcome of a step that settles the current record.
pub open spec fn settle(s: SessionView, status: FileStatus, progress: Progress) -> (
    SessionView,
    ActionView,
    Option<MarkView>,
) {
    (settled(s, status, progress), ActionView::Continue, mark_of(s, status))
}

/// The outcome of a step that moves to `phase` and asks for `action`.
pub open spec fn proceed(s: SessionView, phase: Phase, action: ActionView) -> (
    SessionView,
    ActionView,
    Option<MarkView>,
) {
    (SessionView { phase, ..s }, action, None)
}

/// The outcome of a step that aborts the transfer; the ledger stays as it is.
pub open spec fn abort(s: SessionView, error: SendErrorView) -> (
    SessionView,
    ActionView,
    Option<MarkView>,
) {
    (SessionView { phase: Phase::Failed, ..s }, ActionView::Abort(error), None)
}

/// A step between records: finish, skip an excluded record without any
/// traffic, or ask whether the next one is still on disk.
pub open spec fn step_ready(s: SessionView) -> (SessionView, ActionView, Option<MarkView>) {
    if s.next >= s.queue.len() {
        proceed(s, Phase::Done, ActionView::Finish)
    } else if any_matches(s.patterns, current(s).relative_path) {
        settle(s, FileStatus::Skipped, after_skip(s.progress, current(s).size as u64))
    } else {
        proceed(s, Phase::Probing, ActionView::Probe { relative_path: current(s).relative_path })
    }
}

/// A step on the probe's answer: a vanished entry is skipped, one that is
/// there is offered.
pub open spec fn step_probed(s: SessionView, found: bool) -> (
    SessionView,
    ActionView,
    Option<MarkView>,
) {
    if found {
        proceed(s, Phase::Offered, ActionView::Offer(metadata_of(current(s))))
    } else {
        settle(s, FileStatus::Skipped, after_skip(s.progress, current(s).size as u64))
    }
}

/// A step on the receiver's response.
pub open spec fn step_answered(s: SessionView, response: ServerResponseView) -> (
    SessionView,
    ActionView,
    Option<MarkView>,
) {
    let r = current(s);
    match response {
        ServerResponseView::Error { message } => abort(s, SendErrorView::Rejected { message }),
        ServerResponseView::Skip => if r.is_dir {
            settle(s, FileStatus::Sent, s.progress)
        } else {
            settle(s, FileStatus::Skipped, after_skip(s.progress, r.size as u64))
        },
        ServerResponseView::Send => if r.is_dir {
            settle(s, FileStatus::Sent, s.progress)
        } else {
            proceed(s, Phase::Opening { offset: 0 }, ActionView::Open { relative_path: r.relative_path })
        },
        ServerResponseView::Resume { offset } => if r.is_dir {
            settle(s, FileStatus::Sent, s.progress)
        } else if offset > r.size {
            abort(s, SendErrorView::Protocol)
        } else {
            proceed(
                s,
                Phase::Opening { offset: offset as u64 },
                ActionView::Open { relative_path: r.relative_path },
            )
        },
    }
}

/// A step on the opened file: a size other than the recorded one aborts
/// the transfer, else the payload from `offset` on is due.
pub open spec fn step_opened(s: SessionView, offset: u64, size: u64) -> (
    SessionView,
    ActionView,
    Option<MarkView>,
) {
    let r = current(s);
    if size != r.size {
        abort(s, SendErrorView::FileChanged { relative_path: r.relative_path })
    } else {
        proceed(
            s,
            Phase::Streaming { offset },
            ActionView::Stream { relative_path: r.relative_path, offset, len: (size - offset) as u64 },
        )
    }
}

/// A step after the payload went out: the record is sent.
pub open spec fn step_streamed(s: SessionView, offset: u64) -> (
    SessionView,
    ActionView,
    Option<MarkView>,
) {
    settle(
        s,
        FileStatus::Sent,
        after_delivery(s.progress, sat_sub(current(s).size as u64, offset)),
    )
}

/// The whole transition function of the send phase.
pub open spec fn step_spec(s: SessionView, e: EventView) -> (
    SessionView,
    ActionView,
    Option<MarkView>,
) {
    match (s.phase, e) {
        (Phase::Done, _) => (s, ActionView::Finish, None),
        (Phase::Failed, _) => (s, ActionView::Abort(SendErrorView::Protocol), None),
        (Phase::Ready, EventView::Tick) => step_ready(s),
        (Phase::Probing, EventView::Exists(found)) => step_probed(s, found),
        (Phase::Offered, EventView::Response(response)) => step_answered(s, response),
        (Phase::Opening { offset }, EventView::Opened { size }) => step_opened(s, offset, size),
        (Phase::Streaming { offset }, EventView::Streamed) => step_streamed(s, offset),
        _ => abort(s, SendErrorView::Protocol),
    }
}

/// Whether a row with `path` is pending in the ledger.
pub open spec fn pending_in(ledger: Seq<FileRecordView>, path: Seq<char>) -> bool {
    exists|i: int|
        0 <= i < ledger.len() && (#[trigger] ledger[i]).relative_path == path && ledger[i].status
            == FileStatus::Pending
}

/// The session invariant: a sound ledger, a queue of distinct paths of
/// which every unsettled one is still pending in the ledger, and a record
/// at hand whenever a transaction is under way.
pub open spec fn session_wf(s: SessionView) -> bool {
    &&& ledger_wf(s.ledger)
    &&& s.next <= s.queue.len()
    &&& (s.phase != Phase::Ready && s.phase != Phase::Done && s.phase != Phase::Failed ==> s.next
        < s.queue.len())
    &&& forall|a: int, b: int|
        0 <= a < b < s.queue.len() ==> (#[trigger] s.queue[a]).relative_path != (
        #[trigger] s.queue[b]).relative_path
    &&& forall|k: int|
        s.next <= k < s.queue.len() ==> pending_in(s.ledger, (#[trigger] s.queue[k]).relative_path)
    &&& forall|k: int| 0 <= k < s.queue.len() ==> (#[trigger] s.queue[k]).size <= u64::MAX
    &&& match s.phase {
        Phase::Opening { offset } => offset <= current(s).size,
        Phase::Streaming { offset } => offset <= current(s).size,
        _ => true,
    }
}

/// Whether a ledger moved forward only: the same rows in the same order,
/// each with the status it had or, if it was pending, a settled one.
pub open spec fn advances(before: Seq<FileRecordView>, after: Seq<FileRecordView>) -> bool {
    &&& before.len() == after.len()
    &&& forall|i: int|
        0 <= i < before.len() ==> {
            &&& (#[trigger] after[i]).id == before[i].id
            &&& after[i].relative_path == before[i].relative_path
            &&& after[i].size == before[i].size
            &&& after[i].is_dir == before[i].is_dir
            &&& (after[i].status == before[i].status || (before[i].status == FileStatus::Pending
                && after[i].status != FileStatus::Pending))
        }
}

/// The pending rows of a sound ledger have distinct paths, and each is a
/// pending row of the ledger.
pub proof fn lemma_pending_queue(ledger: Seq<FileRecordView>)
    requires
        ledger_wf(ledger),
    ensures
        forall|a: int, b: int|
            0 <= a < b < with_status(ledger, FileStatus::Pending).len() ==> (#[trigger] with_status(
                ledger,
                FileStatus::Pending,
            )[a]).relative_path != (#[trigger] with_status(
                ledger,
                FileStatus::Pending,
            )[b]).relative_path,
        forall|k: int|
            0 <= k < with_status(ledger, FileStatus::Pending).len() ==> pending_in(
                ledger,
                (#[trigger] with_status(ledger, FileStatus::Pending)[k]).relative_path,
            ),
        with_status(ledger, FileStatus::Pending).len() <= ledger.len(),
    decreases ledger.len(),
{
    reveal(Seq::filter);
    let queue = with_status(ledger, FileStatus::Pending);
    if ledger.len() > 0 {
        let rest = ledger.drop_last();
        let last = ledger.last();
        lemma_pending_queue(rest);
        let shorter = with_status(rest, FileStatus::Pending);
        assert forall|k: int| 0 <= k < shorter.len() implies pending_in(
            ledger,
            (#[trigger] shorter[k]).relative_path,
        ) && shorter[k].relative_path != last.relative_path by {
            let i = choose|i: int|
                0 <= i < rest.len() && (#[trigger] rest[i]).relative_path == shorter[k].relative_path
                    && rest[i].status == FileStatus::Pending;
            assert(ledger[i] == rest[i]);
            assert(ledger[ledger.len() - 1] == last);
        }
        if last.status == FileStatus::Pending {
            assert(queue == shorter.push(last));
            assert(ledger[ledger.len() - 1] == last);
            assert(pending_in(ledger, last.relative_path));
        } else {
            assert(queue == shorter);
        }
    }
}

/// Settling the current record keeps the session sound and moves the
/// ledger forward: that record leaves the pending state, every other row
/// stays as it was.
pub proof fn lemma_settle_advances(s: SessionView, status: FileStatus, progress: Progress)
    requires
        session_wf(s),
        s.next < s.queue.len(),
        status != FileStatus::Pending,
    ensures
        session_wf(settled(s, status, progress)),
        advances(s.ledger, settled(s, status, progress).ledger),
{
    let path = current(s).relative_path;
    let after = settled(s, status, progress);
    lemma_marked_wf(s.ledger, path, status);
    let j = choose|j: int|
        0 <= j < s.ledger.len() && (#[trigger] s.ledger[j]).relative_path == path
            && s.ledger[j].status == FileStatus::Pending;
    assert forall|i: int| 0 <= i < s.ledger.len() implies {
        &&& (#[trigger] after.ledger[i]).id == s.ledger[i].id
        &&& after.ledger[i].relative_path == s.ledger[i].relative_path
        &&& after.ledger[i].size == s.ledger[i].size
        &&& after.ledger[i].is_dir == s.ledger[i].is_dir
        &&& (after.ledger[i].status == s.ledger[i].status || (s.ledger[i].status
            == FileStatus::Pending && after.ledger[i].status != FileStatus::Pending))
    } by {
        if s.ledger[i].relative_path == path {
            if i < j {
                assert(s.ledger[i].relative_path != s.ledger[j].relative_path);
            } else if j < i {
                assert(s.ledger[j].relative_path != s.ledger[i].relative_path);
            }
        }
    }
    assert forall|k: int| after.next <= k < after.queue.len() implies pending_in(
        after.ledger,
        (#[trigger] after.queue[k]).relative_path,
    ) by {
        assert(pending_in(s.ledger, s.queue[k].relative_path));
        let i = choose|i: int|
            0 <= i < s.ledger.len() && (#[trigger] s.ledger[i]).relative_path
                == s.queue[k].relative_path && s.ledger[i].status == FileStatus::Pending;
        assert(s.queue[s.next as int].relative_path != s.queue[k].relative_path);
        assert(after.ledger[i] == s.ledger[i]);
    }
}

/// Every step keeps the session sound and moves the ledger forward only:
/// no record returns to the pending state, and none changes in anything
/// but its status.
pub proof fn lemma_step_advances(s: SessionView, e: EventView)
    requires
        session_wf(s),
    ensures
        session_wf(step_spec(s, e).0),
        advances(s.ledger, step_spec(s, e).0.ledger),
{
    let after = step_spec(s, e).0;
    if after.ledger != s.ledger {
        assert(s.next < s.queue.len());
        let status = if after.ledger == marked(s.ledger, current(s).relative_path, FileStatus::Sent) {
            FileStatus::Sent
        } else {
            FileStatus::Skipped
        };
        lemma_settle_advances(s, status, after.progress);
        assert(after == settled(s, status, after.progress));
    }
}

/// Moving forward is reflexive and composes, so a whole run of steps moves
/// the ledger forward.
pub proof fn lemma_advances_composes(
    a: Seq<FileRecordView>,
    b: Seq<FileRecordView>,
    c: Seq<FileRecordView>,
)
    requires
        advances(a, b),
        advances(b, c),
    ensures
        advances(a, a),
        advances(a, c),
{
    assert forall|i: int| 0 <= i < a.len() implies {
        &&& (#[trigger] c[i]).id == a[i].id
        &&& c[i].relative_path == a[i].relative_path
        &&& c[i].size == a[i].size
        &&& c[i].is_dir == a[i].is_dir
        &&& (c[i].status == a[i].status || (a[i].status == FileStatus::Pending && c[i].status
            != FileStatus::Pending))
    } by {
        assert(b[i].id == a[i].id);
    }
}

/// A session begun on a ledger without pending rows finishes at its first
/// step: nothing is probed, offered or streamed, and the ledger stays.
pub proof fn lemma_nothing_pending_nothing_sent(
    ledger: Seq<FileRecordView>,
    raw_patterns: Seq<Seq<char>>,
)
    requires
        with_status(ledger, FileStatus::Pending).len() == 0,
    ensures
        step_spec(begun(ledger, raw_patterns), EventView::Tick).1 == ActionView::Finish,
        step_spec(begun(ledger, raw_patterns), EventView::Tick).2 is None,
        step_spec(begun(ledger, raw_patterns), EventView::Tick).0.ledger == ledger,
        step_spec(begun(ledger, raw_patterns), EventView::Tick).0.progress.session_bytes == 0,
{
}

/// A record is marked sent in two situations only: its payload went out
/// in full, or it is a directory and the receiver answered without error.
pub proof fn lemma_sent_means_delivered(s: SessionView, e: EventView)
    requires
        step_spec(s, e).2 is Some,
        step_spec(s, e).2->Some_0.status == FileStatus::Sent,
    ensures
        step_spec(s, e).2->Some_0.relative_path == current(s).relative_path,
        (s.phase is Streaming && e is Streamed) || (current(s).is_dir && s.phase == Phase::Offered
            && e is Response && !(e->Response_0 is Error)),
{
}

/// A directory never enters the payload path: whatever the receiver
/// answers, the step after the offer opens and streams nothing.
pub proof fn lemma_directory_moves_no_payload(s: SessionView, response: ServerResponseView)
    requires
        s.phase == Phase::Offered,
        current(s).is_dir,
    ensures
        !(step_spec(s, EventView::Response(response)).1 is Open),
        !(step_spec(s, EventView::Response(response)).1 is Stream),
        !(response is Error) ==> step_spec(s, EventView::Response(response)).1
            == ActionView::Continue && step_spec(s, EventView::Response(response)).2 == mark_of(
            s,
            FileStatus::Sent,
        ),
        step_spec(s, EventView::Response(response)).0.progress.session_bytes
            == s.progress.session_bytes,
{
}

/// An excluded record is settled as skipped by the step that meets it,
/// without a probe, an offer or any payload.
pub proof fn lemma_excluded_skipped_without_traffic(s: SessionView)
    requires
        s.phase == Phase::Ready,
        s.next < s.queue.len(),
        any_matches(s.patterns, current(s).relative_path),
    ensures
        step_spec(s, EventView::Tick).1 == ActionView::Continue,
        step_spec(s, EventView::Tick).2 == mark_of(s, FileStatus::Skipped),
        step_spec(s, EventView::Tick).0.progress.session_bytes == s.progress.session_bytes,
{
}

/// A file whose size changed since the scan aborts the transfer and stays
/// pending, so that a later run tries it again.
pub proof fn lemma_changed_file_stays_pending(s: SessionView, offset: u64, size: u64)
    requires
        s.phase == (Phase::Opening { offset }),
        size != current(s).size,
    ensures
        step_spec(s, EventView::Opened { size }).1 == ActionView::Abort(
            SendErrorView::FileChanged { relative_path: current(s).relative_path },
        ),
        step_spec(s, EventView::Opened { size }).2 is None,
        step_spec(s, EventView::Opened { size }).0.ledger == s.ledger,
{
}

/// The payload that goes out is the one the receiver asked for: after
/// `Send` the whole file, after `Resume` the part from the offset on, in
/// either case as many bytes as the response announces.
pub proof fn lemma_stream_matches_response(s: SessionView, response: ServerResponseView)
    requires
        s.phase == Phase::Offered,
        !current(s).is_dir,
        current(s).size <= u64::MAX,
        response is Send || (response is Resume && response->offset <= current(s).size),
    ensures
        ({
            let offered = step_spec(s, EventView::Response(response)).0;
            let size = current(s).size as u64;
            let start: u64 = if response is Send {
                0
            } else {
                response->offset as u64
            };
            &&& step_spec(s, EventView::Response(response)).1 == (ActionView::Open {
                relative_path: current(s).relative_path,
            })
            &&& step_spec(offered, EventView::Opened { size }).1 == (ActionView::Stream {
                relative_path: current(s).relative_path,
                offset: start,
                len: response.payload_len(size as nat) as u64,
            })
        }),
{
}

/// The send phase of one transfer. It owns the ledger while it runs.
pub struct SendSession {
    log: TransferLog,
    queue: Vec<FileRecord>,
    next: usize,
    phase: Phase,
    patterns: Vec<glob::Pattern>,
    progress: Progress,
}

impl View for SendSession {
    type V = SessionView;

    closed spec fn view(&self) -> SessionView {
        SessionView {
            ledger: self.log@,
            queue: crate::ledger::views_of(self.queue@),
            next: self.next as nat,
            phase: self.phase,
            patterns: texts_of(self.patterns@),
            progress: self.progress,
        }
    }
}

/// The sizes of `records` added up, stopping at the largest value.
fn pending_total(records: &Vec<FileRecord>) -> (sum: u64)
    ensures
        sum == clamp(total_bytes(crate::ledger::views_of(records@))),
{
    let ghost rows = crate::ledger::views_of(records@);
    let mut sum: u64 = 0;
    let mut i: usize = 0;
    assert(rows.take(0) =~= Seq::<FileRecordView>::empty());
    while i < records.len()
        invariant
            i <= records.len(),
            rows == crate::ledger::views_of(records@),
            sum == clamp(total_bytes(rows.take(i as int))),
        decreases records.len() - i,
    {
        proof {
            assert(rows.take(i + 1).drop_last() =~= rows.take(i as int));
            assert(rows.take(i + 1).last() == rows[i as int]);
        }
        sum = sum.saturating_add(records[i].size);
        i += 1;
    }
    assert(rows.take(rows.len() as int) =~= rows);
    sum
}

/// Begins the send phase: queues every pending record of `log`, compiles
/// the exclude patterns that compile, and sets the counters from what
/// earlier runs left in the ledger.
pub fn send_pending_files(log: TransferLog, exclude_patterns: &Vec<String>) -> (session:
    SendSession)
    requires
        log.wf(),
    ensures
        session.wf(),
        session@ == begun(log@, texts(exclude_patterns@)),
{
    let queue = log.get_pending_files();
    let patterns = compile_patterns(exclude_patterns);
    let total: u64 = log.count_total();
    let pending: u64 = log.count_pending();
    let skipped: u64 = log.count_skipped();
    let bytes_before: u64 = match log.get_total_sent_bytes() {
        Ok(n) => n,
        Err(_) => u64::MAX,
    };
    let pending_size: u64 = pending_total(&queue);
    proof {
        lemma_pending_queue(log@);
    }
    let progress = Progress {
        files_sent: total - pending,
        skipped,
        bytes_before,
        session_bytes: 0,
        pending_size,
    };
    SendSession { log, queue, next: 0, phase: Phase::Ready, patterns, progress }
}

impl SendSession {
    /// The invariant every session keeps.
    pub open spec fn wf(&self) -> bool {
        session_wf(self@)
    }

    /// The counters as they stand.
    pub fn progress(&self) -> (p: Progress)
        ensures
            p == self@.progress,
    {
        self.progress
    }

    /// Where the session stands.
    pub fn phase(&self) -> (p: Phase)
        ensures
            p == self@.phase,
    {
        self.phase
    }

    /// The ledger as it stands.
    pub fn log(&self) -> (log: &TransferLog)
        ensures
            log@ == self@.ledger,
    {
        &self.log
    }

    /// Ends the session and hands the ledger back.
    pub fn into_log(self) -> (log: TransferLog)
        requires
            self.wf(),
        ensures
            log.wf(),
            log@ == self@.ledger,
    {
        self.log
    }

    /// Settles the current record as `status` and reports the mark.
    fn settle_current(&mut self, status: FileStatus, progress: Progress) -> (out: Step)
        requires
            old(self).wf(),
            old(self)@.next < old(self)@.queue.len(),
            status != FileStatus::Pending,
        ensures
            final(self).wf(),
            final(self)@ == settled(old(self)@, status, progress),
            out.action@ == ActionView::Continue,
            opt_mark(out.mark) == mark_of(old(self)@, status),
    {
        proof {
            lemma_settle_advances(self@, status, progress);
        }
        let queued: usize = self.queue.len();
        assert(self.next < queued);
        let following: usize = self.next + 1;
        let path = self.queue[self.next].relative_path.clone();
        match status {
            FileStatus::Sent => self.log.mark_sent(path.as_str()),
            _ => self.log.mark_skipped(path.as_str()),
        }
        self.next = following;
        self.phase = Phase::Ready;
        self.progress = progress;
        Step { action: Action::Continue, mark: Some(Mark { relative_path: path, status }) }
    }

    /// Moves to `phase` and asks for `action`.
    fn proceed_to(&mut self, phase: Phase, action: Action) -> (out: Step)
        requires
            old(self).wf(),
            session_wf(proceed(old(self)@, phase, action@).0),
        ensures
            final(self).wf(),
            final(self)@ == proceed(old(self)@, phase, action@).0,
            out.action@ == action@,
            opt_mark(out.mark) is None,
    {
        self.phase = phase;
        Step { action, mark: None }
    }

    /// Gives up with `error`; the ledger stays as it is.
    fn abort_with(&mut self, error: SendError) -> (out: Step)
        requires
            old(self).wf(),
        ensures
            final(self).wf(),
            final(self)@ == abort(old(self)@, error@).0,
            out.action@ == ActionView::Abort(error@),
            opt_mark(out.mark) is None,
    {
        self.phase = Phase::Failed;
        Step { action: Action::Abort(error), mark: None }
    }

    /// The counters after the current record is skipped.
    fn skip_progress(&self) -> (p: Progress)
        requires
            self.wf(),
            self@.next < self@.queue.len(),
        ensures
            p == after_skip(self@.progress, current(self@).size as u64),
    {
        let size: u64 = self.queue[self.next].size;
        Progress {
            skipped: self.progress.skipped.saturating_add(1),
            pending_size: self.progress.pending_size.saturating_sub(size),
            ..self.progress
        }
    }

    /// Takes one event and says what to do next. The new state, the
    /// action and the ledger mark are those of `step_spec`; the ledger only
    /// ever moves forward.
    pub fn step(&mut self, event: Event) -> (out: Step)
        requires
            old(self).wf(),
        ensures
            final(self).wf(),
            final(self)@ == step_spec(old(self)@, event@).0,
            out.action@ == step_spec(old(self)@, event@).1,
            opt_mark(out.mark) == step_spec(old(self)@, event@).2,
            advances(old(self)@.ledger, final(self)@.ledger),
    {
        proof {
            lemma_step_advances(self@, event@);
        }
        match self.phase {
            Phase::Done => Step { action: Action::Finish, mark: None },
            Phase::Failed => Step { action: Action::Abort(SendError::Protocol), mark: None },
            Phase::Ready => match event {
                Event::Tick => self.step_ready(),
                _ => self.abort_with(SendError::Protocol),
            },
            Phase::Probing => match event {
                Event::Exists(found) => self.step_probed(found),
                _ => self.abort_with(SendError::Protocol),
            },
            Phase::Offered => match event {
                Event::Response(response) => self.step_answered(response),
                _ => self.abort_with(SendError::Protocol),
            },
            Phase::Opening { offset } => match event {
                Event::Opened { size } => self.step_opened(offset, size),
                _ => self.abort_with(SendError::Protocol),
            },
            Phase::Streaming { offset } => match event {
                Event::Streamed => self.step_streamed(offset),
                _ => self.abort_with(SendError::Protocol),
            },
        }
    }

    /// Picks up the next record, or finishes when none is left.
    fn step_ready(&mut self) -> (out: Step)
        requires
            old(self).wf(),
            old(self)@.phase == Phase::Ready,
        ensures
            final(self).wf(),
            final(self)@ == step_ready(old(self)@).0,
            out.action@ == step_ready(old(self)@).1,
            opt_mark(out.mark) == step_ready(old(self)@).2,
    {
        proof {
            lemma_step_advances(self@, EventView::Tick);
        }
        if self.next >= self.queue.len() {
            return self.proceed_to(Phase::Done, Action::Finish);
        }
        if is_excluded(&self.patterns, self.queue[self.next].relative_path.as_str()) {
            let progress = self.skip_progress();
            return self.settle_current(FileStatus::Skipped, progress);
        }
        let relative_path = self.queue[self.next].relative_path.clone();
        self.proceed_to(Phase::Probing, Action::Probe { relative_path })
    }

    /// Offers the record that is on disk; skips the one that is gone.
    fn step_probed(&mut self, found: bool) -> (out: Step)
        requires
            old(self).wf(),
            old(self)@.phase == Phase::Probing,
        ensures
            final(self).wf(),
            final(self)@ == step_probed(old(self)@, found).0,
            out.action@ == step_probed(old(self)@, found).1,
            opt_mark(out.mark) == step_probed(old(self)@, found).2,
    {
        proof {
            lemma_step_advances(self@, EventView::Exists(found));
        }
        if found {
            let record = &self.queue[self.next];
            let meta = FileMetadata {
                relative_path: record.relative_path.clone(),
                size: record.size,
                is_dir: record.is_dir,
            };
            self.proceed_to(Phase::Offered, Action::Offer(meta))
        } else {
            let progress = self.skip_progress();
            self.settle_current(FileStatus::Skipped, progress)
        }
    }

    /// Acts on the receiver's response to the offer.
    fn step_answered(&mut self, response: ServerResponse) -> (out: Step)
        requires
            old(self).wf(),
            old(self)@.phase == Phase::Offered,
        ensures
            final(self).wf(),
            final(self)@ == step_answered(old(self)@, response@).0,
            out.action@ == step_answered(old(self)@, response@).1,
            opt_mark(out.mark) == step_answered(old(self)@, response@).2,
    {
        proof {
            lemma_step_advances(self@, EventView::Response(response@));
        }
        let is_dir: bool = self.queue[self.next].is_dir;
        let size: u64 = self.queue[self.next].size;
        match response {
            ServerResponse::Error { message } => self.abort_with(SendError::Rejected { message }),
            ServerResponse::Skip => {
                if is_dir {
                    let progress = self.progress;
                    self.settle_current(FileStatus::Sent, progress)
                } else {
                    let progress = self.skip_progress();
                    self.settle_current(FileStatus::Skipped, progress)
                }
            },
            ServerResponse::Send => {
                if is_dir {
                    let progress = self.progress;
                    self.settle_current(FileStatus::Sent, progress)
                } else {
                    let relative_path = self.queue[self.next].relative_path.clone();
                    self.proceed_to(Phase::Opening { offset: 0 }, Action::Open { relative_path })
                }
            },
            ServerResponse::Resume { offset } => {
                if is_dir {
                    let progress = self.progress;
                    self.settle_current(FileStatus::Sent, progress)
                } else if offset > size {
                    self.abort_with(SendError::Protocol)
                } else {
                    let relative_path = self.queue[self.next].relative_path.clone();
                    self.proceed_to(Phase::Opening { offset }, Action::Open { relative_path })
                }
            },
        }
    }

    /// Checks the opened file against the ledger before any payload goes out.
    fn step_opened(&mut self, offset: u64, size: u64) -> (out: Step)
        requires
            old(self).wf(),
            old(self)@.phase == (Phase::Opening { offset }),
        ensures
            final(self).wf(),
            final(self)@ == step_opened(old(self)@, offset, size).0,
            out.action@ == step_opened(old(self)@, offset, size).1,
            opt_mark(out.mark) == step_opened(old(self)@, offset, size).2,
    {
        proof {
            lemma_step_advances(self@, EventView::Opened { size });
        }
        let relative_path = self.queue[self.next].relative_path.clone();
        if size != self.queue[self.next].size {
            self.abort_with(SendError::FileChanged { relative_path })
        } else {
            self.proceed_to(
                Phase::Streaming { offset },
                Action::Stream { relative_path, offset, len: size - offset },
            )
        }
    }

    /// Settles the record whose payload went out.
    fn step_streamed(&mut self, offset: u64) -> (out: Step)
        requires
            old(self).wf(),
            old(self)@.phase == (Phase::Streaming { offset }),
        ensures
            final(self).wf(),
            final(self)@ == step_streamed(old(self)@, offset).0,
            out.action@ == step_streamed(old(self)@, offset).1,
            opt_mark(out.mark) == step_streamed(old(self)@, offset).2,
    {
        let len: u64 = self.queue[self.next].size - offset;
        let progress = Progress {
            files_sent: self.progress.files_sent.saturating_add(1),
            session_bytes: self.progress.session_bytes.saturating_add(len),
            ..self.progress
        };
        self.settle_current(FileStatus::Sent, progress)
    }
}

} // verus!

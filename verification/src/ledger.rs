//! The sender's per-transfer ledger: one record per scanned entry, kept as an
//! idempotent work queue with the states pending, sent and skipped.

use crate::text::same_text;
use vstd::prelude::*;
use vstd::string::*;

verus! {

/// Progress of one ledger record.
#[derive(Debug, Clone, Copy, PartialEq, Eq, Structural)]
pub enum FileStatus {
    Pending,
    Sent,
    Skipped,
}

/// The word under which a status is stored.
pub open spec fn file_status_text(status: FileStatus) -> Seq<char> {
    match status {
        FileStatus::Pending => "Pending"@,
        FileStatus::Sent => "Sent"@,
        FileStatus::Skipped => "Skipped"@,
    }
}

impl FileStatus {
    /// The word under which the status is stored.
    pub fn as_str(&self) -> (word: &'static str)
        ensures
            word@ == file_status_text(*self),
    {
        match self {
            FileStatus::Pending => "Pending",
            FileStatus::Sent => "Sent",
            FileStatus::Skipped => "Skipped",
        }
    }

    /// The status a stored word stands for; `None` for any other text.
    pub fn from_text(word: &str) -> (r: Option<FileStatus>)
        ensures
            match r {
                Some(status) => word@ == file_status_text(status),
                None => forall|status: FileStatus| word@ != file_status_text(status),
            },
    {
        if same_text(word, "Pending") {
            Some(FileStatus::Pending)
        } else if same_text(word, "Sent") {
            Some(FileStatus::Sent)
        } else if same_text(word, "Skipped") {
            Some(FileStatus::Skipped)
        } else {
            None
        }
    }
}

/// Why a store operation could not be carried out.
#[derive(Debug, Clone, Copy, PartialEq, Eq, Structural)]
pub enum StoreError {
    /// No row has the requested id.
    NotFound,
    /// No further id can be handed out.
    Full,
    /// A total does not fit in 64 bits.
    Overflow,
    /// Rows offered for restoring break the store's invariant.
    Corrupt,
}

/// One entry of a ledger.
#[derive(Debug)]
pub struct FileRecord {
    pub id: i64,
    pub relative_path: String,
    pub size: u64,
    pub is_dir: bool,
    pub status: FileStatus,
}

/// Mathematical content of a [`FileRecord`].
pub struct FileRecordView {
    pub id: int,
    pub relative_path: Seq<char>,
    pub size: nat,
    pub is_dir: bool,
    pub status: FileStatus,
}

impl View for FileRecord {
    type V = FileRecordView;

    open spec fn view(&self) -> FileRecordView {
        FileRecordView {
            id: self.id as int,
            relative_path: self.relative_path@,
            size: self.size as nat,
            is_dir: self.is_dir,
            status: self.status,
        }
    }
}

impl FileRecord {
    /// An independent copy of the record.
    pub fn duplicate(&self) -> (r: FileRecord)
        ensures
            r@ == self@,
    {
        FileRecord {
            id: self.id,
            relative_path: self.relative_path.clone(),
            size: self.size,
            is_dir: self.is_dir,
            status: self.status,
        }
    }
}

/// The views of a run of records, in order.
pub open spec fn views_of(rows: Seq<FileRecord>) -> Seq<FileRecordView> {
    rows.map_values(|r: FileRecord| r@)
}

/// Whether some row carries `path`.
pub open spec fn has_path(rows: Seq<FileRecordView>, path: Seq<char>) -> bool {
    exists|i: int| 0 <= i < rows.len() && (#[trigger] rows[i]).relative_path == path
}

/// The id the next new row receives: one past the last, or 1 in an empty ledger.
pub open spec fn next_id(rows: Seq<FileRecordView>) -> int {
    if rows.len() == 0 {
        1
    } else {
        rows.last().id + 1
    }
}

/// The ledger invariant: no path occurs twice, and ids grow with position.
pub open spec fn ledger_wf(rows: Seq<FileRecordView>) -> bool {
    &&& forall|i: int, j: int|
        0 <= i < j < rows.len() ==> (#[trigger] rows[i]).relative_path != (
        #[trigger] rows[j]).relative_path
    &&& forall|i: int, j: int| 0 <= i < j < rows.len() ==> (#[trigger] rows[i]).id < (#[trigger] rows[j]).id
}

/// Insert-or-ignore: a new pending row at the end, unless `path` is there already.
pub open spec fn insert_or_ignore(
    rows: Seq<FileRecordView>,
    path: Seq<char>,
    size: nat,
    is_dir: bool,
) -> Seq<FileRecordView> {
    if has_path(rows, path) {
        rows
    } else {
        rows.push(
            FileRecordView {
                id: next_id(rows),
                relative_path: path,
                size,
                is_dir,
                status: FileStatus::Pending,
            },
        )
    }
}

/// Every row that carries `path` takes `status`; all else stays.
pub open spec fn marked(rows: Seq<FileRecordView>, path: Seq<char>, status: FileStatus) -> Seq<
    FileRecordView,
> {
    rows.map_values(
        |r: FileRecordView|
            if r.relative_path == path {
                FileRecordView { status, ..r }
            } else {
                r
            },
    )
}

/// The test "is in state `status`".
pub open spec fn in_status(status: FileStatus) -> spec_fn(FileRecordView) -> bool {
    |r: FileRecordView| r.status == status
}

/// The rows in state `status`, in ledger order.
pub open spec fn with_status(rows: Seq<FileRecordView>, status: FileStatus) -> Seq<FileRecordView> {
    rows.filter(in_status(status))
}

/// Sum of the sizes of the rows already sent.
pub open spec fn sent_bytes(rows: Seq<FileRecordView>) -> nat
    decreases rows.len(),
{
    if rows.len() == 0 {
        0
    } else if rows.last().status == FileStatus::Sent {
        sent_bytes(rows.drop_last()) + rows.last().size
    } else {
        sent_bytes(rows.drop_last())
    }
}

/// Sum of the sizes of all rows.
pub open spec fn total_bytes(rows: Seq<FileRecordView>) -> nat
    decreases rows.len(),
{
    if rows.len() == 0 {
        0
    } else {
        total_bytes(rows.drop_last()) + rows.last().size
    }
}

/// Extending a run by one row extends its selection by that row or not at all.
pub proof fn lemma_with_status_push(rows: Seq<FileRecordView>, r: FileRecordView, status: FileStatus)
    ensures
        with_status(rows.push(r), status) == if r.status == status {
            with_status(rows, status).push(r)
        } else {
            with_status(rows, status)
        },
{
    rows.lemma_filter_push(r, in_status(status));
}

/// The ledger of one transfer.
pub struct TransferLog {
    transfer_id: i64,
    rows: Vec<FileRecord>,
}

impl View for TransferLog {
    type V = Seq<FileRecordView>;

    closed spec fn view(&self) -> Seq<FileRecordView> {
        views_of(self.rows@)
    }
}

impl TransferLog {
    /// The invariant every ledger keeps.
    pub open spec fn wf(&self) -> bool {
        ledger_wf(self@)
    }

    /// The transfer this ledger belongs to.
    pub closed spec fn spec_transfer_id(&self) -> i64 {
        self.transfer_id
    }

    /// An empty ledger for transfer `transfer_id`.
    pub fn new(transfer_id: i64) -> (log: TransferLog)
        ensures
            log.wf(),
            log@ == Seq::<FileRecordView>::empty(),
            log.spec_transfer_id() == transfer_id,
    {
        let log = TransferLog { transfer_id, rows: Vec::new() };
        assert(log@ =~= Seq::<FileRecordView>::empty());
        log
    }

    /// A ledger holding `rows` as they were stored. `Corrupt` exactly when
    /// the rows break the ledger invariant.
    pub fn restore(transfer_id: i64, rows: Vec<FileRecord>) -> (r: Result<TransferLog, StoreError>)
        ensures
            ledger_wf(views_of(rows@)) ==> r is Ok && r->Ok_0.wf() && r->Ok_0@ == views_of(rows@)
                && r->Ok_0.spec_transfer_id() == transfer_id,
            !ledger_wf(views_of(rows@)) ==> r is Err && r->Err_0 == StoreError::Corrupt,
    {
        let ghost all = views_of(rows@);
        let mut i: usize = 0;
        while i < rows.len()
            invariant
                i <= rows.len(),
                all == views_of(rows@),
                forall|a: int, b: int|
                    0 <= a < b < i ==> (#[trigger] all[a]).relative_path != (
                    #[trigger] all[b]).relative_path,
                forall|a: int, b: int| 0 <= a < b < i ==> (#[trigger] all[a]).id < (#[trigger] all[b]).id,
            decreases rows.len() - i,
        {
            if i > 0 && rows[i - 1].id >= rows[i].id {
                assert(all[i - 1].id >= all[i as int].id);
                return Err(StoreError::Corrupt);
            }
            let mut k: usize = 0;
            while k < i
                invariant
                    k <= i < rows.len(),
                    all == views_of(rows@),
                    forall|a: int| 0 <= a < k ==> (#[trigger] all[a]).relative_path != all[i as int].relative_path,
                decreases i - k,
            {
                if rows[k].relative_path == rows[i].relative_path {
                    assert(all[k as int].relative_path == all[i as int].relative_path);
                    return Err(StoreError::Corrupt);
                }
                k += 1;
            }
            assert forall|a: int, b: int| 0 <= a < b < i + 1 implies (#[trigger] all[a]).id < (
            #[trigger] all[b]).id by {
                if b == i && a < i - 1 {
                    assert(all[a].id < all[i - 1].id);
                }
            }
            i += 1;
        }
        Ok(TransferLog { transfer_id, rows })
    }

    /// The transfer this ledger belongs to.
    #[verifier::when_used_as_spec(spec_transfer_id)]
    pub fn transfer_id(&self) -> (id: i64)
        ensures
            id == self.spec_transfer_id(),
    {
        self.transfer_id
    }

    /// Bulk reset: every row goes, the transfer id stays.
    pub fn reset(&mut self)
        ensures
            final(self).wf(),
            final(self)@ == Seq::<FileRecordView>::empty(),
            final(self).spec_transfer_id() == old(self).spec_transfer_id(),
    {
        self.rows.clear();
        assert(self@ =~= Seq::<FileRecordView>::empty());
    }

    /// Insert-or-ignore by path. A new row is pending and takes the next id;
    /// a path already there leaves the ledger untouched. `Full` comes exactly
    /// when a new row is due and the last id is the largest there is.
    pub fn add_file(&mut self, relative_path: &str, size: u64, is_dir: bool) -> (r: Result<
        (),
        StoreError,
    >)
        requires
            old(self).wf(),
        ensures
            final(self).wf(),
            final(self).spec_transfer_id() == old(self).spec_transfer_id(),
            r is Err <==> !has_path(old(self)@, relative_path@) && next_id(old(self)@) > i64::MAX,
            r is Err ==> r == Err::<(), StoreError>(StoreError::Full) && final(self)@ == old(self)@,
            r is Ok ==> final(self)@ == insert_or_ignore(
                old(self)@,
                relative_path@,
                size as nat,
                is_dir,
            ),
    {
        if self.position(relative_path).is_some() {
            return Ok(());
        }
        let n: usize = self.rows.len();
        let id: i64 = if n == 0 {
            1
        } else {
            let last: i64 = self.rows[n - 1].id;
            assert(self@.last() == self.rows@[n - 1]@);
            if last == i64::MAX {
                return Err(StoreError::Full);
            }
            last + 1
        };
        let record = FileRecord {
            id,
            relative_path: String::from_str(relative_path),
            size,
            is_dir,
            status: FileStatus::Pending,
        };
        proof {
            assert(views_of(self.rows@.push(record)) =~= views_of(self.rows@).push(record@));
        }
        self.rows.push(record);
        Ok(())
    }

    /// Whether a row carries `path`.
    pub fn contains_path(&self, path: &str) -> (found: bool)
        ensures
            found == has_path(self@, path@),
    {
        self.position(path).is_some()
    }

    /// A copy of the row added last, if the ledger has any.
    pub fn newest(&self) -> (r: Option<FileRecord>)
        ensures
            r is Some <==> self@.len() > 0,
            r is Some ==> r->Some_0@ == self@.last(),
    {
        let n: usize = self.rows.len();
        if n == 0 {
            None
        } else {
            Some(self.rows[n - 1].duplicate())
        }
    }

    /// Index of the row that carries `path`, if there is one.
    fn position(&self, path: &str) -> (r: Option<usize>)
        ensures
            r is Some <==> has_path(self@, path@),
            r is Some ==> r->Some_0 < self@.len() && self@[r->Some_0 as int].relative_path
                == path@,
    {
        let wanted: String = String::from_str(path);
        let mut i: usize = 0;
        while i < self.rows.len()
            invariant
                i <= self.rows.len(),
                wanted@ == path@,
                forall|j: int| 0 <= j < i ==> (#[trigger] self@[j]).relative_path != path@,
            decreases self.rows.len() - i,
        {
            if self.rows[i].relative_path == wanted {
                assert(self@[i as int].relative_path == path@);
                return Some(i);
            }
            i += 1;
        }
        None
    }

    /// Gives every row that carries `path` the state `status`.
    fn mark(&mut self, path: &str, status: FileStatus)
        requires
            old(self).wf(),
        ensures
            final(self).wf(),
            final(self).spec_transfer_id() == old(self).spec_transfer_id(),
            final(self)@ == marked(old(self)@, path@, status),
    {
        let wanted: String = String::from_str(path);
        let mut i: usize = 0;
        while i < self.rows.len()
            invariant
                i <= self.rows.len(),
                wanted@ == path@,
                self.transfer_id == old(self).transfer_id,
                self@.len() == old(self)@.len(),
                forall|j: int| 0 <= j < i ==> #[trigger] self@[j] == marked(old(self)@, path@, status)[j],
                forall|j: int| i <= j < self@.len() ==> #[trigger] self@[j] == old(self)@[j],
            decreases self.rows.len() - i,
        {
            let ghost before = self@;
            assert(before[i as int] == old(self)@[i as int]);
            if self.rows[i].relative_path == wanted {
                let current = &self.rows[i];
                let updated = FileRecord {
                    id: current.id,
                    relative_path: current.relative_path.clone(),
                    size: current.size,
                    is_dir: current.is_dir,
                    status,
                };
                self.rows.set(i, updated);
                assert(self@ =~= before.update(i as int, updated@));
            }
            i += 1;
        }
        assert(self@ =~= marked(old(self)@, path@, status));
        assert(ledger_wf(self@)) by {
            lemma_marked_wf(old(self)@, path@, status);
        }
    }

    /// Marks the record at `relative_path` as sent. A path the ledger does
    /// not hold changes nothing.
    pub fn mark_sent(&mut self, relative_path: &str)
        requires
            old(self).wf(),
        ensures
            final(self).wf(),
            final(self).spec_transfer_id() == old(self).spec_transfer_id(),
            final(self)@ == marked(old(self)@, relative_path@, FileStatus::Sent),
    {
        self.mark(relative_path, FileStatus::Sent)
    }

    /// Marks the record at `relative_path` as skipped. A path the ledger does
    /// not hold changes nothing.
    pub fn mark_skipped(&mut self, relative_path: &str)
        requires
            old(self).wf(),
        ensures
            final(self).wf(),
            final(self).spec_transfer_id() == old(self).spec_transfer_id(),
            final(self)@ == marked(old(self)@, relative_path@, FileStatus::Skipped),
    {
        self.mark(relative_path, FileStatus::Skipped)
    }

    /// Copies of the rows in state `status`, in ledger order.
    fn select(&self, status: FileStatus) -> (out: Vec<FileRecord>)
        ensures
            views_of(out@) == with_status(self@, status),
    {
        let mut out: Vec<FileRecord> = Vec::new();
        let mut i: usize = 0;
        assert(self@.take(0) =~= Seq::<FileRecordView>::empty());
        assert(views_of(out@) =~= Seq::<FileRecordView>::empty());
        proof {
            reveal(Seq::filter);
        }
        while i < self.rows.len()
            invariant
                i <= self.rows.len(),
                views_of(out@) == with_status(self@.take(i as int), status),
            decreases self.rows.len() - i,
        {
            proof {
                assert(self@.take(i + 1) =~= self@.take(i as int).push(self@[i as int]));
                lemma_with_status_push(self@.take(i as int), self@[i as int], status);
            }
            if self.rows[i].status == status {
                let copy = self.rows[i].duplicate();
                assert(views_of(out@.push(copy)) =~= views_of(out@).push(copy@));
                out.push(copy);
            }
            i += 1;
        }
        assert(self@.take(self@.len() as int) =~= self@);
        out
    }

    /// All pending records, in ledger order.
    pub fn get_pending_files(&self) -> (out: Vec<FileRecord>)
        ensures
            views_of(out@) == with_status(self@, FileStatus::Pending),
    {
        self.select(FileStatus::Pending)
    }

    /// Number of rows in state `status`.
    fn count(&self, status: FileStatus) -> (n: u64)
        ensures
            n as nat == with_status(self@, status).len(),
    {
        let mut n: u64 = 0;
        let mut i: usize = 0;
        assert(self@.take(0) =~= Seq::<FileRecordView>::empty());
        proof {
            reveal(Seq::filter);
        }
        while i < self.rows.len()
            invariant
                i <= self.rows.len(),
                n <= i,
                n as nat == with_status(self@.take(i as int), status).len(),
            decreases self.rows.len() - i,
        {
            proof {
                assert(self@.take(i + 1) =~= self@.take(i as int).push(self@[i as int]));
                lemma_with_status_push(self@.take(i as int), self@[i as int], status);
            }
            if self.rows[i].status == status {
                n += 1;
            }
            i += 1;
        }
        assert(self@.take(self@.len() as int) =~= self@);
        n
    }

    /// Number of pending rows.
    pub fn count_pending(&self) -> (n: u64)
        ensures
            n as nat == with_status(self@, FileStatus::Pending).len(),
    {
        self.count(FileStatus::Pending)
    }

    /// Number of rows.
    pub fn count_total(&self) -> (n: u64)
        ensures
            n as nat == self@.len(),
    {
        self.rows.len() as u64
    }

    /// Number of skipped rows.
    pub fn count_skipped(&self) -> (n: u64)
        ensures
            n as nat == with_status(self@, FileStatus::Skipped).len(),
    {
        self.count(FileStatus::Skipped)
    }

    /// Sum of the sizes of the rows marked sent; `Overflow` exactly when the
    /// sum does not fit in 64 bits.
    pub fn get_total_sent_bytes(&self) -> (r: Result<u64, StoreError>)
        ensures
            sent_bytes(self@) <= u64::MAX ==> r == Ok::<u64, StoreError>(sent_bytes(self@) as u64),
            sent_bytes(self@) > u64::MAX ==> r == Err::<u64, StoreError>(StoreError::Overflow),
    {
        let mut sum: u64 = 0;
        let mut i: usize = 0;
        assert(self@.take(0) =~= Seq::<FileRecordView>::empty());
        while i < self.rows.len()
            invariant
                i <= self.rows.len(),
                sum as nat == sent_bytes(self@.take(i as int)),
            decreases self.rows.len() - i,
        {
            proof {
                assert(self@.take(i + 1).drop_last() =~= self@.take(i as int));
                assert(self@.take(i + 1).last() == self@[i as int]);
            }
            if self.rows[i].status == FileStatus::Sent {
                let size: u64 = self.rows[i].size;
                if size > u64::MAX - sum {
                    proof {
                        lemma_sent_bytes_grows(self@, i + 1);
                    }
                    return Err(StoreError::Overflow);
                }
                sum += size;
            }
            i += 1;
        }
        assert(self@.take(self@.len() as int) =~= self@);
        Ok(sum)
    }

    /// Copies of all rows, in ledger order.
    pub fn records(&self) -> (out: Vec<FileRecord>)
        ensures
            views_of(out@) == self@,
    {
        let mut out: Vec<FileRecord> = Vec::new();
        let mut i: usize = 0;
        while i < self.rows.len()
            invariant
                i <= self.rows.len(),
                views_of(out@) =~= self@.take(i as int),
            decreases self.rows.len() - i,
        {
            let copy = self.rows[i].duplicate();
            proof {
                assert(views_of(out@.push(copy)) =~= views_of(out@).push(copy@));
                assert(self@.take(i + 1) =~= self@.take(i as int).push(self@[i as int]));
            }
            out.push(copy);
            i += 1;
        }
        assert(self@.take(self@.len() as int) =~= self@);
        out
    }
}

/// Marking changes neither paths nor ids, so the invariant survives it.
pub proof fn lemma_marked_wf(rows: Seq<FileRecordView>, path: Seq<char>, status: FileStatus)
    requires
        ledger_wf(rows),
    ensures
        ledger_wf(marked(rows, path, status)),
{
    let after = marked(rows, path, status);
    assert forall|i: int, j: int| 0 <= i < j < after.len() implies (#[trigger] after[i]).relative_path
        != (#[trigger] after[j]).relative_path && after[i].id < after[j].id by {
        assert(after[i].relative_path == rows[i].relative_path);
        assert(after[j].relative_path == rows[j].relative_path);
    }
}

/// The sent total of a prefix never exceeds that of the whole ledger.
pub proof fn lemma_sent_bytes_grows(rows: Seq<FileRecordView>, k: int)
    requires
        0 <= k <= rows.len(),
    ensures
        sent_bytes(rows.take(k)) <= sent_bytes(rows),
    decreases rows.len(),
{
    if k == rows.len() {
        assert(rows.take(k) =~= rows);
    } else {
        lemma_sent_bytes_grows(rows.drop_last(), k);
        assert(rows.drop_last().take(k) =~= rows.take(k));
    }
}

/// Insert-or-ignore is idempotent: once a path is in, offering it again,
/// with whatever size or kind, changes nothing.
pub proof fn lemma_insert_twice(
    rows: Seq<FileRecordView>,
    path: Seq<char>,
    size: nat,
    is_dir: bool,
    size_again: nat,
    is_dir_again: bool,
)
    ensures
        has_path(insert_or_ignore(rows, path, size, is_dir), path),
        insert_or_ignore(insert_or_ignore(rows, path, size, is_dir), path, size_again, is_dir_again)
            == insert_or_ignore(rows, path, size, is_dir),
{
    let once = insert_or_ignore(rows, path, size, is_dir);
    if !has_path(rows, path) {
        assert(once[rows.len() as int].relative_path == path);
    }
}

/// Neither inserting nor marking ever makes a settled row pending again:
/// only a reset does.
pub proof fn lemma_no_way_back(
    rows: Seq<FileRecordView>,
    path: Seq<char>,
    size: nat,
    is_dir: bool,
    status: FileStatus,
    i: int,
)
    requires
        0 <= i < rows.len(),
        rows[i].status != FileStatus::Pending,
        status != FileStatus::Pending,
    ensures
        insert_or_ignore(rows, path, size, is_dir)[i] == rows[i],
        marked(rows, path, status)[i].status != FileStatus::Pending,
{
}

} // verus!

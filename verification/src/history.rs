//! The catalog of transfers: one row per push, newest id last.

use crate::ledger::StoreError;
use crate::text::{opt_text, same_text};
use vstd::prelude::*;
use vstd::string::*;

verus! {

/// Outcome recorded for a transfer as a whole.
#[derive(Debug, Clone, Copy, PartialEq, Eq, Structural)]
pub enum TransferStatus {
    Pending,
    Completed,
    Failed,
}

/// The word under which a status is stored.
pub open spec fn transfer_status_text(status: TransferStatus) -> Seq<char> {
    match status {
        TransferStatus::Pending => "Pending"@,
        TransferStatus::Completed => "Completed"@,
        TransferStatus::Failed => "Failed"@,
    }
}

impl TransferStatus {
    /// The word under which the status is stored.
    pub fn as_str(&self) -> (word: &'static str)
        ensures
            word@ == transfer_status_text(*self),
    {
        match self {
            TransferStatus::Pending => "Pending",
            TransferStatus::Completed => "Completed",
            TransferStatus::Failed => "Failed",
        }
    }

    /// The status a stored word stands for; `None` for any other text.
    pub fn from_text(word: &str) -> (r: Option<TransferStatus>)
        ensures
            match r {
                Some(status) => word@ == transfer_status_text(status),
                None => forall|status: TransferStatus| word@ != transfer_status_text(status),
            },
    {
        if same_text(word, "Pending") {
            Some(TransferStatus::Pending)
        } else if same_text(word, "Completed") {
            Some(TransferStatus::Completed)
        } else if same_text(word, "Failed") {
            Some(TransferStatus::Failed)
        } else {
            None
        }
    }
}

/// One catalog row.
#[derive(Debug)]
pub struct Transfer {
    pub id: i64,
    /// Absolute source path as recorded when the transfer was created.
    pub path: String,
    pub ip: String,
    pub port: u16,
    pub status: TransferStatus,
    pub created_at: String,
    /// False while the ledger may still be a prefix of the source tree.
    pub listing_complete: bool,
    /// The exclude patterns in serialized form, if any were given.
    pub exclude_patterns: Option<String>,
}

/// Mathematical content of a [`Transfer`].
pub struct TransferView {
    pub id: int,
    pub path: Seq<char>,
    pub ip: Seq<char>,
    pub port: nat,
    pub status: TransferStatus,
    pub created_at: Seq<char>,
    pub listing_complete: bool,
    pub exclude_patterns: Option<Seq<char>>,
}

impl View for Transfer {
    type V = TransferView;

    open spec fn view(&self) -> TransferView {
        TransferView {
            id: self.id as int,
            path: self.path@,
            ip: self.ip@,
            port: self.port as nat,
            status: self.status,
            created_at: self.created_at@,
            listing_complete: self.listing_complete,
            exclude_patterns: opt_text(self.exclude_patterns),
        }
    }
}

/// An independent copy of an optional string.
pub fn duplicate_text(s: &Option<String>) -> (r: Option<String>)
    ensures
        opt_text(r) == opt_text(*s),
{
    match s {
        Some(t) => Some(t.clone()),
        None => None,
    }
}

impl Transfer {
    /// An independent copy of the row.
    pub fn duplicate(&self) -> (r: Transfer)
        ensures
            r@ == self@,
    {
        Transfer {
            id: self.id,
            path: self.path.clone(),
            ip: self.ip.clone(),
            port: self.port,
            status: self.status,
            created_at: self.created_at.clone(),
            listing_complete: self.listing_complete,
            exclude_patterns: duplicate_text(&self.exclude_patterns),
        }
    }
}

/// The views of a run of rows, in order.
pub open spec fn views_of(rows: Seq<Transfer>) -> Seq<TransferView> {
    rows.map_values(|t: Transfer| t@)
}

/// Whether some row has the id.
pub open spec fn has_id(rows: Seq<TransferView>, id: int) -> bool {
    exists|i: int| 0 <= i < rows.len() && (#[trigger] rows[i]).id == id
}

/// The row with the id, where there is one.
pub open spec fn row_with(rows: Seq<TransferView>, id: int) -> TransferView {
    rows[choose|i: int| 0 <= i < rows.len() && (#[trigger] rows[i]).id == id]
}

/// The catalog invariant: ids grow with position, so none occurs twice.
pub open spec fn catalog_wf(rows: Seq<TransferView>) -> bool {
    forall|i: int, j: int| 0 <= i < j < rows.len() ==> (#[trigger] rows[i]).id < (#[trigger] rows[j]).id
}

/// The id the next transfer receives: one past the last, or 1 in an empty catalog.
pub open spec fn next_id(rows: Seq<TransferView>) -> int {
    if rows.len() == 0 {
        1
    } else {
        rows.last().id + 1
    }
}

/// The row a push creates: pending, listing not yet complete.
pub open spec fn fresh_row(
    id: int,
    path: Seq<char>,
    ip: Seq<char>,
    port: nat,
    exclude_patterns: Option<Seq<char>>,
    created_at: Seq<char>,
) -> TransferView {
    TransferView {
        id,
        path,
        ip,
        port,
        status: TransferStatus::Pending,
        created_at,
        listing_complete: false,
        exclude_patterns,
    }
}

/// The catalog after `change` was applied to every row with the id.
pub open spec fn updated(
    rows: Seq<TransferView>,
    id: int,
    change: spec_fn(TransferView) -> TransferView,
) -> Seq<TransferView> {
    rows.map_values(
        |t: TransferView|
            if t.id == id {
                change(t)
            } else {
                t
            },
    )
}

/// The change "status becomes `status`".
pub open spec fn set_status(status: TransferStatus) -> spec_fn(TransferView) -> TransferView {
    |t: TransferView| TransferView { status, ..t }
}

/// The change "listing_complete becomes `complete`".
pub open spec fn set_listing(complete: bool) -> spec_fn(TransferView) -> TransferView {
    |t: TransferView| TransferView { listing_complete: complete, ..t }
}

/// The change "the stored exclude patterns become `json`".
pub open spec fn set_excludes(json: Seq<char>) -> spec_fn(TransferView) -> TransferView {
    |t: TransferView| TransferView { exclude_patterns: Some(json), ..t }
}

/// The test "has another id than `id`".
pub open spec fn other_than(id: int) -> spec_fn(TransferView) -> bool {
    |t: TransferView| t.id != id
}

/// One change to a catalog row.
enum Change {
    Status(TransferStatus),
    Listing(bool),
    Excludes(String),
}

impl Change {
    /// What the change makes of a row.
    spec fn as_spec(&self) -> spec_fn(TransferView) -> TransferView {
        match self {
            Change::Status(status) => set_status(*status),
            Change::Listing(complete) => set_listing(*complete),
            Change::Excludes(json) => set_excludes(json@),
        }
    }
}

/// The catalog of transfers.
pub struct Db {
    rows: Vec<Transfer>,
}

impl View for Db {
    type V = Seq<TransferView>;

    closed spec fn view(&self) -> Seq<TransferView> {
        views_of(self.rows@)
    }
}

impl Db {
    /// The invariant every catalog keeps.
    pub open spec fn wf(&self) -> bool {
        catalog_wf(self@)
    }

    /// An empty catalog.
    pub fn init() -> (db: Db)
        ensures
            db.wf(),
            db@ == Seq::<TransferView>::empty(),
    {
        let db = Db { rows: Vec::new() };
        assert(db@ =~= Seq::<TransferView>::empty());
        db
    }

    /// A catalog holding `rows` as they were stored. `Corrupt` exactly when
    /// their ids do not grow from row to row.
    pub fn restore(rows: Vec<Transfer>) -> (r: Result<Db, StoreError>)
        ensures
            catalog_wf(views_of(rows@)) ==> r is Ok && r->Ok_0.wf() && r->Ok_0@ == views_of(rows@),
            !catalog_wf(views_of(rows@)) ==> r is Err && r->Err_0 == StoreError::Corrupt,
    {
        let ghost all = views_of(rows@);
        let mut i: usize = 0;
        while i < rows.len()
            invariant
                i <= rows.len(),
                all == views_of(rows@),
                forall|a: int, b: int| 0 <= a < b < i ==> (#[trigger] all[a]).id < (#[trigger] all[b]).id,
            decreases rows.len() - i,
        {
            if i > 0 && rows[i - 1].id >= rows[i].id {
                assert(all[i - 1].id >= all[i as int].id);
                return Err(StoreError::Corrupt);
            }
            assert forall|a: int, b: int| 0 <= a < b < i + 1 implies (#[trigger] all[a]).id < (
            #[trigger] all[b]).id by {
                if b == i && a < i - 1 {
                    assert(all[a].id < all[i - 1].id);
                }
            }
            i += 1;
        }
        Ok(Db { rows })
    }

    /// Records a new transfer: pending, listing incomplete, with the next id,
    /// which is returned. `Full` comes exactly when the last id is the largest
    /// there is; the catalog is then unchanged.
    pub fn add_transfer(
        &mut self,
        path: &str,
        ip: &str,
        port: u16,
        exclude_patterns: Option<String>,
        created_at: &str,
    ) -> (r: Result<i64, StoreError>)
        requires
            old(self).wf(),
        ensures
            final(self).wf(),
            next_id(old(self)@) <= i64::MAX ==> r is Ok && r->Ok_0 as int == next_id(old(self)@)
                && final(self)@ == old(self)@.push(
                fresh_row(
                    next_id(old(self)@),
                    path@,
                    ip@,
                    port as nat,
                    opt_text(exclude_patterns),
                    created_at@,
                ),
            ),
            next_id(old(self)@) > i64::MAX ==> r == Err::<i64, StoreError>(StoreError::Full)
                && final(self)@ == old(self)@,
    {
        let n: usize = self.rows.len();
        let id: i64 = if n == 0 {
            1
        } else {
            let last: i64 = self.rows[n - 1].id;
            assert(self@.last() == self.rows@[n - 1]@);
            if last == i64::MAX {
                return Err(StoreError::Full);
            }
            last + 1
        };
        let row = Transfer {
            id,
            path: String::from_str(path),
            ip: String::from_str(ip),
            port,
            status: TransferStatus::Pending,
            created_at: String::from_str(created_at),
            listing_complete: false,
            exclude_patterns,
        };
        proof {
            assert(views_of(self.rows@.push(row)) =~= views_of(self.rows@).push(row@));
        }
        self.rows.push(row);
        Ok(id)
    }

    /// Applies `change` to every row with the id.
    fn change_rows(&mut self, id: i64, change: &Change)
        requires
            old(self).wf(),
        ensures
            final(self).wf(),
            final(self)@ == updated(old(self)@, id as int, change.as_spec()),
    {
        let mut i: usize = 0;
        while i < self.rows.len()
            invariant
                i <= self.rows.len(),
                self@.len() == old(self)@.len(),
                forall|j: int|
                    0 <= j < i ==> #[trigger] self@[j] == updated(
                        old(self)@,
                        id as int,
                        change.as_spec(),
                    )[j],
                forall|j: int| i <= j < self@.len() ==> #[trigger] self@[j] == old(self)@[j],
            decreases self.rows.len() - i,
        {
            let ghost before = self@;
            assert(before[i as int] == old(self)@[i as int]);
            if self.rows[i].id == id {
                let mut row = self.rows[i].duplicate();
                match change {
                    Change::Status(status) => {
                        row.status = *status;
                    },
                    Change::Listing(complete) => {
                        row.listing_complete = *complete;
                    },
                    Change::Excludes(json) => {
                        row.exclude_patterns = Some(json.clone());
                    },
                }
                self.rows.set(i, row);
                assert(self@ =~= before.update(i as int, row@));
            }
            i += 1;
        }
        assert(self@ =~= updated(old(self)@, id as int, change.as_spec()));
    }

    /// Sets the status of transfer `id`; an unknown id changes nothing.
    pub fn update_status(&mut self, id: i64, status: TransferStatus)
        requires
            old(self).wf(),
        ensures
            final(self).wf(),
            final(self)@ == updated(old(self)@, id as int, set_status(status)),
    {
        self.change_rows(id, &Change::Status(status))
    }

    /// Sets the listing flag of transfer `id`; an unknown id changes nothing.
    pub fn set_listing_complete(&mut self, id: i64, complete: bool)
        requires
            old(self).wf(),
        ensures
            final(self).wf(),
            final(self)@ == updated(old(self)@, id as int, set_listing(complete)),
    {
        self.change_rows(id, &Change::Listing(complete))
    }

    /// Stores the serialized exclude patterns of transfer `id`; an unknown id
    /// changes nothing.
    pub fn update_excludes(&mut self, id: i64, json: &str)
        requires
            old(self).wf(),
        ensures
            final(self).wf(),
            final(self)@ == updated(old(self)@, id as int, set_excludes(json@)),
    {
        self.change_rows(id, &Change::Excludes(String::from_str(json)))
    }

    /// Removes transfer `id`; an unknown id changes nothing.
    pub fn delete_transfer(&mut self, id: i64)
        requires
            old(self).wf(),
        ensures
            final(self).wf(),
            final(self)@ == old(self)@.filter(other_than(id as int)),
    {
        let mut kept: Vec<Transfer> = Vec::new();
        let mut i: usize = 0;
        assert(self@.take(0) =~= Seq::<TransferView>::empty());
        assert(views_of(kept@) =~= Seq::<TransferView>::empty());
        proof {
            reveal(Seq::filter);
        }
        while i < self.rows.len()
            invariant
                i <= self.rows.len(),
                self@ == old(self)@,
                views_of(kept@) == self@.take(i as int).filter(other_than(id as int)),
            decreases self.rows.len() - i,
        {
            proof {
                assert(self@.take(i + 1) =~= self@.take(i as int).push(self@[i as int]));
                self@.take(i as int).lemma_filter_push(self@[i as int], other_than(id as int));
            }
            if self.rows[i].id != id {
                let copy = self.rows[i].duplicate();
                assert(views_of(kept@.push(copy)) =~= views_of(kept@).push(copy@));
                kept.push(copy);
            }
            i += 1;
        }
        assert(self@.take(self@.len() as int) =~= self@);
        proof {
            lemma_filter_keeps_order(old(self)@, id as int);
        }
        self.rows = kept;
    }

    /// All transfers, newest first.
    pub fn list_transfers(&self) -> (out: Vec<Transfer>)
        ensures
            views_of(out@) == self@.reverse(),
    {
        let n: usize = self.rows.len();
        let mut out: Vec<Transfer> = Vec::new();
        let mut i: usize = n;
        while i > 0
            invariant
                n == self.rows.len(),
                i <= n,
                out@.len() == n - i,
                forall|k: int| 0 <= k < out@.len() ==> (#[trigger] out@[k])@ == self@[n - 1 - k],
            decreases i,
        {
            i -= 1;
            let copy = self.rows[i].duplicate();
            out.push(copy);
        }
        assert(views_of(out@) =~= self@.reverse());
        out
    }

    /// The transfer with the id, or `NotFound` when the catalog has none.
    pub fn get_transfer(&self, id: i64) -> (r: Result<Transfer, StoreError>)
        requires
            self.wf(),
        ensures
            match r {
                Ok(t) => has_id(self@, id as int) && t@ == row_with(self@, id as int),
                Err(e) => e == StoreError::NotFound && !has_id(self@, id as int),
            },
    {
        let mut i: usize = 0;
        while i < self.rows.len()
            invariant
                i <= self.rows.len(),
                self.wf(),
                forall|j: int| 0 <= j < i ==> (#[trigger] self@[j]).id != id,
            decreases self.rows.len() - i,
        {
            if self.rows[i].id == id {
                let copy = self.rows[i].duplicate();
                proof {
                    assert(self@[i as int] == copy@);
                    let j = choose|j: int| 0 <= j < self@.len() && (#[trigger] self@[j]).id == id;
                    if j < i {
                        assert(self@[j].id < self@[i as int].id);
                    } else if i < j {
                        assert(self@[i as int].id < self@[j].id);
                    }
                }
                return Ok(copy);
            }
            i += 1;
        }
        Err(StoreError::NotFound)
    }
}

/// Dropping rows keeps the remaining ids in growing order.
pub proof fn lemma_filter_keeps_order(rows: Seq<TransferView>, id: int)
    requires
        catalog_wf(rows),
    ensures
        catalog_wf(rows.filter(other_than(id))),
        forall|k: int|
            0 <= k < rows.filter(other_than(id)).len() ==> rows.contains(
                #[trigger] rows.filter(other_than(id))[k],
            ),
    decreases rows.len(),
{
    reveal(Seq::filter);
    let p = other_than(id);
    if rows.len() > 0 {
        let rest = rows.drop_last();
        lemma_filter_keeps_order(rest, id);
        let kept = rest.filter(p);
        assert forall|k: int| 0 <= k < kept.len() implies (#[trigger] kept[k]).id < rows.last().id by {
            assert(rest.contains(kept[k]));
            let m = choose|m: int| 0 <= m < rest.len() && rest[m] == kept[k];
            assert(rows[m] == rest[m]);
        }
        assert forall|k: int| 0 <= k < rows.filter(p).len() implies rows.contains(
            #[trigger] rows.filter(p)[k],
        ) by {
            if k < kept.len() {
                assert(rest.contains(kept[k]));
                let m = choose|m: int| 0 <= m < rest.len() && rest[m] == kept[k];
                assert(rows[m] == rest[m]);
            } else {
                assert(rows[rows.len() - 1] == rows.last());
            }
        }
    }
}

} // verus!

//! What the verbs push, resume, restart and remove do to the catalog and
//! the ledger before and after the scan and send phases run.

use crate::exclude::{
    encode_excludes, in_force, json_of_list, resolve_excludes, stored_form, texts,
};
use crate::history::{
    catalog_wf, fresh_row, has_id, next_id, other_than, row_with, set_excludes,
    set_listing, set_status, updated, Db, TransferStatus, TransferView,
};
use crate::ledger::{FileRecordView, TransferLog};
use crate::text::push_char;
use crate::units::{decimal, push_decimal};
use vstd::prelude::*;
use vstd::string::*;

verus! {

/// Why a verb could not start.
#[derive(Debug, Clone, Copy, PartialEq, Eq, Structural)]
pub enum VerbError {
    /// The catalog has no transfer with the id.
    NotFound,
    /// The catalog cannot hand out another id.
    Full,
}

/// What a resumed or restarted run works on.
#[derive(Debug)]
pub struct RunPlan {
    /// The source path recorded when the transfer was created.
    pub path: String,
    pub ip: String,
    pub port: u16,
    /// The exclude patterns in force.
    pub patterns: Vec<String>,
    /// Whether the source tree has to be scanned before sending.
    pub rescan: bool,
}

/// `id` in decimal, with a minus sign where it is negative.
pub open spec fn signed_decimal(id: int) -> Seq<char> {
    if id < 0 {
        seq!['-'] + decimal((-id) as nat)
    } else {
        decimal(id as nat)
    }
}

/// The name of the file that holds the ledger of transfer `id`.
pub open spec fn ledger_file(id: int) -> Seq<char> {
    "send_history_"@ + signed_decimal(id) + ".db"@
}

/// The names of all files a ledger may leave on disk: the ledger itself and
/// the two journal files beside it.
pub open spec fn ledger_artifacts(id: int) -> Seq<Seq<char>> {
    seq![ledger_file(id), ledger_file(id) + "-wal"@, ledger_file(id) + "-shm"@]
}

/// The name of the file that holds the ledger of transfer `id`.
pub fn ledger_file_name(id: i64) -> (name: String)
    ensures
        name@ == ledger_file(id as int),
{
    let mut name = String::from_str("send_history_");
    if id < 0 {
        push_char(&mut name, '-');
        let size: u128 = (-(id as i128)) as u128;
        push_decimal(&mut name, size);
        assert(name@ =~= "send_history_"@ + signed_decimal(id as int));
    } else {
        push_decimal(&mut name, id as u128);
    }
    name.append(".db");
    name
}

/// The catalog after a push was recorded.
pub open spec fn pushed(
    rows: Seq<TransferView>,
    path: Seq<char>,
    ip: Seq<char>,
    port: nat,
    excludes: Seq<Seq<char>>,
    created_at: Seq<char>,
) -> Seq<TransferView> {
    rows.push(fresh_row(next_id(rows), path, ip, port, stored_form(excludes), created_at))
}

/// Starts a push: records the transfer as pending with its listing
/// incomplete and its exclude patterns in stored form, and hands out its
/// empty ledger. `Full` comes exactly when no id is left; the catalog then
/// stays as it is.
pub fn begin_push(
    db: &mut Db,
    path: &str,
    ip: &str,
    port: u16,
    excludes: &Vec<String>,
    created_at: &str,
) -> (r: Result<TransferLog, VerbError>)
    requires
        old(db).wf(),
    ensures
        final(db).wf(),
        next_id(old(db)@) <= i64::MAX ==> {
            &&& r is Ok
            &&& final(db)@ == pushed(old(db)@, path@, ip@, port as nat, texts(excludes@), created_at@)
            &&& r->Ok_0.wf()
            &&& r->Ok_0@ == Seq::<FileRecordView>::empty()
            &&& r->Ok_0.spec_transfer_id() == next_id(old(db)@)
        },
        next_id(old(db)@) > i64::MAX ==> r == Err::<TransferLog, VerbError>(VerbError::Full)
            && final(db)@ == old(db)@,
{
    let stored = encode_excludes(excludes);
    match db.add_transfer(path, ip, port, stored, created_at) {
        Ok(id) => Ok(TransferLog::new(id)),
        Err(_) => Err(VerbError::Full),
    }
}

/// Records that the source tree is listed in full.
pub fn finish_scan(db: &mut Db, id: i64)
    requires
        old(db).wf(),
    ensures
        final(db).wf(),
        final(db)@ == updated(old(db)@, id as int, set_listing(true)),
{
    db.set_listing_complete(id, true)
}

/// The status a run leaves behind.
pub open spec fn outcome(delivered: bool) -> TransferStatus {
    if delivered {
        TransferStatus::Completed
    } else {
        TransferStatus::Failed
    }
}

/// Records how the send phase ended: completed when it delivered
/// everything, failed otherwise.
pub fn finish_transfer(db: &mut Db, id: i64, delivered: bool)
    requires
        old(db).wf(),
    ensures
        final(db).wf(),
        final(db)@ == updated(old(db)@, id as int, set_status(outcome(delivered))),
{
    if delivered {
        db.update_status(id, TransferStatus::Completed)
    } else {
        db.update_status(id, TransferStatus::Failed)
    }
}

/// Whether a plan is the one for resuming `row` with the patterns `given`.
pub open spec fn plans_for(plan: RunPlan, row: TransferView, given: Seq<Seq<char>>) -> bool {
    &&& plan.path@ == row.path
    &&& plan.ip@ == row.ip
    &&& plan.port == row.port
    &&& texts(plan.patterns@) == in_force(given, row.exclude_patterns)
}

/// The catalog after the patterns `given` were settled for transfer `id`:
/// given patterns are stored, none given stores nothing.
pub open spec fn with_excludes(rows: Seq<TransferView>, id: int, given: Seq<Seq<char>>) -> Seq<
    TransferView,
> {
    if given.len() == 0 {
        rows
    } else {
        updated(rows, id, set_excludes(json_of_list(given)))
    }
}

/// Starts a resume. `NotFound` comes exactly when the catalog lacks the id;
/// the catalog then stays as it is. Patterns that are given are stored and
/// used, else the stored ones are used; the tree is scanned again only if
/// its listing never completed.
pub fn begin_resume(db: &mut Db, id: i64, given: Vec<String>) -> (r: Result<RunPlan, VerbError>)
    requires
        old(db).wf(),
    ensures
        final(db).wf(),
        has_id(old(db)@, id as int) ==> {
            &&& r is Ok
            &&& final(db)@ == with_excludes(old(db)@, id as int, texts(given@))
            &&& plans_for(r->Ok_0, row_with(old(db)@, id as int), texts(given@))
            &&& r->Ok_0.rescan == !row_with(old(db)@, id as int).listing_complete
        },
        !has_id(old(db)@, id as int) ==> r == Err::<RunPlan, VerbError>(VerbError::NotFound)
            && final(db)@ == old(db)@,
{
    let row = match db.get_transfer(id) {
        Ok(row) => row,
        Err(_) => {
            return Err(VerbError::NotFound);
        },
    };
    let choice = resolve_excludes(given, &row.exclude_patterns);
    match &choice.persist {
        Some(json) => db.update_excludes(id, json.as_str()),
        None => {},
    }
    Ok(
        RunPlan {
            path: row.path,
            ip: row.ip,
            port: row.port,
            patterns: choice.patterns,
            rescan: !row.listing_complete,
        },
    )
}

/// The catalog after transfer `id` was set back for a restart.
pub open spec fn restarted(rows: Seq<TransferView>, id: int, given: Seq<Seq<char>>) -> Seq<
    TransferView,
> {
    updated(
        updated(with_excludes(rows, id, given), id, set_listing(false)),
        id,
        set_status(TransferStatus::Pending),
    )
}

/// A restart leaves the transfer's row as a push of the same source to the
/// same receiver creates it: pending, its listing incomplete, with the path
/// and the address it had. Only the id and the creation time tell them apart.
pub proof fn lemma_restart_like_push(
    rows: Seq<TransferView>,
    id: int,
    given: Seq<Seq<char>>,
    other: Seq<TransferView>,
    excludes: Seq<Seq<char>>,
    created_at: Seq<char>,
)
    requires
        catalog_wf(rows),
        has_id(rows, id),
    ensures
        has_id(restarted(rows, id, given), id),
        ({
            let before = row_with(rows, id);
            let after = row_with(restarted(rows, id, given), id);
            let fresh = pushed(other, before.path, before.ip, before.port, excludes, created_at).last();
            &&& after.status == fresh.status
            &&& after.listing_complete == fresh.listing_complete
            &&& after.path == fresh.path
            &&& after.ip == fresh.ip
            &&& after.port == fresh.port
            &&& after.id == before.id
        }),
{
    let after = restarted(rows, id, given);
    let i = choose|i: int| 0 <= i < rows.len() && (#[trigger] rows[i]).id == id;
    assert(after[i].id == id);
    let j = choose|j: int| 0 <= j < after.len() && (#[trigger] after[j]).id == id;
    assert(after[j].id == rows[j].id);
    if i < j {
        assert(rows[i].id < rows[j].id);
    } else if j < i {
        assert(rows[j].id < rows[i].id);
    }
}

/// Starts a restart: as a resume, but the ledger is emptied, the transfer
/// is pending again with its listing incomplete, and the tree is always
/// scanned. Ledger and catalog row are then as a fresh push of the same
/// source leaves them, so the run that follows does what that push would.
/// `NotFound` comes exactly when the catalog lacks the id; catalog and
/// ledger then stay as they are.
pub fn begin_restart(db: &mut Db, log: &mut TransferLog, id: i64, given: Vec<String>) -> (r: Result<
    RunPlan,
    VerbError,
>)
    requires
        old(db).wf(),
        old(log).wf(),
    ensures
        final(db).wf(),
        final(log).wf(),
        final(log).spec_transfer_id() == old(log).spec_transfer_id(),
        has_id(old(db)@, id as int) ==> {
            &&& r is Ok
            &&& final(db)@ == restarted(old(db)@, id as int, texts(given@))
            &&& final(log)@ == Seq::<FileRecordView>::empty()
            &&& plans_for(r->Ok_0, row_with(old(db)@, id as int), texts(given@))
            &&& r->Ok_0.rescan
        },
        !has_id(old(db)@, id as int) ==> r == Err::<RunPlan, VerbError>(VerbError::NotFound)
            && final(db)@ == old(db)@ && final(log)@ == old(log)@,
{
    let plan = match begin_resume(db, id, given) {
        Ok(plan) => plan,
        Err(e) => {
            return Err(e);
        },
    };
    log.reset();
    db.set_listing_complete(id, false);
    db.update_status(id, TransferStatus::Pending);
    Ok(RunPlan { rescan: true, ..plan })
}

/// Removes transfer `id` from the catalog and names the files of its
/// ledger, for the caller to delete. `NotFound` exactly when the catalog
/// lacks the id; it is then unchanged.
pub fn remove(db: &mut Db, id: i64) -> (r: Result<Vec<String>, VerbError>)
    requires
        old(db).wf(),
    ensures
        final(db).wf(),
        has_id(old(db)@, id as int) ==> r is Ok && texts(r->Ok_0@) == ledger_artifacts(id as int)
            && final(db)@ == old(db)@.filter(other_than(id as int)),
        !has_id(old(db)@, id as int) ==> r == Err::<Vec<String>, VerbError>(VerbError::NotFound)
            && final(db)@ == old(db)@,
{
    match db.get_transfer(id) {
        Ok(_) => {},
        Err(_) => {
            return Err(VerbError::NotFound);
        },
    }
    db.delete_transfer(id);
    let ledger = ledger_file_name(id);
    let mut journal = ledger.clone();
    journal.append("-wal");
    let mut shared = ledger.clone();
    shared.append("-shm");
    let mut names: Vec<String> = Vec::new();
    names.push(ledger);
    names.push(journal);
    names.push(shared);
    assert(texts(names@) =~= ledger_artifacts(id as int));
    Ok(names)
}

} // verus!

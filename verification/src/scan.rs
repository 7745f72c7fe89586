//! The scan phase: every entry the walk of the source tree found becomes a
//! pending ledger row under its normalized relative path, unless an exclude
//! pattern matches that path.

use crate::exclude::{any_matches, compile_patterns, is_excluded, texts, valid};
use crate::ledger::{
    has_path, insert_or_ignore, next_id, FileRecord, FileRecordView, StoreError, TransferLog,
};
use crate::paths::{normalize_separators, normalized};
use vstd::prelude::*;
use vstd::string::*;

verus! {

/// What `std::path::Path::parent` returns for a path, on the platform the
/// library is built for.
pub uninterp spec fn path_parent(path: Seq<char>) -> Option<Seq<char>>;

/// What `std::path::Path::file_name` returns for a path, on the platform
/// the library is built for.
pub uninterp spec fn path_file_name(path: Seq<char>) -> Option<Seq<char>>;

/// What `std::path::Path::strip_prefix` returns for a path and a base, on
/// the platform the library is built for, with `None` where it reports that
/// the base is no prefix.
pub uninterp spec fn path_strip_prefix(path: Seq<char>, base: Seq<char>) -> Option<Seq<char>>;

/// Calls `std::path::Path::parent`: the path without its final component,
/// where it has one.
#[verifier::external_body]
fn parent_of(path: &str) -> (r: Option<String>)
    ensures
        crate::text::opt_text(r) == path_parent(path@),
{
    match std::path::Path::new(path).parent() {
        Some(p) => Some(p.to_string_lossy().into_owned()),
        None => None,
    }
}

/// Calls `std::path::Path::file_name`: the final component, where the path
/// has one.
#[verifier::external_body]
fn file_name_of(path: &str) -> (r: Option<String>)
    ensures
        crate::text::opt_text(r) == path_file_name(path@),
{
    match std::path::Path::new(path).file_name() {
        Some(name) => Some(name.to_string_lossy().into_owned()),
        None => None,
    }
}

/// Calls `std::path::Path::strip_prefix`: the rest of `path` behind `base`,
/// where `base` is a prefix of it.
#[verifier::external_body]
fn strip_prefix_of(path: &str, base: &str) -> (r: Option<String>)
    ensures
        crate::text::opt_text(r) == path_strip_prefix(path@, base@),
{
    match std::path::Path::new(path).strip_prefix(base) {
        Ok(rest) => Some(rest.to_string_lossy().into_owned()),
        Err(_) => None,
    }
}

/// One entry as the walk of the source tree found it.
#[derive(Debug)]
pub struct WalkEntry {
    /// The entry's path as the walk reports it.
    pub path: String,
    /// Its size on disk.
    pub size: u64,
    pub is_dir: bool,
}

/// Mathematical content of a [`WalkEntry`].
pub struct WalkEntryView {
    pub path: Seq<char>,
    pub size: nat,
    pub is_dir: bool,
}

impl View for WalkEntry {
    type V = WalkEntryView;

    open spec fn view(&self) -> WalkEntryView {
        WalkEntryView { path: self.path@, size: self.size as nat, is_dir: self.is_dir }
    }
}

/// The views of a run of entries, in order.
pub open spec fn entries_of(entries: Seq<WalkEntry>) -> Seq<WalkEntryView> {
    entries.map_values(|e: WalkEntry| e@)
}

/// Why a scan stopped.
#[derive(Debug)]
pub enum ScanError {
    /// The source is a single file, and the entry's path has no final component.
    NoFileName { path: String },
    /// The entry does not lie under the directory that holds the source.
    OutsideSource { path: String },
    /// The ledger could not take another row.
    Ledger(StoreError),
}

/// Mathematical content of a [`ScanError`].
pub enum ScanErrorView {
    NoFileName { path: Seq<char> },
    OutsideSource { path: Seq<char> },
    Ledger(StoreError),
}

impl View for ScanError {
    type V = ScanErrorView;

    open spec fn view(&self) -> ScanErrorView {
        match self {
            ScanError::NoFileName { path } => ScanErrorView::NoFileName { path: path@ },
            ScanError::OutsideSource { path } => ScanErrorView::OutsideSource { path: path@ },
            ScanError::Ledger(e) => ScanErrorView::Ledger(*e),
        }
    }
}

/// The directory the relative paths of a tree start from: the one that
/// holds the source, or `.` where the source has no parent.
pub open spec fn scan_root(source: Seq<char>) -> Seq<char> {
    match path_parent(source) {
        Some(parent) => parent,
        None => seq!['.'],
    }
}

/// The relative path under which an entry is recorded: for a single-file
/// source its file name, else its path relative to the directory that holds
/// the source, so that the source's own name comes first; separators
/// normalized either way.
pub open spec fn relative_of(source: Seq<char>, source_is_file: bool, entry: Seq<char>) -> Result<
    Seq<char>,
    ScanErrorView,
> {
    if source_is_file {
        match path_file_name(entry) {
            Some(name) => Ok(normalized(name)),
            None => Err(ScanErrorView::NoFileName { path: entry }),
        }
    } else {
        match path_strip_prefix(entry, scan_root(source)) {
            Some(rest) => Ok(normalized(rest)),
            None => Err(ScanErrorView::OutsideSource { path: entry }),
        }
    }
}

/// The size a row records: a directory carries none.
pub open spec fn recorded_size(entry: WalkEntryView) -> nat {
    if entry.is_dir {
        0
    } else {
        entry.size
    }
}

/// The ledger after one entry, or the error the entry stops the scan with.
pub open spec fn scan_one(
    ledger: Seq<FileRecordView>,
    source: Seq<char>,
    source_is_file: bool,
    patterns: Seq<Seq<char>>,
    entry: WalkEntryView,
) -> Result<Seq<FileRecordView>, ScanErrorView> {
    match relative_of(source, source_is_file, entry.path) {
        Err(e) => Err(e),
        Ok(relative) => if any_matches(patterns, relative) {
            Ok(ledger)
        } else if !has_path(ledger, relative) && next_id(ledger) > i64::MAX {
            Err(ScanErrorView::Ledger(StoreError::Full))
        } else {
            Ok(insert_or_ignore(ledger, relative, recorded_size(entry), entry.is_dir))
        },
    }
}

/// The ledger after the entries in order, and the error at which the scan
/// stopped, if it did; rows recorded before the error stay.
pub open spec fn scan_all(
    ledger: Seq<FileRecordView>,
    source: Seq<char>,
    source_is_file: bool,
    patterns: Seq<Seq<char>>,
    entries: Seq<WalkEntryView>,
) -> (Seq<FileRecordView>, Option<ScanErrorView>)
    decreases entries.len(),
{
    if entries.len() == 0 {
        (ledger, None)
    } else {
        let before = scan_all(ledger, source, source_is_file, patterns, entries.drop_last());
        if before.1 is Some {
            before
        } else {
            match scan_one(before.0, source, source_is_file, patterns, entries.last()) {
                Ok(after) => (after, None),
                Err(e) => (before.0, Some(e)),
            }
        }
    }
}

/// The relative path under which the entry at `entry` is recorded.
pub fn relative_path_of(source: &str, source_is_file: bool, entry: &str) -> (r: Result<
    String,
    ScanError,
>)
    ensures
        match r {
            Ok(relative) => relative_of(source@, source_is_file, entry@) == Ok::<
                Seq<char>,
                ScanErrorView,
            >(relative@),
            Err(e) => relative_of(source@, source_is_file, entry@) == Err::<
                Seq<char>,
                ScanErrorView,
            >(e@),
        },
{
    if source_is_file {
        match file_name_of(entry) {
            Some(name) => Ok(normalize_separators(name.as_str())),
            None => Err(ScanError::NoFileName { path: String::from_str(entry) }),
        }
    } else {
        let root: String = match parent_of(source) {
            Some(parent) => parent,
            None => {
                proof {
                    reveal_strlit(".");
                }
                let dot = String::from_str(".");
                assert(dot@ =~= seq!['.']);
                dot
            },
        };
        match strip_prefix_of(entry, root.as_str()) {
            Some(rest) => Ok(normalize_separators(rest.as_str())),
            None => Err(ScanError::OutsideSource { path: String::from_str(entry) }),
        }
    }
}

/// Where the scan puts a walked entry, decided from its path alone: the
/// relative path to record it under, or `None` where an exclude pattern
/// matches that path.
pub open spec fn placement(
    source: Seq<char>,
    source_is_file: bool,
    patterns: Seq<Seq<char>>,
    entry: Seq<char>,
) -> Result<Option<Seq<char>>, ScanErrorView> {
    match relative_of(source, source_is_file, entry) {
        Err(e) => Err(e),
        Ok(relative) => if any_matches(patterns, relative) {
            Ok(None)
        } else {
            Ok(Some(relative))
        },
    }
}

/// Places one walked entry: its relative path, `None` if a pattern excludes
/// it, or the reason it cannot be placed. Nothing of the entry but its path
/// is looked at, so an excluded entry need not even be readable.
pub fn place_entry(
    source: &str,
    source_is_file: bool,
    entry: &str,
    patterns: &Vec<glob::Pattern>,
) -> (r: Result<Option<String>, ScanError>)
    ensures
        match r {
            Ok(placed) => placement(
                source@,
                source_is_file,
                crate::exclude::texts_of(patterns@),
                entry@,
            ) == Ok::<Option<Seq<char>>, ScanErrorView>(crate::text::opt_text(placed)),
            Err(e) => placement(
                source@,
                source_is_file,
                crate::exclude::texts_of(patterns@),
                entry@,
            ) == Err::<Option<Seq<char>>, ScanErrorView>(e@),
        },
{
    match relative_path_of(source, source_is_file, entry) {
        Err(e) => Err(e),
        Ok(relative) => {
            if is_excluded(patterns, relative.as_str()) {
                Ok(None)
            } else {
                Ok(Some(relative))
            }
        },
    }
}

/// Records a placed entry as a pending row, a directory with size 0. A path
/// the ledger holds already is left as it is. Returns the row that was
/// added, if one was. `Full` comes exactly when a new row is due and no id
/// is left; the ledger then stays as it is.
pub fn record_entry(log: &mut TransferLog, relative: &str, size: u64, is_dir: bool) -> (r: Result<
    Option<FileRecord>,
    ScanError,
>)
    requires
        old(log).wf(),
    ensures
        final(log).wf(),
        final(log).spec_transfer_id() == old(log).spec_transfer_id(),
        !has_path(old(log)@, relative@) && next_id(old(log)@) > i64::MAX ==> r is Err && r->Err_0@
            == ScanErrorView::Ledger(StoreError::Full) && final(log)@ == old(log)@,
        has_path(old(log)@, relative@) || next_id(old(log)@) <= i64::MAX ==> {
            &&& r is Ok
            &&& final(log)@ == insert_or_ignore(
                old(log)@,
                relative@,
                recorded_size(WalkEntryView { path: relative@, size: size as nat, is_dir }),
                is_dir,
            )
            &&& r->Ok_0 is Some <==> !has_path(old(log)@, relative@)
            &&& r->Ok_0 is Some ==> r->Ok_0->Some_0@ == final(log)@.last()
        },
{
    let known = log.contains_path(relative);
    let kept: u64 = if is_dir {
        0
    } else {
        size
    };
    match log.add_file(relative, kept, is_dir) {
        Err(e) => Err(ScanError::Ledger(e)),
        Ok(_) => {
            if known {
                Ok(None)
            } else {
                Ok(log.newest())
            }
        },
    }
}

/// Records the entries of a walk in the ledger, in order. An entry whose
/// relative path an exclude pattern matches is passed over; a path already
/// in the ledger is left as it is. The scan stops at the first entry that
/// cannot be placed or recorded; what was recorded before it stays.
pub fn scan_files(
    log: &mut TransferLog,
    source: &str,
    source_is_file: bool,
    entries: &Vec<WalkEntry>,
    exclude_patterns: &Vec<String>,
) -> (r: Result<(), ScanError>)
    requires
        old(log).wf(),
    ensures
        final(log).wf(),
        final(log).spec_transfer_id() == old(log).spec_transfer_id(),
        final(log)@ == scan_all(
            old(log)@,
            source@,
            source_is_file,
            texts(exclude_patterns@).filter(valid()),
            entries_of(entries@),
        ).0,
        match r {
            Ok(_) => scan_all(
                old(log)@,
                source@,
                source_is_file,
                texts(exclude_patterns@).filter(valid()),
                entries_of(entries@),
            ).1 is None,
            Err(e) => scan_all(
                old(log)@,
                source@,
                source_is_file,
                texts(exclude_patterns@).filter(valid()),
                entries_of(entries@),
            ).1 == Some(e@),
        },
{
    let patterns = compile_patterns(exclude_patterns);
    let ghost active = texts(exclude_patterns@).filter(valid());
    let ghost all = entries_of(entries@);
    let mut i: usize = 0;
    assert(all.take(0) =~= Seq::<WalkEntryView>::empty());
    while i < entries.len()
        invariant
            i <= entries.len(),
            all == entries_of(entries@),
            active == crate::exclude::texts_of(patterns@),
            active == texts(exclude_patterns@).filter(valid()),
            log.wf(),
            log.spec_transfer_id() == old(log).spec_transfer_id(),
            scan_all(old(log)@, source@, source_is_file, active, all.take(i as int)) == (
                log@,
                None::<ScanErrorView>,
            ),
        decreases entries.len() - i,
    {
        proof {
            assert(all.take(i + 1).drop_last() =~= all.take(i as int));
            assert(all.take(i + 1).last() == entries@[i as int]@);
        }
        let entry = &entries[i];
        let placed = match place_entry(source, source_is_file, entry.path.as_str(), &patterns) {
            Ok(placed) => placed,
            Err(e) => {
                proof {
                    lemma_scan_stops(old(log)@, source@, source_is_file, active, all, i + 1);
                }
                return Err(e);
            },
        };
        match placed {
            None => {},
            Some(relative) => {
                match record_entry(log, relative.as_str(), entry.size, entry.is_dir) {
                    Ok(_) => {},
                    Err(e) => {
                        proof {
                            lemma_scan_stops(old(log)@, source@, source_is_file, active, all, i + 1);
                        }
                        return Err(e);
                    },
                }
            },
        }
        i += 1;
    }
    assert(all.take(all.len() as int) =~= all);
    Ok(())
}

/// Once a scan has stopped at an error, further entries change nothing.
pub proof fn lemma_scan_stops(
    ledger: Seq<FileRecordView>,
    source: Seq<char>,
    source_is_file: bool,
    patterns: Seq<Seq<char>>,
    entries: Seq<WalkEntryView>,
    k: int,
)
    requires
        0 <= k <= entries.len(),
        scan_all(ledger, source, source_is_file, patterns, entries.take(k)).1 is Some,
    ensures
        scan_all(ledger, source, source_is_file, patterns, entries) == scan_all(
            ledger,
            source,
            source_is_file,
            patterns,
            entries.take(k),
        ),
    decreases entries.len() - k,
{
    if k == entries.len() {
        assert(entries.take(k) =~= entries);
    } else {
        assert(entries.take(k + 1).drop_last() =~= entries.take(k));
        lemma_scan_stops(ledger, source, source_is_file, patterns, entries, k + 1);
    }
}

/// Whether every path of `small` is also a path of `big`.
pub open spec fn covers(big: Seq<FileRecordView>, small: Seq<FileRecordView>) -> bool {
    forall|path: Seq<char>| #[trigger] has_path(small, path) ==> has_path(big, path)
}

/// Recording an entry loses no path, and the entry's own path is there
/// afterwards unless a pattern excludes it.
pub proof fn lemma_scan_one_grows(
    ledger: Seq<FileRecordView>,
    source: Seq<char>,
    source_is_file: bool,
    patterns: Seq<Seq<char>>,
    entry: WalkEntryView,
)
    requires
        scan_one(ledger, source, source_is_file, patterns, entry) is Ok,
    ensures
        covers(scan_one(ledger, source, source_is_file, patterns, entry)->Ok_0, ledger),
        relative_of(source, source_is_file, entry.path) is Ok,
        !any_matches(patterns, relative_of(source, source_is_file, entry.path)->Ok_0) ==> has_path(
            scan_one(ledger, source, source_is_file, patterns, entry)->Ok_0,
            relative_of(source, source_is_file, entry.path)->Ok_0,
        ),
{
    let after = scan_one(ledger, source, source_is_file, patterns, entry)->Ok_0;
    let relative = relative_of(source, source_is_file, entry.path)->Ok_0;
    assert forall|path: Seq<char>| #[trigger] has_path(ledger, path) implies has_path(after, path) by {
        let i = choose|i: int| 0 <= i < ledger.len() && (#[trigger] ledger[i]).relative_path == path;
        assert(after[i] == ledger[i]);
    }
    if !any_matches(patterns, relative) && !has_path(ledger, relative) {
        assert(after[ledger.len() as int].relative_path == relative);
    }
}

/// A ledger that already holds every path a scan recorded is left
/// untouched by the same scan.
pub proof fn lemma_covered_scan(
    first: Seq<FileRecordView>,
    later: Seq<FileRecordView>,
    source: Seq<char>,
    source_is_file: bool,
    patterns: Seq<Seq<char>>,
    entries: Seq<WalkEntryView>,
)
    requires
        scan_all(first, source, source_is_file, patterns, entries).1 is None,
        covers(later, scan_all(first, source, source_is_file, patterns, entries).0),
    ensures
        scan_all(later, source, source_is_file, patterns, entries) == (later, None::<ScanErrorView>),
    decreases entries.len(),
{
    if entries.len() > 0 {
        let rest = entries.drop_last();
        let last = entries.last();
        let before = scan_all(first, source, source_is_file, patterns, rest);
        let after = scan_all(first, source, source_is_file, patterns, entries).0;
        lemma_scan_one_grows(before.0, source, source_is_file, patterns, last);
        assert(covers(later, before.0)) by {
            assert forall|path: Seq<char>| #[trigger] has_path(before.0, path) implies has_path(
                later,
                path,
            ) by {
                assert(has_path(after, path));
            }
        }
        lemma_covered_scan(first, later, source, source_is_file, patterns, rest);
        let relative = relative_of(source, source_is_file, last.path)->Ok_0;
        if !any_matches(patterns, relative) {
            assert(has_path(after, relative));
            assert(has_path(later, relative));
        }
    }
}

/// Scanning the same entries twice into the same ledger is the same as
/// scanning them once: the second scan adds nothing and changes nothing.
pub proof fn lemma_rescan_changes_nothing(
    ledger: Seq<FileRecordView>,
    source: Seq<char>,
    source_is_file: bool,
    patterns: Seq<Seq<char>>,
    entries: Seq<WalkEntryView>,
)
    requires
        scan_all(ledger, source, source_is_file, patterns, entries).1 is None,
    ensures
        scan_all(
            scan_all(ledger, source, source_is_file, patterns, entries).0,
            source,
            source_is_file,
            patterns,
            entries,
        ) == scan_all(ledger, source, source_is_file, patterns, entries),
{
    let once = scan_all(ledger, source, source_is_file, patterns, entries).0;
    lemma_covered_scan(ledger, once, source, source_is_file, patterns, entries);
}

/// A scan never touches the rows it finds: they stay where they are, with
/// the status they have, and what it adds is pending.
pub proof fn lemma_scan_keeps_rows(
    ledger: Seq<FileRecordView>,
    source: Seq<char>,
    source_is_file: bool,
    patterns: Seq<Seq<char>>,
    entries: Seq<WalkEntryView>,
)
    ensures
        ledger.len() <= scan_all(ledger, source, source_is_file, patterns, entries).0.len(),
        forall|i: int|
            0 <= i < ledger.len() ==> #[trigger] scan_all(
                ledger,
                source,
                source_is_file,
                patterns,
                entries,
            ).0[i] == ledger[i],
        forall|i: int|
            ledger.len() <= i < scan_all(ledger, source, source_is_file, patterns, entries).0.len()
                ==> (#[trigger] scan_all(ledger, source, source_is_file, patterns, entries).0[i]).status
                == crate::ledger::FileStatus::Pending,
    decreases entries.len(),
{
    if entries.len() > 0 {
        lemma_scan_keeps_rows(ledger, source, source_is_file, patterns, entries.drop_last());
    }
}

/// A scan that ran to its end lists every entry it was given, unless a
/// pattern excludes it: each entry has a relative path, and that path is
/// in the ledger afterwards.
pub proof fn lemma_scan_covers(
    ledger: Seq<FileRecordView>,
    source: Seq<char>,
    source_is_file: bool,
    patterns: Seq<Seq<char>>,
    entries: Seq<WalkEntryView>,
    k: int,
)
    requires
        scan_all(ledger, source, source_is_file, patterns, entries).1 is None,
        0 <= k < entries.len(),
    ensures
        relative_of(source, source_is_file, entries[k].path) is Ok,
        !any_matches(patterns, relative_of(source, source_is_file, entries[k].path)->Ok_0)
            ==> has_path(
            scan_all(ledger, source, source_is_file, patterns, entries).0,
            relative_of(source, source_is_file, entries[k].path)->Ok_0,
        ),
    decreases entries.len(),
{
    let rest = entries.drop_last();
    let before = scan_all(ledger, source, source_is_file, patterns, rest);
    lemma_scan_one_grows(before.0, source, source_is_file, patterns, entries.last());
    if k < entries.len() - 1 {
        lemma_scan_covers(ledger, source, source_is_file, patterns, rest, k);
        assert(rest[k] == entries[k]);
        let relative = relative_of(source, source_is_file, entries[k].path)->Ok_0;
        if !any_matches(patterns, relative) {
            assert(has_path(before.0, relative));
        }
    }
}

} // verus!

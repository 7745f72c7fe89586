//! The receiver's side of one file transaction: where an announced entry
//! goes, which response it gets, and how much payload is taken in.

use crate::framing::FrameError;
use crate::paths::{
    climbs, is_rooted, is_safe, lemma_resolved_stays_inside, lemma_staged_stays_inside,
    name_pieces, on_drive, resolved, safe_relative, staged, staged_name, stays_inside,
};
use crate::protocol::{FileMetadata, FileMetadataView, ServerResponse, ServerResponseView};
use vstd::prelude::*;
use vstd::string::*;

verus! {

/// Where an accepted entry lives, relative to the base directory.
#[derive(Debug)]
pub struct Destination {
    /// The final name.
    pub target: String,
    /// The staging name beside it; payload is written here only.
    pub temp: String,
}

/// What the handler does to the filesystem for one entry.
#[derive(Debug, Clone, Copy, PartialEq, Eq, Structural)]
pub enum Action {
    /// Answer and touch nothing.
    Reply,
    /// Create the target directory with its parents, then answer.
    CreateDir,
    /// Rename the staged file to its final name, then answer.
    Promote,
    /// Answer, then append the payload to the staged file and rename it to
    /// its final name once all of it has arrived. With `offset` 0 the staged
    /// file is first created, or emptied if one is there.
    Receive { offset: u64 },
}

/// The handler's complete answer to one metadata record.
#[derive(Debug)]
pub struct Plan {
    pub action: Action,
    pub response: ServerResponse,
    /// Payload bytes that follow the response.
    pub expect: u64,
}

/// The message of the response to a path that is refused.
pub open spec fn invalid_path_message() -> Seq<char> {
    "Invalid path"@
}

/// Whether the receiver takes the entry at all: its path is safe, and a
/// regular file names at least one component to carry the staging suffix.
pub open spec fn accepts(meta: FileMetadataView) -> bool {
    is_safe(meta.relative_path) && (meta.is_dir || name_pieces(meta.relative_path).len() > 0)
}

/// The decision for a regular file of `size` bytes, given the sizes found
/// at its final and staging names (`None`: nothing there). A staged file
/// longer than `size` is useless and is replaced from scratch.
pub open spec fn file_action(size: u64, target_size: Option<u64>, temp_size: Option<u64>) -> Action {
    if target_size == Some(size) {
        Action::Reply
    } else if temp_size == Some(size) {
        Action::Promote
    } else if temp_size is Some && 0 < temp_size->0 < size {
        Action::Receive { offset: temp_size->0 }
    } else {
        Action::Receive { offset: 0 }
    }
}

/// The action for an entry.
pub open spec fn planned_action(
    meta: FileMetadataView,
    target_size: Option<u64>,
    temp_size: Option<u64>,
) -> Action {
    if !accepts(meta) {
        Action::Reply
    } else if meta.is_dir {
        Action::CreateDir
    } else {
        file_action(meta.size as u64, target_size, temp_size)
    }
}

/// The response that goes with an entry's action.
pub open spec fn planned_response(
    meta: FileMetadataView,
    target_size: Option<u64>,
    temp_size: Option<u64>,
) -> ServerResponseView {
    if !accepts(meta) {
        ServerResponseView::Error { message: invalid_path_message() }
    } else {
        match planned_action(meta, target_size, temp_size) {
            Action::Receive { offset } => if offset == 0 {
                ServerResponseView::Send
            } else {
                ServerResponseView::Resume { offset: offset as nat }
            },
            _ => ServerResponseView::Skip,
        }
    }
}

/// Resolves the entry's names under the base directory. `None` exactly
/// when the entry is refused.
pub fn locate(meta: &FileMetadata) -> (r: Option<Destination>)
    ensures
        r is Some <==> accepts(meta@),
        r is Some ==> r->Some_0.target@ == resolved(meta@.relative_path) && r->Some_0.temp@
            == staged(resolved(meta@.relative_path)),
{
    match safe_relative(meta.relative_path.as_str()) {
        None => None,
        Some(target) => {
            proof {
                lemma_names_nothing(meta@.relative_path);
            }
            if !meta.is_dir && target.as_str().unicode_len() == 0 {
                None
            } else {
                let temp = staged_name(target.as_str());
                Some(Destination { target, temp })
            }
        },
    }
}

/// A path resolves to nothing exactly when it names nothing.
pub proof fn lemma_names_nothing(path: Seq<char>)
    ensures
        resolved(path).len() == 0 <==> name_pieces(path).len() == 0,
{
    if name_pieces(path).len() > 0 {
        lemma_resolved_stays_inside(path);
        let pieces = crate::paths::split(resolved(path));
        assert(crate::paths::is_name(pieces[0]));
        if resolved(path).len() == 0 {
            assert(pieces =~= seq![Seq::<char>::empty()]);
        }
    }
}

/// Decides one entry: the action on the filesystem, the one response to
/// emit, and the number of payload bytes to take in after it.
/// `target_size` and `temp_size` are the sizes found at the names that
/// `locate` gives; they are not looked at for a directory or a refused path.
pub fn decide(meta: &FileMetadata, target_size: Option<u64>, temp_size: Option<u64>) -> (plan: Plan)
    ensures
        plan.action == planned_action(meta@, target_size, temp_size),
        plan.response@ == planned_response(meta@, target_size, temp_size),
        plan.expect as nat == plan.response@.payload_len(meta@.size),
{
    if locate(meta).is_none() {
        return Plan {
            action: Action::Reply,
            response: ServerResponse::Error { message: String::from_str("Invalid path") },
            expect: 0,
        };
    }
    if meta.is_dir {
        return Plan { action: Action::CreateDir, response: ServerResponse::Skip, expect: 0 };
    }
    let size: u64 = meta.size;
    match target_size {
        Some(found) => {
            if found == size {
                return Plan { action: Action::Reply, response: ServerResponse::Skip, expect: 0 };
            }
        },
        None => {},
    }
    match temp_size {
        Some(staged_len) => {
            if staged_len == size {
                return Plan { action: Action::Promote, response: ServerResponse::Skip, expect: 0 };
            }
            if 0 < staged_len && staged_len < size {
                return Plan {
                    action: Action::Receive { offset: staged_len },
                    response: ServerResponse::Resume { offset: staged_len },
                    expect: size - staged_len,
                };
            }
        },
        None => {},
    }
    Plan { action: Action::Receive { offset: 0 }, response: ServerResponse::Send, expect: size }
}

/// How many bytes to ask of the socket next: never more than the payload
/// still due, so the read cannot run into the next frame.
pub fn next_read(remaining: u64, capacity: usize) -> (n: usize)
    ensures
        n as int == if remaining <= capacity {
            remaining as int
        } else {
            capacity as int
        },
{
    if remaining <= capacity as u64 {
        remaining as usize
    } else {
        capacity
    }
}

/// The payload still due after a read returned `got` bytes.
/// `ConnectionClosed` exactly when the stream ended (`got` is 0) with
/// payload outstanding, or handed over more than was due; the staged file
/// then stays as it is, for a later run to resume.
pub fn after_read(remaining: u64, got: usize) -> (r: Result<u64, FrameError>)
    ensures
        (got == 0 && remaining > 0) || got > remaining ==> r == Err::<u64, FrameError>(
            FrameError::ConnectionClosed,
        ),
        !((got == 0 && remaining > 0) || got > remaining) ==> r == Ok::<u64, FrameError>(
            (remaining - got) as u64,
        ),
{
    if (got == 0 && remaining > 0) || got as u64 > remaining {
        Err(FrameError::ConnectionClosed)
    } else {
        Ok(remaining - got as u64)
    }
}

/// A path with a parent-directory component, a rooted one, or one on a
/// drive of its own is refused whatever is on disk: the answer is the error response, nothing is
/// created, renamed or written, and no payload is taken in.
pub proof fn lemma_unsafe_path_refused(
    meta: FileMetadataView,
    target_size: Option<u64>,
    temp_size: Option<u64>,
)
    requires
        climbs(meta.relative_path) || is_rooted(meta.relative_path) || on_drive(meta.relative_path),
    ensures
        !accepts(meta),
        planned_action(meta, target_size, temp_size) == Action::Reply,
        planned_response(meta, target_size, temp_size) == (ServerResponseView::Error {
            message: invalid_path_message(),
        }),
        planned_response(meta, target_size, temp_size).payload_len(meta.size) == 0,
{
}

/// Every name handed out for an accepted regular file is made of entry
/// names only: resolved against the base directory, neither the final nor
/// the staging name can leave it, and the two differ in the last component
/// alone.
pub proof fn lemma_destination_inside_base(meta: FileMetadataView)
    requires
        accepts(meta),
        !meta.is_dir,
    ensures
        stays_inside(resolved(meta.relative_path)),
        stays_inside(staged(resolved(meta.relative_path))),
        !climbs(resolved(meta.relative_path)),
        !is_rooted(resolved(meta.relative_path)),
{
    lemma_resolved_stays_inside(meta.relative_path);
    lemma_staged_stays_inside(resolved(meta.relative_path));
}

/// A file already present with the announced size is never asked for
/// again: whatever is staged, the answer is `Skip` and no payload follows.
pub proof fn lemma_present_file_skipped(meta: FileMetadataView, temp_size: Option<u64>)
    requires
        accepts(meta),
        meta.size <= u64::MAX,
    ensures
        planned_response(meta, Some(meta.size as u64), temp_size) == ServerResponseView::Skip,
        planned_response(meta, Some(meta.size as u64), temp_size).payload_len(meta.size) == 0,
{
}

/// An empty file that is neither present nor staged is asked for with
/// `Send`, and no payload follows: the staged file is created empty and
/// renamed at once.
pub proof fn lemma_empty_file_sent(meta: FileMetadataView)
    requires
        accepts(meta),
        !meta.is_dir,
        meta.size == 0,
    ensures
        planned_action(meta, None, None) == (Action::Receive { offset: 0 }),
        planned_response(meta, None, None) == ServerResponseView::Send,
        planned_response(meta, None, None).payload_len(meta.size) == 0,
{
}

/// A directory is created and acknowledged with `Skip`, whatever is found
/// on disk; no payload follows.
pub proof fn lemma_directory_acknowledged(
    meta: FileMetadataView,
    target_size: Option<u64>,
    temp_size: Option<u64>,
)
    requires
        accepts(meta),
        meta.is_dir,
    ensures
        planned_action(meta, target_size, temp_size) == Action::CreateDir,
        planned_response(meta, target_size, temp_size) == ServerResponseView::Skip,
        planned_response(meta, target_size, temp_size).payload_len(meta.size) == 0,
{
}

/// A staged file of exactly the announced size is renamed to its final
/// name and answered with `Skip`, unless the file is present already.
pub proof fn lemma_complete_staged_file_promoted(meta: FileMetadataView, target_size: Option<u64>)
    requires
        accepts(meta),
        !meta.is_dir,
        meta.size <= u64::MAX,
        target_size != Some(meta.size as u64),
    ensures
        planned_action(meta, target_size, Some(meta.size as u64)) == Action::Promote,
        planned_response(meta, target_size, Some(meta.size as u64)) == ServerResponseView::Skip,
{
}

/// A staged file longer than the announced size is never renamed or
/// resumed: it is replaced from scratch and the whole file is asked for.
pub proof fn lemma_oversized_staged_file_replaced(
    meta: FileMetadataView,
    target_size: Option<u64>,
    staged_len: u64,
)
    requires
        accepts(meta),
        !meta.is_dir,
        meta.size < staged_len,
        target_size != Some(meta.size as u64),
    ensures
        planned_action(meta, target_size, Some(staged_len)) == (Action::Receive { offset: 0 }),
        planned_response(meta, target_size, Some(staged_len)) == ServerResponseView::Send,
        planned_response(meta, target_size, Some(staged_len)).payload_len(meta.size) == meta.size,
{
}

/// Whatever is renamed to a final name has the announced size: a staged
/// file is promoted only at exactly that size, and one that receives
/// payload starts at the length it has (or empty) and takes in exactly
/// what is missing.
pub proof fn lemma_delivered_size(
    meta: FileMetadataView,
    target_size: Option<u64>,
    temp_size: Option<u64>,
)
    requires
        accepts(meta),
        !meta.is_dir,
        meta.size <= u64::MAX,
    ensures
        planned_action(meta, target_size, temp_size) == Action::Promote ==> temp_size == Some(
            meta.size as u64,
        ),
        forall|offset: u64|
            planned_action(meta, target_size, temp_size) == (Action::Receive { offset }) ==> {
                &&& offset + planned_response(meta, target_size, temp_size).payload_len(meta.size)
                    == meta.size
                &&& (offset == 0 || temp_size == Some(offset))
            },
        planned_action(meta, target_size, temp_size) == Action::Reply ==> target_size == Some(
            meta.size as u64,
        ),
{
}

/// The bytes a sender streams after a response: the whole source after
/// `Send`, the source from the offset on after `Resume`, nothing otherwise.
pub open spec fn payload_for(source: Seq<u8>, response: ServerResponseView) -> Seq<u8> {
    match response {
        ServerResponseView::Send => source,
        ServerResponseView::Resume { offset } => source.subrange(offset as int, source.len() as int),
        _ => Seq::empty(),
    }
}

/// The bytes that carry the final name once an action that renames is
/// through: the staged bytes as they are for `Promote`; for `Receive` the
/// payload alone when it starts from scratch, else the staged bytes with
/// the payload behind them.
pub open spec fn delivered(staged: Seq<u8>, action: Action, payload: Seq<u8>) -> Seq<u8> {
    match action {
        Action::Receive { offset } => if offset == 0 {
            payload
        } else {
            staged + payload
        },
        _ => staged,
    }
}

/// Whether `staged` could stem from earlier, interrupted deliveries of
/// `source`: it is the beginning of it. Staged bytes longer than the source
/// are under no condition, since they are thrown away.
pub open spec fn staged_from(staged: Seq<u8>, source: Seq<u8>) -> bool {
    staged.len() <= source.len() ==> staged == source.subrange(0, staged.len() as int)
}

/// However often a delivery was cut short before, the file that is renamed
/// to its final name holds exactly the source: the receiver asks for what
/// is missing behind the staged bytes, the payload sent in answer is that
/// part of the source, and as many bytes are taken in as are sent.
pub proof fn lemma_delivered_bytes_are_the_source(
    meta: FileMetadataView,
    source: Seq<u8>,
    target_size: Option<u64>,
    staged: Option<Seq<u8>>,
)
    requires
        accepts(meta),
        !meta.is_dir,
        meta.size == source.len(),
        source.len() <= u64::MAX,
        staged is Some ==> staged->Some_0.len() <= u64::MAX && staged_from(staged->Some_0, source),
    ensures
        ({
            let temp_size = match staged {
                Some(bytes) => Some(bytes.len() as u64),
                None => None,
            };
            let held = match staged {
                Some(bytes) => bytes,
                None => Seq::empty(),
            };
            let action = planned_action(meta, target_size, temp_size);
            let response = planned_response(meta, target_size, temp_size);
            &&& payload_for(source, response).len() == response.payload_len(meta.size)
            &&& action != Action::Reply ==> delivered(held, action, payload_for(source, response))
                == source
        }),
{
    let temp_size = match staged {
        Some(bytes) => Some(bytes.len() as u64),
        None => None,
    };
    let held = match staged {
        Some(bytes) => bytes,
        None => Seq::empty(),
    };
    let action = planned_action(meta, target_size, temp_size);
    let response = planned_response(meta, target_size, temp_size);
    match action {
        Action::Promote => {
            assert(held =~= source);
        },
        Action::Receive { offset } => {
            if offset > 0 {
                assert(held + source.subrange(offset as int, source.len() as int) =~= source);
            }
        },
        _ => {},
    }
}

/// What one session has taken in so far.
#[derive(Debug, Clone, Copy, PartialEq, Eq, Structural)]
pub struct Tally {
    /// Files received and renamed to their final names.
    pub files: u64,
    /// Files answered with `Skip`.
    pub skipped: u64,
    /// Payload bytes written.
    pub bytes: u64,
}

/// `n + 1`, stopping at the largest value.
pub open spec fn bump(n: u64) -> u64 {
    if n == u64::MAX {
        n
    } else {
        (n + 1) as u64
    }
}

/// Whether a plan answers a regular file with `Skip`.
pub open spec fn skips_file(action: Action, response: ServerResponseView) -> bool {
    action == Action::Promote || (action == Action::Reply && response == ServerResponseView::Skip)
}

impl Tally {
    /// The tally of a session that has seen nothing yet.
    pub fn new() -> (t: Tally)
        ensures
            t == (Tally { files: 0, skipped: 0, bytes: 0 }),
    {
        Tally { files: 0, skipped: 0, bytes: 0 }
    }

    /// Counts a plan: a regular file answered with `Skip` is a skipped one.
    pub fn planned(&mut self, plan: &Plan)
        ensures
            *final(self) == if skips_file(plan.action, plan.response@) {
                Tally { skipped: bump(old(self).skipped), ..*old(self) }
            } else {
                *old(self)
            },
    {
        let skip = match plan.action {
            Action::Promote => true,
            Action::Reply => match plan.response {
                ServerResponse::Skip => true,
                _ => false,
            },
            _ => false,
        };
        if skip {
            self.skipped = self.skipped.saturating_add(1);
        }
    }

    /// Counts `got` payload bytes written to a staged file.
    pub fn wrote(&mut self, got: usize)
        ensures
            *final(self) == (Tally {
                bytes: if old(self).bytes + got > u64::MAX {
                    u64::MAX
                } else {
                    (old(self).bytes + got) as u64
                },
                ..*old(self)
            }),
    {
        self.bytes = self.bytes.saturating_add(got as u64);
    }

    /// Counts a file that was renamed to its final name.
    pub fn delivered(&mut self)
        ensures
            *final(self) == (Tally { files: bump(old(self).files), ..*old(self) }),
    {
        self.files = self.files.saturating_add(1);
    }
}

} // verus!

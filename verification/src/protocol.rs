//! The two control messages exchanged per file: the sender's metadata record
//! and the receiver's tagged response.

use vstd::prelude::*;

verus! {

/// What the sender announces about one entry before any payload flows.
#[derive(Debug)]
pub struct FileMetadata {
    pub relative_path: String,
    pub size: u64,
    pub is_dir: bool,
}

/// Mathematical content of a [`FileMetadata`].
pub struct FileMetadataView {
    pub relative_path: Seq<char>,
    pub size: nat,
    pub is_dir: bool,
}

impl View for FileMetadata {
    type V = FileMetadataView;

    open spec fn view(&self) -> FileMetadataView {
        FileMetadataView {
            relative_path: self.relative_path@,
            size: self.size as nat,
            is_dir: self.is_dir,
        }
    }
}

/// The receiver's answer to one metadata record.
#[derive(Debug)]
pub enum ServerResponse {
    /// Stream the whole file from offset 0.
    Send,
    /// Stream nothing: the entry is already present (or the directory exists).
    Skip,
    /// Stream the bytes from `offset` to the end of the file.
    Resume { offset: u64 },
    /// The connection is unusable for this transfer; the sender aborts.
    Error { message: String },
}

/// Mathematical content of a [`ServerResponse`].
pub enum ServerResponseView {
    Send,
    Skip,
    Resume { offset: nat },
    Error { message: Seq<char> },
}

impl View for ServerResponse {
    type V = ServerResponseView;

    open spec fn view(&self) -> ServerResponseView {
        match self {
            ServerResponse::Send => ServerResponseView::Send,
            ServerResponse::Skip => ServerResponseView::Skip,
            ServerResponse::Resume { offset } => ServerResponseView::Resume { offset: *offset as nat },
            ServerResponse::Error { message } => ServerResponseView::Error { message: message@ },
        }
    }
}

impl ServerResponseView {
    /// Number of payload bytes that follow this response for an entry of
    /// `size` bytes: all of them after `Send`, the remainder after `Resume`,
    /// none otherwise.
    pub open spec fn payload_len(self, size: nat) -> nat {
        match self {
            ServerResponseView::Send => size,
            ServerResponseView::Resume { offset } => if offset <= size {
                (size - offset) as nat
            } else {
                0
            },
            _ => 0,
        }
    }
}

impl ServerResponse {
    /// Number of raw bytes the peer must stream after this response to an
    /// entry of `size` bytes. A `Resume` beyond the end announces nothing.
    pub fn payload_len(&self, size: u64) -> (n: u64)
        ensures
            n as nat == self@.payload_len(size as nat),
    {
        match self {
            ServerResponse::Send => size,
            ServerResponse::Resume { offset } => if *offset <= size {
                size - *offset
            } else {
                0
            },
            _ => 0,
        }
    }
}

} // verus!

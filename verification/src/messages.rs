//! The messages of a traversal: directories on the input queue, and what was found on the
//! output channels. They carry the directory handles, file types, metadata and errors of
//! whatever file system layer performs the traversal (`D`, `T`, `M` and `E`).
use std::sync::Arc;
use vstd::prelude::*;
use crate::objectpath::ObjectPath;

verus! {

/// Messages on the input queue, directories to be processed.
pub enum DirectoryGatherMessage<D> {
    /// Path and parent handle of a directory to be traversed. The handle to the directory
    /// itself will be opened by the thread processing it.
    TraverseDirectory {
        /// The path to the Object
        path: ObjectPath,
        /// Optional handle to the parent directory
        parent_dir: Option<Arc<D>>,
    },
}

impl<D> DirectoryGatherMessage<D> {
    /// Create a new 'TraverseDirectory' message.
    pub fn new_dir(path: ObjectPath) -> (m: Self)
        ensures
            m == (DirectoryGatherMessage::<D>::TraverseDirectory { path, parent_dir: None }),
    {
        DirectoryGatherMessage::TraverseDirectory { path, parent_dir: None }
    }

    /// Attach a parent handle to a 'TraverseDirectory' message.
    pub fn with_parent_dir(self, parent: Option<Arc<D>>) -> (m: Self)
        ensures
            m == (DirectoryGatherMessage::<D>::TraverseDirectory { path: self->path, parent_dir: parent }),
    {
        let DirectoryGatherMessage::TraverseDirectory { path, .. } = self;
        DirectoryGatherMessage::TraverseDirectory { path, parent_dir: parent }
    }
}

/// Messages on the output queue, collected entries, 'Done' when the queue becomes empty and
/// errors passed up
pub enum InventoryEntryMessage<T, M, E> {
    /// Passes the path and lightweight data from a directory entry, no stat() calls are needed.
    Entry {
        /// Filename of this entry.
        path: ObjectPath,
        /// Type of file.
        file_type: Option<T>,
        /// Inode number.
        inode: u64,
    },
    /// Passes the path and metadata. The user has to create the metadata which may
    /// involve costly stat() calls.
    Metadata {
        /// Filename of this entry.
        path: ObjectPath,
        /// Metadata for this entry.
        metadata: M,
    },
    /// Send for each Directory when its processing is completed to let the receiver on the
    /// output know that no more data for this directory will be send.
    EndOfDirectory {
        /// Filename of this entry.
        path: ObjectPath,
    },
    /// Send when all work on an object is done.
    ObjectDone {
        /// Filename of this entry.
        path: ObjectPath,
    },
    /// The Gaterers only pass errors up but try to continue.
    Error {
        /// Filename of this entry.
        path: ObjectPath,
        /// The error.
        error: E,
    },
    /// Message when the input queues got empty and no gathering thread still processes any
    /// data.
    Done,
}

impl<T, M, E> InventoryEntryMessage<T, M, E> {
    /// Returns the path of an message if present
    pub fn path(&self) -> (r: Option<&ObjectPath>)
        ensures
            match *self {
                InventoryEntryMessage::Entry { path, .. } => r == Some(&path),
                InventoryEntryMessage::Metadata { path, .. } => r == Some(&path),
                _ => r is None,
            },
    {
        match self {
            InventoryEntryMessage::Entry { path, .. } => Some(path),
            InventoryEntryMessage::Metadata { path, .. } => Some(path),
            _ => None,
        }
    }

    /// Returns true when this message is an error message.
    pub fn is_error(&self) -> (r: bool)
        ensures
            r == (*self is Error),
    {
        matches!(self, InventoryEntryMessage::Error { .. })
    }
}

} // verus!

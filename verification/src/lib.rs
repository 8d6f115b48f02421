//! Machinery for fast multithreaded directory traversal: the priority queue that orders the
//! directories to traverse and tracks the work in progress, interned object names, space
//! efficient object paths, directory handle accounting and the traversal decisions.
use vstd::prelude::*;

pub mod dirhandle;
pub mod gatherer;
pub mod internednames;
pub mod lrulist;
pub mod messages;
pub mod objectpath;
pub mod priority_queue;

pub use dirhandle::{dec_handles, used_handles, HandleCount};
pub use gatherer::GathererBuilder;
pub use internednames::{InternedName, InternedNames};
pub use messages::{DirectoryGatherMessage, InventoryEntryMessage};
pub use objectpath::ObjectPath;

verus! {

} // verus!

use std::sync::Arc;

use dirgather::{DirectoryGatherMessage, InventoryEntryMessage, ObjectPath};

type Msg = InventoryEntryMessage<(), u32, String>;

#[test]
fn message_paths() {
    let p = ObjectPath::without_gatherer(b"a");
    let entry: Msg = InventoryEntryMessage::Entry { path: p.clone(), file_type: None, inode: 3 };
    assert_eq!(entry.path().unwrap().to_pathbuf(), b"a".to_vec());
    assert!(!entry.is_error());
    let meta: Msg = InventoryEntryMessage::Metadata { path: p.clone(), metadata: 1 };
    assert!(meta.path().is_some());
    let eod: Msg = InventoryEntryMessage::EndOfDirectory { path: p.clone() };
    assert!(eod.path().is_none());
    let err: Msg = InventoryEntryMessage::Error { path: p.clone(), error: "boom".to_string() };
    assert!(err.path().is_none());
    assert!(err.is_error());
    let done: Msg = InventoryEntryMessage::Done;
    assert!(done.path().is_none());
    assert!(!done.is_error());
}

#[test]
fn directory_messages() {
    let p = ObjectPath::without_gatherer(b"dir");
    let m: DirectoryGatherMessage<u8> = DirectoryGatherMessage::new_dir(p);
    let DirectoryGatherMessage::TraverseDirectory { parent_dir, .. } = &m;
    assert!(parent_dir.is_none());
    let m = m.with_parent_dir(Some(Arc::new(7u8)));
    let DirectoryGatherMessage::TraverseDirectory { path, parent_dir } = &m;
    assert_eq!(path.to_pathbuf(), b"dir".to_vec());
    assert_eq!(parent_dir.as_deref(), Some(&7u8));
}

use dirgather::{InternedName, InternedNames, ObjectPath};

#[test]
fn objectpath_smoke() {
    assert_eq!(ObjectPath::without_gatherer(b".").to_pathbuf(), b".".to_vec());
}

#[test]
fn path_subobject() {
    let p = ObjectPath::without_gatherer(b".");
    let mut pathbuf = Vec::new();
    assert_eq!(
        p.sub_object_without_gatherer(InternedName::new(b"foo").as_bytes())
            .write_pathbuf(&mut pathbuf),
        &b"./foo".to_vec()
    );
}

#[test]
fn path_ordering() {
    let foo = ObjectPath::without_gatherer(b"foo");
    let bar = ObjectPath::without_gatherer(b"bar");
    assert!(bar < foo);

    let bar2 = ObjectPath::without_gatherer(b"bar");
    assert!(bar == bar2);

    let foobar = foo.sub_object_without_gatherer(InternedName::new(b"bar").as_bytes());
    let barfoo = bar.sub_object_without_gatherer(InternedName::new(b"foo").as_bytes());
    assert!(barfoo < foobar);
}

#[test]
fn paths_join_with_separators() {
    let root = ObjectPath::without_gatherer(b"/");
    let usr = root.sub_object_without_gatherer(b"usr");
    let lib = usr.sub_object_without_gatherer(b"lib");
    assert_eq!(lib.to_pathbuf(), b"/usr/lib".to_vec());
    assert_eq!(lib.depth(), 3);
    assert_eq!(lib.name(), b"lib");
    assert_eq!(lib.parent().unwrap().to_pathbuf(), b"/usr".to_vec());
    assert!(root.parent().is_none());
    // an absolute component replaces what came before it
    let abs = usr.sub_object_without_gatherer(b"/etc");
    assert_eq!(abs.to_pathbuf(), b"/etc".to_vec());
    // writing clears the buffer first
    let mut buf = b"garbage".to_vec();
    lib.write_pathbuf(&mut buf);
    assert_eq!(buf, b"/usr/lib".to_vec());
}

#[test]
fn metadata_dir_of_paths() {
    let rel = ObjectPath::without_gatherer(b"Cargo.toml");
    assert_eq!(rel.metadata_dir(), b".".to_vec());
    let abs = ObjectPath::without_gatherer(b"/tmp");
    assert_eq!(abs.metadata_dir(), b"/".to_vec());
    let sub = ObjectPath::without_gatherer(b"src").sub_object_without_gatherer(b"lib.rs");
    assert_eq!(sub.metadata_dir(), b"src".to_vec());
}

#[test]
fn paths_with_interned_names() {
    let mut names: InternedNames<4> = InternedNames::new();
    let src = ObjectPath::new(b"src", &mut names);
    let a = src.sub_object(b"a.rs", &mut names);
    let b = src.sub_object(b"a.rs", &mut names);
    assert!(a == b);
    assert_eq!(a.to_pathbuf(), b"src/a.rs".to_vec());
    assert!(!(a < b) && !(b < a));
    assert!(src < a);
}

#[test]
fn watch_flag() {
    let p = ObjectPath::without_gatherer(b"x");
    assert!(!p.is_watched());
    p.watch(true);
    assert!(p.is_watched());
    p.watch(false);
    assert!(!p.is_watched());
}

#[test]
fn strong_count_counts_handles() {
    let p = ObjectPath::without_gatherer(b"x");
    assert_eq!(p.strong_count(), 1);
    let q = p.clone();
    assert_eq!(p.strong_count(), 2);
    let child = q.sub_object_without_gatherer(b"y");
    assert_eq!(p.strong_count(), 3);
    drop(child);
    assert_eq!(p.strong_count(), 2);
}

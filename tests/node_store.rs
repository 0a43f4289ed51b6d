use memfs::store::NodeStore;
use memfs::types::{AttrChanges, FileKind, FsError, Timestamp, DIR_SIZE, ROOT_INO};

fn store_with(names: &[&str]) -> NodeStore {
    let mut s = NodeStore::new();
    for n in names {
        s.create(ROOT_INO, n.to_string(), 0o644, 0).unwrap();
    }
    s
}

#[test]
fn root_invariant() {
    let s = NodeStore::new();
    let root = s.get(1).unwrap();
    assert_eq!(root.attr.kind, FileKind::Directory);
    assert_eq!(root.parent, 1);
    assert!(root.children.is_empty());
    assert_eq!(root.attr.ino, 1);
    assert_eq!(root.attr.perm, 0o755);
    assert_eq!(root.attr.size, DIR_SIZE);
    assert_eq!(root.attr.uid, 1000);
    assert_eq!(root.attr.gid, 1000);
    assert_eq!(s.node_count(), 1);
    assert!(s.get(0).is_none());
    assert!(s.get(2).is_none());
}

#[test]
fn new_store_reads_the_clock() {
    let s = NodeStore::new();
    let a = s.get(1).unwrap().attr;
    assert!(a.atime.sec > 0);
    assert!(a.atime.nsec >= 0 && a.atime.nsec < 1_000_000_000);
    assert_eq!(a.atime, a.crtime);
}

#[test]
fn create_monotonicity() {
    let mut s = NodeStore::new();
    let names = ["x", "y", "z", "w"];
    for (i, n) in names.iter().enumerate() {
        let a = s.create(ROOT_INO, n.to_string(), 0o600, 7).unwrap();
        assert_eq!(a.ino, i as u64 + 2);
        assert_eq!(a.kind, FileKind::RegularFile);
        assert_eq!(a.size, 0);
        assert_eq!(a.nlink, 1);
        assert_eq!(a.perm, 0o600);
        assert_eq!(a.flags, 7);
    }
    for (i, n) in names.iter().enumerate() {
        let a = s.lookup(ROOT_INO, &n.to_string()).unwrap();
        assert_eq!(a.ino, i as u64 + 2);
        assert_eq!(a, s.getattr(i as u64 + 2).unwrap());
    }
    assert_eq!(s.node_count(), 5);
}

#[test]
fn create_at_uses_given_time() {
    let mut s = NodeStore::new_at(Timestamp { sec: 5, nsec: 6 });
    let t = Timestamp { sec: 100, nsec: 42 };
    let a = s.create_at(ROOT_INO, "f".to_string(), 0x1_01a4, 3, t).unwrap();
    assert_eq!(a.atime, t);
    assert_eq!(a.mtime, t);
    assert_eq!(a.ctime, t);
    assert_eq!(a.crtime, t);
    assert_eq!(a.perm, 0o644);
    let node = s.get(2).unwrap();
    assert_eq!(node.parent, ROOT_INO);
    assert_eq!(s.get(1).unwrap().children, vec![("f".to_string(), 2)]);
    assert_eq!(s.get(1).unwrap().attr.atime, Timestamp { sec: 5, nsec: 6 });
}

#[test]
fn create_outside_root_is_not_found() {
    let mut s = store_with(&["a"]);
    assert_eq!(s.create(2, "b".to_string(), 0o644, 0), Err(FsError::NotFound));
    assert_eq!(s.create(9, "b".to_string(), 0o644, 0), Err(FsError::NotFound));
    assert_eq!(s.node_count(), 2);
}

#[test]
fn duplicate_names_resolve_to_first() {
    let mut s = NodeStore::new();
    s.create(ROOT_INO, "d".to_string(), 0o600, 0).unwrap();
    let second = s.create(ROOT_INO, "d".to_string(), 0o644, 0).unwrap();
    assert_eq!(second.ino, 3);
    assert_eq!(s.lookup(ROOT_INO, &"d".to_string()).unwrap().ino, 2);
}

#[test]
fn write_read_round_trip() {
    let mut s = store_with(&["f"]);
    let b = b"hello, world".to_vec();
    assert_eq!(s.write(2, 0, &b), Ok(b.len()));
    assert_eq!(s.getattr(2).unwrap().size, b.len() as u64);
    assert_eq!(s.read(2, 0, b.len() as u32), Ok(b));
}

#[test]
fn append_growth() {
    let mut s = store_with(&["f"]);
    s.write(2, 0, b"abc").unwrap();
    let size = s.getattr(2).unwrap().size as i64;
    assert_eq!(s.write(2, size, b"defg"), Ok(4));
    assert_eq!(s.get(2).unwrap().content, b"abcdefg".to_vec());
    assert_eq!(s.getattr(2).unwrap().size, 7);
}

#[test]
fn overwrite_in_place() {
    let mut s = store_with(&["f"]);
    s.write(2, 0, b"0123456789").unwrap();
    assert_eq!(s.write(2, 3, b"xyz"), Ok(3));
    assert_eq!(s.get(2).unwrap().content, b"012xyz6789".to_vec());
    assert_eq!(s.getattr(2).unwrap().size, 10);
}

#[test]
fn overwrite_past_end_grows() {
    let mut s = store_with(&["f"]);
    s.write(2, 0, b"0123").unwrap();
    assert_eq!(s.write(2, 2, b"abcdef"), Ok(6));
    assert_eq!(s.get(2).unwrap().content, b"01abcdef".to_vec());
    assert_eq!(s.getattr(2).unwrap().size, 8);
}

#[test]
fn offset_rejection() {
    let mut s = store_with(&["f"]);
    s.write(2, 0, b"abc").unwrap();
    let before = s.getattr(2).unwrap();
    assert_eq!(s.write(2, 4, b"z"), Err(FsError::InvalidOffset));
    assert_eq!(s.read(2, 4, 1), Err(FsError::InvalidOffset));
    assert_eq!(s.getattr(2).unwrap(), before);
    assert_eq!(s.get(2).unwrap().content, b"abc".to_vec());
}

#[test]
fn short_read_at_eof() {
    let mut s = store_with(&["f"]);
    let data: Vec<u8> = (0u8..25).collect();
    s.write(2, 0, &data).unwrap();
    let size = s.getattr(2).unwrap().size;
    let got = s.read(2, (size - 10) as i64, size as u32 + 100).unwrap();
    assert_eq!(got, data[15..].to_vec());
    assert_eq!(s.read(2, size as i64, 5), Ok(vec![]));
}

#[test]
fn read_and_write_missing_node() {
    let mut s = NodeStore::new();
    assert_eq!(s.read(7, 0, 1), Err(FsError::NotFound));
    assert_eq!(s.write(7, 0, b"a"), Err(FsError::NotFound));
}

#[test]
fn directory_listing_determinism() {
    let s = store_with(&["a", "b", "c"]);
    let l = s.readdir(ROOT_INO, 0).unwrap();
    let names: Vec<&str> = l.iter().map(|e| e.name.as_str()).collect();
    assert_eq!(names, vec![".", "..", "a", "b", "c"]);
    let offs: Vec<i64> = l.iter().map(|e| e.offset).collect();
    assert_eq!(offs, vec![0, 1, 2, 3, 4]);
    let inos: Vec<u64> = l.iter().map(|e| e.ino).collect();
    assert_eq!(inos, vec![1, 1, 2, 3, 4]);
    assert_eq!(l[0].kind, FileKind::Directory);
    assert_eq!(l[1].kind, FileKind::Directory);
    assert_eq!(l[2].kind, FileKind::RegularFile);
}

#[test]
fn readdir_nonzero_offset_is_empty() {
    let s = store_with(&["a", "b"]);
    assert!(s.readdir(ROOT_INO, 3).unwrap().is_empty());
    assert_eq!(s.readdir(9, 0).unwrap_err(), FsError::NotFound);
}

#[test]
fn readdir_of_a_file() {
    let s = store_with(&["a"]);
    let l = s.readdir(2, 0).unwrap();
    assert_eq!(l.len(), 2);
    assert_eq!((l[0].ino, l[1].ino), (2, 1));
}

#[test]
fn lookup_miss() {
    let s = store_with(&["a"]);
    assert_eq!(s.lookup(ROOT_INO, &"missing".to_string()), Err(FsError::NotFound));
    assert_eq!(s.node_count(), 2);
    assert_eq!(s.get(1).unwrap().children.len(), 1);
}

#[test]
fn lookup_outside_root() {
    let s = store_with(&["a"]);
    assert_eq!(s.lookup(2, &"a".to_string()), Err(FsError::NotFound));
}

#[test]
fn getattr_missing() {
    let s = NodeStore::new();
    assert_eq!(s.getattr(1).unwrap().kind, FileKind::Directory);
    assert_eq!(s.getattr(2), Err(FsError::NotFound));
}

#[test]
fn setattr_is_sparse() {
    let mut s = store_with(&["f"]);
    let before = s.getattr(2).unwrap();
    let t = Timestamp { sec: 9, nsec: 1 };
    let ch = AttrChanges { mode: Some(0x1_0123), size: Some(77), atime: None, mtime: Some(t), flags: None };
    let a = s.setattr(2, ch).unwrap();
    assert_eq!(a.perm, 0x0123);
    assert_eq!(a.size, 77);
    assert_eq!(a.mtime, t);
    assert_eq!(a.atime, before.atime);
    assert_eq!(a.flags, before.flags);
    assert_eq!(a.ino, 2);
    assert_eq!(s.getattr(2).unwrap(), a);
    assert!(s.get(2).unwrap().content.is_empty());
    let none = AttrChanges { mode: None, size: None, atime: None, mtime: None, flags: None };
    assert_eq!(s.setattr(2, none), Ok(a));
    assert_eq!(s.setattr(5, none), Err(FsError::NotFound));
}

#[test]
fn open_and_opendir() {
    let s = store_with(&["f"]);
    let r = s.open(2, 0x8002).unwrap();
    assert_eq!((r.fh, r.flags), (0, 0x8002));
    assert_eq!(s.open(1, 0), Err(FsError::NotFound));
    assert_eq!(s.open(3, 0), Err(FsError::NotFound));
    assert_eq!(s.opendir(1, 4).unwrap().flags, 4);
    assert_eq!(s.opendir(2, 0), Err(FsError::NotFound));
}

#[test]
fn release_fsync_statfs() {
    let s = store_with(&["f"]);
    assert_eq!(s.release(2), Ok(()));
    assert_eq!(s.releasedir(1), Ok(()));
    assert_eq!(s.fsync(2), Err(FsError::Io));
    let st = s.statfs(1);
    assert_eq!((st.blocks, st.bsize, st.namelen, st.frsize), (0, 512, 255, 0));
}

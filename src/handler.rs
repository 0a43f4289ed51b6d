//! The request handlers: one operation per request, each a lookup or a
//! mutation of the node store followed by a reply or an error.
//!
//! Every operation is described by a spec function over the store's view;
//! the executable handler is proved to compute exactly that.
use vstd::prelude::*;
use crate::store::{fresh_node, NodeStore, NodeView};
use crate::types::{
    AttrChanges, DirEntry, DirEntryView, FileAttr, FileKind, FsError, OpenReply, StatFs,
    Timestamp, OWNER_GID, OWNER_UID, ROOT_INO,
};

verus! {

/// Whether inode `id` is in the table `s`.
pub open spec fn has_ino(s: Seq<NodeView>, id: u64) -> bool {
    1 <= id <= s.len()
}

/// The id of the first entry named `name`, scanning in insertion order.
pub open spec fn find_entry(c: Seq<(Seq<char>, u64)>, name: Seq<char>) -> Option<u64>
    decreases c.len(),
{
    if c.len() == 0 {
        None
    } else if c[0].0 == name {
        Some(c[0].1)
    } else {
        find_entry(c.drop_first(), name)
    }
}

/// `c` with `d` written at offset `off`: bytes inside `c` are overwritten,
/// the rest of `d` is appended.
pub open spec fn spliced(c: Seq<u8>, off: int, d: Seq<u8>) -> Seq<u8> {
    if off + d.len() < c.len() {
        c.subrange(0, off) + d + c.subrange(off + d.len(), c.len() as int)
    } else {
        c.subrange(0, off) + d
    }
}

pub open spec fn spec_getattr(s: Seq<NodeView>, ino: u64) -> Result<FileAttr, FsError> {
    if has_ino(s, ino) {
        Ok(s[ino - 1].attr)
    } else {
        Err(FsError::NotFound)
    }
}

/// Only the root can be searched; the first entry with a matching name wins.
pub open spec fn spec_lookup(s: Seq<NodeView>, parent: u64, name: Seq<char>) -> Result<
    FileAttr,
    FsError,
> {
    if parent != ROOT_INO {
        Err(FsError::NotFound)
    } else {
        match find_entry(s[0].children, name) {
            Some(id) => Ok(s[id - 1].attr),
            None => Err(FsError::NotFound),
        }
    }
}

/// `.`, `..`, then every entry of node `ino` in insertion order, numbered
/// from 0.
pub open spec fn listing(s: Seq<NodeView>, ino: u64) -> Seq<DirEntryView> {
    let n = s[ino - 1];
    seq![
        DirEntryView { ino, offset: 0, kind: FileKind::Directory, name: seq!['.'] },
        DirEntryView { ino: n.parent, offset: 1, kind: FileKind::Directory, name: seq!['.', '.'] },
    ] + Seq::new(
        n.children.len(),
        |i: int|
            DirEntryView {
                ino: n.children[i].1,
                offset: (i + 2) as i64,
                kind: s[n.children[i].1 - 1].attr.kind,
                name: n.children[i].0,
            },
    )
}

/// The full listing at offset 0, nothing at any other offset.
pub open spec fn spec_readdir(s: Seq<NodeView>, ino: u64, offset: i64) -> Result<
    Seq<DirEntryView>,
    FsError,
> {
    if !has_ino(s, ino) {
        Err(FsError::NotFound)
    } else if offset == 0 {
        Ok(listing(s, ino))
    } else {
        Ok(Seq::empty())
    }
}

/// Attributes of a file created as inode `ino` at time `now`.
pub open spec fn created_attr(ino: u64, mode: u32, flags: u32, now: Timestamp) -> FileAttr {
    FileAttr {
        ino,
        size: 0,
        blocks: 0,
        atime: now,
        mtime: now,
        ctime: now,
        crtime: now,
        kind: FileKind::RegularFile,
        perm: mode as u16,
        nlink: 1,
        uid: OWNER_UID,
        gid: OWNER_GID,
        rdev: 0,
        flags,
    }
}

/// Creation under the root: the next inode number is taken, the entry is
/// appended to the root's list and an empty file is stored.
pub open spec fn spec_create(
    s: Seq<NodeView>,
    parent: u64,
    name: Seq<char>,
    mode: u32,
    flags: u32,
    now: Timestamp,
) -> (Seq<NodeView>, Result<FileAttr, FsError>) {
    if parent != ROOT_INO {
        (s, Err(FsError::NotFound))
    } else {
        let a = created_attr((s.len() + 1) as u64, mode, flags, now);
        (
            s.update(0, NodeView { children: s[0].children.push((name, a.ino)), ..s[0] }).push(
                fresh_node(a, ROOT_INO),
            ),
            Ok(a),
        )
    }
}

/// `a` with the fields present in `ch` replaced.
pub open spec fn changed_attr(a: FileAttr, ch: AttrChanges) -> FileAttr {
    FileAttr {
        perm: match ch.mode {
            Some(m) => m as u16,
            None => a.perm,
        },
        flags: match ch.flags {
            Some(f) => f,
            None => a.flags,
        },
        size: match ch.size {
            Some(z) => z,
            None => a.size,
        },
        mtime: match ch.mtime {
            Some(t) => t,
            None => a.mtime,
        },
        atime: match ch.atime {
            Some(t) => t,
            None => a.atime,
        },
        ..a
    }
}

pub open spec fn spec_setattr(s: Seq<NodeView>, ino: u64, ch: AttrChanges) -> (
    Seq<NodeView>,
    Result<FileAttr, FsError>,
) {
    if !has_ino(s, ino) {
        (s, Err(FsError::NotFound))
    } else {
        let a = changed_attr(s[ino - 1].attr, ch);
        (s.update(ino - 1, NodeView { attr: a, ..s[ino - 1] }), Ok(a))
    }
}

pub open spec fn spec_open(s: Seq<NodeView>, ino: u64, flags: u32) -> Result<OpenReply, FsError> {
    if has_ino(s, ino) && s[ino - 1].attr.kind == FileKind::RegularFile {
        Ok(OpenReply { fh: 0, flags })
    } else {
        Err(FsError::NotFound)
    }
}

/// Only the root can be opened as a directory.
pub open spec fn spec_opendir(ino: u64, flags: u32) -> Result<OpenReply, FsError> {
    if ino == ROOT_INO {
        Ok(OpenReply { fh: 0, flags })
    } else {
        Err(FsError::NotFound)
    }
}

/// A write at `offset` overwrites what lies inside the content and appends
/// the rest; the size becomes the new content length. An offset past the end
/// is refused and nothing changes.
pub open spec fn spec_write(s: Seq<NodeView>, ino: u64, offset: int, d: Seq<u8>) -> (
    Seq<NodeView>,
    Result<usize, FsError>,
) {
    if !has_ino(s, ino) {
        (s, Err(FsError::NotFound))
    } else if offset > s[ino - 1].content.len() {
        (s, Err(FsError::InvalidOffset))
    } else {
        let n = s[ino - 1];
        let c = spliced(n.content, offset, d);
        (
            s.update(
                ino - 1,
                NodeView { content: c, attr: FileAttr { size: c.len() as u64, ..n.attr }, ..n },
            ),
            Ok(d.len() as usize),
        )
    }
}

/// At most `size` bytes from `offset`, fewer at the end of the content; an
/// offset past the end is refused.
pub open spec fn spec_read(s: Seq<NodeView>, ino: u64, offset: int, size: int) -> Result<
    Seq<u8>,
    FsError,
> {
    if !has_ino(s, ino) {
        Err(FsError::NotFound)
    } else {
        let c = s[ino - 1].content;
        if offset > c.len() {
            Err(FsError::InvalidOffset)
        } else if offset + size < c.len() {
            Ok(c.subrange(offset, offset + size))
        } else {
            Ok(c.subrange(offset, c.len() as int))
        }
    }
}

/// The fixed counters reported by `statfs`.
pub open spec fn nominal_statfs() -> StatFs {
    StatFs {
        blocks: 0,
        bfree: 0,
        bavail: 0,
        files: 0,
        ffree: 0,
        bsize: 512,
        namelen: 255,
        frsize: 0,
    }
}

pub open spec fn bytes_result(r: Result<Vec<u8>, FsError>) -> Result<Seq<u8>, FsError> {
    match r {
        Ok(v) => Ok(v@),
        Err(e) => Err(e),
    }
}

pub open spec fn entries_result(r: Result<Vec<DirEntry>, FsError>) -> Result<
    Seq<DirEntryView>,
    FsError,
> {
    match r {
        Ok(v) => Ok(v@.map_values(|e: DirEntry| e@)),
        Err(e) => Err(e),
    }
}

/// One more byte of `d` written: inside the old content it replaces a byte,
/// past it it is appended.
proof fn lemma_splice_step(c: Seq<u8>, off: int, d: Seq<u8>, i: int)
    requires
        0 <= off <= c.len(),
        0 <= i < d.len(),
    ensures
        spliced(c, off, d.take(i)).len() == if off + i < c.len() {
            c.len() as int
        } else {
            off + i
        },
        off + i < c.len() ==> spliced(c, off, d.take(i + 1)) == spliced(c, off, d.take(i)).update(
            off + i,
            d[i],
        ),
        off + i >= c.len() ==> spliced(c, off, d.take(i + 1)) == spliced(c, off, d.take(i)).push(
            d[i],
        ),
{
    let a = spliced(c, off, d.take(i));
    let b = spliced(c, off, d.take(i + 1));
    if off + i < c.len() {
        assert(b =~= a.update(off + i, d[i]));
    } else {
        assert(b =~= a.push(d[i]));
    }
}

/// Writing nothing leaves the content as it was.
proof fn lemma_splice_empty(c: Seq<u8>, off: int, d: Seq<u8>)
    requires
        0 <= off <= c.len(),
    ensures
        spliced(c, off, d.take(0)) == c,
{
    assert(spliced(c, off, d.take(0)) =~= c);
}

impl NodeStore {
    /// Attributes of node `ino`.
    pub fn getattr(&self, ino: u64) -> (r: Result<FileAttr, FsError>)
        requires
            self.wf(),
        ensures
            r == spec_getattr(self@, ino),
    {
        match self.get(ino) {
            Some(n) => Ok(n.attr),
            None => Err(FsError::NotFound),
        }
    }
    /// Attributes of the first entry of the root named `name`.
    pub fn lookup(&self, parent: u64, name: &String) -> (r: Result<FileAttr, FsError>)
        requires
            self.wf(),
        ensures
            r == spec_lookup(self@, parent, name@),
    {
        if parent != ROOT_INO {
            return Err(FsError::NotFound);
        }
        let root = match self.get(ROOT_INO) {
            Some(n) => n,
            None => return Err(FsError::NotFound),
        };
        let ghost c = root@.children;
        assert(c.subrange(0, c.len() as int) =~= c);
        let mut i: usize = 0;
        while i < root.children.len()
            invariant
                self.wf(),
                parent == ROOT_INO,
                root@ == self@[0],
                c == root@.children,
                0 <= i <= c.len(),
                find_entry(c, name@) == find_entry(c.subrange(i as int, c.len() as int), name@),
            decreases root.children.len() - i,
        {
            let e = &root.children[i];
            assert(c[i as int] == (e.0@, e.1));
            if e.0 == *name {
                assert(c.subrange(i as int, c.len() as int)[0] == c[i as int]);
                assert(self@[0].children[i as int].1 == i + 2);
                assert(find_entry(c, name@) == Some(e.1));
                assert(has_ino(self@, e.1));

                return self.getattr(e.1);
            }
            assert(c.subrange(i as int, c.len() as int).drop_first() =~= c.subrange(
                i + 1,
                c.len() as int,
            ));
            i += 1;
        }
        assert(c.subrange(i as int, c.len() as int) =~= Seq::empty());
        Err(FsError::NotFound)
    }

    /// Lists node `ino`: `.`, `..` and its entries at offset 0, nothing
    /// at any other offset.
    pub fn readdir(&self, ino: u64, offset: i64) -> (r: Result<Vec<DirEntry>, FsError>)
        requires
            self.wf(),
        ensures
            entries_result(r) == spec_readdir(self@, ino, offset),
    {
        let node = match self.get(ino) {
            Some(n) => n,
            None => return Err(FsError::NotFound),
        };
        let mut out: Vec<DirEntry> = Vec::new();
        if offset == 0 {
            let ghost want = listing(self@, ino);
            proof {
                reveal_strlit(".");
                reveal_strlit("..");
            }
            out.push(DirEntry { ino, offset: 0, kind: FileKind::Directory, name: ".".to_owned() });
            out.push(
                DirEntry {
                    ino: node.parent,
                    offset: 1,
                    kind: FileKind::Directory,
                    name: "..".to_owned(),
                },
            );
            assert(out@[0].name@ == seq!['.']);
            assert(out@[0]@ == want[0]);
            assert(out@[1].name@ == seq!['.', '.']);
            assert(out@[1]@ == want[1]);
            let mut i: usize = 0;
            while i < node.children.len()
                invariant
                    self.wf(),
                    self.contains(ino),
                    node@ == self.node(ino),
                    want == listing(self@, ino),
                    0 <= i <= node.children@.len(),
                    out@.len() == i + 2,
                    forall|k: int| 0 <= k < i + 2 ==> #[trigger] out@[k]@ == want[k],
                decreases node.children.len() - i,
            {
                let e = &node.children[i];
                assert(node@.children[i as int] == (e.0@, e.1));
                proof {
                    if ino != ROOT_INO {
                        assert(crate::store::is_root_file(self@[ino - 1]));
                    } else {
                        assert(self@[0].children[i as int].1 == i + 2);
                    }
                }
                let child = match self.get(e.1) {
                    Some(c) => c,
                    None => return Err(FsError::NotFound),
                };
                let seq_no: i64 = #[verifier::truncate] ((i + 2) as i64);
                out.push(DirEntry { ino: e.1, offset: seq_no, kind: child.attr.kind, name: e.0.clone() });
                assert(out@[i + 2]@ == want[i + 2]);
                i += 1;
            }
            assert(out@.map_values(|e: DirEntry| e@) =~= want);
        } else {
            assert(out@.map_values(|e: DirEntry| e@) =~= Seq::<DirEntryView>::empty());
        }
        Ok(out)
    }

    /// Creates an empty regular file named `name` under the root, stamped
    /// with `now`.
    pub fn create_at(&mut self, parent: u64, name: String, mode: u32, flags: u32, now: Timestamp) -> (r:
        Result<FileAttr, FsError>)
        requires
            old(self).wf(),
            old(self)@.len() < u64::MAX,
        ensures
            final(self).wf(),
            (final(self)@, r) == spec_create(old(self)@, parent, name@, mode, flags, now),
    {
        if parent != ROOT_INO {
            return Err(FsError::NotFound);
        }
        let ino = self.allocate_id();
        let perm: u16 = #[verifier::truncate] (mode as u16);
        let attr = FileAttr {
            ino,
            size: 0,
            blocks: 0,
            atime: now,
            mtime: now,
            ctime: now,
            crtime: now,
            kind: FileKind::RegularFile,
            perm,
            nlink: 1,
            uid: OWNER_UID,
            gid: OWNER_GID,
            rdev: 0,
            flags,
        };
        self.insert(name, attr);
        Ok(attr)
    }

    /// Creates an empty regular file named `name` under the root, stamped
    /// with the current time.
    pub fn create(&mut self, parent: u64, name: String, mode: u32, flags: u32) -> (r: Result<
        FileAttr,
        FsError,
    >)
        requires
            old(self).wf(),
            old(self)@.len() < u64::MAX,
        ensures
            final(self).wf(),
            parent != ROOT_INO ==> final(self)@ == old(self)@ && r == Err::<FileAttr, FsError>(
                FsError::NotFound,
            ),
            parent == ROOT_INO ==> r is Ok && (final(self)@, r) == spec_create(
                old(self)@,
                parent,
                name@,
                mode,
                flags,
                r->Ok_0.atime,
            ),
            r matches Ok(a) ==> 0 <= a.atime.nsec < 1_000_000_000,
    {
        if parent != ROOT_INO {
            return Err(FsError::NotFound);
        }
        let now = crate::clock::current_time();
        self.create_at(parent, name, mode, flags, now)
    }
    /// Replaces the attribute fields present in `ch` on node `ino`.
    pub fn setattr(&mut self, ino: u64, ch: AttrChanges) -> (r: Result<FileAttr, FsError>)
        requires
            old(self).wf(),
        ensures
            final(self).wf(),
            (final(self)@, r) == spec_setattr(old(self)@, ino, ch),
    {
        let mut attr = match self.get(ino) {
            Some(n) => n.attr,
            None => return Err(FsError::NotFound),
        };
        if let Some(m) = ch.mode {
            attr.perm = #[verifier::truncate] (m as u16);
        }
        if let Some(f) = ch.flags {
            attr.flags = f;
        }
        if let Some(z) = ch.size {
            attr.size = z;
        }
        if let Some(t) = ch.mtime {
            attr.mtime = t;
        }
        if let Some(t) = ch.atime {
            attr.atime = t;
        }
        self.set_attr(ino, attr);
        Ok(attr)
    }

    /// Opens regular file `ino`; the handle carries no state.
    pub fn open(&self, ino: u64, flags: u32) -> (r: Result<OpenReply, FsError>)
        requires
            self.wf(),
        ensures
            r == spec_open(self@, ino, flags),
    {
        match self.get(ino) {
            Some(n) => {
                if n.attr.kind == FileKind::RegularFile {
                    Ok(OpenReply { fh: 0, flags })
                } else {
                    Err(FsError::NotFound)
                }
            },
            None => Err(FsError::NotFound),
        }
    }

    /// Opens directory `ino`, which must be the root.
    pub fn opendir(&self, ino: u64, flags: u32) -> (r: Result<OpenReply, FsError>)
        ensures
            r == spec_opendir(ino, flags),
    {
        if ino == ROOT_INO {
            Ok(OpenReply { fh: 0, flags })
        } else {
            Err(FsError::NotFound)
        }
    }

    /// Closes a file handle; there is nothing to release.
    pub fn release(&self, ino: u64) -> (r: Result<(), FsError>)
        ensures
            r is Ok,
    {
        Ok(())
    }

    /// Closes a directory handle; there is nothing to release.
    pub fn releasedir(&self, ino: u64) -> (r: Result<(), FsError>)
        ensures
            r is Ok,
    {
        Ok(())
    }

    /// Flushing is refused: no durable medium backs the store.
    pub fn fsync(&self, ino: u64) -> (r: Result<(), FsError>)
        ensures
            r == Err::<(), FsError>(FsError::Io),
    {
        Err(FsError::Io)
    }

    /// Fixed nominal capacity counters.
    pub fn statfs(&self, ino: u64) -> (r: StatFs)
        ensures
            r == nominal_statfs(),
    {
        StatFs {
            blocks: 0,
            bfree: 0,
            bavail: 0,
            files: 0,
            ffree: 0,
            bsize: 512,
            namelen: 255,
            frsize: 0,
        }
    }

    /// Writes `data` at `offset` of node `ino`: bytes inside the content are
    /// overwritten, the rest appended, and the size follows the content.
    pub fn write(&mut self, ino: u64, offset: i64, data: &[u8]) -> (r: Result<usize, FsError>)
        requires
            old(self).wf(),
            offset >= 0,
        ensures
            final(self).wf(),
            (final(self)@, r) == spec_write(old(self)@, ino, offset as int, data@),
    {
        let len = match self.get(ino) {
            Some(n) => n.content.len(),
            None => return Err(FsError::NotFound),
        };
        if offset as u64 > len as u64 {
            return Err(FsError::InvalidOffset);
        }
        let off = offset as usize;
        let ghost s0 = self@;
        let ghost n0 = s0[ino - 1];
        let ghost c0 = n0.content;
        proof {
            lemma_splice_empty(c0, off as int, data@);
            assert(s0.update(ino - 1, NodeView { content: c0, ..n0 }) =~= s0);
        }
        let mut i: usize = 0;
        while i < data.len()
            invariant
                self.wf(),
                has_ino(s0, ino),
                n0 == s0[ino - 1],
                c0 == n0.content,
                off <= c0.len(),
                0 <= i <= data@.len(),
                self@ == s0.update(
                    ino - 1,
                    NodeView { content: spliced(c0, off as int, data@.take(i as int)), ..n0 },
                ),
            decreases data.len() - i,
        {
            proof {
                lemma_splice_step(c0, off as int, data@, i as int);
            }
            let cur = match self.get(ino) {
                Some(n) => n.content.len(),
                None => return Err(FsError::NotFound),
            };
            let pos = off + i;
            if pos < cur {
                self.set_byte(ino, pos, data[i]);
            } else {
                self.push_byte(ino, data[i]);
            }
            i += 1;
            assert(self@ =~= s0.update(
                ino - 1,
                NodeView { content: spliced(c0, off as int, data@.take(i as int)), ..n0 },
            ));
        }
        let attr = match self.get(ino) {
            Some(n) => FileAttr { size: n.content.len() as u64, ..n.attr },
            None => return Err(FsError::NotFound),
        };
        self.set_attr(ino, attr);
        proof {
            assert(data@.take(data@.len() as int) =~= data@);
            let c = spliced(c0, off as int, data@);
            assert(self@ =~= s0.update(
                ino - 1,
                NodeView { content: c, attr: FileAttr { size: c.len() as u64, ..n0.attr }, ..n0 },
            ));
        }
        Ok(data.len())
    }

    /// At most `size` bytes of node `ino` from `offset`, fewer at the end.
    pub fn read(&self, ino: u64, offset: i64, size: u32) -> (r: Result<Vec<u8>, FsError>)
        requires
            self.wf(),
            offset >= 0,
        ensures
            bytes_result(r) == spec_read(self@, ino, offset as int, size as int),
    {
        let node = match self.get(ino) {
            Some(n) => n,
            None => return Err(FsError::NotFound),
        };
        let len = node.content.len();
        if offset as u64 > len as u64 {
            return Err(FsError::InvalidOffset);
        }
        let off = offset as usize;
        let want = size as usize;
        let end = if want < len - off {
            off + want
        } else {
            len
        };
        let mut out: Vec<u8> = Vec::new();
        let mut k = off;
        while k < end
            invariant
                off <= k <= end <= len,
                len == node.content@.len(),
                out@ == node.content@.subrange(off as int, k as int),
            decreases end - k,
        {
            out.push(node.content[k]);
            k += 1;
            assert(out@ =~= node.content@.subrange(off as int, k as int));
        }
        Ok(out)
    }
}

} // verus!

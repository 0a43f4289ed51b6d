//! Plain values exchanged between the request handlers and their callers.
use vstd::prelude::*;

verus! {

/// Inode number of the filesystem root.
pub const ROOT_INO: u64 = 1;

/// Nominal size reported for the root directory.
pub const DIR_SIZE: u64 = 4096;

/// Default permission bits of the root directory.
pub const ROOT_PERM: u16 = 0o755;

/// Owner uid and gid given to every node.
pub const OWNER_UID: u32 = 1000;

pub const OWNER_GID: u32 = 1000;

/// Seconds for which a reply's attributes may be cached.
pub const TTL_SECS: i64 = 1;

/// A point in time as seconds and nanoseconds since the epoch.
#[derive(Clone, Copy, Debug, PartialEq, Eq, Structural)]
pub struct Timestamp {
    pub sec: i64,
    pub nsec: i32,
}

/// The two kinds of node the store holds.
#[derive(Clone, Copy, Debug, PartialEq, Eq, Structural)]
pub enum FileKind {
    Directory,
    RegularFile,
}

/// Metadata of a node.
#[derive(Clone, Copy, Debug, PartialEq, Eq, Structural)]
pub struct FileAttr {
    pub ino: u64,
    pub size: u64,
    pub blocks: u64,
    pub atime: Timestamp,
    pub mtime: Timestamp,
    pub ctime: Timestamp,
    pub crtime: Timestamp,
    pub kind: FileKind,
    pub perm: u16,
    pub nlink: u32,
    pub uid: u32,
    pub gid: u32,
    pub rdev: u32,
    pub flags: u32,
}

/// The errors a request can end in.
#[derive(Clone, Copy, Debug, PartialEq, Eq, Structural)]
pub enum FsError {
    /// The inode or named entry does not exist, or a structural check failed.
    NotFound,
    /// A read or write offset lies past the end of the content.
    InvalidOffset,
    /// Durability was asked for and is not offered.
    Io,
}

/// One line of a directory listing.
#[derive(Debug)]
pub struct DirEntry {
    pub ino: u64,
    pub offset: i64,
    pub kind: FileKind,
    pub name: String,
}

/// Mathematical view of a directory entry.
pub struct DirEntryView {
    pub ino: u64,
    pub offset: i64,
    pub kind: FileKind,
    pub name: Seq<char>,
}

impl View for DirEntry {
    type V = DirEntryView;

    open spec fn view(&self) -> DirEntryView {
        DirEntryView { ino: self.ino, offset: self.offset, kind: self.kind, name: self.name@ }
    }
}

/// The reply to a successful open: a handle and the echoed flags.
#[derive(Clone, Copy, Debug, PartialEq, Eq, Structural)]
pub struct OpenReply {
    pub fh: u64,
    pub flags: u32,
}

/// Nominal filesystem capacity counters.
#[derive(Clone, Copy, Debug, PartialEq, Eq, Structural)]
pub struct StatFs {
    pub blocks: u64,
    pub bfree: u64,
    pub bavail: u64,
    pub files: u64,
    pub ffree: u64,
    pub bsize: u32,
    pub namelen: u32,
    pub frsize: u32,
}

/// The attribute fields a `setattr` request may carry; absent ones stay.
#[derive(Clone, Copy, Debug, PartialEq, Eq, Structural)]
pub struct AttrChanges {
    pub mode: Option<u32>,
    pub size: Option<u64>,
    pub atime: Option<Timestamp>,
    pub mtime: Option<Timestamp>,
    pub flags: Option<u32>,
}

} // verus!

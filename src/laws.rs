//! Laws that relate the operations to one another, proved over the spec
//! functions that the handlers' contracts use.
use vstd::prelude::*;
use crate::handler::{
    created_attr, find_entry, has_ino, listing, spec_create, spec_lookup, spec_read, spec_write,
};
use crate::store::{initial_nodes, NodeView};
use crate::types::{DirEntryView, FileAttr, FileKind, FsError, Timestamp, ROOT_INO};

verus! {

/// The arguments of one `create` under the root: name, mode, flags, time.
pub type CreateCall = (Seq<char>, u32, u32, Timestamp);

/// The table after the given `create` calls under the root, in order.
pub open spec fn after_creates(s: Seq<NodeView>, calls: Seq<CreateCall>) -> Seq<NodeView>
    decreases calls.len(),
{
    if calls.len() == 0 {
        s
    } else {
        let c = calls.last();
        spec_create(after_creates(s, calls.drop_last()), ROOT_INO, c.0, c.1, c.2, c.3).0
    }
}

/// Attributes given by the `k`-th call (from 0) of a sequence of creates on a
/// fresh store.
pub open spec fn attr_of_call(calls: Seq<CreateCall>, k: int) -> FileAttr {
    created_attr((k + 2) as u64, calls[k].1, calls[k].2, calls[k].3)
}

/// A fresh store holds the root alone: a directory that is its own parent
/// and has no entries.
pub proof fn lemma_fresh_root(now: Timestamp)
    ensures
        initial_nodes(now).len() == 1,
        initial_nodes(now)[0].attr.ino == ROOT_INO,
        initial_nodes(now)[0].attr.kind == FileKind::Directory,
        initial_nodes(now)[0].parent == ROOT_INO,
        initial_nodes(now)[0].children.len() == 0,
{
}

/// Shape of a fresh store after `calls`: one node per call, numbered from 2
/// in call order, each listed under the root in that order.
proof fn lemma_creates_shape(now: Timestamp, calls: Seq<CreateCall>)
    requires
        calls.len() + 2 <= u64::MAX,
    ensures
        ({
            let s = after_creates(initial_nodes(now), calls);
            &&& s.len() == calls.len() + 1
            &&& s[0].attr.kind == FileKind::Directory
            &&& s[0].parent == ROOT_INO
            &&& s[0].children.len() == calls.len()
            &&& forall|k: int|
                0 <= k < calls.len() ==> #[trigger] s[0].children[k] == (
                    calls[k].0,
                    (k + 2) as u64,
                )
            &&& forall|k: int|
                0 <= k < calls.len() ==> #[trigger] s[k + 1].attr == attr_of_call(calls, k)
        }),
    decreases calls.len(),
{
    if calls.len() > 0 {
        let prev = calls.drop_last();
        lemma_creates_shape(now, prev);
        let t = after_creates(initial_nodes(now), prev);
        let s = after_creates(initial_nodes(now), calls);
        assert forall|k: int| 0 <= k < calls.len() implies #[trigger] s[0].children[k] == (
            calls[k].0,
            (k + 2) as u64,
        ) by {
            if k < prev.len() {
                assert(s[0].children[k] == t[0].children[k]);
                assert(prev[k] == calls[k]);
            }
        }
        assert forall|k: int| 0 <= k < calls.len() implies #[trigger] s[k + 1].attr
            == attr_of_call(calls, k) by {
            if k < prev.len() {
                assert(s[k + 1] == t[k + 1]);
                assert(prev[k] == calls[k]);
            }
        }
    }
}

/// The first entry named `c[k].0` is entry `k` when no earlier entry has
/// that name.
proof fn lemma_find_first(c: Seq<(Seq<char>, u64)>, k: int)
    requires
        0 <= k < c.len(),
        forall|j: int| 0 <= j < k ==> #[trigger] c[j].0 != c[k].0,
    ensures
        find_entry(c, c[k].0) == Some(c[k].1),
    decreases k,
{
    if k > 0 {
        let d = c.drop_first();
        assert forall|j: int| 0 <= j < k - 1 implies #[trigger] d[j].0 != d[k - 1].0 by {
            assert(d[j] == c[j + 1]);
        }
        lemma_find_first(d, k - 1);
    }
}

/// Creating files one after another on a fresh store hands out inode
/// numbers 2, 3, ... in call order, and afterwards looking a name up under
/// the root gives the attributes of the file created with it, provided no
/// earlier call used the same name.
pub proof fn lemma_create_monotonic(now: Timestamp, calls: Seq<CreateCall>, k: int)
    requires
        calls.len() + 2 <= u64::MAX,
        0 <= k < calls.len(),
    ensures
        spec_create(
            after_creates(initial_nodes(now), calls.take(k)),
            ROOT_INO,
            calls[k].0,
            calls[k].1,
            calls[k].2,
            calls[k].3,
        ).1 == Ok::<_, FsError>(attr_of_call(calls, k)),
        attr_of_call(calls, k).ino == k + 2,
        (forall|j: int| 0 <= j < k ==> #[trigger] calls[j].0 != calls[k].0) ==> spec_lookup(
            after_creates(initial_nodes(now), calls),
            ROOT_INO,
            calls[k].0,
        ) == Ok::<_, FsError>(attr_of_call(calls, k)),
{
    let pre = calls.take(k);
    lemma_creates_shape(now, pre);
    lemma_creates_shape(now, calls);
    let s = after_creates(initial_nodes(now), calls);
    if forall|j: int| 0 <= j < k ==> #[trigger] calls[j].0 != calls[k].0 {
        assert forall|j: int| 0 <= j < k implies #[trigger] s[0].children[j].0
            != s[0].children[k].0 by {
            assert(s[0].children[j] == (calls[j].0, (j + 2) as u64));
            assert(s[0].children[k] == (calls[k].0, (k + 2) as u64));
        }
        lemma_find_first(s[0].children, k);
        assert(s[(k + 2) - 1] == s[k + 1]);
    }
}

/// After creates on a fresh store, the root lists `.`, `..` and then each
/// created file in call order, numbered 0, 1, 2, ...
pub proof fn lemma_listing_after_creates(now: Timestamp, calls: Seq<CreateCall>)
    requires
        calls.len() + 2 <= u64::MAX,
    ensures
        ({
            let l = listing(after_creates(initial_nodes(now), calls), ROOT_INO);
            &&& l.len() == calls.len() + 2
            &&& l[0] == DirEntryView {
                ino: ROOT_INO,
                offset: 0,
                kind: FileKind::Directory,
                name: seq!['.'],
            }
            &&& l[1] == DirEntryView {
                ino: ROOT_INO,
                offset: 1,
                kind: FileKind::Directory,
                name: seq!['.', '.'],
            }
            &&& forall|k: int|
                0 <= k < calls.len() ==> #[trigger] l[k + 2] == DirEntryView {
                    ino: (k + 2) as u64,
                    offset: (k + 2) as i64,
                    kind: FileKind::RegularFile,
                    name: calls[k].0,
                }
        }),
{
    lemma_creates_shape(now, calls);
    let s = after_creates(initial_nodes(now), calls);
    let l = listing(s, ROOT_INO);
    assert forall|k: int| 0 <= k < calls.len() implies #[trigger] l[k + 2] == DirEntryView {
        ino: (k + 2) as u64,
        offset: (k + 2) as i64,
        kind: FileKind::RegularFile,
        name: calls[k].0,
    } by {
        assert(s[0].children[k] == (calls[k].0, (k + 2) as u64));
        assert(s[k + 1].attr == attr_of_call(calls, k));
        assert(s[((k + 2) as u64) - 1] == s[k + 1]);
    }
}

/// Writing `b` at offset 0 of an empty file and reading `b.len()` bytes back
/// from offset 0 gives exactly `b`; the size is then `b.len()`.
pub proof fn lemma_write_read_round_trip(s: Seq<NodeView>, ino: u64, b: Seq<u8>)
    requires
        has_ino(s, ino),
        s[ino - 1].content.len() == 0,
        b.len() <= u32::MAX,
    ensures
        spec_write(s, ino, 0, b).1 == Ok::<_, FsError>(b.len() as usize),
        spec_write(s, ino, 0, b).0[ino - 1].attr.size == b.len(),
        spec_read(spec_write(s, ino, 0, b).0, ino, 0, b.len() as int) == Ok::<_, FsError>(b),
{
    let t = spec_write(s, ino, 0, b).0;
    assert(t[ino - 1].content =~= b);
    assert(b.subrange(0, b.len() as int) =~= b);
}

/// A write of `b2` at the end of a file that `b1` was written to first
/// leaves `b1 + b2`, and the size is the sum of the lengths.
pub proof fn lemma_append_growth(s: Seq<NodeView>, ino: u64, b1: Seq<u8>, b2: Seq<u8>)
    requires
        has_ino(s, ino),
        s[ino - 1].content.len() == 0,
        b1.len() + b2.len() <= u64::MAX,
    ensures
        ({
            let t = spec_write(s, ino, 0, b1).0;
            let u = spec_write(t, ino, t[ino - 1].attr.size as int, b2);
            &&& u.1 == Ok::<_, FsError>(b2.len() as usize)
            &&& u.0[ino - 1].content == b1 + b2
            &&& u.0[ino - 1].attr.size == b1.len() + b2.len()
        }),
{
    let t = spec_write(s, ino, 0, b1).0;
    assert(t[ino - 1].content =~= b1);
    let u = spec_write(t, ino, b1.len() as int, b2).0;
    assert(u[ino - 1].content =~= b1 + b2);
}

/// A write that lies wholly inside the content keeps its length, puts `d`
/// at `k` and leaves every other byte as it was.
pub proof fn lemma_overwrite_in_place(s: Seq<NodeView>, ino: u64, k: int, d: Seq<u8>)
    requires
        has_ino(s, ino),
        0 <= k < s[ino - 1].content.len(),
        k + d.len() <= s[ino - 1].content.len(),
    ensures
        ({
            let c = s[ino - 1].content;
            let t = spec_write(s, ino, k, d).0[ino - 1].content;
            &&& t.len() == c.len()
            &&& t.subrange(k, k + d.len()) == d
            &&& forall|j: int|
                0 <= j < c.len() && !(k <= j < k + d.len()) ==> #[trigger] t[j] == c[j]
        }),
{
    let c = s[ino - 1].content;
    let t = spec_write(s, ino, k, d).0[ino - 1].content;
    assert(t.subrange(k, k + d.len()) =~= d);
}

/// A write or a read at an offset past the end of the content is refused
/// with `InvalidOffset`, and the write changes nothing.
pub proof fn lemma_offset_rejection(s: Seq<NodeView>, ino: u64, offset: int, d: Seq<u8>, size: int)
    requires
        has_ino(s, ino),
        offset > s[ino - 1].content.len(),
    ensures
        spec_write(s, ino, offset, d) == (s, Err::<usize, FsError>(FsError::InvalidOffset)),
        spec_read(s, ino, offset, size) == Err::<Seq<u8>, FsError>(FsError::InvalidOffset),
{
}

/// Asking for 100 bytes more than the file holds, 10 bytes before its end,
/// gives exactly its last 10 bytes.
pub proof fn lemma_short_read_at_end(s: Seq<NodeView>, ino: u64)
    requires
        has_ino(s, ino),
        s[ino - 1].content.len() >= 10,
    ensures
        ({
            let c = s[ino - 1].content;
            spec_read(s, ino, c.len() - 10, c.len() + 100int) == Ok::<_, FsError>(
                c.subrange(c.len() - 10, c.len() as int),
            )
        }),
{
}

} // verus!

//! The node store: an arena of nodes indexed by inode number.
//!
//! Node `id` lives at index `id - 1`. Nothing is ever removed, so the next
//! free inode number is always one more than the number of nodes.
use vstd::prelude::*;
use crate::types::{FileAttr, FileKind, Timestamp, DIR_SIZE, OWNER_GID, OWNER_UID, ROOT_INO, ROOT_PERM};

verus! {

/// Mathematical view of a node.
pub struct NodeView {
    pub attr: FileAttr,
    pub parent: u64,
    pub children: Seq<(Seq<char>, u64)>,
    pub content: Seq<u8>,
}

/// A file or directory: its metadata, its parent, its entries (directories)
/// and its bytes (regular files).
pub struct Node {
    pub attr: FileAttr,
    pub parent: u64,
    pub children: Vec<(String, u64)>,
    pub content: Vec<u8>,
}

pub open spec fn entries_view(v: Seq<(String, u64)>) -> Seq<(Seq<char>, u64)> {
    v.map_values(|e: (String, u64)| (e.0@, e.1))
}

impl View for Node {
    type V = NodeView;

    open spec fn view(&self) -> NodeView {
        NodeView {
            attr: self.attr,
            parent: self.parent,
            children: entries_view(self.children@),
            content: self.content@,
        }
    }
}

/// Attributes of the root directory when created at time `now`.
pub open spec fn root_attr(now: Timestamp) -> FileAttr {
    FileAttr {
        ino: ROOT_INO,
        size: DIR_SIZE,
        blocks: 0,
        atime: now,
        mtime: now,
        ctime: now,
        crtime: now,
        kind: FileKind::Directory,
        perm: ROOT_PERM,
        nlink: 2,
        uid: OWNER_UID,
        gid: OWNER_GID,
        rdev: 0,
        flags: 0,
    }
}

/// A node with the given attributes and parent, no entries and no bytes.
pub open spec fn fresh_node(attr: FileAttr, parent: u64) -> NodeView {
    NodeView { attr, parent, children: Seq::empty(), content: Seq::empty() }
}

/// The table of a store created at time `now`: the root alone.
pub open spec fn initial_nodes(now: Timestamp) -> Seq<NodeView> {
    seq![fresh_node(root_attr(now), ROOT_INO)]
}

/// The shape every store keeps: node `i + 1` sits at index `i`; the root is a
/// directory, its own parent, and lists every other node in creation order;
/// every other node is a regular file under the root.
pub open spec fn valid_nodes(s: Seq<NodeView>) -> bool {
    &&& 1 <= s.len() <= u64::MAX
    &&& forall|i: int| 0 <= i < s.len() ==> #[trigger] s[i].attr.ino == i + 1
    &&& s[0].attr.kind == FileKind::Directory
    &&& s[0].parent == ROOT_INO
    &&& s[0].children.len() == s.len() - 1
    &&& forall|j: int| 0 <= j < s[0].children.len() ==> #[trigger] s[0].children[j].1 == j + 2
    &&& forall|i: int| 1 <= i < s.len() ==> is_root_file(#[trigger] s[i])
}

/// A regular file directly under the root, with no entries of its own.
pub open spec fn is_root_file(n: NodeView) -> bool {
    &&& n.parent == ROOT_INO
    &&& n.attr.kind == FileKind::RegularFile
    &&& n.children.len() == 0
}

proof fn lemma_insert_keeps_valid(s: Seq<NodeView>, name: Seq<char>, attr: FileAttr)
    requires
        valid_nodes(s),
        s.len() < u64::MAX,
        attr.ino == s.len() + 1,
        attr.kind == FileKind::RegularFile,
    ensures
        valid_nodes(
            s.update(0, NodeView { children: s[0].children.push((name, attr.ino)), ..s[0] }).push(
                fresh_node(attr, ROOT_INO),
            ),
        ),
{
    let t = s.update(0, NodeView { children: s[0].children.push((name, attr.ino)), ..s[0] }).push(
        fresh_node(attr, ROOT_INO),
    );
    assert forall|i: int| 0 <= i < t.len() implies #[trigger] t[i].attr.ino == i + 1 by {
        if i < s.len() {
            assert(t[i].attr == s[i].attr);
        }
    }
    assert forall|j: int| 0 <= j < t[0].children.len() implies #[trigger] t[0].children[j].1 == j
        + 2 by {
        if j < s[0].children.len() {
            assert(t[0].children[j] == s[0].children[j]);
        }
    }
    assert forall|i: int| 1 <= i < t.len() implies is_root_file(#[trigger] t[i]) by {
        if i < s.len() {
            assert(t[i] == s[i]);
        }
    }
}

/// Replacing node `i` by one with the same inode number, kind, parent and
/// entries keeps the table's shape.
proof fn lemma_replace_keeps_valid(s: Seq<NodeView>, i: int, n: NodeView)
    requires
        valid_nodes(s),
        0 <= i < s.len(),
        n.attr.ino == s[i].attr.ino,
        n.attr.kind == s[i].attr.kind,
        n.parent == s[i].parent,
        n.children == s[i].children,
    ensures
        valid_nodes(s.update(i, n)),
{
    let t = s.update(i, n);
    assert forall|k: int| 0 <= k < t.len() implies #[trigger] t[k].attr.ino == k + 1 by {
        if k != i {
            assert(t[k] == s[k]);
        }
    }
    assert forall|k: int| 1 <= k < t.len() implies is_root_file(#[trigger] t[k]) by {
        if k != i {
            assert(t[k] == s[k]);
        }
    }
}

/// The inode table.
pub struct NodeStore {
    nodes: Vec<Node>,
}

impl View for NodeStore {
    type V = Seq<NodeView>;

    closed spec fn view(&self) -> Seq<NodeView> {
        self.nodes@.map_values(|n: Node| n@)
    }
}

impl NodeStore {
    pub open spec fn wf(&self) -> bool {
        &&& valid_nodes(self@)
        &&& self@.len() <= usize::MAX
    }

    /// Whether inode `id` is in the store.
    pub open spec fn contains(&self, id: u64) -> bool {
        1 <= id <= self@.len()
    }

    /// The node with inode `id`.
    pub open spec fn node(&self, id: u64) -> NodeView {
        self@[id - 1]
    }

    /// A store holding only the root directory, stamped with `now`.
    pub fn new_at(now: Timestamp) -> (r: NodeStore)
        ensures
            r.wf(),
            r@ == initial_nodes(now),
    {
        let attr = FileAttr {
            ino: ROOT_INO,
            size: DIR_SIZE,
            blocks: 0,
            atime: now,
            mtime: now,
            ctime: now,
            crtime: now,
            kind: FileKind::Directory,
            perm: ROOT_PERM,
            nlink: 2,
            uid: OWNER_UID,
            gid: OWNER_GID,
            rdev: 0,
            flags: 0,
        };
        let root = Node { attr, parent: ROOT_INO, children: Vec::new(), content: Vec::new() };
        let mut nodes: Vec<Node> = Vec::new();
        nodes.push(root);
        let r = NodeStore { nodes };
        assert(entries_view(r.nodes@[0].children@) =~= Seq::empty());
        assert(r@ =~= initial_nodes(now));
        r
    }

    /// A store holding only the root directory, stamped with the current time.
    pub fn new() -> (r: NodeStore)
        ensures
            r.wf(),
            r@ == initial_nodes(r@[0].attr.atime),
            0 <= r@[0].attr.atime.nsec < 1_000_000_000,
    {
        let now = crate::clock::current_time();
        NodeStore::new_at(now)
    }

    /// Number of nodes in the store.
    pub fn node_count(&self) -> (r: usize)
        ensures
            r == self@.len(),
    {
        self.nodes.len()
    }

    /// The node with inode `id`, if there is one.
    pub fn get(&self, id: u64) -> (r: Option<&Node>)
        requires
            self.wf(),
        ensures
            r matches Some(n) ==> self.contains(id) && n@ == self.node(id),
            r is None ==> !self.contains(id),
    {
        if id >= 1 && id <= self.nodes.len() as u64 {
            Some(&self.nodes[(id - 1) as usize])
        } else {
            None
        }
    }

    /// The next unused inode number.
    pub fn allocate_id(&self) -> (r: u64)
        requires
            self.wf(),
            self@.len() < u64::MAX,
        ensures
            r == self@.len() + 1,
    {
        self.nodes.len() as u64 + 1
    }
    /// Array index of node `id`.
    fn index_of(&self, id: u64) -> (i: usize)
        requires
            self.contains(id),
        ensures
            i == id - 1,
            i < self.nodes@.len(),
            self@[i as int] == self.nodes@[i as int]@,
    {
        let _len = self.nodes.len();
        (id - 1) as usize
    }

    /// Adds a new regular file with attributes `attr` under the root, named
    /// `name`: the entry is appended to the root's list and the node stored
    /// under `attr.ino`, the next unused inode number.
    pub fn insert(&mut self, name: String, attr: FileAttr)
        requires
            old(self).wf(),
            old(self)@.len() < u64::MAX,
            attr.ino == old(self)@.len() + 1,
            attr.kind == FileKind::RegularFile,
        ensures
            final(self).wf(),
            final(self)@ == old(self)@.update(
                0,
                NodeView {
                    children: old(self)@[0].children.push((name@, attr.ino)),
                    ..old(self)@[0]
                },
            ).push(fresh_node(attr, ROOT_INO)),
    {
        let ghost before = self@;
        let ghost nm = name@;
        proof {
            lemma_insert_keeps_valid(before, nm, attr);
        }
        self.nodes[0].children.push((name, attr.ino));
        let node = Node { attr, parent: ROOT_INO, children: Vec::new(), content: Vec::new() };
        self.nodes.push(node);
        let _len = self.nodes.len();
        let ghost expected = before.update(
            0,
            NodeView { children: before[0].children.push((nm, attr.ino)), ..before[0] },
        ).push(fresh_node(attr, ROOT_INO));
        assert(entries_view(self.nodes@[0].children@) =~= before[0].children.push((nm, attr.ino)));
        assert(entries_view(self.nodes@[self.nodes@.len() - 1].children@) =~= Seq::empty());
        assert(self@ =~= expected);
    }

    /// Replaces the attributes of node `id`; its inode number and kind stay.
    pub fn set_attr(&mut self, id: u64, attr: FileAttr)
        requires
            old(self).wf(),
            old(self).contains(id),
            attr.ino == id,
            attr.kind == old(self).node(id).attr.kind,
        ensures
            final(self).wf(),
            final(self)@ == old(self)@.update(id - 1, NodeView { attr, ..old(self).node(id) }),
    {
        let ghost before = self@;
        let i = self.index_of(id);
        self.nodes[i].attr = attr;
        assert(self@ =~= before.update(id - 1, NodeView { attr, ..before[id - 1] }));
        proof {
            lemma_replace_keeps_valid(before, id - 1, NodeView { attr, ..before[id - 1] });
        }
    }

    /// Overwrites byte `pos` of node `id`'s content with `b`.
    pub fn set_byte(&mut self, id: u64, pos: usize, b: u8)
        requires
            old(self).wf(),
            old(self).contains(id),
            pos < old(self).node(id).content.len(),
        ensures
            final(self).wf(),
            final(self)@ == old(self)@.update(
                id - 1,
                NodeView {
                    content: old(self).node(id).content.update(pos as int, b),
                    ..old(self).node(id)
                },
            ),
    {
        let ghost before = self@;
        let i = self.index_of(id);
        self.nodes[i].content.set(pos, b);
        assert(self@ =~= before.update(
            id - 1,
            NodeView { content: before[id - 1].content.update(pos as int, b), ..before[id - 1] },
        ));
        proof {
            lemma_replace_keeps_valid(
                before,
                id - 1,
                NodeView { content: before[id - 1].content.update(pos as int, b), ..before[id - 1] },
            );
        }
    }

    /// Appends byte `b` to node `id`'s content.
    pub fn push_byte(&mut self, id: u64, b: u8)
        requires
            old(self).wf(),
            old(self).contains(id),
        ensures
            final(self).wf(),
            final(self)@ == old(self)@.update(
                id - 1,
                NodeView { content: old(self).node(id).content.push(b), ..old(self).node(id) },
            ),
    {
        let ghost before = self@;
        let i = self.index_of(id);
        self.nodes[i].content.push(b);
        assert(self@ =~= before.update(
            id - 1,
            NodeView { content: before[id - 1].content.push(b), ..before[id - 1] },
        ));
        proof {
            lemma_replace_keeps_valid(
                before,
                id - 1,
                NodeView { content: before[id - 1].content.push(b), ..before[id - 1] },
            );
        }
    }
}

} // verus!

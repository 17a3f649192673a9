//! The inode table: owner of every node of the virtual tree, allocator of
//! handles, and the basis of indexed and relational lookup.
//!
//! Handle `0` is a reserved sentinel that never denotes a valid inode; the
//! first real inode — the root — receives handle `1`.  Handles index the
//! backing vector directly, are assigned in creation order, and are never
//! reused or removed.

use vstd::prelude::*;

verus! {

/// A stable integer handle of an inode.
pub type Ino = u64;

/// Handle of the root directory.
pub const ROOT_INO: Ino = 1;

/// What an inode is: a directory, or a regular file backed by a record.
#[derive(Clone, Copy, Debug, PartialEq, Eq, Structural)]
pub enum FileKind {
    Directory,
    RegularFile,
}

/// What backs a file inode: the owning record, a selector distinguishing
/// which sub-image of the record this file is (the mip level; unused for
/// other kinds), and the write-once memoization slot for the decoded bytes.
pub struct ContentDescriptor {
    pub record: usize,
    pub selector: usize,
    pub cache: Option<Vec<u8>>,
}

/// One node of the virtual tree.  A node with a content descriptor is a
/// file; one without is a directory.  Only the root (and the sentinel)
/// have no parent.
pub struct INode {
    pub name: String,
    pub parent: Option<Ino>,
    pub content: Option<ContentDescriptor>,
}

/// Attributes reported for an inode.  Sizes of directories are always
/// reported as zero; permissions and ownership are fixed placeholder
/// values, since archives carry none of this information.
#[derive(Clone, Copy, Debug, PartialEq, Eq, Structural)]
pub struct FileAttrData {
    pub ino: Ino,
    pub size: u64,
    pub kind: FileKind,
    pub perm: u16,
    pub nlink: u32,
    pub uid: u32,
    pub gid: u32,
}

impl INode {
    /// A node's kind is derived from whether a content descriptor is present.
    pub open spec fn spec_kind(self) -> FileKind {
        if self.content is Some {
            FileKind::RegularFile
        } else {
            FileKind::Directory
        }
    }

    /// The size a node reports: the length of its resolved content, zero
    /// while the slot is empty and for directories.
    pub open spec fn spec_size(self) -> nat {
        if self.content is Some && self.content->0.cache is Some {
            self.content->0.cache->0@.len()
        } else {
            0
        }
    }

    /// The attributes a node reports, with the fixed placeholder
    /// permission and ownership values.
    pub open spec fn spec_attr(self, ino: Ino) -> FileAttrData {
        FileAttrData {
            ino,
            size: self.spec_size() as u64,
            kind: self.spec_kind(),
            perm: 0o755,
            nlink: 1,
            uid: 1000,
            gid: 1000,
        }
    }

    pub fn file_type(&self) -> (k: FileKind)
        ensures
            k == self.spec_kind(),
    {
        match &self.content {
            Some(_) => FileKind::RegularFile,
            None => FileKind::Directory,
        }
    }

    pub fn size(&self) -> (s: u64)
        ensures
            s == self.spec_size(),
    {
        match &self.content {
            Some(d) => match &d.cache {
                Some(c) => c.len() as u64,
                None => 0,
            },
            None => 0,
        }
    }

    pub fn file_attr(&self, ino: Ino) -> (a: FileAttrData)
        ensures
            a == self.spec_attr(ino),
    {
        FileAttrData {
            ino,
            size: self.size(),
            kind: self.file_type(),
            perm: 0o755,
            nlink: 1,
            uid: 1000,
            gid: 1000,
        }
    }
}

/// The handles of all inodes whose parent is `dir`, in creation order.
pub open spec fn children_seq(nodes: Seq<INode>, dir: Ino) -> Seq<Ino>
    decreases nodes.len(),
{
    if nodes.len() == 0 {
        Seq::empty()
    } else {
        let pre = children_seq(nodes.drop_last(), dir);
        if nodes.last().parent == Some(dir) {
            pre.push((nodes.len() - 1) as Ino)
        } else {
            pre
        }
    }
}

/// The children of a directory are exactly the nodes whose parent field
/// names it, each exactly once, listed in strictly increasing handle
/// order — that is, in creation order.
pub proof fn lemma_children_exact(nodes: Seq<INode>, dir: Ino)
    requires
        nodes.len() <= 0xffff_ffff_ffff_ffff,
    ensures
        forall|j: int, k: int|
            0 <= j < k < children_seq(nodes, dir).len() ==> children_seq(nodes, dir)[j]
                < children_seq(nodes, dir)[k],
        forall|j: int|
            0 <= j < children_seq(nodes, dir).len() ==> 0 <= #[trigger] children_seq(nodes, dir)[j]
                < nodes.len() && nodes[children_seq(nodes, dir)[j] as int].parent == Some(dir),
        forall|i: int|
            0 <= i < nodes.len() && nodes[i].parent == Some(dir) ==> children_seq(
                nodes,
                dir,
            ).contains(i as Ino),
    decreases nodes.len(),
{
    if nodes.len() > 0 {
        lemma_children_exact(nodes.drop_last(), dir);
        let pre = children_seq(nodes.drop_last(), dir);
        let c = children_seq(nodes, dir);
        assert forall|i: int|
            0 <= i < nodes.len() && nodes[i].parent == Some(dir) implies c.contains(
            i as Ino,
        ) by {
            if i < nodes.len() - 1 {
                assert(nodes.drop_last()[i] == nodes[i]);
                assert(pre.contains(i as Ino));
                let w = choose|w: int| 0 <= w < pre.len() && pre[w] == i as Ino;
                assert(c[w] == i as Ino);
            } else {
                assert(c.last() == i as Ino);
            }
        }
    }
}

/// Owner of all inodes.  The vector's sentinel occupies index `0`; every
/// later element's index is its handle.
pub struct InodeTable {
    pub nodes: Vec<INode>,
}

impl InodeTable {
    /// An empty table: only the reserved sentinel, so that the first
    /// inserted inode receives handle `1`.
    pub fn new() -> (t: InodeTable)
        ensures
            t.nodes@.len() == 1,
            t.nodes@[0].parent is None,
            t.nodes@[0].content is None,
    {
        let mut nodes: Vec<INode> = Vec::new();
        nodes.push(INode { name: String::new(), parent: None, content: None });
        InodeTable { nodes }
    }

    /// Append a node; its handle is the table's size before insertion.
    pub fn insert(&mut self, node: INode) -> (h: Ino)
        ensures
            h as int == old(self).nodes@.len(),
            final(self).nodes@ == old(self).nodes@.push(node),
    {
        let h = self.nodes.len() as u64;
        self.nodes.push(node);
        h
    }

    /// Bounds-checked lookup by handle; the sentinel handle `0` and
    /// out-of-range handles yield nothing.
    pub fn get(&self, h: Ino) -> (r: Option<&INode>)
        ensures
            (r is Some) <==> (1 <= h < self.nodes@.len()),
            r is Some ==> *(r->0) == self.nodes@[h as int],
    {
        if 1 <= h && h < self.nodes.len() as u64 {
            Some(&self.nodes[h as usize])
        } else {
            None
        }
    }

    /// All handles of inodes whose parent is `dir`, in creation order.
    pub fn children_of(&self, dir: Ino) -> (r: Vec<Ino>)
        ensures
            r@ == children_seq(self.nodes@, dir),
    {
        let mut out: Vec<Ino> = Vec::new();
        let mut i: usize = 0;
        while i < self.nodes.len()
            invariant
                0 <= i <= self.nodes@.len(),
                out@ == children_seq(self.nodes@.take(i as int), dir),
            decreases self.nodes@.len() - i,
        {
            let is_child = match &self.nodes[i].parent {
                Some(p) => *p == dir,
                None => false,
            };
            proof {
                let pre = self.nodes@.take(i as int);
                let cur = self.nodes@.take(i + 1int);
                assert(cur.drop_last() =~= pre);
                assert(cur.last() == self.nodes@[i as int]);
            }
            if is_child {
                out.push(i as u64);
            }
            i += 1;
        }
        proof {
            assert(self.nodes@.take(i as int) =~= self.nodes@);
        }
        out
    }
}

/// One page of a directory listing at the specification level: the
/// children from `offset` on, at most `cap` of them.
pub open spec fn page(c: Seq<Ino>, offset: int, cap: int) -> Seq<Ino> {
    let start = if offset <= c.len() {
        offset
    } else {
        c.len() as int
    };
    let end = if offset + cap <= c.len() {
        offset + cap
    } else {
        c.len() as int
    };
    if start <= end {
        c.subrange(start, end)
    } else {
        Seq::empty()
    }
}

/// All pages obtained by repeated listing calls chained by the returned
/// offset, concatenated.
pub open spec fn chained_pages(c: Seq<Ino>, offset: int, cap: int) -> Seq<Ino>
    decreases c.len() - offset,
    when 0 <= offset <= c.len() && cap >= 1
{
    if offset >= c.len() {
        Seq::empty()
    } else {
        page(c, offset, cap) + chained_pages(c, offset + page(c, offset, cap).len(), cap)
    }
}

} // verus!

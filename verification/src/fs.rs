//! The virtual filesystem: archive records become inode-table mutations
//! during a build phase; afterwards the table answers the filesystem
//! primitives, decoding file content on demand and memoizing it.

use vstd::prelude::*;
use vstd::string::StringExecFns;
use crate::bytes::{copy_bytes, copy_range};
use crate::decode::{decode_image, decode_mip, image_content, mip_content};
use crate::names::{c_prefix, c_string_prefix, mip_level_name, mip_name_seq, pic_name};
use crate::record::{classify_tag, spec_classify, ContentTag, IngestError, Record, RecordV, MIP_LEVELS};
use crate::table::{children_seq, lemma_children_exact, page, ContentDescriptor, FileAttrData, FileKind, INode, InodeTable, Ino, ROOT_INO};
use crate::wad::{
    bytes_to_name, font_parse_of, miptex_parse_of, parse_font, parse_miptex, parse_picture,
    pic_parse_of, utf8_lossy, wad_dir_of, wad_directory, ArchiveError, WadDirEntryV,
};

verus! {

/// A node holding exactly this: a file inode backed by record `record`,
/// sub-image `selector`, with its memoization slot still empty.
pub open spec fn is_file_inode(
    node: INode,
    name: Seq<char>,
    parent: Ino,
    record: int,
    selector: int,
) -> bool {
    &&& node.name@ == name
    &&& node.parent == Some(parent)
    &&& node.content matches Some(d) && d.record == record && d.selector == selector && d.cache
        is None
}

/// A node holding exactly this: a directory inode with the given name and
/// parent.
pub open spec fn is_dir_inode(node: INode, name: Seq<char>, parent: Ino) -> bool {
    &&& node.name@ == name
    &&& node.parent == Some(parent)
    &&& node.content is None
}

/// Some record of the sequence is a single picture.
pub open spec fn has_picture_in(recs: Seq<Record>) -> bool {
    exists|r: int| 0 <= r < recs.len() && (#[trigger] recs[r].tag) is Picture
}

/// Some record of the sequence is a mipmapped texture.
pub open spec fn has_miptex_in(recs: Seq<Record>) -> bool {
    exists|r: int| 0 <= r < recs.len() && (#[trigger] recs[r].tag) is MipTexture
}

/// Some record of the sequence is a bitmap font.
pub open spec fn has_font_in(recs: Seq<Record>) -> bool {
    exists|r: int| 0 <= r < recs.len() && (#[trigger] recs[r].tag) is Font
}

/// Some record of the sequence is opaque data.
pub open spec fn has_other_in(recs: Seq<Record>) -> bool {
    exists|r: int| 0 <= r < recs.len() && (#[trigger] recs[r].tag) is Other
}

/// Appending a record to the store makes a content kind present exactly if
/// it was present before or the new record is of that kind.
pub proof fn lemma_tags_after_push(pre: Seq<Record>, rec: Record)
    ensures
        has_picture_in(pre.push(rec)) <==> (has_picture_in(pre) || rec.tag is Picture),
        has_miptex_in(pre.push(rec)) <==> (has_miptex_in(pre) || rec.tag is MipTexture),
        has_font_in(pre.push(rec)) <==> (has_font_in(pre) || rec.tag is Font),
        has_other_in(pre.push(rec)) <==> (has_other_in(pre) || rec.tag is Other),
{
    let post = pre.push(rec);
    assert(post[pre.len() as int] == rec);
    assert forall|r: int| 0 <= r < pre.len() implies post[r] == pre[r] by {}
    if has_picture_in(post) {
        let w = choose|w: int| 0 <= w < post.len() && (#[trigger] post[w].tag) is Picture;
        if w < pre.len() {
            assert(pre[w].tag is Picture);
        }
    }
    if has_picture_in(pre) {
        let w = choose|w: int| 0 <= w < pre.len() && (#[trigger] pre[w].tag) is Picture;
        assert(post[w].tag is Picture);
    }
    if has_miptex_in(post) {
        let w = choose|w: int| 0 <= w < post.len() && (#[trigger] post[w].tag) is MipTexture;
        if w < pre.len() {
            assert(pre[w].tag is MipTexture);
        }
    }
    if has_miptex_in(pre) {
        let w = choose|w: int| 0 <= w < pre.len() && (#[trigger] pre[w].tag) is MipTexture;
        assert(post[w].tag is MipTexture);
    }
    if has_font_in(post) {
        let w = choose|w: int| 0 <= w < post.len() && (#[trigger] post[w].tag) is Font;
        if w < pre.len() {
            assert(pre[w].tag is Font);
        }
    }
    if has_font_in(pre) {
        let w = choose|w: int| 0 <= w < pre.len() && (#[trigger] pre[w].tag) is Font;
        assert(post[w].tag is Font);
    }
    if has_other_in(post) {
        let w = choose|w: int| 0 <= w < post.len() && (#[trigger] post[w].tag) is Other;
        if w < pre.len() {
            assert(pre[w].tag is Other);
        }
    }
    if has_other_in(pre) {
        let w = choose|w: int| 0 <= w < pre.len() && (#[trigger] pre[w].tag) is Other;
        assert(post[w].tag is Other);
    }
}

/// What one ingested record adds to the tree, in terms of the prior
/// state: the category directory if its kind is new; for a single image
/// or an opaque record, one file inode under the category directory; for
/// a mipmapped texture, a directory carrying one file inode per mip
/// level, in level order.
pub open spec fn ingest_shape(pre: WadFS, post: WadFS, rec: Record) -> bool {
    let n = pre.table.nodes@.len() as int;
    let nr = pre.records@.len() as int;
    let nodes = post.table.nodes@;
    match rec.tag {
        ContentTag::Picture => {
            let had = pre.pics_dir is Some;
            let d = if had {
                pre.pics_dir->0
            } else {
                n as Ino
            };
            &&& post.pics_dir == Some(d)
            &&& post.miptexs_dir == pre.miptexs_dir
            &&& post.fonts_dir == pre.fonts_dir
            &&& post.other_dir == pre.other_dir
            &&& nodes.len() == n + (if had {
                1int
            } else {
                2int
            })
            &&& (!had ==> is_dir_inode(nodes[n], "pics"@, ROOT_INO))
            &&& is_file_inode(nodes[nodes.len() - 1], rec.name@ + ".tga"@, d, nr, 0)
        },
        ContentTag::Font => {
            let had = pre.fonts_dir is Some;
            let d = if had {
                pre.fonts_dir->0
            } else {
                n as Ino
            };
            &&& post.fonts_dir == Some(d)
            &&& post.pics_dir == pre.pics_dir
            &&& post.miptexs_dir == pre.miptexs_dir
            &&& post.other_dir == pre.other_dir
            &&& nodes.len() == n + (if had {
                1int
            } else {
                2int
            })
            &&& (!had ==> is_dir_inode(nodes[n], "fonts"@, ROOT_INO))
            &&& is_file_inode(nodes[nodes.len() - 1], rec.name@ + ".tga"@, d, nr, 0)
        },
        ContentTag::Other(_) => {
            let had = pre.other_dir is Some;
            let d = if had {
                pre.other_dir->0
            } else {
                n as Ino
            };
            &&& post.other_dir == Some(d)
            &&& post.pics_dir == pre.pics_dir
            &&& post.miptexs_dir == pre.miptexs_dir
            &&& post.fonts_dir == pre.fonts_dir
            &&& nodes.len() == n + (if had {
                1int
            } else {
                2int
            })
            &&& (!had ==> is_dir_inode(nodes[n], "other"@, ROOT_INO))
            &&& is_file_inode(nodes[nodes.len() - 1], rec.name@, d, nr, 0)
        },
        ContentTag::MipTexture => {
            let had = pre.miptexs_dir is Some;
            let d = if had {
                pre.miptexs_dir->0
            } else {
                n as Ino
            };
            let base = n + (if had {
                0int
            } else {
                1int
            });
            &&& post.miptexs_dir == Some(d)
            &&& post.pics_dir == pre.pics_dir
            &&& post.fonts_dir == pre.fonts_dir
            &&& post.other_dir == pre.other_dir
            &&& nodes.len() == base + 1 + MIP_LEVELS
            &&& (!had ==> is_dir_inode(nodes[n], "miptexs"@, ROOT_INO))
            &&& is_dir_inode(nodes[base], rec.name@, d)
            &&& forall|k: int|
                #![trigger nodes[base + 1 + k]]
                #![trigger mip_name_seq(k)]
                0 <= k < MIP_LEVELS ==> is_file_inode(
                    nodes[base + 1 + k],
                    mip_name_seq(k),
                    base as Ino,
                    nr,
                    k,
                )
        },
    }
}

/// A category directory slot, when occupied, names a directory inode of
/// the given name directly under the root.
pub open spec fn cat_dir_ok(nodes: Seq<INode>, slot: Option<Ino>, name: Seq<char>) -> bool {
    slot matches Some(d) ==> {
        &&& 2 <= d < nodes.len()
        &&& nodes[d as int].parent == Some(ROOT_INO)
        &&& nodes[d as int].content is None
        &&& nodes[d as int].name@ == name
    }
}

/// The filesystem: the inode table, the store of ingested records the
/// file inodes refer to, and the lazily created category directories.
pub struct WadFS {
    pub table: InodeTable,
    pub records: Vec<Record>,
    pub pics_dir: Option<Ino>,
    pub miptexs_dir: Option<Ino>,
    pub fonts_dir: Option<Ino>,
    pub other_dir: Option<Ino>,
}

impl WadFS {
    /// A content descriptor refers to a stored record, and its selector is
    /// a mip level for a texture record and zero otherwise.
    pub open spec fn desc_ok(self, d: ContentDescriptor) -> bool {
        &&& d.record < self.records@.len()
        &&& (self.records@[d.record as int].tag is MipTexture ==> d.selector < MIP_LEVELS)
        &&& (!(self.records@[d.record as int].tag is MipTexture) ==> d.selector == 0)
    }

    /// Well-formedness of the whole filesystem state:
    /// - the sentinel and the root are present, parentless non-files;
    /// - every later inode's parent is a directory created strictly
    ///   earlier (so the parent relation is a tree rooted at the root);
    /// - every file inode's descriptor refers into the record store with a
    ///   selector fitting the record's kind;
    /// - each category directory slot, when occupied, is a well-named
    ///   directory under the root, and the root has no other children;
    /// - a category directory exists exactly when a record of its content
    ///   type was ingested.
    pub open spec fn wf(self) -> bool {
        let nodes = self.table.nodes@;
        &&& 2 <= nodes.len()
        &&& nodes[0].parent is None && nodes[0].content is None
        &&& nodes[1].parent is None && nodes[1].content is None
        &&& forall|i: int|
            2 <= i < nodes.len() ==> (#[trigger] nodes[i].parent) is Some && 1 <= nodes[i].parent->0
                < i
        &&& forall|i: int|
            0 <= i < nodes.len() && (#[trigger] nodes[i].parent) is Some
                ==> nodes[nodes[i].parent->0 as int].content is None
        &&& forall|i: int|
            0 <= i < nodes.len() && (#[trigger] nodes[i].content) is Some ==> self.desc_ok(
                nodes[i].content->0,
            )
        &&& cat_dir_ok(nodes, self.pics_dir, "pics"@)
        &&& cat_dir_ok(nodes, self.miptexs_dir, "miptexs"@)
        &&& cat_dir_ok(nodes, self.fonts_dir, "fonts"@)
        &&& cat_dir_ok(nodes, self.other_dir, "other"@)
        &&& forall|i: int|
            2 <= i < nodes.len() && (#[trigger] nodes[i].parent) == Some(ROOT_INO) ==> (
            self.pics_dir == Some(i as Ino) || self.miptexs_dir == Some(i as Ino)
                || self.fonts_dir == Some(i as Ino) || self.other_dir == Some(i as Ino))
        &&& (self.pics_dir is Some <==> has_picture_in(self.records@))
        &&& (self.miptexs_dir is Some <==> has_miptex_in(self.records@))
        &&& (self.fonts_dir is Some <==> has_font_in(self.records@))
        &&& (self.other_dir is Some <==> has_other_in(self.records@))
    }

    /// An empty filesystem: the sentinel and the root directory, no
    /// records, and no category directories yet.
    pub fn new() -> (fs: WadFS)
        ensures
            fs.wf(),
            fs.table.nodes@.len() == 2,
            fs.records@.len() == 0,
            fs.pics_dir is None,
            fs.miptexs_dir is None,
            fs.fonts_dir is None,
            fs.other_dir is None,
    {
        let mut table = InodeTable::new();
        let root = table.insert(INode { name: String::from_str("."), parent: None, content: None });
        let fs = WadFS {
            table,
            records: Vec::new(),
            pics_dir: None,
            miptexs_dir: None,
            fonts_dir: None,
            other_dir: None,
        };
        proof {
            assert(fs.table.nodes@.len() == 2);
            assert(!has_picture_in(fs.records@));
            assert(!has_miptex_in(fs.records@));
            assert(!has_font_in(fs.records@));
            assert(!has_other_in(fs.records@));
        }
        fs
    }

    /// Return the handle of a category directory, creating the directory
    /// under the root the first time its kind is seen.
    fn ensure_cat_dir(table: &mut InodeTable, slot: Option<Ino>, name: &str) -> (d: Ino)
        requires
            old(table).nodes@.len() >= 2,
            slot matches Some(h) ==> 2 <= h < old(table).nodes@.len(),
        ensures
            slot is Some ==> *final(table) == *old(table) && Some(d) == slot,
            slot is None ==> {
                &&& d as int == old(table).nodes@.len()
                &&& final(table).nodes@.len() == old(table).nodes@.len() + 1
                &&& forall|i: int|
                    0 <= i < old(table).nodes@.len() ==> final(table).nodes@[i] == old(
                        table,
                    ).nodes@[i]
                &&& is_dir_inode(final(table).nodes@[d as int], name@, ROOT_INO)
            },
    {
        match slot {
            Some(h) => h,
            None => table.insert(
                INode { name: String::from_str(name), parent: Some(ROOT_INO), content: None },
            ),
        }
    }

    /// Ingest one record: its category directory is created the first time
    /// its kind is seen, and the file (and, for a texture, directory)
    /// inodes exposing it are appended.  The record itself is stored; its
    /// decoding is deferred until the content is first requested.
    pub fn ingest_record(&mut self, rec: Record)
        requires
            old(self).wf(),
        ensures
            final(self).wf(),
            final(self).records@ == old(self).records@.push(rec),
            old(self).table.nodes@.len() < final(self).table.nodes@.len(),
            forall|i: int|
                0 <= i < old(self).table.nodes@.len() ==> final(self).table.nodes@[i] == old(
                    self,
                ).table.nodes@[i],
            ingest_shape(*old(self), *final(self), rec),
    {
        let ghost pre = *self;
        match rec.tag {
            ContentTag::Picture => {
                let d = Self::ensure_cat_dir(&mut self.table, self.pics_dir, "pics");
                self.pics_dir = Some(d);
                let fname = pic_name(rec.name.as_str());
                let nr = self.records.len();
                self.records.push(rec);
                self.table.insert(
                    INode {
                        name: fname,
                        parent: Some(d),
                        content: Some(
                            ContentDescriptor { record: nr, selector: 0, cache: None },
                        ),
                    },
                );
                proof {
                    lemma_tags_after_push(pre.records@, rec);
                }
            },
            ContentTag::Font => {
                let d = Self::ensure_cat_dir(&mut self.table, self.fonts_dir, "fonts");
                self.fonts_dir = Some(d);
                let fname = pic_name(rec.name.as_str());
                let nr = self.records.len();
                self.records.push(rec);
                self.table.insert(
                    INode {
                        name: fname,
                        parent: Some(d),
                        content: Some(
                            ContentDescriptor { record: nr, selector: 0, cache: None },
                        ),
                    },
                );
                proof {
                    lemma_tags_after_push(pre.records@, rec);
                }
            },
            ContentTag::Other(_) => {
                let d = Self::ensure_cat_dir(&mut self.table, self.other_dir, "other");
                self.other_dir = Some(d);
                let fname = rec.name.clone();
                let nr = self.records.len();
                self.records.push(rec);
                self.table.insert(
                    INode {
                        name: fname,
                        parent: Some(d),
                        content: Some(
                            ContentDescriptor { record: nr, selector: 0, cache: None },
                        ),
                    },
                );
                proof {
                    lemma_tags_after_push(pre.records@, rec);
                }
            },
            ContentTag::MipTexture => {
                let d = Self::ensure_cat_dir(&mut self.table, self.miptexs_dir, "miptexs");
                self.miptexs_dir = Some(d);
                let tex_name = rec.name.clone();
                let nr = self.records.len();
                self.records.push(rec);
                let base = self.table.insert(
                    INode { name: tex_name, parent: Some(d), content: None },
                );
                let ghost mid = *self;
                let mut k: usize = 0;
                while k < MIP_LEVELS
                    invariant
                        0 <= k <= MIP_LEVELS,
                        base as int == mid.table.nodes@.len() - 1,
                        self.records == mid.records,
                        self.pics_dir == mid.pics_dir,
                        self.miptexs_dir == mid.miptexs_dir,
                        self.fonts_dir == mid.fonts_dir,
                        self.other_dir == mid.other_dir,
                        nr < mid.records@.len(),
                        self.table.nodes@.len() == mid.table.nodes@.len() + k,
                        forall|i: int|
                            0 <= i < mid.table.nodes@.len() ==> self.table.nodes@[i]
                                == mid.table.nodes@[i],
                        forall|j: int|
                            0 <= j < k ==> is_file_inode(
                                #[trigger] self.table.nodes@[mid.table.nodes@.len() + j],
                                mip_name_seq(j),
                                base,
                                nr as int,
                                j,
                            ),
                    decreases MIP_LEVELS - k,
                {
                    let fname = mip_level_name(k);
                    self.table.insert(
                        INode {
                            name: fname,
                            parent: Some(base),
                            content: Some(
                                ContentDescriptor { record: nr, selector: k, cache: None },
                            ),
                        },
                    );
                    k += 1;
                }
                proof {
                    lemma_tags_after_push(pre.records@, rec);
                    self.lemma_wf_after_miptex(pre, mid, rec, d, base, nr as int);
                }
            },
        }
    }

    /// After a mipmapped texture record has been ingested — the category
    /// directory ensured, the record pushed, the texture directory at
    /// `base` inserted and the mip-level files appended — the filesystem
    /// is well-formed again and its table is the old one extended.
    proof fn lemma_wf_after_miptex(
        &self,
        pre: WadFS,
        mid: WadFS,
        rec: Record,
        d: Ino,
        base: Ino,
        nr: int,
    )
        requires
            pre.wf(),
            rec.tag is MipTexture,
            nr == pre.records@.len(),
            self.records@ == pre.records@.push(rec),
            mid.records@ == self.records@,
            self.pics_dir == pre.pics_dir,
            self.fonts_dir == pre.fonts_dir,
            self.other_dir == pre.other_dir,
            self.miptexs_dir == Some(d),
            pre.miptexs_dir is Some ==> pre.miptexs_dir == Some(d) && mid.table.nodes@.len()
                == pre.table.nodes@.len() + 1,
            pre.miptexs_dir is None ==> d as int == pre.table.nodes@.len()
                && mid.table.nodes@.len() == pre.table.nodes@.len() + 2 && is_dir_inode(
                mid.table.nodes@[d as int],
                "miptexs"@,
                ROOT_INO,
            ),
            base as int == mid.table.nodes@.len() - 1,
            is_dir_inode(mid.table.nodes@[base as int], rec.name@, d),
            forall|i: int|
                0 <= i < pre.table.nodes@.len() ==> mid.table.nodes@[i] == pre.table.nodes@[i],
            self.table.nodes@.len() == mid.table.nodes@.len() + MIP_LEVELS,
            forall|i: int|
                0 <= i < mid.table.nodes@.len() ==> self.table.nodes@[i] == mid.table.nodes@[i],
            forall|j: int|
                0 <= j < MIP_LEVELS ==> is_file_inode(
                    #[trigger] self.table.nodes@[mid.table.nodes@.len() + j],
                    mip_name_seq(j),
                    base,
                    nr,
                    j,
                ),
        ensures
            self.wf(),
            ingest_shape(pre, *self, rec),
            forall|i: int|
                0 <= i < pre.table.nodes@.len() ==> self.table.nodes@[i] == pre.table.nodes@[i],
    {
        lemma_tags_after_push(pre.records@, rec);
        let nodes = self.table.nodes@;
        let pn = pre.table.nodes@;
        let npre = pn.len() as int;
        let nmid = mid.table.nodes@.len() as int;
        assert forall|i: int| 0 <= i < npre implies nodes[i] == pn[i] by {
            assert(nodes[i] == mid.table.nodes@[i]);
        }
        assert(nodes[base as int] == mid.table.nodes@[base as int]);
        assert(2 <= d < nmid);
        assert forall|i: int|
            2 <= i < nodes.len() implies (#[trigger] nodes[i].parent) is Some && 1
                <= nodes[i].parent->0 < i by {
            if i < npre {
                assert(nodes[i] == pn[i]);
            } else if i >= nmid {
                assert(is_file_inode(
                    nodes[nmid + (i - nmid)],
                    mip_name_seq(i - nmid),
                    base,
                    nr,
                    i - nmid,
                ));
            }
        }
        assert forall|i: int|
            0 <= i < nodes.len() && (#[trigger] nodes[i].parent) is Some implies nodes[nodes[i].parent->0 as int].content
            is None by {
            let p = nodes[i].parent->0 as int;
            if i < npre {
                assert(nodes[i] == pn[i]);
                assert(pn[p].content is None);
                assert(nodes[p] == pn[p]);
            } else if i >= nmid {
                assert(is_file_inode(
                    nodes[nmid + (i - nmid)],
                    mip_name_seq(i - nmid),
                    base,
                    nr,
                    i - nmid,
                ));
                assert(nodes[base as int].content is None);
            } else if i == base as int {
                if pre.miptexs_dir is Some {
                    assert(nodes[d as int] == pn[d as int]);
                } else {
                    assert(nodes[d as int] == mid.table.nodes@[d as int]);
                }
            } else {
                assert(nodes[1] == pn[1]);
            }
        }
        assert forall|i: int|
            0 <= i < nodes.len() && (#[trigger] nodes[i].content) is Some implies self.desc_ok(
            nodes[i].content->0,
        ) by {
            if i < npre {
                assert(nodes[i] == pn[i]);
                assert(pre.desc_ok(pn[i].content->0));
                assert(self.records@[pn[i].content->0.record as int] == pre.records@[pn[i].content->0.record as int]);
            } else if i >= nmid {
                assert(is_file_inode(
                    nodes[nmid + (i - nmid)],
                    mip_name_seq(i - nmid),
                    base,
                    nr,
                    i - nmid,
                ));
                assert(self.records@[nr] == rec);
            }
        }
        assert(cat_dir_ok(nodes, self.pics_dir, "pics"@));
        assert(cat_dir_ok(nodes, self.fonts_dir, "fonts"@));
        assert(cat_dir_ok(nodes, self.other_dir, "other"@));
        assert(cat_dir_ok(nodes, self.miptexs_dir, "miptexs"@)) by {
            if pre.miptexs_dir is Some {
                assert(nodes[d as int] == pn[d as int]);
            } else {
                assert(nodes[d as int] == mid.table.nodes@[d as int]);
            }
        }
        assert forall|i: int|
            2 <= i < nodes.len() && (#[trigger] nodes[i].parent) == Some(ROOT_INO) implies (
        self.pics_dir == Some(i as Ino) || self.miptexs_dir == Some(i as Ino) || self.fonts_dir
            == Some(i as Ino) || self.other_dir == Some(i as Ino)) by {
            if i < npre {
                assert(nodes[i] == pn[i]);
            } else if i >= nmid {
                assert(is_file_inode(
                    nodes[nmid + (i - nmid)],
                    mip_name_seq(i - nmid),
                    base,
                    nr,
                    i - nmid,
                ));
            }
        }
    }
}

/// Protocol-level failure of a filesystem request.
#[derive(Clone, Copy, Debug, PartialEq, Eq, Structural)]
pub enum FsError {
    /// The handle, or the (parent, name) pair, does not exist.
    NotFound,
    /// The request asks for bytes that are not there: a byte range past
    /// the content's end, or content of something that has none.
    IOError,
}

/// The handle denotes an inode of the table; the sentinel handle `0`
/// never does.
pub open spec fn valid_ino(fs: WadFS, ino: Ino) -> bool {
    1 <= ino < fs.table.nodes@.len()
}

/// The handle denotes a file inode.
pub open spec fn is_file(fs: WadFS, ino: Ino) -> bool {
    valid_ino(fs, ino) && fs.table.nodes@[ino as int].content is Some
}

/// The handle denotes a directory inode.
pub open spec fn is_dir(fs: WadFS, ino: Ino) -> bool {
    valid_ino(fs, ino) && fs.table.nodes@[ino as int].content is None
}

/// The bytes held by a file inode's memoization slot, if it is populated.
pub open spec fn node_cache(fs: WadFS, ino: Ino) -> Option<Seq<u8>> {
    let nodes = fs.table.nodes@;
    if 1 <= ino < nodes.len() && nodes[ino as int].content is Some
        && nodes[ino as int].content->0.cache is Some {
        Some(nodes[ino as int].content->0.cache->0@)
    } else {
        None
    }
}

/// What resolving a file's content does, relating the states before and
/// after the call to the bytes returned:
/// - nothing changes but the file's own memoization slot, which afterwards
///   holds exactly the returned bytes;
/// - a slot that was already populated is returned as it is, the whole
///   state left untouched — the slot is written at most once;
/// - an opaque record's bytes are returned verbatim.
pub open spec fn resolve_post(pre: WadFS, post: WadFS, ino: Ino, b: Seq<u8>) -> bool {
    let o = pre.table.nodes@[ino as int];
    let np = post.table.nodes@[ino as int];
    &&& is_file(pre, ino)
    &&& post.records == pre.records
    &&& post.pics_dir == pre.pics_dir
    &&& post.miptexs_dir == pre.miptexs_dir
    &&& post.fonts_dir == pre.fonts_dir
    &&& post.other_dir == pre.other_dir
    &&& post.table.nodes@.len() == pre.table.nodes@.len()
    &&& forall|i: int|
        0 <= i < pre.table.nodes@.len() && i != ino ==> post.table.nodes@[i]
            == pre.table.nodes@[i]
    &&& np.name == o.name
    &&& np.parent == o.parent
    &&& np.content is Some
    &&& np.content->0.record == o.content->0.record
    &&& np.content->0.selector == o.content->0.selector
    &&& np.content->0.cache is Some
    &&& np.content->0.cache->0@ == b
    &&& (node_cache(pre, ino) matches Some(c0) ==> b == c0 && post == pre)
    &&& (node_cache(pre, ino) is None && pre.records@[o.content->0.record as int].tag is Other
        ==> b == pre.records@[o.content->0.record as int].raw@)
    &&& (node_cache(pre, ino) is None && pre.records@[o.content->0.record as int].tag is Picture
        ==> b == image_content(pic_parse_of(pre.records@[o.content->0.record as int].raw@)))
    &&& (node_cache(pre, ino) is None && pre.records@[o.content->0.record as int].tag is Font
        ==> b == image_content(font_parse_of(pre.records@[o.content->0.record as int].raw@)))
    &&& (node_cache(pre, ino) is None && pre.records@[o.content->0.record as int].tag
        is MipTexture ==> b == mip_content(
        miptex_parse_of(pre.records@[o.content->0.record as int].raw@),
        o.content->0.selector as int,
    ))
}

/// The decoded content of a single picture record: parse, then run the
/// decode pipeline; a record that does not parse or decode degrades to
/// empty content.
fn picture_content(raw: &Vec<u8>) -> (r: Vec<u8>)
    ensures
        r@ == image_content(pic_parse_of(raw@)),
{
    match parse_picture(raw) {
        Some(p) => match decode_image(p.width, p.height, &p.indices, &p.palette) {
            Ok(b) => b,
            Err(_) => Vec::new(),
        },
        None => Vec::new(),
    }
}

/// The decoded content of a font record, under the same degrade policy.
fn font_content(raw: &Vec<u8>) -> (r: Vec<u8>)
    ensures
        r@ == image_content(font_parse_of(raw@)),
{
    match parse_font(raw) {
        Some(p) => match decode_image(p.width, p.height, &p.indices, &p.palette) {
            Ok(b) => b,
            Err(_) => Vec::new(),
        },
        None => Vec::new(),
    }
}

/// The decoded content of one mip level of a texture record, under the
/// same degrade policy.
fn miptex_content(raw: &Vec<u8>, level: usize) -> (r: Vec<u8>)
    requires
        level < MIP_LEVELS,
    ensures
        r@ == mip_content(miptex_parse_of(raw@), level as int),
{
    match parse_miptex(raw) {
        Some(m) => {
            proof {
                assert(m@ == miptex_parse_of(raw@)->0);
                assert(m.mips@.map_values(|v: Vec<u8>| v@).len() == m.mips@.len());
            }
            match decode_mip(&m, level) {
                Ok(b) => {
                    proof {
                        assert(m.mips@.map_values(|v: Vec<u8>| v@)[level as int] == m.mips@[
                        level as int]@);
                    }
                    b
                },
                Err(_) => {
                    proof {
                        assert(m.mips@.map_values(|v: Vec<u8>| v@)[level as int] == m.mips@[
                        level as int]@);
                    }
                    Vec::new()
                },
            }
        },
        None => Vec::new(),
    }
}

impl WadFS {
    /// After only a file inode's empty memoization slot has been filled —
    /// name, parent, record and selector untouched — the filesystem is
    /// well-formed again.
    proof fn lemma_wf_after_cache(&self, pre: WadFS, ino: Ino)
        requires
            pre.wf(),
            is_file(pre, ino),
            self.records@ == pre.records@,
            self.pics_dir == pre.pics_dir,
            self.miptexs_dir == pre.miptexs_dir,
            self.fonts_dir == pre.fonts_dir,
            self.other_dir == pre.other_dir,
            self.table.nodes@.len() == pre.table.nodes@.len(),
            forall|i: int|
                0 <= i < pre.table.nodes@.len() && i != ino ==> self.table.nodes@[i]
                    == pre.table.nodes@[i],
            self.table.nodes@[ino as int].name == pre.table.nodes@[ino as int].name,
            self.table.nodes@[ino as int].parent == pre.table.nodes@[ino as int].parent,
            self.table.nodes@[ino as int].content matches Some(d) && d.record
                == pre.table.nodes@[ino as int].content->0.record && d.selector
                == pre.table.nodes@[ino as int].content->0.selector,
        ensures
            self.wf(),
    {
        let nodes = self.table.nodes@;
        let pn = pre.table.nodes@;
        let n = pn.len() as int;
        assert(nodes[0] == pn[0]);
        assert(nodes[1] == pn[1]);
        assert forall|i: int|
            2 <= i < nodes.len() implies (#[trigger] nodes[i].parent) is Some && 1
                <= nodes[i].parent->0 < i by {
            assert(nodes[i].parent == pn[i].parent);
        }
        assert forall|i: int|
            0 <= i < nodes.len() && (#[trigger] nodes[i].parent) is Some implies nodes[nodes[i].parent->0 as int].content
            is None by {
            assert(nodes[i].parent == pn[i].parent);
            let p = nodes[i].parent->0 as int;
            assert(pn[p].content is None);
            assert(p != ino);
        }
        assert forall|i: int|
            0 <= i < nodes.len() && (#[trigger] nodes[i].content) is Some implies self.desc_ok(
            nodes[i].content->0,
        ) by {
            if i == ino {
                assert(pre.desc_ok(pn[i].content->0));
            } else {
                assert(nodes[i] == pn[i]);
                assert(pre.desc_ok(pn[i].content->0));
            }
        }
        assert(cat_dir_ok(nodes, self.pics_dir, "pics"@)) by {
            if pre.pics_dir is Some {
                assert(pn[pre.pics_dir->0 as int].content is None);
                assert(pre.pics_dir->0 != ino);
            }
        }
        assert(cat_dir_ok(nodes, self.miptexs_dir, "miptexs"@)) by {
            if pre.miptexs_dir is Some {
                assert(pn[pre.miptexs_dir->0 as int].content is None);
                assert(pre.miptexs_dir->0 != ino);
            }
        }
        assert(cat_dir_ok(nodes, self.fonts_dir, "fonts"@)) by {
            if pre.fonts_dir is Some {
                assert(pn[pre.fonts_dir->0 as int].content is None);
                assert(pre.fonts_dir->0 != ino);
            }
        }
        assert(cat_dir_ok(nodes, self.other_dir, "other"@)) by {
            if pre.other_dir is Some {
                assert(pn[pre.other_dir->0 as int].content is None);
                assert(pre.other_dir->0 != ino);
            }
        }
        assert forall|i: int|
            2 <= i < nodes.len() && (#[trigger] nodes[i].parent) == Some(ROOT_INO) implies (
        self.pics_dir == Some(i as Ino) || self.miptexs_dir == Some(i as Ino) || self.fonts_dir
            == Some(i as Ino) || self.other_dir == Some(i as Ino)) by {
            assert(nodes[i].parent == pn[i].parent);
        }
    }

    /// Resolve a file inode's content: the memoized bytes if the slot is
    /// populated; otherwise the record is decoded now — a texture or image
    /// through the decode pipeline, an opaque record copied verbatim — and
    /// the result, empty if the record's data is malformed, is stored in
    /// the slot and returned.
    pub fn resolve(&mut self, ino: Ino) -> (r: Result<Vec<u8>, FsError>)
        requires
            old(self).wf(),
        ensures
            final(self).wf(),
            (r is Ok) <==> is_file(*old(self), ino),
            r is Err ==> *final(self) == *old(self) && r->Err_0 == (if valid_ino(
                *old(self),
                ino,
            ) {
                FsError::IOError
            } else {
                FsError::NotFound
            }),
            r is Ok ==> resolve_post(*old(self), *final(self), ino, r->Ok_0@),
    {
        let ghost pre = *self;
        if ino < 1 || ino >= self.table.nodes.len() as u64 {
            return Err(FsError::NotFound);
        }
        let idx = ino as usize;
        let (rec_idx, selector) = match &self.table.nodes[idx].content {
            None => {
                return Err(FsError::IOError);
            },
            Some(desc) => match &desc.cache {
                Some(c) => {
                    let out = copy_bytes(c);
                    return Ok(out);
                },
                None => (desc.record, desc.selector),
            },
        };
        let bytes: Vec<u8> = match self.records[rec_idx].tag {
            ContentTag::Other(_) => copy_bytes(&self.records[rec_idx].raw),
            ContentTag::Picture => picture_content(&self.records[rec_idx].raw),
            ContentTag::Font => font_content(&self.records[rec_idx].raw),
            ContentTag::MipTexture => miptex_content(&self.records[rec_idx].raw, selector),
        };
        let out = copy_bytes(&bytes);
        self.table.nodes[idx].content = Some(
            ContentDescriptor { record: rec_idx, selector, cache: Some(bytes) },
        );
        proof {
            self.lemma_wf_after_cache(pre, ino);
        }
        Ok(out)
    }
}

/// The directory entry one listing step yields: the child's handle, the
/// offset at which a later call resumes after it, its kind, and its name.
pub struct DirEntry {
    pub ino: Ino,
    pub position: u64,
    pub kind: FileKind,
    pub name: String,
}

/// Node `i` is the child of `parent` carrying `name`.
pub open spec fn name_matches(nodes: Seq<INode>, i: int, parent: Ino, name: Seq<char>) -> bool {
    nodes[i].parent == Some(parent) && nodes[i].name@ == name
}

impl WadFS {
    /// Attributes of an inode.  For a file the size is the length of its
    /// resolved content, so this call may trigger the decode; a directory
    /// always reports size zero.
    pub fn getattr(&mut self, ino: Ino) -> (r: Result<FileAttrData, FsError>)
        requires
            old(self).wf(),
        ensures
            final(self).wf(),
            (r is Ok) <==> valid_ino(*old(self), ino),
            r is Err ==> *final(self) == *old(self) && r->Err_0 == FsError::NotFound,
            is_dir(*old(self), ino) ==> *final(self) == *old(self),
            r is Ok ==> r->Ok_0 == final(self).table.nodes@[ino as int].spec_attr(ino),
            r is Ok && is_file(*old(self), ino) ==> node_cache(*final(self), ino) is Some
                && resolve_post(*old(self), *final(self), ino, node_cache(*final(self), ino)->0),
    {
        if ino < 1 || ino >= self.table.nodes.len() as u64 {
            return Err(FsError::NotFound);
        }
        let idx = ino as usize;
        let is_file_node = match &self.table.nodes[idx].content {
            Some(_) => true,
            None => false,
        };
        if is_file_node {
            let res = self.resolve(ino);
            proof {
                assert(res is Ok);
            }
        }
        let idx2 = ino as usize;
        Ok(self.table.nodes[idx2].file_attr(ino))
    }

    /// Resolve a name under a parent directory: a linear scan of the
    /// table in creation order, the first match winning, answered with
    /// the found inode's handle and attributes.
    pub fn lookup(&mut self, parent: Ino, name: &str) -> (r: Result<(Ino, FileAttrData), FsError>)
        requires
            old(self).wf(),
        ensures
            final(self).wf(),
            (r is Err) <==> (forall|j: int|
                0 <= j < old(self).table.nodes@.len() ==> !name_matches(
                    old(self).table.nodes@,
                    j,
                    parent,
                    name@,
                )),
            r is Err ==> *final(self) == *old(self) && r->Err_0 == FsError::NotFound,
            r matches Ok((h, a)) ==> {
                let nodes = old(self).table.nodes@;
                &&& 1 <= h < nodes.len()
                &&& name_matches(nodes, h as int, parent, name@)
                &&& forall|j: int| 0 <= j < h ==> !name_matches(nodes, j, parent, name@)
                &&& a == final(self).table.nodes@[h as int].spec_attr(h)
                &&& (is_file(*old(self), h) ==> node_cache(*final(self), h) is Some
                    && resolve_post(*old(self), *final(self), h, node_cache(*final(self), h)->0))
                &&& (is_dir(*old(self), h) ==> *final(self) == *old(self))
            },
    {
        let name_s = name.to_owned();
        let mut j: usize = 0;
        let n = self.table.nodes.len();
        while j < n
            invariant
                old(self).wf(),
                *self == *old(self),
                n == self.table.nodes@.len(),
                0 <= j <= n,
                name_s@ == name@,
                forall|t: int|
                    0 <= t < j ==> !name_matches(self.table.nodes@, t, parent, name@),
            decreases n - j,
        {
            let is_child = match &self.table.nodes[j].parent {
                Some(p) => *p == parent,
                None => false,
            };
            if is_child && self.table.nodes[j].name == name_s {
                let h = j as u64;
                proof {
                    assert(name_matches(self.table.nodes@, h as int, parent, name@));
                    assert(valid_ino(*self, h));
                }
                let a = match self.getattr(h) {
                    Ok(a) => a,
                    Err(_) => {
                        proof {
                            assert(false);
                        }
                        return Err(FsError::NotFound);
                    },
                };
                return Ok((h, a));
            }
            j += 1;
        }
        Err(FsError::NotFound)
    }

    /// One page of a directory listing: the children of `dir` in creation
    /// order, starting at `offset`, at most `cap` of them; each entry
    /// carries the offset at which the next call resumes after it, and
    /// the second component tells whether children remain beyond this
    /// page.
    pub fn readdir(&self, dir: Ino, offset: usize, cap: usize) -> (r: (Vec<DirEntry>, bool))
        ensures
            ({
                let c = children_seq(self.table.nodes@, dir);
                let start = if offset <= c.len() {
                    offset as int
                } else {
                    c.len() as int
                };
                let end = if offset + cap <= c.len() {
                    (offset + cap) as int
                } else {
                    c.len() as int
                };
                &&& r.1 == (end < c.len())
                &&& r.0@.map_values(|e: DirEntry| e.ino) == page(c, offset as int, cap as int)
                &&& r.0@.len() == end - start
                &&& forall|t: int|
                    0 <= t < r.0@.len() ==> (#[trigger] r.0@[t]).ino == c[start + t]
                        && r.0@[t].position == start + t + 1 && r.0@[t].kind
                        == self.table.nodes@[c[start + t] as int].spec_kind() && r.0@[t].name@
                        == self.table.nodes@[c[start + t] as int].name@
            }),
    {
        let nn = self.table.nodes.len();
        let kids = self.table.children_of(dir);
        let mut out: Vec<DirEntry> = Vec::new();
        let mut t: usize = offset;
        while t < kids.len() && out.len() < cap
            invariant
                self.table.nodes@.len() == nn,
                kids@ == children_seq(self.table.nodes@, dir),
                offset <= t,
                t <= kids@.len() || t == offset,
                t <= offset + cap,
                offset <= kids@.len() ==> out@.len() == t - offset,
                offset > kids@.len() ==> out@.len() == 0 && t == offset,
                forall|s: int|
                    0 <= s < out@.len() ==> (#[trigger] out@[s]).ino == kids@[offset + s]
                        && out@[s].position == offset + s + 1 && out@[s].kind
                        == self.table.nodes@[kids@[offset + s] as int].spec_kind()
                        && out@[s].name@ == self.table.nodes@[kids@[offset + s] as int].name@,
            decreases kids@.len() - t,
        {
            proof {
                lemma_children_exact(self.table.nodes@, dir);
            }
            let h = kids[t];
            let idx = h as usize;
            let node = &self.table.nodes[idx];
            out.push(
                DirEntry {
                    ino: h,
                    position: (t + 1) as u64,
                    kind: node.file_type(),
                    name: node.name.clone(),
                },
            );
            t += 1;
        }
        let continues = t < kids.len();
        proof {
            let c = children_seq(self.table.nodes@, dir);
            assert(out@.map_values(|e: DirEntry| e.ino) =~= page(c, offset as int, cap as int));
        }
        (out, continues)
    }

    /// Read a byte range from a file: exactly the requested range when it
    /// lies within the resolved content — reads never come up short — and
    /// a distinct failure when it does not, or when the handle is a
    /// directory.  The first read of a file triggers its decode.
    pub fn read(&mut self, ino: Ino, offset: u64, size: u32) -> (r: Result<Vec<u8>, FsError>)
        requires
            old(self).wf(),
        ensures
            final(self).wf(),
            !valid_ino(*old(self), ino) ==> r == Err::<Vec<u8>, FsError>(FsError::NotFound)
                && *final(self) == *old(self),
            is_dir(*old(self), ino) ==> r == Err::<Vec<u8>, FsError>(FsError::IOError)
                && *final(self) == *old(self),
            is_file(*old(self), ino) ==> ({
                let c = node_cache(*final(self), ino);
                &&& c is Some
                &&& resolve_post(*old(self), *final(self), ino, c->0)
                &&& (offset + size <= c->0.len() ==> r is Ok && r->Ok_0@ == c->0.subrange(
                    offset as int,
                    offset + size,
                ))
                &&& (offset + size > c->0.len() ==> r is Err && r->Err_0 == FsError::IOError)
            }),
    {
        if ino < 1 || ino >= self.table.nodes.len() as u64 {
            return Err(FsError::NotFound);
        }
        let b = match self.resolve(ino) {
            Ok(b) => b,
            Err(e) => {
                return Err(e);
            },
        };
        if offset > b.len() as u64 {
            return Err(FsError::IOError);
        }
        let sz = size as u64;
        if sz > b.len() as u64 - offset {
            return Err(FsError::IOError);
        }
        let start = offset as usize;
        let end = (offset + sz) as usize;
        Ok(copy_range(&b, start, end))
    }
}

/// The raw bytes of one archive entry: the addressed range when it lies
/// within the archive's bytes, nothing when the directory points outside
/// them — such an entry degrades to empty rather than failing the whole
/// archive.
pub open spec fn entry_slice(bytes: Seq<u8>, offset: u32, disk_size: u32) -> Seq<u8> {
    if offset + disk_size <= bytes.len() {
        bytes.subrange(offset as int, offset + disk_size)
    } else {
        Seq::empty()
    }
}

/// The views of a sequence of records.
pub open spec fn record_views(recs: Seq<Record>) -> Seq<RecordV> {
    recs.map_values(|r: Record| r@)
}

/// The reported per-entry failures, with indices widened.
pub open spec fn failure_views(fails: Seq<(usize, IngestError)>) -> Seq<(int, IngestError)> {
    fails.map_values(|f: (usize, IngestError)| (f.0 as int, f.1))
}

/// The records a parsed archive directory yields, in directory order:
/// each entry with a supported tag becomes one record, classified by its
/// tag, named by its name field cut at the first NUL and lossily decoded,
/// carrying the bytes its directory entry addresses; an unsupported entry
/// yields none.
pub open spec fn records_of_dir(bytes: Seq<u8>, dir: Seq<WadDirEntryV>) -> Seq<RecordV>
    decreases dir.len(),
{
    if dir.len() == 0 {
        Seq::empty()
    } else {
        let pre = records_of_dir(bytes, dir.drop_last());
        let e = dir.last();
        match spec_classify(e.ty) {
            Ok(tag) => pre.push(
                (RecordV {
                    name: utf8_lossy(c_prefix(e.name)),
                    tag,
                    raw: entry_slice(bytes, e.offset, e.disk_size),
                }),
            ),
            Err(_) => pre,
        }
    }
}

/// The failures ingesting a parsed archive directory reports: the index
/// of each entry whose tag is unsupported, paired with its error, in
/// directory order.
pub open spec fn failures_of_dir(dir: Seq<WadDirEntryV>) -> Seq<(int, IngestError)>
    decreases dir.len(),
{
    if dir.len() == 0 {
        Seq::empty()
    } else {
        let pre = failures_of_dir(dir.drop_last());
        match spec_classify(dir.last().ty) {
            Ok(_) => pre,
            Err(e) => pre.push(((dir.len() - 1) as int, e)),
        }
    }
}

/// Appending a record appends its view.
proof fn lemma_record_views_push(s: Seq<Record>, x: Record)
    ensures
        record_views(s.push(x)) == record_views(s).push(x@),
{
    assert(record_views(s.push(x)) =~= record_views(s).push(x@));
}

/// Appending a failure appends its widened view.
proof fn lemma_failure_views_push(s: Seq<(usize, IngestError)>, x: (usize, IngestError))
    ensures
        failure_views(s.push(x)) == failure_views(s).push((x.0 as int, x.1)),
{
    assert(failure_views(s.push(x)) =~= failure_views(s).push((x.0 as int, x.1)));
}

/// Cut one entry's data out of the archive's bytes.
fn entry_raw(bytes: &Vec<u8>, offset: u32, disk_size: u32) -> (r: Vec<u8>)
    ensures
        r@ == entry_slice(bytes@, offset, disk_size),
{
    let end = offset as u64 + disk_size as u64;
    if end <= bytes.len() as u64 {
        copy_range(bytes, offset as usize, end as usize)
    } else {
        Vec::new()
    }
}

/// Create the inodes exposing one archive entry.  An entry whose type tag
/// the decoder does not understand is refused loudly, leaving the
/// filesystem untouched; every other entry is ingested as a record.
pub fn create_inode(fs: &mut WadFS, name: String, ty: u8, data: Vec<u8>) -> (r: Result<
    (),
    IngestError,
>)
    requires
        old(fs).wf(),
    ensures
        final(fs).wf(),
        r matches Err(e) ==> *final(fs) == *old(fs) && Err::<ContentTag, IngestError>(e)
            == spec_classify(ty),
        r is Ok ==> spec_classify(ty) is Ok && final(fs).records@ == old(fs).records@.push(
            (Record { name: name, tag: spec_classify(ty)->Ok_0, raw: data }),
        ) && ingest_shape(
            *old(fs),
            *final(fs),
            (Record { name: name, tag: spec_classify(ty)->Ok_0, raw: data }),
        ),
        old(fs).table.nodes@.len() <= final(fs).table.nodes@.len(),
        forall|i: int|
            0 <= i < old(fs).table.nodes@.len() ==> final(fs).table.nodes@[i] == old(
                fs,
            ).table.nodes@[i],
        forall|i: int|
            0 <= i < old(fs).records@.len() ==> final(fs).records@[i] == old(fs).records@[i],
{
    match classify_tag(ty) {
        Err(e) => Err(e),
        Ok(tag) => {
            fs.ingest_record(Record { name, tag, raw: data });
            Ok(())
        },
    }
}

impl WadFS {
    /// Ingest one whole archive: parse its directory, then process the
    /// entries in the order the parser yields them, creating inodes for
    /// each.  A stream that is no WAD archive fails as a whole, leaving
    /// the filesystem untouched.  Otherwise the record store grows by
    /// exactly the supported entries of the archive's directory, in
    /// order — no entry is silently dropped — and the result lists
    /// exactly the unsupported entries, each index paired with its
    /// error.  The table only ever grows; existing inodes and records
    /// are never touched.
    pub fn append_entries(&mut self, bytes: &Vec<u8>) -> (r: Result<
        Vec<(usize, IngestError)>,
        ArchiveError,
    >)
        requires
            old(self).wf(),
        ensures
            final(self).wf(),
            (r is Err) <==> wad_dir_of(bytes@) is None,
            r is Err ==> *final(self) == *old(self) && r->Err_0 == ArchiveError::ReadFailure,
            r is Ok ==> record_views(final(self).records@) == record_views(old(self).records@)
                + records_of_dir(bytes@, wad_dir_of(bytes@)->0),
            r is Ok ==> failure_views(r->Ok_0@) == failures_of_dir(wad_dir_of(bytes@)->0),
            old(self).table.nodes@.len() <= final(self).table.nodes@.len(),
            forall|i: int|
                0 <= i < old(self).table.nodes@.len() ==> final(self).table.nodes@[i] == old(
                    self,
                ).table.nodes@[i],
            forall|i: int|
                0 <= i < old(self).records@.len() ==> final(self).records@[i] == old(
                    self,
                ).records@[i],
    {
        let entries = match wad_directory(bytes) {
            Ok(e) => e,
            Err(_) => {
                return Err(ArchiveError::ReadFailure);
            },
        };
        let ghost dirv = wad_dir_of(bytes@)->0;
        let mut failures: Vec<(usize, IngestError)> = Vec::new();
        let mut i: usize = 0;
        while i < entries.len()
            invariant
                self.wf(),
                0 <= i <= entries@.len(),
                wad_dir_of(bytes@) == Some(dirv),
                entries@.len() == dirv.len(),
                forall|t: int| 0 <= t < entries@.len() ==> (#[trigger] entries@[t])@ == dirv[t],
                old(self).table.nodes@.len() <= self.table.nodes@.len(),
                old(self).records@.len() <= self.records@.len(),
                forall|t: int|
                    0 <= t < old(self).table.nodes@.len() ==> self.table.nodes@[t] == old(
                        self,
                    ).table.nodes@[t],
                forall|t: int|
                    0 <= t < old(self).records@.len() ==> self.records@[t] == old(
                        self,
                    ).records@[t],
                record_views(self.records@) == record_views(old(self).records@) + records_of_dir(
                    bytes@,
                    dirv.take(i as int),
                ),
                failure_views(failures@) == failures_of_dir(dirv.take(i as int)),
            decreases entries@.len() - i,
        {
            let e = &entries[i];
            let nm = c_string_prefix(&e.name);
            let name = bytes_to_name(&nm);
            let raw = entry_raw(bytes, e.offset, e.disk_size);
            let ghost namev = name@;
            let ghost rawv = raw@;
            let ghost prev = *self;
            let ghost prev_failures = failures@;
            proof {
                assert((entries@[i as int])@ == dirv[i as int]);
                assert(dirv.take(i + 1int).drop_last() =~= dirv.take(i as int));
                assert(dirv.take(i + 1int).last() == dirv[i as int]);
            }
            match create_inode(self, name, e.ty, raw) {
                Ok(()) => {
                    proof {
                        let ev = dirv[i as int];
                        let added = RecordV {
                            name: utf8_lossy(c_prefix(ev.name)),
                            tag: spec_classify(ev.ty)->Ok_0,
                            raw: entry_slice(bytes@, ev.offset, ev.disk_size),
                        };
                        assert(self.records@.last()@ == added);
                        lemma_record_views_push(prev.records@, self.records@.last());
                        assert(self.records@ =~= prev.records@.push(self.records@.last()));
                        assert(records_of_dir(bytes@, dirv.take(i + 1int)) == records_of_dir(
                            bytes@,
                            dirv.take(i as int),
                        ).push(added));
                    }
                },
                Err(err) => {
                    failures.push((i, err));
                    proof {
                        let ev = dirv[i as int];
                        assert(*self == prev);
                        lemma_failure_views_push(prev_failures, (i, err));
                        assert(failures@ =~= prev_failures.push((i, err)));
                        assert(failures_of_dir(dirv.take(i + 1int)) == failures_of_dir(
                            dirv.take(i as int),
                        ).push(((i as int), err)));
                    }
                },
            }
            proof {
                assert forall|t: int|
                    0 <= t < old(self).table.nodes@.len() implies self.table.nodes@[t] == old(
                    self,
                ).table.nodes@[t] by {
                    assert(self.table.nodes@[t] == prev.table.nodes@[t]);
                }
                assert forall|t: int|
                    0 <= t < old(self).records@.len() implies self.records@[t] == old(
                    self,
                ).records@[t] by {
                    assert(self.records@[t] == prev.records@[t]);
                }
            }
            i += 1;
        }
        proof {
            assert(dirv.take(i as int) =~= dirv);
        }
        Ok(failures)
    }
}

} // verus!

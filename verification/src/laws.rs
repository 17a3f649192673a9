//! The general properties the filesystem guarantees, stated and proved
//! over the specification-level views of its state.

use vstd::prelude::*;
use crate::decode::{image_content, mip_content};
use crate::fs::{
    has_font_in, has_miptex_in, has_other_in, has_picture_in, ingest_shape, is_file_inode,
    name_matches, node_cache, resolve_post, WadFS,
};
use crate::names::mip_name_seq;
use crate::record::{Record, MIP_LEVELS};
use crate::table::{chained_pages, children_seq, page, INode, Ino, ROOT_INO};
use crate::wad::{miptex_parse_of, pic_parse_of};

verus! {

/// Resolving a file's content twice returns byte-identical results: the
/// first resolution populates the memoization slot, the second finds it
/// populated, returns it as it is, and changes nothing — the slot is
/// written at most once.
pub proof fn lemma_resolve_idempotent(
    pre: WadFS,
    mid: WadFS,
    post: WadFS,
    ino: Ino,
    b1: Seq<u8>,
    b2: Seq<u8>,
)
    requires
        resolve_post(pre, mid, ino, b1),
        resolve_post(mid, post, ino, b2),
    ensures
        b2 == b1,
        post == mid,
{
    assert(node_cache(mid, ino) == Some(b1));
}

/// A category directory exists exactly when at least one record of its
/// content type was ingested: the root has a child named `pics` if and
/// only if a picture record was seen — and likewise for `miptexs`,
/// `fonts` and `other`.  No empty category directory ever appears, and
/// none is missing for a present type.
pub proof fn lemma_category_dirs(fs: WadFS)
    requires
        fs.wf(),
        fs.table.nodes@.len() <= 0xffff_ffff_ffff_ffff,
    ensures
        (fs.pics_dir is Some) <==> has_picture_in(fs.records@),
        (fs.miptexs_dir is Some) <==> has_miptex_in(fs.records@),
        (fs.fonts_dir is Some) <==> has_font_in(fs.records@),
        (fs.other_dir is Some) <==> has_other_in(fs.records@),
        (exists|j: int|
            0 <= j < fs.table.nodes@.len() && name_matches(fs.table.nodes@, j, ROOT_INO, "pics"@))
            <==> has_picture_in(fs.records@),
        (exists|j: int|
            0 <= j < fs.table.nodes@.len() && name_matches(
                fs.table.nodes@,
                j,
                ROOT_INO,
                "miptexs"@,
            )) <==> has_miptex_in(fs.records@),
        (exists|j: int|
            0 <= j < fs.table.nodes@.len() && name_matches(fs.table.nodes@, j, ROOT_INO, "fonts"@))
            <==> has_font_in(fs.records@),
        (exists|j: int|
            0 <= j < fs.table.nodes@.len() && name_matches(fs.table.nodes@, j, ROOT_INO, "other"@))
            <==> has_other_in(fs.records@),
{
    reveal_strlit("pics");
    reveal_strlit("miptexs");
    reveal_strlit("fonts");
    reveal_strlit("other");
    let nodes = fs.table.nodes@;
    if fs.pics_dir is Some {
        let d = fs.pics_dir->0 as int;
        assert(name_matches(nodes, d, ROOT_INO, "pics"@));
    }
    if fs.miptexs_dir is Some {
        let d = fs.miptexs_dir->0 as int;
        assert(name_matches(nodes, d, ROOT_INO, "miptexs"@));
    }
    if fs.fonts_dir is Some {
        let d = fs.fonts_dir->0 as int;
        assert(name_matches(nodes, d, ROOT_INO, "fonts"@));
    }
    if fs.other_dir is Some {
        let d = fs.other_dir->0 as int;
        assert(name_matches(nodes, d, ROOT_INO, "other"@));
    }
    assert(("pics"@).len() == 4 && ("miptexs"@).len() == 7 && ("fonts"@).len() == 5 && (
    "other"@).len() == 5);
    assert(("fonts"@)[0] == 'f' && ("other"@)[0] == 'o');
    assert forall|j: int|
        0 <= j < nodes.len() && name_matches(nodes, j, ROOT_INO, "pics"@) implies fs.pics_dir
        is Some by {
        assert(nodes[j].parent == Some(ROOT_INO));
    }
    assert forall|j: int|
        0 <= j < nodes.len() && name_matches(nodes, j, ROOT_INO, "miptexs"@) implies fs.miptexs_dir
        is Some by {
        assert(nodes[j].parent == Some(ROOT_INO));
    }
    assert forall|j: int|
        0 <= j < nodes.len() && name_matches(nodes, j, ROOT_INO, "fonts"@) implies fs.fonts_dir
        is Some by {
        assert(nodes[j].parent == Some(ROOT_INO));
    }
    assert forall|j: int|
        0 <= j < nodes.len() && name_matches(nodes, j, ROOT_INO, "other"@) implies fs.other_dir
        is Some by {
        assert(nodes[j].parent == Some(ROOT_INO));
    }
}


/// The file exposing mip level `k` of a just-ingested texture record
/// resolves to exactly that level's decoded content: the parsed record's
/// level-`k` index buffer, decoded at the base dimensions right-shifted
/// by `k`, encoded — or empty when the record does not parse or the
/// level does not decode.
pub proof fn lemma_miptex_file_content(
    pre: WadFS,
    mid: WadFS,
    post: WadFS,
    rec: Record,
    k: int,
    b: Seq<u8>,
)
    requires
        rec.tag is MipTexture,
        ingest_shape(pre, mid, rec),
        mid.records@ == pre.records@.push(rec),
        0 <= k < MIP_LEVELS,
        mid.table.nodes@.len() <= 0xffff_ffff_ffff_ffff,
        resolve_post(
            mid,
            post,
            (pre.table.nodes@.len() + (if pre.miptexs_dir is Some {
                1int
            } else {
                2int
            }) + k) as Ino,
            b,
        ),
    ensures
        b == mip_content(miptex_parse_of(rec.raw@), k),
{
    let base = pre.table.nodes@.len() as int + (if pre.miptexs_dir is Some {
        0int
    } else {
        1int
    });
    let ino = (base + 1 + k) as Ino;
    let nr = pre.records@.len() as int;
    assert(is_file_inode(mid.table.nodes@[base + 1 + k], mip_name_seq(k), base as Ino, nr, k));
    assert(node_cache(mid, ino) is None);
    assert(mid.records@[nr] == rec);
}

/// The file exposing a just-ingested picture record resolves to exactly
/// the decoded content of the parsed record — or empty when the record
/// does not parse or decode.
pub proof fn lemma_picture_file_content(pre: WadFS, mid: WadFS, post: WadFS, rec: Record, b: Seq<u8>)
    requires
        rec.tag is Picture,
        ingest_shape(pre, mid, rec),
        mid.records@ == pre.records@.push(rec),
        mid.table.nodes@.len() <= 0xffff_ffff_ffff_ffff,
        resolve_post(mid, post, (mid.table.nodes@.len() - 1) as Ino, b),
    ensures
        b == image_content(pic_parse_of(rec.raw@)),
{
    let ino = (mid.table.nodes@.len() - 1) as Ino;
    let nr = pre.records@.len() as int;
    assert(node_cache(mid, ino) is None);
    assert(mid.records@[nr] == rec);
}

/// A directory no node calls parent has no children.
proof fn lemma_children_empty(nodes: Seq<INode>, dir: Ino)
    requires
        forall|i: int| 0 <= i < nodes.len() ==> (#[trigger] nodes[i].parent) != Some(dir),
    ensures
        children_seq(nodes, dir) == Seq::<Ino>::empty(),
    decreases nodes.len(),
{
    if nodes.len() > 0 {
        assert forall|i: int|
            0 <= i < nodes.drop_last().len() implies (#[trigger] nodes.drop_last()[i].parent)
            != Some(dir) by {
            assert(nodes.drop_last()[i] == nodes[i]);
        }
        lemma_children_empty(nodes.drop_last(), dir);
    }
}

/// A mipmapped texture record produces a texture directory with exactly
/// four children: the files `mip_0.tga` … `mip_3.tga`, in level order —
/// no more, no fewer.
pub proof fn lemma_miptex_children(pre: WadFS, post: WadFS, rec: Record)
    requires
        pre.wf(),
        post.wf(),
        rec.tag is MipTexture,
        ingest_shape(pre, post, rec),
        post.table.nodes@.len() <= 0xffff_ffff_ffff_ffff,
    ensures
        ({
            let base = pre.table.nodes@.len() as int + (if pre.miptexs_dir is Some {
                0int
            } else {
                1int
            });
            &&& children_seq(post.table.nodes@, base as Ino) == seq![
                (base + 1) as Ino,
                (base + 2) as Ino,
                (base + 3) as Ino,
                (base + 4) as Ino,
            ]
            &&& forall|k: int|
                0 <= k < MIP_LEVELS ==> (#[trigger] post.table.nodes@[base + 1 + k].name)@
                    == mip_name_seq(k)
        }),
{
    let nodes = post.table.nodes@;
    let base = pre.table.nodes@.len() as int + (if pre.miptexs_dir is Some {
        0int
    } else {
        1int
    });
    let b = base as Ino;
    let p0 = nodes.take(base + 1);
    assert forall|i: int| 0 <= i < p0.len() implies (#[trigger] p0[i].parent) != Some(b) by {
        assert(p0[i] == nodes[i]);
        if 2 <= i {
            assert(nodes[i].parent is Some && nodes[i].parent->0 < i);
        }
    }
    lemma_children_empty(p0, b);
    let nr = pre.records@.len() as int;
    // Naming each level's file name instantiates the per-level facts of
    // the ingest shape.
    let m0 = mip_name_seq(0);
    let m1 = mip_name_seq(1);
    let m2 = mip_name_seq(2);
    let m3 = mip_name_seq(3);
    assert(is_file_inode(nodes[base + 1 + 0], mip_name_seq(0), b, nr, 0));
    assert(is_file_inode(nodes[base + 1 + 1], mip_name_seq(1), b, nr, 1));
    assert(is_file_inode(nodes[base + 1 + 2], mip_name_seq(2), b, nr, 2));
    assert(is_file_inode(nodes[base + 1 + 3], mip_name_seq(3), b, nr, 3));
    let p1 = nodes.take(base + 2);
    let p2 = nodes.take(base + 3);
    let p3 = nodes.take(base + 4);
    let p4 = nodes.take(base + 5);
    assert(p1.drop_last() =~= p0 && p1.last() == nodes[base + 1]);
    assert(p2.drop_last() =~= p1 && p2.last() == nodes[base + 2]);
    assert(p3.drop_last() =~= p2 && p3.last() == nodes[base + 3]);
    assert(p4.drop_last() =~= p3 && p4.last() == nodes[base + 4]);
    assert(nodes[base + 1].parent == Some(b));
    assert(nodes[base + 2].parent == Some(b));
    assert(nodes[base + 3].parent == Some(b));
    assert(nodes[base + 4].parent == Some(b));
    assert(children_seq(p1, b) =~= seq![(base + 1) as Ino]);
    assert(children_seq(p2, b) =~= seq![(base + 1) as Ino, (base + 2) as Ino]);
    assert(children_seq(p3, b) =~= seq![(base + 1) as Ino, (base + 2) as Ino, (base + 3) as Ino]);
    assert(children_seq(p4, b) =~= seq![
        (base + 1) as Ino,
        (base + 2) as Ino,
        (base + 3) as Ino,
        (base + 4) as Ino,
    ]);
    assert(p4 =~= nodes);
    assert(children_seq(nodes, b) =~= seq![
        (base + 1) as Ino,
        (base + 2) as Ino,
        (base + 3) as Ino,
        (base + 4) as Ino,
    ]);
}

/// Pagination enumerates exactly once: repeated listing calls, each
/// resuming at the offset where the previous page ended, together yield
/// every child from the starting offset on, exactly once, in stable
/// creation order — no duplication and no omission, whatever the page
/// capacity.
pub proof fn lemma_pagination(c: Seq<Ino>, offset: int, cap: int)
    requires
        0 <= offset <= c.len(),
        cap >= 1,
    ensures
        chained_pages(c, offset, cap) == c.subrange(offset, c.len() as int),
    decreases c.len() - offset,
{
    if offset >= c.len() {
        assert(chained_pages(c, offset, cap) =~= c.subrange(offset, c.len() as int));
    } else {
        let p = page(c, offset, cap);
        assert(p.len() >= 1);
        lemma_pagination(c, offset + p.len(), cap);
        assert(p + c.subrange(offset + p.len(), c.len() as int) =~= c.subrange(
            offset,
            c.len() as int,
        ));
    }
}

} // verus!

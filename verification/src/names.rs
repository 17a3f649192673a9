//! File names synthesized for the virtual tree.

use vstd::prelude::*;
use vstd::string::StringExecFns;
use crate::record::MIP_LEVELS;

verus! {

/// The name of the file exposing one mip level of a texture.
pub open spec fn mip_name_seq(level: int) -> Seq<char> {
    if level == 0 {
        "mip_0.tga"@
    } else if level == 1 {
        "mip_1.tga"@
    } else if level == 2 {
        "mip_2.tga"@
    } else {
        "mip_3.tga"@
    }
}

/// Name of the file exposing mip level `level` of a texture record.
pub fn mip_level_name(level: usize) -> (r: String)
    requires
        level < MIP_LEVELS,
    ensures
        r@ == mip_name_seq(level as int),
{
    if level == 0 {
        String::from_str("mip_0.tga")
    } else if level == 1 {
        String::from_str("mip_1.tga")
    } else if level == 2 {
        String::from_str("mip_2.tga")
    } else {
        String::from_str("mip_3.tga")
    }
}

/// Name of the file exposing a decoded single image record: the record's
/// own name with the image container's extension appended.
pub fn pic_name(name: &str) -> (r: String)
    ensures
        r@ == name@ + ".tga"@,
{
    let s = String::from_str(name);
    s.concat(".tga")
}

/// The longest prefix of `b` that holds no NUL byte: the portion of a
/// fixed-width C-string field that carries the name.
pub open spec fn c_prefix(b: Seq<u8>) -> Seq<u8>
    decreases b.len(),
{
    if b.len() == 0 {
        b
    } else if b[0] == 0 {
        Seq::empty()
    } else {
        seq![b[0]] + c_prefix(b.skip(1))
    }
}

/// Cut a fixed-width C-string field at its first NUL byte.
pub fn c_string_prefix(b: &Vec<u8>) -> (r: Vec<u8>)
    ensures
        r@ == c_prefix(b@),
{
    let mut out: Vec<u8> = Vec::new();
    let mut i: usize = 0;
    while i < b.len() && b[i] != 0
        invariant
            0 <= i <= b@.len(),
            forall|j: int| 0 <= j < i ==> b@[j] != 0,
            out@ == b@.take(i as int),
        decreases b@.len() - i,
    {
        out.push(b[i]);
        i += 1;
        assert(out@ == b@.take(i as int));
    }
    proof {
        lemma_c_prefix_no_nul(b@, i as int);
    }
    out
}

/// If the first `i` bytes of `b` are non-NUL and either `i` is the whole
/// sequence or byte `i` is NUL, then the C-string prefix is exactly those
/// `i` bytes.
proof fn lemma_c_prefix_no_nul(b: Seq<u8>, i: int)
    requires
        0 <= i <= b.len(),
        forall|j: int| 0 <= j < i ==> b[j] != 0,
        i < b.len() ==> b[i] == 0,
    ensures
        c_prefix(b) == b.take(i),
    decreases b.len(),
{
    if b.len() == 0 {
        assert(c_prefix(b) =~= b.take(i));
    } else if b[0] == 0 {
        assert(c_prefix(b) =~= b.take(i));
    } else {
        lemma_c_prefix_no_nul(b.skip(1), i - 1);
        assert(c_prefix(b) =~= b.take(i));
    }
}

} // verus!

//! Decode pipeline: a palette-indexed raster becomes an RGBA raster, with
//! the archive's pure-white-is-transparent convention applied, and is then
//! encoded into a TGA byte stream.

use vstd::prelude::*;
use crate::record::{MipData, MipParseV, PicParseV, Rgb, MIP_LEVELS};

verus! {

/// Decode-time failure for one asset.
#[derive(Clone, Copy, Debug, PartialEq, Eq, Structural)]
pub enum DecodeError {
    /// The record's pixel data is malformed: a palette index points past
    /// the end of the palette.
    CorruptAsset,
    /// The index buffer does not match the stated geometry, or the raster
    /// cannot be represented by the image container.
    EncodeError,
}

/// The RGBA pixel emitted for one palette index: pure white encodes the
/// archive's legacy alpha key and becomes fully transparent; every other
/// color is emitted opaque.
pub open spec fn rgba_of(pal: Seq<Rgb>, i: u8) -> Seq<u8> {
    if pal[i as int].r == 255 && pal[i as int].g == 255 && pal[i as int].b == 255 {
        seq![0u8, 0u8, 0u8, 0u8]
    } else {
        seq![pal[i as int].r, pal[i as int].g, pal[i as int].b, 255u8]
    }
}

/// The RGBA raster obtained by looking every index up in the palette.
pub open spec fn rgba_seq(idx: Seq<u8>, pal: Seq<Rgb>) -> Seq<u8>
    decreases idx.len(),
{
    if idx.len() == 0 {
        Seq::empty()
    } else {
        rgba_seq(idx.drop_last(), pal) + rgba_of(pal, idx.last())
    }
}

/// Every palette index in the buffer is within the palette.
pub open spec fn all_indices_valid(idx: Seq<u8>, pal: Seq<Rgb>) -> bool {
    forall|j: int| 0 <= j < idx.len() ==> (idx[j] as int) < pal.len()
}

/// Dimensions the image container can represent: nonzero, and within its
/// 16-bit extent fields.
pub open spec fn encodable(width: int, height: int) -> bool {
    0 < width <= 0xffff && 0 < height <= 0xffff
}

/// The TGA byte stream the encoder produces for an RGBA raster of the
/// given dimensions.
pub uninterp spec fn tga_bytes(width: int, height: int, rgba: Seq<u8>) -> Seq<u8>;

/// What decoding a palette-indexed raster yields: the encoded image when
/// the buffer matches the geometry, every index is in range and the
/// dimensions are encodable; the distinguishing error otherwise.
pub open spec fn decode_result(width: u32, height: u32, idx: Seq<u8>, pal: Seq<Rgb>) -> Result<
    Seq<u8>,
    DecodeError,
> {
    if idx.len() != width * height {
        Err(DecodeError::EncodeError)
    } else if !all_indices_valid(idx, pal) {
        Err(DecodeError::CorruptAsset)
    } else if !encodable(width as int, height as int) {
        Err(DecodeError::EncodeError)
    } else {
        Ok(tga_bytes(width as int, height as int, rgba_seq(idx, pal)))
    }
}

/// The content a single-level image record resolves to: the decode of
/// the parsed raster, degraded to empty when the record does not parse or
/// does not decode.
pub open spec fn image_content(p: Option<PicParseV>) -> Seq<u8> {
    match p {
        Some(p) => match decode_result(p.width, p.height, p.indices, p.palette) {
            Ok(b) => b,
            Err(_) => Seq::empty(),
        },
        None => Seq::empty(),
    }
}

/// The content one mip level of a texture record resolves to: the decode
/// of level `level` of the parsed raster — base dimensions right-shifted
/// by the level, against its own index buffer — degraded to empty when
/// the record does not parse or the level does not decode.
pub open spec fn mip_content(m: Option<MipParseV>, level: int) -> Seq<u8> {
    match m {
        Some(m) => match decode_result(
            m.width >> (level as u32),
            m.height >> (level as u32),
            m.mips[level],
            m.palette,
        ) {
            Ok(b) => b,
            Err(_) => Seq::empty(),
        },
        None => Seq::empty(),
    }
}

/// An executable decode outcome agrees with a specified one.
pub open spec fn res_matches(r: Result<Vec<u8>, DecodeError>, m: Result<Seq<u8>, DecodeError>) -> bool {
    &&& (r is Ok <==> m is Ok)
    &&& (r is Ok ==> r->Ok_0@ == m->Ok_0)
    &&& (r is Err ==> r->Err_0 == m->Err_0)
}

/// The RGBA raster holds four bytes per pixel.
pub proof fn lemma_rgba_len(idx: Seq<u8>, pal: Seq<Rgb>)
    ensures
        rgba_seq(idx, pal).len() == 4 * idx.len(),
    decreases idx.len(),
{
    if idx.len() > 0 {
        lemma_rgba_len(idx.drop_last(), pal);
    }
}

/// Pixel `k` of the RGBA raster is the decoded form of index `k`.
pub proof fn lemma_rgba_at(idx: Seq<u8>, pal: Seq<Rgb>, k: int)
    requires
        0 <= k < idx.len(),
    ensures
        rgba_seq(idx, pal).subrange(4 * k, 4 * k + 4) == rgba_of(pal, idx[k]),
    decreases idx.len(),
{
    lemma_rgba_len(idx, pal);
    lemma_rgba_len(idx.drop_last(), pal);
    if k == idx.len() - 1 {
        assert(rgba_seq(idx, pal).subrange(4 * k, 4 * k + 4) =~= rgba_of(pal, idx[k]));
    } else {
        lemma_rgba_at(idx.drop_last(), pal, k);
        assert(idx.drop_last()[k] == idx[k]);
        assert(rgba_seq(idx, pal).subrange(4 * k, 4 * k + 4) =~= rgba_seq(idx.drop_last(), pal).subrange(
            4 * k,
            4 * k + 4,
        ));
    }
}

/// Any palette entry that is exactly pure white decodes to a fully
/// transparent pixel — alpha zero — at every position that uses its index,
/// regardless of the image or the position within it.
pub proof fn lemma_white_is_transparent(idx: Seq<u8>, pal: Seq<Rgb>, k: int)
    requires
        0 <= k < idx.len(),
        (idx[k] as int) < pal.len(),
        pal[idx[k] as int] == (Rgb { r: 255, g: 255, b: 255 }),
    ensures
        rgba_seq(idx, pal).len() == 4 * idx.len(),
        rgba_seq(idx, pal)[4 * k + 3] == 0,
        rgba_seq(idx, pal)[4 * k] == 0,
        rgba_seq(idx, pal)[4 * k + 1] == 0,
        rgba_seq(idx, pal)[4 * k + 2] == 0,
{
    lemma_rgba_len(idx, pal);
    lemma_rgba_at(idx, pal, k);
    let px = rgba_seq(idx, pal).subrange(4 * k, 4 * k + 4);
    assert(px =~= seq![0u8, 0u8, 0u8, 0u8]) by {
        assert(pal[idx[k] as int].r == 255 && pal[idx[k] as int].g == 255 && pal[idx[k] as int].b
            == 255);
    }
    assert(rgba_seq(idx, pal)[4 * k + 3] == px[3]);
    assert(rgba_seq(idx, pal)[4 * k] == px[0]);
    assert(rgba_seq(idx, pal)[4 * k + 1] == px[1]);
    assert(rgba_seq(idx, pal)[4 * k + 2] == px[2]);
}

/// Relies on `image::codecs::tga::TgaEncoder::encode` with RGBA pixels:
/// the bytes it writes are a function of the dimensions and the pixel
/// buffer alone, and encoding an in-memory buffer succeeds exactly when
/// both dimensions are nonzero and fit the format's 16-bit extent fields.
#[verifier::external_body]
fn tga_encode(width: u32, height: u32, rgba: Vec<u8>) -> (r: Option<Vec<u8>>)
    requires
        rgba@.len() == 4 * width * height,
    ensures
        (r is Some) <==> encodable(width as int, height as int),
        r is Some ==> r->0@ == tga_bytes(width as int, height as int, rgba@),
{
    let mut out = std::io::Cursor::new(Vec::new());
    let enc = image::codecs::tga::TgaEncoder::new(&mut out);
    match enc.encode(&rgba, width, height, image::ExtendedColorType::Rgba8) {
        Ok(()) => Some(out.into_inner()),
        Err(_) => None,
    }
}

/// Decode one palette-indexed raster into a TGA byte stream: each index is
/// looked up in the palette, pure white becoming fully transparent, and
/// the RGBA raster is encoded.
pub fn decode_image(width: u32, height: u32, indices: &Vec<u8>, palette: &Vec<Rgb>) -> (r: Result<
    Vec<u8>,
    DecodeError,
>)
    ensures
        res_matches(r, decode_result(width, height, indices@, palette@)),
{
    proof {
        assert((width as u64) * (height as u64) < 0x10000000000000000) by (nonlinear_arith)
            requires
                (width as u64) < 0x100000000,
                (height as u64) < 0x100000000,
        ;
    }
    let px = (width as u64) * (height as u64);
    if indices.len() as u64 != px {
        return Err(DecodeError::EncodeError);
    }
    assert(indices@.len() == width * height);
    let mut rgba: Vec<u8> = Vec::new();
    let mut k: usize = 0;
    while k < indices.len()
        invariant
            0 <= k <= indices@.len(),
            indices@.len() == width * height,
            forall|j: int| 0 <= j < k ==> (indices@[j] as int) < palette@.len(),
            rgba@ == rgba_seq(indices@.take(k as int), palette@),
        decreases indices@.len() - k,
    {
        let i = indices[k];
        if i as usize >= palette.len() {
            proof {
                assert(!((indices@[k as int] as int) < palette@.len()));
            }
            return Err(DecodeError::CorruptAsset);
        }
        let c = palette[i as usize];
        if c.r == 255 && c.g == 255 && c.b == 255 {
            rgba.push(0);
            rgba.push(0);
            rgba.push(0);
            rgba.push(0);
        } else {
            rgba.push(c.r);
            rgba.push(c.g);
            rgba.push(c.b);
            rgba.push(255);
        }
        proof {
            let pre = indices@.take(k as int);
            let cur = indices@.take(k + 1int);
            assert(cur.drop_last() =~= pre);
            assert(cur.last() == indices@[k as int]);
            assert(rgba@ =~= rgba_seq(pre, palette@) + rgba_of(palette@, indices@[k as int]));
        }
        k += 1;
    }
    proof {
        assert(indices@.take(k as int) =~= indices@);
        lemma_rgba_len(indices@, palette@);
        assert(4 * width * height == 4 * ((width as int) * (height as int))) by (nonlinear_arith);
    }
    if width == 0 || height == 0 || width > 0xffff || height > 0xffff {
        return Err(DecodeError::EncodeError);
    }
    match tga_encode(width, height, rgba) {
        Some(v) => Ok(v),
        None => {
            proof {
                // The encoder cannot refuse dimensions that were just
                // checked to be encodable.
                assert(false);
            }
            Err(DecodeError::EncodeError)
        },
    }
}

/// Decode one mip level of a texture record: level `k` has the base
/// dimensions right-shifted by `k`, and its own index buffer against the
/// shared palette.
pub fn decode_mip(m: &MipData, level: usize) -> (r: Result<Vec<u8>, DecodeError>)
    requires
        m.wf(),
        level < MIP_LEVELS,
    ensures
        res_matches(
            r,
            decode_result(
                m.width >> (level as u32),
                m.height >> (level as u32),
                m.mips@[level as int]@,
                m.palette@,
            ),
        ),
{
    let w = m.width >> (level as u32);
    let h = m.height >> (level as u32);
    decode_image(w, h, &m.mips[level], &m.palette)
}

} // verus!

//! Trusted boundary to the external WAD parser: the archive directory and
//! the per-kind record decoders, each yielding plain owned values.

use vstd::prelude::*;
use crate::record::{MipData, MipParseV, PicData, PicParseV, Rgb, MIP_LEVELS};

verus! {

/// Failure to read one archive.
#[derive(Clone, Copy, Debug, PartialEq, Eq, Structural)]
pub enum ArchiveError {
    /// The byte stream is not a well-formed WAD archive.
    ReadFailure,
}

/// One entry of a WAD archive's directory: the raw fixed-width C-string
/// name field, the type tag, and where the entry's data lies in the
/// archive's bytes.
pub struct WadDirEntry {
    pub name: Vec<u8>,
    pub ty: u8,
    pub offset: u32,
    pub disk_size: u32,
    pub size: u32,
    pub compression: u8,
}

/// Specification view of one WAD directory entry.
pub ghost struct WadDirEntryV {
    pub name: Seq<u8>,
    pub ty: u8,
    pub offset: u32,
    pub disk_size: u32,
    pub size: u32,
    pub compression: u8,
}

impl View for WadDirEntry {
    type V = WadDirEntryV;

    open spec fn view(&self) -> WadDirEntryV {
        WadDirEntryV {
            name: self.name@,
            ty: self.ty,
            offset: self.offset,
            disk_size: self.disk_size,
            size: self.size,
            compression: self.compression,
        }
    }
}

/// The directory that parsing a byte stream as a WAD archive yields:
/// nothing when the stream is no well-formed archive, otherwise its
/// entries in directory order.  A function of the bytes alone.
pub uninterp spec fn wad_dir_of(bytes: Seq<u8>) -> Option<Seq<WadDirEntryV>>;

/// The raster that parsing a picture record's bytes yields, if they are
/// well formed.  A function of the bytes alone.
pub uninterp spec fn pic_parse_of(raw: Seq<u8>) -> Option<PicParseV>;

/// The raster that parsing a font record's bytes yields, if they are
/// well formed.  A function of the bytes alone.
pub uninterp spec fn font_parse_of(raw: Seq<u8>) -> Option<PicParseV>;

/// The mipmapped raster that parsing a miptex record's bytes yields —
/// nothing when the bytes are malformed, or when the texture is
/// headerless (a zero level offset), carrying no data.  A function of
/// the bytes alone.
pub uninterp spec fn miptex_parse_of(raw: Seq<u8>) -> Option<MipParseV>;

/// The characters a lossy UTF-8 conversion yields for given bytes.
pub uninterp spec fn utf8_lossy(bytes: Seq<u8>) -> Seq<char>;

/// Relies on `String::from_utf8_lossy`: the result depends on the bytes
/// alone.
#[verifier::external_body]
pub(crate) fn bytes_to_name(b: &Vec<u8>) -> (r: String)
    ensures
        r@ == utf8_lossy(b@),
{
    String::from_utf8_lossy(b.as_slice()).into_owned()
}

/// Relies on `goldsrc_rs::wad::wad`: it parses the WAD3 header and the
/// entry directory it points at, refusing a stream without the magic or
/// with a truncated directory.  Each directory entry's fields are copied
/// verbatim; the name field is always its full 16 bytes.
#[verifier::external_body]
pub(crate) fn wad_directory(bytes: &Vec<u8>) -> (r: Result<Vec<WadDirEntry>, ArchiveError>)
    ensures
        (r is Ok) <==> wad_dir_of(bytes@) is Some,
        r is Ok ==> {
            &&& r->Ok_0@.len() == wad_dir_of(bytes@)->0.len()
            &&& forall|i: int|
                0 <= i < r->Ok_0@.len() ==> (#[trigger] r->Ok_0@[i])@ == wad_dir_of(bytes@)->0[i]
            &&& forall|i: int|
                0 <= i < r->Ok_0@.len() ==> (#[trigger] wad_dir_of(bytes@)->0[i]).name.len() == 16
        },
{
    match goldsrc_rs::wad::wad(bytes.as_slice()) {
        Ok(w) => Ok(
            w.entries.iter().map(
                |e| WadDirEntry {
                    name: e.name.to_vec(),
                    ty: e.ty,
                    offset: e.offset.get(),
                    disk_size: e.disk_size.get(),
                    size: e.size.get(),
                    compression: e.compression,
                },
            ).collect(),
        ),
        Err(_) => Err(ArchiveError::ReadFailure),
    }
}

/// Relies on `goldsrc_rs::texture::picture`: a parsed picture's index
/// buffer holds exactly `width * height` bytes, and its palette at most
/// 256 entries.
#[verifier::external_body]
pub(crate) fn parse_picture(raw: &Vec<u8>) -> (r: Option<PicData>)
    ensures
        (r is Some) <==> pic_parse_of(raw@) is Some,
        r is Some ==> {
            &&& r->0@ == pic_parse_of(raw@)->0
            &&& pic_parse_of(raw@)->0.indices.len() == pic_parse_of(raw@)->0.width * pic_parse_of(
                raw@,
            )->0.height
            &&& pic_parse_of(raw@)->0.palette.len() <= 256
        },
{
    match goldsrc_rs::texture::picture(raw.as_slice()) {
        Ok(p) => Some(
            PicData {
                width: p.header.width.get(),
                height: p.header.height.get(),
                indices: p.data.indices[0].to_vec(),
                palette: p.data.palette.iter().map(|c| Rgb { r: c[0], g: c[1], b: c[2] }).collect(),
            },
        ),
        Err(_) => None,
    }
}

/// Relies on `goldsrc_rs::texture::font`: a parsed font's index buffer
/// holds exactly `width * height` bytes, and its palette at most 256
/// entries.
#[verifier::external_body]
pub(crate) fn parse_font(raw: &Vec<u8>) -> (r: Option<PicData>)
    ensures
        (r is Some) <==> font_parse_of(raw@) is Some,
        r is Some ==> {
            &&& r->0@ == font_parse_of(raw@)->0
            &&& font_parse_of(raw@)->0.indices.len() == font_parse_of(raw@)->0.width
                * font_parse_of(raw@)->0.height
            &&& font_parse_of(raw@)->0.palette.len() <= 256
        },
{
    match goldsrc_rs::texture::font(raw.as_slice()) {
        Ok(f) => Some(
            PicData {
                width: f.header.width.get(),
                height: f.header.height.get(),
                indices: f.data.indices[0].to_vec(),
                palette: f.data.palette.iter().map(|c| Rgb { r: c[0], g: c[1], b: c[2] }).collect(),
            },
        ),
        Err(_) => None,
    }
}

/// Relies on `goldsrc_rs::texture::mip_texture`: a parsed texture that
/// carries data has one index buffer per mip level, level `k` holding
/// exactly `(width >> k) * (height >> k)` bytes, and a palette of at most
/// 256 entries.  A texture without data — one whose header has a zero
/// offset — yields nothing, like a malformed one.
#[verifier::external_body]
pub(crate) fn parse_miptex(raw: &Vec<u8>) -> (r: Option<MipData>)
    ensures
        (r is Some) <==> miptex_parse_of(raw@) is Some,
        r is Some ==> {
            &&& r->0@ == miptex_parse_of(raw@)->0
            &&& miptex_parse_of(raw@)->0.mips.len() == MIP_LEVELS
            &&& forall|k: int|
                0 <= k < MIP_LEVELS ==> (#[trigger] miptex_parse_of(raw@)->0.mips[k]).len() == (
                miptex_parse_of(raw@)->0.width >> (k as u32)) * (miptex_parse_of(raw@)->0.height
                    >> (k as u32))
            &&& miptex_parse_of(raw@)->0.palette.len() <= 256
        },
{
    match goldsrc_rs::texture::mip_texture(raw.as_slice()) {
        Ok(t) => match t.data {
            Some(cd) => Some(
                MipData {
                    width: t.header.width.get(),
                    height: t.header.height.get(),
                    mips: cd.indices.iter().map(|s| s.to_vec()).collect(),
                    palette: cd.palette.iter().map(|c| Rgb { r: c[0], g: c[1], b: c[2] }).collect(),
                },
            ),
            None => None,
        },
        Err(_) => None,
    }
}

} // verus!

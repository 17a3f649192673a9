//! Archive records: the named, typed entries a WAD archive yields, carrying
//! their raw bytes for deferred decoding.

use vstd::prelude::*;

verus! {

/// Number of mip levels a mipmapped texture record yields.
pub const MIP_LEVELS: usize = 4;

/// One palette entry: a color as red, green and blue components.
#[derive(Clone, Copy, Debug, PartialEq, Eq, Structural)]
pub struct Rgb {
    pub r: u8,
    pub g: u8,
    pub b: u8,
}

/// Content kind of an archive record, derived from the WAD entry type tag.
///
/// `Other` carries the raw tag byte of an entry outside the texture family;
/// its bytes are exposed verbatim, undecoded.
#[derive(Clone, Copy, Debug, PartialEq, Eq, Structural)]
pub enum ContentTag {
    Picture,
    MipTexture,
    Font,
    Other(u8),
}

/// Failure to ingest one record.
#[derive(Clone, Copy, Debug, PartialEq, Eq, Structural)]
pub enum IngestError {
    /// The record's type tag names a texture-family format the decoder does
    /// not understand; the record is rejected loudly rather than dropped.
    UnsupportedContentType(u8),
}

/// WAD entry type tag for a single picture (QPIC).
pub const TAG_PICTURE: u8 = 0x42;

/// WAD entry type tag for a mipmapped texture.
pub const TAG_MIPTEX: u8 = 0x43;

/// WAD entry type tag for a bitmap font.
pub const TAG_FONT: u8 = 0x46;

/// How an entry type tag is classified: the three decoded texture kinds by
/// their well-known tags; the remaining reserved texture-family tags
/// (palettes, colormaps and legacy picture variants) are not understood by
/// the decoder and are rejected; every tag outside that family is opaque
/// data exposed raw.
pub open spec fn spec_classify(ty: u8) -> Result<ContentTag, IngestError> {
    if ty == TAG_PICTURE {
        Ok(ContentTag::Picture)
    } else if ty == TAG_MIPTEX {
        Ok(ContentTag::MipTexture)
    } else if ty == TAG_FONT {
        Ok(ContentTag::Font)
    } else if 0x40 <= ty <= 0x47 {
        Err(IngestError::UnsupportedContentType(ty))
    } else {
        Ok(ContentTag::Other(ty))
    }
}

/// Classify a WAD entry type tag.
pub fn classify_tag(ty: u8) -> (r: Result<ContentTag, IngestError>)
    ensures
        r == spec_classify(ty),
{
    if ty == TAG_PICTURE {
        Ok(ContentTag::Picture)
    } else if ty == TAG_MIPTEX {
        Ok(ContentTag::MipTexture)
    } else if ty == TAG_FONT {
        Ok(ContentTag::Font)
    } else if 0x40 <= ty && ty <= 0x47 {
        Err(IngestError::UnsupportedContentType(ty))
    } else {
        Ok(ContentTag::Other(ty))
    }
}

/// One ingested archive record: a name, its classified kind, and its raw
/// bytes, kept for decoding on demand.
pub struct Record {
    pub name: String,
    pub tag: ContentTag,
    pub raw: Vec<u8>,
}

/// Specification view of a record.
pub ghost struct RecordV {
    pub name: Seq<char>,
    pub tag: ContentTag,
    pub raw: Seq<u8>,
}

impl View for Record {
    type V = RecordV;

    open spec fn view(&self) -> RecordV {
        RecordV { name: self.name@, tag: self.tag, raw: self.raw@ }
    }
}

/// A single-level palette-indexed raster, as parsed from a picture or font
/// record: one palette index per pixel.
pub struct PicData {
    pub width: u32,
    pub height: u32,
    pub indices: Vec<u8>,
    pub palette: Vec<Rgb>,
}

/// Specification view of a parsed single-level raster.
pub ghost struct PicParseV {
    pub width: u32,
    pub height: u32,
    pub indices: Seq<u8>,
    pub palette: Seq<Rgb>,
}

impl View for PicData {
    type V = PicParseV;

    open spec fn view(&self) -> PicParseV {
        PicParseV {
            width: self.width,
            height: self.height,
            indices: self.indices@,
            palette: self.palette@,
        }
    }
}

/// A mipmapped palette-indexed raster, as parsed from a miptex record:
/// one index buffer per mip level, sharing a single palette.
pub struct MipData {
    pub width: u32,
    pub height: u32,
    pub mips: Vec<Vec<u8>>,
    pub palette: Vec<Rgb>,
}

/// Specification view of a parsed mipmapped raster.
pub ghost struct MipParseV {
    pub width: u32,
    pub height: u32,
    pub mips: Seq<Seq<u8>>,
    pub palette: Seq<Rgb>,
}

impl View for MipData {
    type V = MipParseV;

    open spec fn view(&self) -> MipParseV {
        MipParseV {
            width: self.width,
            height: self.height,
            mips: self.mips@.map_values(|v: Vec<u8>| v@),
            palette: self.palette@,
        }
    }
}

impl MipData {
    /// A parsed miptex always carries one index buffer per mip level.
    pub open spec fn wf(self) -> bool {
        self.mips@.len() == MIP_LEVELS
    }
}

} // verus!

//! Whole archives built byte by byte in WAD3 layout, ingested through the
//! real parser: the synthesized tree, raw passthrough, decoded texture
//! geometry, and per-record failure reporting.

use wadfs::decode::decode_image;
use wadfs::fs::{FsError, WadFS};
use wadfs::record::{IngestError, Rgb, TAG_FONT, TAG_MIPTEX, TAG_PICTURE};
use wadfs::table::FileKind;
use wadfs::wad::ArchiveError;

fn push_u16(out: &mut Vec<u8>, v: u16) {
    out.push((v & 0xff) as u8);
    out.push((v >> 8) as u8);
}

fn push_u32(out: &mut Vec<u8>, v: u32) {
    out.push((v & 0xff) as u8);
    out.push(((v >> 8) & 0xff) as u8);
    out.push(((v >> 16) & 0xff) as u8);
    out.push(((v >> 24) & 0xff) as u8);
}

fn push_palette(out: &mut Vec<u8>, colors: &[[u8; 3]]) {
    push_u16(out, colors.len() as u16);
    for c in colors.iter() {
        out.extend_from_slice(c);
    }
}

/// A picture record's bytes: width, height, one index per pixel, palette.
fn picture_bytes(width: u32, height: u32, indices: &[u8], colors: &[[u8; 3]]) -> Vec<u8> {
    let mut out = Vec::new();
    push_u32(&mut out, width);
    push_u32(&mut out, height);
    out.extend_from_slice(indices);
    push_palette(&mut out, colors);
    out
}

/// A font record's bytes: the font header with its 256-glyph info table,
/// one index per pixel, and the palette.
fn font_bytes(width: u32, height: u32, indices: &[u8], colors: &[[u8; 3]]) -> Vec<u8> {
    let mut out = Vec::new();
    push_u32(&mut out, width);
    push_u32(&mut out, height);
    push_u32(&mut out, 1);
    push_u32(&mut out, height);
    for _ in 0..256 {
        push_u16(&mut out, 0);
        push_u16(&mut out, 8);
    }
    out.extend_from_slice(indices);
    push_palette(&mut out, colors);
    out
}

/// A mipmapped texture record's bytes: name, dimensions, four offsets to
/// the per-level index buffers, the buffers themselves, and the palette.
fn miptex_bytes(name: &str, width: u32, height: u32, colors: &[[u8; 3]]) -> Vec<u8> {
    let mut out = Vec::new();
    let mut name16 = [0u8; 16];
    name16[..name.len()].copy_from_slice(name.as_bytes());
    out.extend_from_slice(&name16);
    push_u32(&mut out, width);
    push_u32(&mut out, height);
    let mut offset = 40u32;
    for level in 0..4u32 {
        push_u32(&mut out, offset);
        offset += (width >> level) * (height >> level);
    }
    for level in 0..4u32 {
        let px = ((width >> level) * (height >> level)) as usize;
        out.extend_from_slice(&vec![1u8; px]);
    }
    push_palette(&mut out, colors);
    out
}

/// A whole WAD3 archive: header, the entries' data, then the directory.
fn wad3(entries: &[(&str, u8, Vec<u8>)]) -> Vec<u8> {
    let mut out = Vec::new();
    out.extend_from_slice(b"WAD3");
    push_u32(&mut out, entries.len() as u32);
    let mut data_offset = 12u32;
    let dir_offset = data_offset + entries.iter().map(|e| e.2.len() as u32).sum::<u32>();
    push_u32(&mut out, dir_offset);
    for (_, _, data) in entries.iter() {
        out.extend_from_slice(data);
    }
    for (name, ty, data) in entries.iter() {
        push_u32(&mut out, data_offset);
        push_u32(&mut out, data.len() as u32);
        push_u32(&mut out, data.len() as u32);
        out.push(*ty);
        out.push(0);
        push_u16(&mut out, 0);
        let mut name16 = [0u8; 16];
        name16[..name.len()].copy_from_slice(name.as_bytes());
        out.extend_from_slice(&name16);
        data_offset += data.len() as u32;
    }
    out
}

fn tga_dims(tga: &[u8]) -> (u32, u32) {
    (
        (tga[12] as u32) | ((tga[13] as u32) << 8),
        (tga[14] as u32) | ((tga[15] as u32) << 8),
    )
}

const GREY: [[u8; 3]; 2] = [[99, 99, 99], [50, 60, 70]];

#[test]
fn garbage_is_refused_as_a_whole() {
    let mut fs = WadFS::new();
    let r = fs.append_entries(&b"not a wad at all".to_vec());
    assert_eq!(r, Err(ArchiveError::ReadFailure));
    let (root_kids, _) = fs.readdir(1, 0, 8);
    assert!(root_kids.is_empty());
}

#[test]
fn miptex_and_raw_record_synthesize_the_expected_tree() {
    let mut fs = WadFS::new();
    let readme: &[u8] = b"read me: thirty-seven bytes of notes!";
    assert_eq!(readme.len(), 37);
    let wad = wad3(&[
        ("WALL1", TAG_MIPTEX, miptex_bytes("WALL1", 256, 256, &GREY)),
        ("README", 0x10, readme.to_vec()),
    ]);
    let failures = fs.append_entries(&wad).expect("archive parses");
    assert!(failures.is_empty());

    assert_eq!(fs.lookup(1, "pics"), Err(FsError::NotFound));
    assert_eq!(fs.lookup(1, "fonts"), Err(FsError::NotFound));

    let (miptexs, _) = fs.lookup(1, "miptexs").expect("miptexs exists");
    let (wall, wall_attr) = fs.lookup(miptexs, "WALL1").expect("texture dir exists");
    assert_eq!(wall_attr.kind, FileKind::Directory);
    let (kids, continues) = fs.readdir(wall, 0, 8);
    assert!(!continues);
    let names: Vec<String> = kids.iter().map(|e| e.name.clone()).collect();
    assert_eq!(
        names,
        vec!["mip_0.tga", "mip_1.tga", "mip_2.tga", "mip_3.tga"]
    );
    for (level, entry) in kids.iter().enumerate() {
        let content = fs.resolve(entry.ino).expect("mip resolves");
        let (w, h) = tga_dims(&content);
        assert_eq!(w, 256 >> level);
        assert_eq!(h, 256 >> level);
    }

    let (other, _) = fs.lookup(1, "other").expect("other exists");
    let (readme_ino, readme_attr) = fs.lookup(other, "README").expect("raw file exists");
    assert_eq!(readme_attr.size, 37);
    assert_eq!(fs.read(readme_ino, 0, 37), Ok(readme.to_vec()));
    assert_eq!(fs.read(readme_ino, 0, 38), Err(FsError::IOError));
}

#[test]
fn picture_and_font_entries_decode_through_their_parsers() {
    let mut fs = WadFS::new();
    let wad = wad3(&[
        ("LOGO", TAG_PICTURE, picture_bytes(4, 2, &[1u8; 8], &GREY)),
        ("CHARS", TAG_FONT, font_bytes(8, 2, &[0u8; 16], &GREY)),
    ]);
    let failures = fs.append_entries(&wad).expect("archive parses");
    assert!(failures.is_empty());

    let (pics, _) = fs.lookup(1, "pics").expect("pics exists");
    let (logo, logo_attr) = fs.lookup(pics, "LOGO.tga").expect("picture file");
    assert!(logo_attr.size > 0);
    let tga = fs.resolve(logo).expect("picture resolves");
    assert_eq!(tga_dims(&tga), (4, 2));
    // The resolved content is exactly the decode of the parsed raster.
    let palette: Vec<Rgb> = GREY
        .iter()
        .map(|c| Rgb { r: c[0], g: c[1], b: c[2] })
        .collect();
    let expected = decode_image(4, 2, &vec![1u8; 8], &palette).expect("decodes");
    assert_eq!(tga, expected);

    let (fonts, _) = fs.lookup(1, "fonts").expect("fonts exists");
    let (_, chars_attr) = fs.lookup(fonts, "CHARS.tga").expect("font file");
    assert!(chars_attr.size > 0);
}

#[test]
fn unsupported_entries_are_reported_and_the_rest_ingested() {
    let mut fs = WadFS::new();
    let wad = wad3(&[
        ("PAL", 0x40, vec![7, 7, 7]),
        ("NOTES", 0x11, b"plain".to_vec()),
    ]);
    let failures = fs.append_entries(&wad).expect("archive parses");
    assert_eq!(failures, vec![(0usize, IngestError::UnsupportedContentType(0x40))]);
    let (other, _) = fs.lookup(1, "other").expect("other exists");
    let (notes, _) = fs.lookup(other, "NOTES").expect("raw file exists");
    assert_eq!(fs.read(notes, 0, 5), Ok(b"plain".to_vec()));
}

#[test]
fn truncated_entry_data_degrades_to_an_empty_file() {
    let mut fs = WadFS::new();
    // An archive whose directory points past its end: entry data at
    // offset 100 of a far shorter stream.
    let mut out: Vec<u8> = Vec::new();
    out.extend_from_slice(b"WAD3");
    push_u32(&mut out, 1);
    push_u32(&mut out, 12);
    push_u32(&mut out, 100);
    push_u32(&mut out, 50);
    push_u32(&mut out, 50);
    out.push(0x12);
    out.push(0);
    push_u16(&mut out, 0);
    out.extend_from_slice(&[b'C', b'U', b'T', 0, 0, 0, 0, 0, 0, 0, 0, 0, 0, 0, 0, 0]);
    let failures = fs.append_entries(&out).expect("directory itself parses");
    assert!(failures.is_empty());
    let (other, _) = fs.lookup(1, "other").expect("other exists");
    let (cut, attr) = fs.lookup(other, "CUT").expect("file exists");
    assert_eq!(attr.size, 0);
    assert_eq!(fs.read(cut, 0, 1), Err(FsError::IOError));
}

#[test]
fn entry_names_are_cut_at_the_first_nul() {
    let mut fs = WadFS::new();
    let wad = wad3(&[("AB", 0x13, b"x".to_vec())]);
    let failures = fs.append_entries(&wad).expect("archive parses");
    assert!(failures.is_empty());
    let (other, _) = fs.lookup(1, "other").expect("other exists");
    assert!(fs.lookup(other, "AB").is_ok());
    assert_eq!(fs.lookup(other, "AB\0\0"), Err(FsError::NotFound));
}

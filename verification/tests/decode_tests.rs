//! The decode pipeline on concrete rasters: exact error taxonomy, the
//! pure-white transparency convention, and the encoded container's
//! reported geometry.

use wadfs::decode::{decode_image, decode_mip, DecodeError};
use wadfs::record::{MipData, Rgb};

fn tga_width(tga: &[u8]) -> u32 {
    (tga[12] as u32) | ((tga[13] as u32) << 8)
}

fn tga_height(tga: &[u8]) -> u32 {
    (tga[14] as u32) | ((tga[15] as u32) << 8)
}

fn rgba_at(tga: &[u8], x: u32, y: u32) -> [u8; 4] {
    let img = image::load_from_memory_with_format(tga, image::ImageFormat::Tga)
        .expect("tga decodes back");
    let px = img.to_rgba8().get_pixel(x, y).0;
    px
}

fn small_palette() -> Vec<Rgb> {
    vec![
        Rgb { r: 255, g: 255, b: 255 },
        Rgb { r: 10, g: 20, b: 30 },
        Rgb { r: 255, g: 255, b: 254 },
    ]
}

#[test]
fn decode_rejects_geometry_mismatch() {
    let indices: Vec<u8> = vec![0, 1, 1];
    let r = decode_image(2, 2, &indices, &small_palette());
    assert_eq!(r, Err(DecodeError::EncodeError));
}

#[test]
fn decode_rejects_out_of_range_palette_index() {
    let indices: Vec<u8> = vec![0, 3, 1, 0];
    let r = decode_image(2, 2, &indices, &small_palette());
    assert_eq!(r, Err(DecodeError::CorruptAsset));
}

#[test]
fn decode_rejects_unencodable_dimensions() {
    let indices: Vec<u8> = Vec::new();
    let r = decode_image(0, 0, &indices, &small_palette());
    assert_eq!(r, Err(DecodeError::EncodeError));
}

#[test]
fn decode_reports_exact_dimensions() {
    let indices: Vec<u8> = vec![1; 6];
    let tga = decode_image(3, 2, &indices, &small_palette()).expect("decodes");
    assert_eq!(tga_width(&tga), 3);
    assert_eq!(tga_height(&tga), 2);
}

#[test]
fn pure_white_decodes_fully_transparent_everywhere() {
    let indices: Vec<u8> = vec![0, 1, 1, 0];
    let tga = decode_image(2, 2, &indices, &small_palette()).expect("decodes");
    assert_eq!(rgba_at(&tga, 0, 0), [0, 0, 0, 0]);
    assert_eq!(rgba_at(&tga, 1, 0), [10, 20, 30, 255]);
    assert_eq!(rgba_at(&tga, 0, 1), [10, 20, 30, 255]);
    assert_eq!(rgba_at(&tga, 1, 1), [0, 0, 0, 0]);
}

#[test]
fn nearly_white_stays_opaque() {
    let indices: Vec<u8> = vec![2];
    let tga = decode_image(1, 1, &indices, &small_palette()).expect("decodes");
    assert_eq!(rgba_at(&tga, 0, 0), [255, 255, 254, 255]);
}

#[test]
fn mip_level_dimensions_halve_per_level() {
    let mut mips: Vec<Vec<u8>> = Vec::new();
    for level in 0..4u32 {
        let w = 16u32 >> level;
        let h = 8u32 >> level;
        mips.push(vec![1; (w * h) as usize]);
    }
    let m = MipData { width: 16, height: 8, mips, palette: small_palette() };
    for level in 0..4usize {
        let tga = decode_mip(&m, level).expect("mip decodes");
        assert_eq!(tga_width(&tga), 16 >> level);
        assert_eq!(tga_height(&tga), 8 >> level);
    }
}

#[test]
fn mip_level_with_wrong_buffer_fails() {
    let mips: Vec<Vec<u8>> = vec![vec![1; 4], vec![1; 4], vec![1; 1], vec![1; 1]];
    let m = MipData { width: 2, height: 2, mips, palette: small_palette() };
    assert!(decode_mip(&m, 0).is_ok());
    assert_eq!(decode_mip(&m, 1), Err(DecodeError::EncodeError));
}

use doomed_editor::picture::FlatPic;
use doomed_editor::thumbs::{flat_rgba, flat_square_rgba, GAP_FILL};

fn palette() -> [u32; 256] {
    let mut pal = [0u32; 256];
    for (i, p) in pal.iter_mut().enumerate() {
        *p = 0xff00_0000 | (i as u32) << 16 | ((255 - i) as u32) << 8 | 0x11;
    }
    pal
}

fn flat() -> FlatPic {
    let lump: Vec<u8> = (0..4096u32).map(|k| ((k % 64) + 2 * (k / 64)) as u8).collect();
    FlatPic::from_lump(&lump)
}

#[test]
fn flat_thumbnail_is_row_major_rgba() {
    let pic = flat();
    let rgba = flat_rgba(&pic, &palette());
    assert_eq!(rgba.len(), 64 * 64 * 4);
    let k = 3 * 64 + 5;
    let index = pic.data[k] as usize;
    assert_eq!(index, 5 + 6);
    assert_eq!(&rgba[k * 4..k * 4 + 4], &[index as u8, (255 - index) as u8, 0x11, 0xff]);
}

#[test]
fn square_thumbnail_samples_nearest_texel() {
    let pic = flat();
    let pal = palette();
    let side = 16u32;
    let rgba = flat_square_rgba(Some(&pic), side, &pal);
    assert_eq!(rgba.len(), 16 * 16 * 4);
    // Texel (3, 2) samples flat texel (3 * 64 / 16, 2 * 64 / 16) = (12, 8).
    let at = (2 * 16 + 3) * 4;
    let index = pic.data[8 * 64 + 12] as usize;
    assert_eq!(&rgba[at..at + 4], &[index as u8, (255 - index) as u8, 0x11, 0xff]);
    let empty = flat_square_rgba(None, 2, &pal);
    assert_eq!(empty, [GAP_FILL; 4].concat());
    assert!(flat_square_rgba(Some(&pic), 0, &pal).is_empty());
}

fn test_palette() -> [u32; 256] {
    let mut pal = [0xff00_0000u32; 256];
    pal[1] = 0xff_aa_bb_cc;
    pal[2] = 0xff_11_22_33;
    pal
}

#[test]
fn flat_is_row_major_passthrough() {
    let mut data = [1u16; 64 * 64];
    data[64] = 2; // first pixel of row 1
    let pic = FlatPic { data, width: 64, height: 64 };
    let bytes = flat_rgba(&pic, &test_palette());
    assert_eq!(&bytes[0..4], &[0xaa, 0xbb, 0xcc, 0xff]);
    assert_eq!(&bytes[64 * 4..64 * 4 + 4], &[0x11, 0x22, 0x33, 0xff]);
}

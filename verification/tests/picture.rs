use doomed_editor::picture::{
    decode_patch, encode_patch, FlatPic, MAX_PATCH_HEIGHT, TRANSPARENT_INDEX,
};

#[test]
fn encode_patch_round_trips_with_gap() {
    let t = TRANSPARENT_INDEX;
    // 2 wide, 4 tall, row-major. Column 0 has a gap at row 2.
    let data = vec![
        1, 5, // row 0
        1, 5, // row 1
        t, 5, // row 2 (col 0 transparent -> gap)
        2, 5, // row 3
    ];
    let lump = encode_patch(2, 4, &data);
    let patch = decode_patch(&lump).expect("decodes");
    assert_eq!((patch.width, patch.height), (2, 4));
    assert_eq!(patch.data, data);
}

#[test]
fn encode_patch_splits_long_run() {
    let height = 200;
    let data = vec![7u16; height]; // 1 wide, fully opaque
    let lump = encode_patch(1, height, &data);
    let patch = decode_patch(&lump).expect("decodes");
    assert_eq!(patch.height, height);
    assert!(patch.data.iter().all(|&i| i == 7));
}

#[test]
fn encode_patch_caps_tall_height() {
    let data = vec![3u16; 260];
    let lump = encode_patch(1, 260, &data);
    let patch = decode_patch(&lump).expect("decodes");
    assert_eq!(patch.height, MAX_PATCH_HEIGHT);
}

#[test]
fn encode_patch_exact_bytes_for_one_pixel() {
    // Header (w=1, h=1, origin 0,0), one offset (12), one post {0, 1, pad, 9, pad}, 0xFF.
    let lump = encode_patch(1, 1, &[9]);
    assert_eq!(
        lump,
        vec![1, 0, 1, 0, 0, 0, 0, 0, 12, 0, 0, 0, 0, 1, 0, 9, 0, 0xff]
    );
}

#[test]
fn encode_patch_long_run_becomes_two_posts() {
    let lump = encode_patch(1, 200, &vec![7u16; 200]);
    // First post starts at row 0 with 128 pixels, the second at row 128 with 72.
    assert_eq!(&lump[12..14], &[0, 128]);
    let second = 12 + 4 + 128;
    assert_eq!(&lump[second..second + 2], &[128, 72]);
    assert_eq!(lump.len(), 12 + (4 + 128) + (4 + 72) + 1);
}

#[test]
fn transparent_column_is_just_the_terminator() {
    let t = TRANSPARENT_INDEX;
    let lump = encode_patch(1, 3, &[t, t, t]);
    assert_eq!(lump.len(), 8 + 4 + 1);
    assert_eq!(lump[12], 0xff);
    let patch = decode_patch(&lump).expect("decodes");
    assert_eq!(patch.data, vec![t, t, t]);
}

#[test]
fn decode_rejects_short_and_degenerate_lumps() {
    assert!(decode_patch(&[]).is_none());
    assert!(decode_patch(&[1, 0, 1]).is_none());
    // Zero width.
    assert!(decode_patch(&[0, 0, 1, 0, 0, 0, 0, 0]).is_none());
    // Negative (0xFFFF) width.
    assert!(decode_patch(&[0xff, 0xff, 1, 0, 0, 0, 0, 0]).is_none());
    // Width 4097.
    assert!(decode_patch(&[0x01, 0x10, 1, 0, 0, 0, 0, 0]).is_none());
    // Column table cut short.
    assert!(decode_patch(&[1, 0, 1, 0, 0, 0, 0, 0, 12, 0]).is_none());
    // Column runs off the end of the lump (no terminator).
    assert!(decode_patch(&[1, 0, 1, 0, 0, 0, 0, 0, 12, 0, 0, 0, 0, 1, 0, 9, 0]).is_none());
}

#[test]
fn decode_drops_rows_past_the_height() {
    // 1x1 picture whose only post claims 3 pixels; only the first lands.
    let lump = [1, 0, 1, 0, 0, 0, 0, 0, 12, 0, 0, 0, 0, 3, 0, 4, 5, 6, 0, 0xff];
    let patch = decode_patch(&lump).expect("decodes");
    assert_eq!(patch.data, vec![4]);
}

#[test]
fn flat_from_short_lump_pads_with_zero() {
    let flat = FlatPic::from_lump(&[3, 4, 5]);
    assert_eq!((flat.width, flat.height), (64, 64));
    assert_eq!(&flat.data[..4], &[3, 4, 5, 0]);
    assert_eq!(flat.data[4095], 0);
    let full: Vec<u8> = (0..5000).map(|i| (i % 251) as u8).collect();
    let flat = FlatPic::from_lump(&full);
    assert_eq!(flat.data[4095], (4095 % 251) as u16);
}

use doomed_editor::atlas::{
    build,
    collect_flat_names, collect_wall_names, content_key, pack_flat_atlas, pack_sprite_atlas, pack_wall_atlas,
    sorted_distinct, FLAT_SIDE, SPRITE_PAD, WALL_ATLAS_MAX,
};
use doomed_editor::picture::{FlatPic, WallPic, MISSING_PATCH_INDEX, MISSING_PATCH_RGBA, TRANSPARENT_INDEX};
use doomed_editor::sprites::{SpriteRgba, ThingSpriteCache};

fn palette() -> [u32; 256] {
    let mut p = [0u32; 256];
    for (i, c) in p.iter_mut().enumerate() {
        *c = 0xff00_0000 | ((i as u32) << 16) | (((i as u32) * 2 % 256) << 8) | 7;
    }
    p
}

fn texel(rgba: &[u8], aw: usize, x: usize, y: usize) -> Vec<u8> {
    let at = (y * aw + x) * 4;
    rgba[at..at + 4].to_vec()
}

fn solid(w: usize, h: usize, index: u16) -> WallPic {
    WallPic { data: vec![index; w * h], width: w, height: h }
}

#[test]
fn wall_atlas_packs_and_bounds() {
    let pal = palette();
    // Column-major 2x2: (0,0)=1, (0,1)=missing, (1,0)=transparent, (1,1)=3.
    let small = WallPic { data: vec![1, MISSING_PATCH_INDEX, TRANSPARENT_INDEX, 3], width: 2, height: 2 };
    let pics = vec![Some(small), None, Some(solid(0, 4, 1)), Some(solid(3, 2, 4))];
    let (rgba, w, h, rects) = pack_wall_atlas(&pics, &pal);
    assert_eq!(w, WALL_ATLAS_MAX);
    assert_eq!(h, 2);
    assert_eq!(rgba.len() as u32, w * h * 4);
    assert!(rects[1].is_none() && rects[2].is_none(), "absent and empty textures are skipped");
    let a = rects[0].expect("packed");
    let b = rects[3].expect("packed");
    assert_eq!((a.x, a.y, a.w, a.h), (0, 0, 2, 2));
    assert_eq!((b.x, b.y, b.w, b.h), (3, 0, 3, 2), "one padding column after the first");
    let aw = w as usize;
    assert_eq!(texel(&rgba, aw, 0, 0), vec![1, 2, 7, 0xff]);
    assert_eq!(texel(&rgba, aw, 0, 1), MISSING_PATCH_RGBA.to_vec());
    assert_eq!(texel(&rgba, aw, 1, 0), vec![0, 0, 0, 0], "transparent texels are clear");
    assert_eq!(texel(&rgba, aw, 1, 1), vec![3, 6, 7, 0xff]);
    assert_eq!(texel(&rgba, aw, 2, 0), vec![0, 0, 0, 0], "padding stays clear");
    assert_eq!(texel(&rgba, aw, 4, 1), vec![4, 8, 7, 0xff]);
    for r in [a, b] {
        assert!(r.x + r.w <= w && r.y + r.h <= h);
    }
}

#[test]
fn wall_atlas_wraps_to_a_new_shelf() {
    let pal = palette();
    let pics = vec![Some(solid(3000, 2, 1)), Some(solid(2000, 3, 2)), Some(solid(90, 1, 3))];
    let (rgba, w, h, rects) = pack_wall_atlas(&pics, &pal);
    let r0 = rects[0].unwrap();
    let r1 = rects[1].unwrap();
    let r2 = rects[2].unwrap();
    assert_eq!((r0.x, r0.y), (0, 0));
    assert_eq!((r1.x, r1.y), (0, 3), "below the first shelf and its padding row");
    assert_eq!((r2.x, r2.y), (2001, 3));
    assert_eq!(h, 6);
    assert_eq!(texel(&rgba, w as usize, 1999, 5), vec![2, 4, 7, 0xff]);
    assert_eq!(texel(&rgba, w as usize, 0, 2), vec![0, 0, 0, 0]);
}

#[test]
fn wall_atlas_skips_oversized_and_is_empty_without_textures() {
    let pal = palette();
    let (rgba, w, h, rects) = pack_wall_atlas(&[Some(solid(4097, 1, 1)), None], &pal);
    assert!(rgba.is_empty());
    assert_eq!((w, h), (0, 0));
    assert_eq!(rects, vec![None, None]);
}

#[test]
fn flat_atlas_packs_distinct_flats() {
    let pal = palette();
    let mut a = FlatPic::from_lump(&[5u8; 4096]);
    a.data[64 + 2] = 9;
    let b = FlatPic::from_lump(&[6u8; 10]);
    let (rgba, w, h, xs) = pack_flat_atlas(&[a, b], &pal);
    assert_eq!(h, FLAT_SIDE);
    assert_eq!(w % FLAT_SIDE, 0);
    assert_eq!(w / FLAT_SIDE, 2);
    assert_eq!(rgba.len() as u32, w * h * 4, "flat atlas is RGBA (4 bytes per texel)");
    assert_eq!(xs, vec![0, 64]);
    assert_eq!(texel(&rgba, w as usize, 2, 1), vec![9, 18, 7, 0xff]);
    assert_eq!(texel(&rgba, w as usize, 3, 1), vec![5, 10, 7, 0xff]);
    assert_eq!(texel(&rgba, w as usize, 64 + 9, 0), vec![6, 12, 7, 0xff]);
    assert_eq!(texel(&rgba, w as usize, 64 + 10, 0), vec![0, 0, 7, 0xff], "short lumps pad with index 0");
    let (empty, ew, eh, exs) = pack_flat_atlas(&[], &pal);
    assert!(empty.is_empty() && ew == 0 && eh == 0 && exs.is_empty());
}

#[test]
fn sprite_atlas_packs_distinct_kinds_in_order() {
    let mut cache = ThingSpriteCache::default();
    cache.insert(3001, Some(SpriteRgba { width: 2, height: 1, rgba: vec![1, 1, 1, 1, 2, 2, 2, 2] }));
    cache.insert(9, Some(SpriteRgba { width: 1, height: 2, rgba: vec![3, 3, 3, 3, 4, 4, 4, 4] }));
    cache.insert(5, None);
    let (rgba, w, h, slots) = pack_sprite_atlas(&[3001, 9, 3001, 5, 42], &cache);
    assert_eq!(slots, vec![(9, SPRITE_PAD), (3001, SPRITE_PAD + 2)]);
    assert_eq!((w, h), (6, 4));
    assert_eq!(rgba.len(), 6 * 4 * 4);
    assert_eq!(texel(&rgba, 6, 1, 1), vec![3, 3, 3, 3]);
    assert_eq!(texel(&rgba, 6, 1, 2), vec![4, 4, 4, 4]);
    assert_eq!(texel(&rgba, 6, 3, 1), vec![1, 1, 1, 1]);
    assert_eq!(texel(&rgba, 6, 4, 1), vec![2, 2, 2, 2]);
    assert_eq!(texel(&rgba, 6, 0, 0), vec![0, 0, 0, 0]);
    assert_eq!(texel(&rgba, 6, 3, 2), vec![0, 0, 0, 0], "below the shorter icon");
    let (none, nw, nh, ns) = pack_sprite_atlas(&[5, 42], &cache);
    assert!(none.is_empty() && nw == 0 && nh == 0 && ns.is_empty());
}

#[test]
fn sorted_distinct_kinds() {
    assert_eq!(sorted_distinct(&[5, -1, 5, 3, -1]), vec![-1, 3, 5]);
    assert!(sorted_distinct(&[]).is_empty());
}

#[test]
fn wall_and_flat_names_are_distinct_known_and_in_first_use_order() {
    let s = |v: &[&str]| v.iter().map(|x| x.to_string()).collect::<Vec<String>>();
    let slots = s(&["B", "", "-", "A", "B", "X", "A"]);
    let known = s(&["A", "B", "-"]);
    assert_eq!(collect_wall_names(&slots, &known), s(&["B", "A"]));
    assert_eq!(collect_flat_names(&slots, &known), s(&["B", "-", "A"]), "a dash is only skipped for walls");
}

fn fold(h: u64, v: u64) -> u64 {
    (h ^ v).wrapping_mul(0x100_0000_01b3)
}

fn fold_name(mut h: u64, n: &str, sep: u64) -> u64 {
    for b in n.bytes() {
        h = fold(h, b as u64);
    }
    fold(h, sep)
}

#[test]
fn content_key_tracks_used_names_not_order() {
    let s = |v: &[&str]| v.iter().map(|x| x.to_string()).collect::<Vec<String>>();
    let mut cache = ThingSpriteCache::default();
    cache.insert(3001, Some(SpriteRgba { width: 1, height: 1, rgba: vec![0; 4] }));
    let key0 = content_key((1, 2, 3), &s(&["FLOOR", "CEIL", "FLOOR"]), &s(&["B", "A"]), &[3001, 9, 3001], &cache);
    assert_eq!(
        content_key((1, 2, 3), &s(&["CEIL", "FLOOR"]), &s(&["A", "B"]), &[9, 3001], &cache),
        key0,
        "only which names and kinds are used counts"
    );
    assert_ne!(content_key((1, 2, 3), &s(&["CEIL", "OTHER"]), &s(&["A", "B"]), &[9, 3001], &cache), key0);
    assert_ne!(content_key((1, 2, 4), &s(&["CEIL", "FLOOR"]), &s(&["A", "B"]), &[9, 3001], &cache), key0);

    let mut want = 0xcbf2_9ce4_8422_2325u64;
    for v in [1u64, 2, 3] {
        want = fold(want, v);
    }
    for n in ["CEIL", "FLOOR"] {
        want = fold_name(want, n, 0xff);
    }
    for n in ["A", "B"] {
        want = fold_name(want, n, 0xfe);
    }
    want = fold(want, 9);
    want = fold(want, 3001);
    want = fold(want, 1);
    assert_eq!(key0, want);
}

#[test]
fn content_key_keeps_repeated_walls() {
    let s = |v: &[&str]| v.iter().map(|x| x.to_string()).collect::<Vec<String>>();
    let cache = ThingSpriteCache::default();
    let once = content_key((0, 0, 0), &[], &s(&["W"]), &[-1], &cache);
    let twice = content_key((0, 0, 0), &[], &s(&["W", "W"]), &[-1], &cache);
    assert_ne!(once, twice);
    let mut want = 0xcbf2_9ce4_8422_2325u64;
    for v in [0u64, 0, 0] {
        want = fold(want, v);
    }
    want = fold_name(want, "W", 0xfe);
    want = fold(want, (-1i32) as u64);
    assert_eq!(once, want);
}

#[test]
fn build_tags_generation_and_packs_all_three() {
    let pal = palette();
    let mut cache = ThingSpriteCache::default();
    cache.insert(7, Some(SpriteRgba { width: 1, height: 1, rgba: vec![9, 9, 9, 9] }));
    let flats = [FlatPic::from_lump(&[1u8; 4096])];
    let (data, flat_xs, rects, sprites) = build(&[Some(solid(2, 2, 1))], &flats, &[7], &cache, &pal, 42);
    assert_eq!(data.generation, 42);
    assert_eq!((data.flat_atlas_w, data.flat_atlas_h), (64, 64));
    assert_eq!(flat_xs, vec![0]);
    assert_eq!((data.wall_atlas_w, data.wall_atlas_h), (WALL_ATLAS_MAX, 2));
    assert_eq!(rects.len(), 1);
    assert_eq!((data.sprite_w, data.sprite_h), (3, 3));
    assert_eq!(sprites, vec![(7, 1)]);
    assert_eq!(texel(&data.sprite_rgba, 3, 1, 1), vec![9, 9, 9, 9]);
}

use doomed_editor::compose::{
    import_patch,
    compose_texture_highlight, compose_texture_indices, eq_ignore_ascii_case, patch_dims,
    resolve_patch_lump, ImportedPatch, PatchPlacement, TextureDef, PATCH_HIGHLIGHT,
};
use doomed_editor::picture::{encode_patch, MISSING_PATCH_INDEX, MISSING_PATCH_RGBA, TRANSPARENT_INDEX};

fn placement(patch: &str, x: i32, y: i32) -> PatchPlacement {
    PatchPlacement { patch: patch.to_owned(), origin_x: x, origin_y: y }
}

fn def(name: &str, width: i32, height: i32, patches: Vec<PatchPlacement>) -> TextureDef {
    TextureDef { name: name.to_owned(), width, height, patches }
}

#[test]
fn missing_patch_fills_uncovered_texels_with_sentinel() {
    let present = encode_patch(2, 2, &[1, 1, 1, 1]);
    let imported = vec![ImportedPatch { name: "HAVE".to_owned(), lump: present }];
    let d = def("BROKEN", 4, 4, vec![placement("HAVE", 0, 0), placement("GONE", 2, 0)]);
    // The WAD has no lump for either name.
    let pic = compose_texture_indices(&d, &imported, &[None, None]);

    // data is column-major: data[x * h + y].
    for x in 0..2usize {
        for y in 0..2usize {
            assert_eq!(pic.data[x * 4 + y], 1, "present patch texel ({x},{y})");
        }
    }
    assert_eq!(pic.data[2 * 4], MISSING_PATCH_INDEX, "uncovered → sentinel");
    assert!(pic.data.contains(&MISSING_PATCH_INDEX), "a missing patch yields sentinel texels");
    assert!(!pic.data.contains(&TRANSPARENT_INDEX), "no texel stays transparent once a patch is missing");
}

#[test]
fn all_patches_present_never_marks_missing() {
    let lump = encode_patch(2, 2, &[2, 2, 2, TRANSPARENT_INDEX]);
    let imported = vec![ImportedPatch { name: "HAVE".to_owned(), lump }];
    let d = def("OK", 2, 2, vec![placement("HAVE", 0, 0)]);
    let pic = compose_texture_indices(&d, &imported, &[None]);
    assert!(!pic.data.contains(&MISSING_PATCH_INDEX), "no missing patch → no sentinel; genuine transparency survives");
    assert!(pic.data.contains(&TRANSPARENT_INDEX), "the genuine transparent corner is preserved");
}

#[test]
fn resolve_patch_lump_prefers_imported() {
    let wad_titlepic: Vec<u8> = vec![1, 2, 3];
    let imported = vec![ImportedPatch { name: "TITLEPIC".to_owned(), lump: vec![0xde, 0xad, 0xbe, 0xef] }];
    let bytes = resolve_patch_lump("TITLEPIC", &imported, Some(&wad_titlepic)).expect("found");
    assert_eq!(bytes, &[0xde, 0xad, 0xbe, 0xef]);
    let wad_playpal: Vec<u8> = vec![7; 768];
    assert!(resolve_patch_lump("PLAYPAL", &[], Some(&wad_playpal)).is_some());
}

#[test]
fn imported_names_match_ignoring_ascii_case() {
    let imported = vec![ImportedPatch { name: "wall01".to_owned(), lump: vec![9] }];
    assert_eq!(resolve_patch_lump("WALL01", &imported, None), Some(&[9u8][..]));
    assert_eq!(resolve_patch_lump("WALL02", &imported, None), None);
    assert!(eq_ignore_ascii_case("Doom2.WAD", "DOOM2.wad"));
    assert!(!eq_ignore_ascii_case("DOOM", "DOOM2"));
}

#[test]
fn later_patches_draw_over_earlier_and_clip() {
    let a = encode_patch(2, 2, &[1, 1, 1, 1]);
    let b = encode_patch(2, 1, &[5, TRANSPARENT_INDEX]);
    let imported = vec![
        ImportedPatch { name: "A".to_owned(), lump: a },
        ImportedPatch { name: "B".to_owned(), lump: b },
    ];
    // B straddles the left edge: its first column falls outside.
    let d = def("T", 3, 2, vec![placement("A", 1, 0), placement("B", 0, 1), placement("B", -1, 0)]);
    let pic = compose_texture_indices(&d, &imported, &[None, None, None]);
    assert_eq!((pic.width, pic.height), (3, 2));
    let at = |x: usize, y: usize| pic.data[x * 2 + y];
    assert_eq!(at(0, 0), TRANSPARENT_INDEX, "B at x=-1 puts only its transparent texel here");
    assert_eq!(at(0, 1), 5, "B's opaque texel");
    assert_eq!(at(1, 0), 1);
    assert_eq!(at(1, 1), 1, "B's transparent texel leaves A");
    assert_eq!(at(2, 0), 1);
}

#[test]
fn degenerate_size_counts_as_one_texel() {
    let pic = compose_texture_indices(&def("Z", 0, -3, vec![]), &[], &[]);
    assert_eq!((pic.width, pic.height), (1, 1));
    assert_eq!(pic.data, vec![TRANSPARENT_INDEX]);
}

#[test]
fn undecodable_wad_lump_counts_as_missing() {
    let d = def("W", 1, 1, vec![placement("JUNK", 0, 0)]);
    let pic = compose_texture_indices(&d, &[], &[Some(vec![1, 2, 3])]);
    assert_eq!(pic.data, vec![MISSING_PATCH_INDEX]);
}

#[test]
fn patch_dims_reads_the_header() {
    let lump = encode_patch(3, 5, &[1; 15]);
    assert_eq!(patch_dims(&[], Some(&lump), "P"), Some((3, 5)));
    assert_eq!(patch_dims(&[], None, "P"), None);
}

#[test]
fn highlight_preview_shades_and_strokes() {
    let mut palette = [0u32; 256];
    palette[1] = 0xff10_2030;
    palette[7] = 0xff40_5060;
    let lump = encode_patch(1, 1, &[1]);
    let imported = vec![ImportedPatch { name: "P".to_owned(), lump }];
    let d = def("T", 3, 3, vec![placement("P", 1, 1), placement("GONE", 0, 0)]);
    let mut colormap = vec![0u8; 256];
    colormap[1] = 7;

    let plain = compose_texture_highlight(&d, &imported, &[None, None], &palette, None, None);
    assert_eq!(plain.len(), 3 * 3 * 4);
    let px = |buf: &Vec<u8>, x: usize, y: usize| buf[(y * 3 + x) * 4..(y * 3 + x) * 4 + 4].to_vec();
    assert_eq!(px(&plain, 1, 1), vec![0x10, 0x20, 0x30, 0xff]);
    assert_eq!(px(&plain, 0, 0), MISSING_PATCH_RGBA.to_vec(), "a patch is missing");

    let shaded = compose_texture_highlight(&d, &imported, &[None, None], &palette, None, Some(&colormap));
    assert_eq!(px(&shaded, 1, 1), vec![0x40, 0x50, 0x60, 0xff], "shaded through the colormap");
    assert_eq!(px(&shaded, 0, 0), MISSING_PATCH_RGBA.to_vec(), "markers are not shaded");

    let stroked = compose_texture_highlight(&d, &imported, &[None, None], &palette, Some(0), None);
    assert_eq!(px(&stroked, 1, 1), PATCH_HIGHLIGHT.to_vec());
    assert_eq!(px(&stroked, 2, 2), MISSING_PATCH_RGBA.to_vec());
    let missing_hi = compose_texture_highlight(&d, &imported, &[None, None], &palette, Some(1), None);
    assert_eq!(missing_hi, plain, "a missing patch has no bounds to stroke");
}

#[test]
fn importing_a_patch_twice_is_refused() {
    let mut imported = Vec::new();
    let p = |name: &str, b: u8| ImportedPatch { name: name.to_owned(), lump: vec![b] };
    assert_eq!(import_patch(&mut imported, p("WALL00_1", 1)), Ok(()));
    assert_eq!(import_patch(&mut imported, p("DOOR3", 2)), Ok(()));
    assert_eq!(
        import_patch(&mut imported, p("wall00_1", 3)),
        Err("a patch with that name is already imported")
    );
    assert_eq!(imported, vec![p("WALL00_1", 1), p("DOOR3", 2)]);
}

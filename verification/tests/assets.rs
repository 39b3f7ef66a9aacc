use doomed_editor::assets::{
    build_texture_index, overlay_project_textures, TextureAssets, TextureGroup, TextureHistory,
    TextureMode, UNDO_DEPTH,
};
use doomed_editor::compose::{ImportedPatch, PatchPlacement, TextureDef};
use doomed_editor::render::ResourceKind;

fn group(wad: &str, lump: &str, names: &[(&str, &[&str])], edited: bool) -> TextureGroup {
    let defs = names
        .iter()
        .map(|(n, patches)| TextureDef {
            name: n.to_string(),
            width: 64,
            height: 64,
            patches: patches
                .iter()
                .map(|p| PatchPlacement { patch: p.to_string(), origin_x: 0, origin_y: 0 })
                .collect(),
        })
        .collect();
    TextureGroup { wad_name: wad.to_owned(), lump: lump.to_owned(), defs, edited }
}

fn first_patch(a: &TextureAssets, name: &str) -> Option<String> {
    a.texture_def(&name.to_owned()).map(|d| d.patches[0].patch.clone())
}

#[test]
fn index_overrides_by_later_lump_then_later_wad() {
    let groups = || {
        vec![
            group("iwad.wad", "TEXTURE1", &[("BRICK", &["P1"]), ("WOOD", &["W1"])], false),
            group("iwad.wad", "TEXTURE2", &[("BRICK", &["P2"])], false),
        ]
    };
    let mut a = TextureAssets::new(groups(), TextureMode::Vanilla);
    a.set_map_wad("iwad.wad");
    assert_eq!(first_patch(&a, "BRICK").as_deref(), Some("P2"), "TEXTURE2 overrides TEXTURE1 within a WAD");
    assert_eq!(first_patch(&a, "WOOD").as_deref(), Some("W1"), "name only in TEXTURE1 still resolves");

    let mut with_mod = groups();
    with_mod.push(group("mod.wad", "TEXTURE1", &[("BRICK", &["P3"])], false));
    let mut a = TextureAssets::new(with_mod, TextureMode::Vanilla);
    a.set_map_wad("iwad.wad");
    assert_eq!(first_patch(&a, "BRICK").as_deref(), Some("P2"), "other WAD's group does not leak into this map's index");

    a.set_map_wad("mod.wad");
    assert_eq!(first_patch(&a, "BRICK").as_deref(), Some("P3"), "the map's own WAD wins");
    assert!(first_patch(&a, "WOOD").is_none(), "mod.wad does not define WOOD → unresolved (no cross-WAD fallback)");
}

#[test]
fn custom_mode_merges_across_wads() {
    let mut a = TextureAssets::new(
        vec![
            group("iwad.wad", "TEXTURE1", &[("BRICK", &["P1"]), ("WOOD", &["W1"])], false),
            group("mod.wad", "TEXTURE1", &[("BRICK", &["P3"])], false),
        ],
        TextureMode::Custom,
    );
    a.set_map_wad("mod.wad");
    assert_eq!(first_patch(&a, "BRICK").as_deref(), Some("P3"), "later WAD's BRICK wins");
    assert_eq!(first_patch(&a, "WOOD").as_deref(), Some("W1"), "IWAD WOOD falls through (not in the PWAD)");
}

#[test]
fn first_definition_wins_within_a_group_and_wad_names_ignore_case() {
    let mut a = TextureAssets::new(
        vec![group("Doom.WAD", "TEXTURE1", &[("DUP", &["FIRST"]), ("DUP", &["SECOND"])], false)],
        TextureMode::Vanilla,
    );
    assert!(!a.map_texture_exists(&"DUP".to_owned()), "unscoped until the map WAD is set");
    a.set_map_wad("doom.wad");
    assert!(a.map_texture_exists(&"DUP".to_owned()));
    assert_eq!(a.texture_index_of(&"DUP".to_owned()), Some((0, 0)));
    assert_eq!(first_patch(&a, "DUP").as_deref(), Some("FIRST"));
}

#[test]
fn index_lists_each_resolving_name_once() {
    let groups = vec![
        group("a.wad", "TEXTURE1", &[("X", &["1"]), ("Y", &["2"])], false),
        group("a.wad", "TEXTURE2", &[("X", &["3"])], false),
    ];
    let index = build_texture_index(&groups, TextureMode::Custom, "");
    assert_eq!(index.len(), 2);
    assert!(index.contains(&("X".to_owned(), 1, 0)));
    assert!(index.contains(&("Y".to_owned(), 0, 1)));
}

#[test]
fn no_groups_makes_an_empty_texture1() {
    let a = TextureAssets::new(Vec::new(), TextureMode::Vanilla);
    assert!(a.textures().is_empty());
    assert_eq!(a.group_label(0).as_deref(), Some("TEXTURE1"));
    assert_eq!(a.group_label(1), None);
}

#[test]
fn group_labels_join_wad_and_lump() {
    let a = TextureAssets::new(vec![group("doom2.wad", "TEXTURE2", &[], false)], TextureMode::Vanilla);
    assert_eq!(a.group_label(0).as_deref(), Some("doom2.wad \u{b7} TEXTURE2"));
}

#[test]
fn active_group_switches_only_in_range() {
    let mut a = TextureAssets::new(
        vec![group("a.wad", "TEXTURE1", &[("A", &["1"])], false), group("a.wad", "TEXTURE2", &[], false)],
        TextureMode::Vanilla,
    );
    a.set_active_group(5);
    assert_eq!(a.active_group(), 0);
    a.set_active_group(1);
    assert_eq!(a.active_group(), 1);
    assert!(a.textures().is_empty());
}

#[test]
fn undo_then_redo_restores_texture_set() {
    let mut a = TextureAssets::new(vec![group("a.wad", "TEXTURE1", &[("A", &["1"])], false)], TextureMode::Custom);
    let mut h = TextureHistory::default();
    h.record(&a);
    h.record(&a);
    let mut edited = a.textures().to_vec();
    edited.push(TextureDef { name: "B".to_owned(), width: 8, height: 8, patches: Vec::new() });
    let before = a.replace_textures(edited);
    assert_eq!(before.len(), 1);
    assert!(a.map_texture_exists(&"B".to_owned()), "replacing rebuilds the index");

    assert_eq!(h.undo(&mut a), Some(1), "one snapshot: identical records collapse");
    assert!(!a.map_texture_exists(&"B".to_owned()));
    assert_eq!(h.undo(&mut a), None, "nothing left to undo");
    assert_eq!(h.redo(&mut a), Some(2));
    assert!(a.map_texture_exists(&"B".to_owned()));
    assert_eq!(h.redo(&mut a), None);
}

#[test]
fn undo_depth_is_capped() {
    let mut a = TextureAssets::new(vec![group("a.wad", "TEXTURE1", &[], false)], TextureMode::Custom);
    let mut h = TextureHistory::default();
    for i in 0..(UNDO_DEPTH + 5) {
        h.record(&a);
        let mut next = a.textures().to_vec();
        next.push(TextureDef { name: format!("T{i}"), width: 1, height: 1, patches: Vec::new() });
        a.replace_textures(next);
    }
    let mut undos = 0;
    while h.undo(&mut a).is_some() {
        undos += 1;
    }
    assert_eq!(undos, UNDO_DEPTH);
    assert_eq!(a.textures().len(), 5, "the oldest snapshots were dropped");
    h.clear();
    assert_eq!(h.redo(&mut a), None);
}

#[test]
fn project_groups_replace_same_source_or_append() {
    let mut groups = vec![
        group("doom.wad", "TEXTURE1", &[("A", &["1"])], false),
        group("doom.wad", "TEXTURE2", &[("B", &["2"])], false),
    ];
    let project = vec![
        group("DOOM.WAD", "texture2", &[("C", &["3"])], true),
        group("mine.wad", "TEXTURE1", &[("D", &["4"])], true),
    ];
    overlay_project_textures(&mut groups, &project);
    assert_eq!(groups.len(), 3);
    assert_eq!(groups[1].defs[0].name, "C");
    assert!(groups[1].edited);
    assert_eq!(groups[1].wad_name, "DOOM.WAD");
    assert_eq!(groups[2].wad_name, "mine.wad");
    assert_eq!(groups[0].defs[0].name, "A");
}

fn strings(v: &[&str]) -> Vec<String> {
    v.iter().map(|s| s.to_string()).collect()
}

#[test]
fn missing_resources_reports_unresolved_texture_and_absent_patch() {
    let mut a = TextureAssets::new(
        vec![group("iwad.wad", "TEXTURE1", &[("BRICK", &["GONEPAT"]), ("WALL01", &["P1"])], false)],
        TextureMode::Vanilla,
    );
    a.set_map_wad("iwad.wad");
    // One line: front middle BRICK, back middle GONE (upper, middle, lower of each side).
    let walls = strings(&["", "BRICK", "", "", "GONE", ""]);
    let wad_lumps = strings(&["PLAYPAL", "P1"]);
    let missing = a.missing_resources(&walls, &[], &[], &[], &wad_lumps);

    assert!(
        missing.iter().any(|m| m.name == "GONE" && m.kind == ResourceKind::Texture),
        "an unresolved texture is reported"
    );
    assert!(
        missing.iter().any(|m| m.name == "GONEPAT" && m.kind == ResourceKind::Patch),
        "a resolved texture's absent patch is reported"
    );
    assert!(!missing.iter().any(|m| m.name == "BRICK"), "BRICK resolves, so it is not missing");
}

#[test]
fn missing_resources_dedupe_and_sort_by_name() {
    let mut a = TextureAssets::new(
        vec![group("iwad.wad", "TEXTURE1", &[("BRICK", &["ZPAT", "P1"]), ("WALL01", &["P1", "ZPAT"])], false)],
        TextureMode::Vanilla,
    );
    a.set_map_wad("iwad.wad");
    let walls = strings(&["WALL01", "BRICK", "NOPE", "NOPE"]);
    let flats = strings(&["FLAT1", "", "MISSFLAT", "MISSFLAT"]);
    let imported = vec![ImportedPatch { name: "p1".to_owned(), lump: vec![0] }];
    let missing = a.missing_resources(&walls, &flats, &strings(&["FLAT1"]), &imported, &[]);
    let got: Vec<(String, ResourceKind)> = missing.into_iter().map(|m| (m.name, m.kind)).collect();
    assert_eq!(
        got,
        vec![
            ("MISSFLAT".to_owned(), ResourceKind::Texture),
            ("NOPE".to_owned(), ResourceKind::Texture),
            ("ZPAT".to_owned(), ResourceKind::Patch),
        ],
        "imported p1 covers P1 ignoring case"
    );
}

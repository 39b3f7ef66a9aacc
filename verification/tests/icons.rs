use doomed_editor::icons::{
    ensure_thing_sprite, find_sprite_lump, sprite_from_lump, sprite_present, sprite_source_for,
};
use doomed_editor::picture::{encode_patch, TRANSPARENT_INDEX};
use doomed_editor::render::SpriteSource;
use doomed_editor::sprites::ThingSpriteCache;

fn names(v: &[&str]) -> Vec<String> {
    v.iter().map(|s| s.to_string()).collect()
}

#[test]
fn sprite_lump_prefers_a1_then_a0_then_any_a() {
    let lumps = names(&["PLAYA1", "S_START", "TROOB1", "TROOA2A8", "TROOA0", "TROOA1", "S_END", "TROOA1"]);
    assert_eq!(find_sprite_lump(&lumps, "TROO"), Some(5));
    let no_a1 = names(&["S_START", "TROOA2A8", "TROOA0", "S_END"]);
    assert_eq!(find_sprite_lump(&no_a1, "TROO"), Some(2));
    let any_a = names(&["S_START", "TROOB1", "TROOA2A8", "S_END"]);
    assert_eq!(find_sprite_lump(&any_a, "TROO"), Some(2));
    assert!(sprite_present(&any_a, "TROO"));
}

#[test]
fn sprite_lump_only_between_markers() {
    assert_eq!(find_sprite_lump(&names(&["PLAYA1", "S_START", "S_END"]), "PLAY"), None);
    assert_eq!(find_sprite_lump(&names(&["PLAYA1"]), "PLAY"), None, "no markers");
    assert_eq!(find_sprite_lump(&names(&["S_END", "PLAYA1", "S_START"]), "PLAY"), None, "end before start");
    assert!(!sprite_present(&names(&["S_START", "BOSSA1", "S_END"]), "SKUL"));
}

#[test]
fn sprite_decodes_to_rgba() {
    let mut palette = [0u32; 256];
    palette[4] = 0xff01_0203;
    let lump = encode_patch(2, 1, &[4, TRANSPARENT_INDEX]);
    let s = sprite_from_lump(&lump, &palette).expect("decodes");
    assert_eq!((s.width, s.height), (2, 1));
    assert_eq!(s.rgba, vec![1, 2, 3, 0xff, 0, 0, 0, 0]);
    assert!(sprite_from_lump(&[1, 2], &palette).is_none());
}

#[test]
fn ensure_caches_once_including_misses() {
    let palette = [0u32; 256];
    let mut cache = ThingSpriteCache::default();
    ensure_thing_sprite(&mut cache, 3001, Some(&[0, 1]), &palette);
    assert!(cache.contains(3001) && cache.get(3001).is_none(), "an undecodable lump is a remembered miss");
    let good = encode_patch(1, 1, &[0]);
    ensure_thing_sprite(&mut cache, 3001, Some(&good), &palette);
    assert!(cache.get(3001).is_none(), "not looked up again");
    ensure_thing_sprite(&mut cache, 9, Some(&good), &palette);
    assert_eq!(cache.get(9).map(|s| s.width), Some(1));
    ensure_thing_sprite(&mut cache, 10, None, &palette);
    assert!(cache.contains(10));
}

#[test]
fn project_icon_overrides_builtin_prefix() {
    let project = vec![(3001, "MYIMP".to_owned()), (3001, "OTHER".to_owned()), (9, String::new())];
    assert!(matches!(sprite_source_for(3001, &project), SpriteSource::Patch("MYIMP")));
    assert!(matches!(sprite_source_for(9, &project), SpriteSource::Prefix("SPOS")), "empty icon falls back");
    assert!(matches!(sprite_source_for(3004, &[]), SpriteSource::Prefix("POSS")));
    assert!(matches!(sprite_source_for(14, &[]), SpriteSource::NoSprite), "teleport exit has no sprite");
    assert!(matches!(sprite_source_for(12345, &[]), SpriteSource::NoSprite));
}

use doomed_editor::things::{default_things, launch_thing_name, thing_palette};

#[test]
fn doom1_palette_drops_doom2_things() {
    let table = default_things();
    let kinds: Vec<i32> = thing_palette(false, |_| true)
        .into_iter()
        .map(|i| table[i].kind)
        .collect();
    for k in [64, 66, 82, 83] {
        assert!(!kinds.contains(&k), "Doom 2 thing {k} hidden in Doom 1");
    }
    for k in [3001, 16, 1] {
        assert!(kinds.contains(&k), "shared thing {k} kept");
    }
}

#[test]
fn doom2_palette_keeps_all_when_sprites_present() {
    let all = thing_palette(true, |_| true).len();
    assert_eq!(all, default_things().len());
}

#[test]
fn missing_sprite_drops_thing_but_keeps_markers() {
    let table = default_things();
    let kinds: Vec<i32> = thing_palette(true, |_| false)
        .into_iter()
        .map(|i| table[i].kind)
        .collect();
    assert!(kinds.contains(&14), "sprite-less Teleport exit kept");
    assert!(
        !kinds.contains(&3001),
        "Imp dropped when its sprite is absent"
    );
}

#[test]
fn palette_asks_only_about_allowed_sprites() {
    let asked = std::cell::RefCell::new(Vec::new());
    let shown = thing_palette(false, |s| {
        asked.borrow_mut().push(s.to_owned());
        s == "TROO"
    });
    let asked = asked.into_inner();
    assert!(!asked.contains(&"VILE".to_owned()), "Doom 2 sprites are not looked up in Doom 1");
    assert!(!asked.iter().any(|s| s.is_empty()), "empty sprites are never looked up");
    let table = default_things();
    let kinds: Vec<i32> = shown.iter().map(|&i| table[i].kind).collect();
    assert!(kinds.contains(&3001));
    assert!(kinds.contains(&20), "dead imp shares the imp sprite");
    assert!(kinds.contains(&14));
    assert!(kinds.contains(&87) == false);
    assert!(shown.windows(2).all(|w| w[0] < w[1]), "palette keeps table order");
}

#[test]
fn launch_thing_names() {
    assert_eq!(launch_thing_name(1), "Player 1 start");
    assert_eq!(launch_thing_name(11), "Deathmatch start");
    assert_eq!(launch_thing_name(3001), "Imp");
    assert_eq!(launch_thing_name(-5), "(unknown)");
}

#[test]
fn table_has_every_thing_once() {
    let table = default_things();
    assert_eq!(table.len(), 107);
    for (i, a) in table.iter().enumerate() {
        for b in &table[i + 1..] {
            assert_ne!(a.kind, b.kind);
        }
    }
}

use doomed_editor::boundary::SelectMode;
use doomed_editor::selection::{SectorFill, SelItem, Selection, ItemKind, PickKind};
use doomed_editor::sprites::{SpriteRgba, ThingSpriteCache};

#[test]
fn push_does_not_repeat_and_toggle_removes() {
    let mut sel = Selection::default();
    assert!(sel.is_empty());
    sel.push(SelItem::Line(3));
    sel.push(SelItem::Thing(1));
    sel.push(SelItem::Line(3));
    assert_eq!(sel.items(), &[SelItem::Line(3), SelItem::Thing(1)]);
    sel.toggle(SelItem::Line(3));
    assert_eq!(sel.items(), &[SelItem::Thing(1)]);
    sel.toggle(SelItem::Vertex(0));
    assert!(sel.contains(&SelItem::Vertex(0)));
}

#[test]
fn toggle_twice_restores_selection() {
    let mut sel = Selection::default();
    sel.push(SelItem::Sector(2));
    sel.toggle(SelItem::Vertex(9));
    sel.toggle(SelItem::Vertex(9));
    assert_eq!(sel.items(), &[SelItem::Sector(2)]);
}

#[test]
fn replace_and_clear() {
    let mut sel = Selection::default();
    sel.push(SelItem::Sector(2));
    sel.push(SelItem::Sector(4));
    sel.replace(SelItem::Line(7));
    assert_eq!(sel.items(), &[SelItem::Line(7)]);
    sel.clear();
    assert!(sel.is_empty());
}

#[test]
fn retain_keeps_order() {
    let mut sel = Selection::default();
    for i in 0..5 {
        sel.push(SelItem::Vertex(i));
    }
    sel.retain(|it| matches!(it, SelItem::Vertex(v) if v % 2 == 0));
    assert_eq!(sel.items(), &[SelItem::Vertex(0), SelItem::Vertex(2), SelItem::Vertex(4)]);
}

#[test]
fn sector_fill_defaults_to_outlines() {
    assert_eq!(SectorFill::default(), SectorFill::Unfilled);
}

#[test]
fn sprite_cache_answers_last_insert() {
    let mut cache = ThingSpriteCache::default();
    assert!(!cache.contains(3001));
    cache.insert(3001, None);
    assert!(cache.contains(3001), "a miss is remembered");
    assert!(cache.get(3001).is_none());
    cache.insert(3001, Some(SpriteRgba { width: 1, height: 1, rgba: vec![1, 2, 3, 4] }));
    assert_eq!(cache.get(3001).map(|s| s.rgba.clone()), Some(vec![1, 2, 3, 4]));
    assert!(cache.get(9).is_none());
}

#[test]
fn selection_filters_by_kind_in_order() {
    let mut sel = Selection::default();
    for item in [SelItem::Sector(4), SelItem::Line(2), SelItem::Sector(1), SelItem::Thing(9), SelItem::Vertex(3)] {
        sel.push(item);
    }
    assert_eq!(sel.selected_sectors(), vec![4, 1]);
    assert_eq!(sel.selected_lines(), vec![2]);
    assert_eq!(sel.selected_things(), vec![9]);
    assert_eq!(sel.selected_vertices(), vec![3]);
    assert_eq!(sel.selected_of(ItemKind::Line), vec![2]);
    assert_eq!(sel.highlighted_sectors(Some(7)), vec![4, 1]);
    sel.replace(SelItem::Line(5));
    assert_eq!(sel.highlighted_sectors(Some(7)), vec![7], "the panel sector when none is selected");
    assert!(sel.highlighted_sectors(None).is_empty());
}

#[test]
fn picks_match_select_modes() {
    assert!(PickKind::Sector(1).matches_mode(SelectMode::All));
    assert!(PickKind::Linedef(1).matches_mode(SelectMode::Line));
    assert!(!PickKind::Linedef(1).matches_mode(SelectMode::Vertex));
    assert!(PickKind::Thing(2).matches_mode(SelectMode::Thing));
    assert_eq!(PickKind::Vertex(6).as_item(), Some(SelItem::Vertex(6)));
    assert_eq!(PickKind::Linedef(6).as_item(), Some(SelItem::Line(6)));
    assert_eq!(PickKind::Sector(6).as_item(), None, "sectors are not draggable");
}

use doomed_editor::remap::{
    collect_unknown, remap_i32, remap_names, remap_values, unique_sorted, AssetNames, MapValues, RemapKind,
    RemapPair,
};

fn pair(from: &str, to: &str) -> RemapPair {
    RemapPair { from: from.to_owned(), to: to.to_owned() }
}

/// A small map: thing kinds, line specials and sector specials in map order.
fn fixture() -> MapValues {
    MapValues {
        thing_kinds: vec![1, 2015, 3004, 2014, 2015, 9999, 2014, 2014, 36],
        line_specials: vec![0, 1, 31, 1, 0, 46, 1],
        sector_specials: vec![0, 9, 0, 4, 9],
        wall_textures: vec![
            "STARTAN3".to_owned(),
            String::new(),
            "BOGUS".to_owned(),
            "STARG3".to_owned(),
            "BOGUS".to_owned(),
            "ALSOBAD".to_owned(),
        ],
        flats: vec!["FLOOR4_8".to_owned(), "NOFLAT".to_owned(), String::new()],
    }
}

fn count(values: &[i32], v: i32) -> usize {
    values.iter().filter(|x| **x == v).count()
}

#[test]
fn sector_special_remap_matches_by_value() {
    let mut map = fixture();
    let from = map.sector_specials.iter().copied().find(|&v| v != 0).expect("a sector special");
    let before = count(&map.sector_specials, from);
    assert!(before > 0);
    let changed = remap_i32(&mut map.sector_specials, &[pair(&from.to_string(), "7")]);
    assert_eq!(changed, before, "every matching sector special remapped");
    assert_eq!(count(&map.sector_specials, from), 0, "none of the old value remains");
}

#[test]
fn chained_pairs_cascade_in_pair_order() {
    let mut map = fixture();
    let n2015 = count(&map.thing_kinds, 2015);
    let n2014 = count(&map.thing_kinds, 2014);
    assert!(n2015 > 0 && n2014 > 0, "fixture has both thing kinds");
    let changed = remap_i32(&mut map.thing_kinds, &[pair("2015", "2014"), pair("2014", "2013")]);
    assert_eq!(changed, n2015 + (n2014 + n2015), "second pair also remaps values produced by the first");
    assert!(map.thing_kinds.iter().all(|&t| t != 2015 && t != 2014));
    assert_eq!(count(&map.thing_kinds, 2013), n2015 + n2014);
}

#[test]
fn unparseable_pairs_are_skipped() {
    let mut map = fixture();
    let before = map.thing_kinds.clone();
    assert_eq!(remap_i32(&mut map.thing_kinds, &[pair("notanum", "1")]), 0);
    assert_eq!(remap_i32(&mut map.thing_kinds, &[pair("1", "x1")]), 0);
    assert_eq!(map.thing_kinds, before);
}

#[test]
fn remap_again_changes_nothing() {
    let mut map = fixture();
    assert_eq!(remap_i32(&mut map.line_specials, &[pair("1", "31")]), 3);
    assert_eq!(remap_i32(&mut map.line_specials, &[pair("1", "31")]), 0);
    assert_eq!(map.line_specials, vec![0, 31, 31, 31, 0, 46, 31]);
}

#[test]
fn signed_and_padded_numbers_parse() {
    let mut fields = vec![-5, 5, 7];
    assert_eq!(remap_i32(&mut fields, &[pair("-5", "+6"), pair("007", "8")]), 2);
    assert_eq!(fields, vec![6, 5, 8]);
    assert_eq!(remap_i32(&mut fields, &[pair("2147483648", "1"), pair("", "1"), pair("+", "1")]), 0);
}

#[test]
fn remap_values_counts_each_pass() {
    let mut fields = vec![1, 2, 1, 3];
    let changed = remap_values(&mut fields, &[(1, 2), (2, 3)]);
    assert_eq!(fields, vec![3, 3, 3, 3]);
    assert_eq!(changed, 2 + 3);
}

#[test]
fn unknown_things_and_specials_collect_unique_sorted() {
    let map = fixture();
    let specials = collect_unknown(&map, RemapKind::LineSpecial, None, None);
    assert!(!specials.is_empty());
    let mut sorted = specials.clone();
    sorted.sort();
    assert_eq!(specials, sorted);
    assert_eq!(specials, vec!["1".to_owned(), "31".to_owned(), "46".to_owned()]);
    let things = collect_unknown(&map, RemapKind::Thing, None, None);
    assert_eq!(things, vec!["36".to_owned(), "9999".to_owned()], "built-in kinds are known");
}

#[test]
fn known_specials_are_not_reported_unknown() {
    let map = fixture();
    let all = collect_unknown(&map, RemapKind::LineSpecial, None, None);
    let defs: Vec<i32> = all.iter().map(|v| v.parse().expect("numeric special")).collect();
    let unknown = collect_unknown(&map, RemapKind::LineSpecial, None, Some(&defs));
    assert!(unknown.is_empty(), "defs cover every special: {unknown:?}");
    let sectors = collect_unknown(&map, RemapKind::SectorSpecial, None, Some(&[4]));
    assert_eq!(sectors, vec!["9".to_owned()]);
}

#[test]
fn texture_and_flat_reports_need_assets() {
    let map = fixture();
    assert!(collect_unknown(&map, RemapKind::Texture, None, None).is_empty());
    let assets = AssetNames {
        textures: vec!["STARTAN3".to_owned(), "STARG3".to_owned()],
        flats: vec!["FLOOR4_8".to_owned()],
    };
    assert_eq!(
        collect_unknown(&map, RemapKind::Texture, Some(&assets), None),
        vec!["ALSOBAD".to_owned(), "BOGUS".to_owned()]
    );
    assert_eq!(collect_unknown(&map, RemapKind::Flat, Some(&assets), None), vec!["NOFLAT".to_owned()]);
}

#[test]
fn negative_numbers_report_with_sign() {
    let mut map = fixture();
    map.line_specials = vec![-3, 12, -3];
    assert_eq!(collect_unknown(&map, RemapKind::LineSpecial, None, None), vec!["-3".to_owned(), "12".to_owned()]);
}

#[test]
fn unique_sorted_orders_by_bytes_and_drops_repeats() {
    let out = unique_sorted(vec!["b".to_owned(), "B".to_owned(), "a".to_owned(), "b".to_owned(), "ab".to_owned(), "".to_owned()]);
    assert_eq!(out, vec!["".to_owned(), "B".to_owned(), "a".to_owned(), "ab".to_owned(), "b".to_owned()]);
}

#[test]
fn remap_numbers_follow_integer_parsing() {
    let mut fields = vec![5, -2147483648, 7, 12];
    let pairs = [
        pair("+5", "6"),
        pair("-2147483648", "0"),
        pair("2147483648", "1"),
        pair("", "3"),
        pair("-", "3"),
        pair("7 ", "3"),
        pair("0012", "-12"),
    ];
    let changed = remap_i32(&mut fields, &pairs);
    assert_eq!(fields, vec![6, 0, 7, -12]);
    assert_eq!(changed, 3);
}

fn name8(s: &str) -> [u8; 8] {
    let mut n = [0u8; 8];
    n[..s.len()].copy_from_slice(s.as_bytes());
    n
}

#[test]
fn name_remap_cascades_and_counts() {
    let mut slots = vec![name8("STARTAN3"), name8("-"), name8("BROWN1"), name8("STARTAN3")];
    let pairs = [(name8("STARTAN3"), name8("BROWN1")), (name8("BROWN1"), name8("COMPSPAN"))];
    let changed = remap_names(&mut slots, &pairs);
    assert_eq!(slots, vec![name8("COMPSPAN"), name8("-"), name8("COMPSPAN"), name8("COMPSPAN")]);
    assert_eq!(changed, 2 + 3);
    assert_eq!(remap_names(&mut slots, &pairs[..1]), 0, "a second pass finds nothing to rename");
}

#[test]
fn texture_name_remap_changes_all_slots_and_a_second_run_changes_nothing() {
    let mut slots = vec![name8("STARTAN3"), name8("-"), name8("STARTAN3"), name8("BROWN1"), name8("STARTAN3")];
    let pairs = [(name8("STARTAN3"), name8("STARG3"))];
    assert_eq!(remap_names(&mut slots, &pairs), 3);
    assert!(!slots.contains(&name8("STARTAN3")), "every slot renamed");
    assert_eq!(slots.iter().filter(|n| **n == name8("STARG3")).count(), 3);
    let after = slots.clone();
    assert_eq!(remap_names(&mut slots, &pairs), 0, "second run is a no-op");
    assert_eq!(slots, after);
}

#[test]
fn settled_chain_remap_is_idempotent_on_numbers() {
    let mut fields = vec![1, 2, 3, 1];
    let pairs = [pair("1", "2"), pair("2", "5"), pair("notanum", "4")];
    assert_eq!(remap_i32(&mut fields, &pairs), 2 + 3);
    assert_eq!(fields, vec![5, 5, 3, 5]);
    assert_eq!(remap_i32(&mut fields, &pairs), 0);
    assert_eq!(fields, vec![5, 5, 3, 5]);
}

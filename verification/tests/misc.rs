use doomed_editor::boundary::{SkillFilter, ThingFlags};
use doomed_editor::bsp_anim::{
    advance_replay, partition_step_end, replay_interval_ms, start_replay, BuildEventKind,
};
use doomed_editor::prefs::BspAnimPref;
use doomed_editor::palette::{
    colormaps_from_lump, nearest_palette_index, playpal_colours, wad_color_to_rgba,
};
use doomed_editor::render::{
    fnv_fold, sector_seed, with_alpha, CanvasStyle, ResourceKind, FNV_OFFSET, FNV_PRIME,
};
use doomed_editor::spans::{span_cap, update_span, Span, SpanPatch, SurfaceSlots};
use doomed_editor::sweep::{span_ending_at, span_with_left_at, span_with_right_at, SweepSpan, Wall};

#[test]
fn palette_entry_to_rgba() {
    assert_eq!(wad_color_to_rgba(0x00ab_cdef), [0xab, 0xcd, 0xef, 0xff]);
    assert_eq!(wad_color_to_rgba(0xff00_0000), [0, 0, 0, 0xff]);
}

#[test]
fn nearest_index_prefers_first_of_equals() {
    let palette = [0xff00_0000u32, 0xffff_0000, 0xff00_ff00, 0xffff_0000];
    assert_eq!(nearest_palette_index(0xfff0_0000, &palette), 1);
    assert_eq!(nearest_palette_index(0xff00_f000, &palette), 2);
    assert_eq!(nearest_palette_index(0, &palette), 0, "transparent maps to 0");
    assert_eq!(nearest_palette_index(0xff12_3456, &[]), 0);
}

#[test]
fn fnv_fold_exact_value() {
    assert_eq!(fnv_fold(FNV_OFFSET, 0), FNV_OFFSET.wrapping_mul(FNV_PRIME));
    assert_eq!(fnv_fold(0, 1), FNV_PRIME);
    assert_eq!(fnv_fold(3, 3), 0);
}

#[test]
fn style_defaults_and_alpha() {
    let style = CanvasStyle::default();
    assert_eq!(style.back, [0xff, 0xff, 0xff, 0xff]);
    assert_eq!(with_alpha(style.two_sided, 0xb0), [0x90, 0x90, 0x90, 0xb0]);
    assert_eq!(ResourceKind::Patch.label(), "patch");
    assert_eq!(ResourceKind::Texture.label(), "texture");
}

#[test]
fn skill_filter_shows_things_of_that_skill() {
    let easy = ThingFlags::easy();
    assert!(SkillFilter::All.allows(ThingFlags { bits: 0 }));
    assert!(SkillFilter::Easy.allows(easy));
    assert!(!SkillFilter::Hard.allows(easy));
    assert!(SkillFilter::Hard.allows(ThingFlags::all_skills()));
    assert!(ThingFlags::all_skills().contains(ThingFlags::normal()));
    assert!(!easy.contains(ThingFlags::hard()));
}

#[test]
fn span_cap_adds_slack_in_whole_triangles() {
    assert_eq!(span_cap(0), 0);
    assert_eq!(span_cap(3), 3);
    assert_eq!(span_cap(4), 6);
    assert_eq!(span_cap(12), 15);
}

#[test]
fn span_update_patches_in_place_and_relocates_on_overflow() {
    let tomb = -1i32;
    let mut mesh: Vec<i32> = vec![10, 11, 12, 13, 14, 15, 20, 21, 22];
    let mut used: u32 = 9;
    let mut span = Span { offset: 0, len: 3, cap: 6 };
    let used_before = used;

    // In place: same span re-emitted with new values.
    let mut patches: Vec<SpanPatch> = Vec::new();
    update_span(&mut span, &mut used, &mut mesh, vec![1, 2, 3, 4], &mut patches, tomb);
    assert_eq!(span.offset, 0, "no relocation");
    assert_eq!(used, used_before, "tail untouched");
    assert_eq!(patches, vec![SpanPatch { offset: 0, count: 6 }], "one in-place patch");
    assert_eq!(mesh[..6], [1, 2, 3, 4, 4, 4], "padded with the last vertex");

    // Overflow: more verts than capacity → tail relocation + tombstone patch.
    let big = vec![7; (span.cap + 3) as usize];
    patches.clear();
    update_span(&mut span, &mut used, &mut mesh, big, &mut patches, tomb);
    assert_eq!(span.offset, used_before, "relocated to the old tail");
    assert!(used > used_before, "tail advanced");
    assert_eq!(mesh.len() as u32, used, "mesh grew with the tail");
    assert_eq!(patches.len(), 2, "tombstone + new-span patches");
    assert_eq!(mesh[..6], [tomb; 6], "old slots tombstoned");
    assert_eq!(span.len, 9);
    assert_eq!(span.cap, 12);
}

#[test]
fn step_runs_to_the_next_partition() {
    let (p, s, d) = (BuildEventKind::PartitionChosen, BuildEventKind::SegsSplit, BuildEventKind::SubsectorDone);
    let events = [p, s, d, p, s, d, d];
    assert_eq!(partition_step_end(&events, 0), 3);
    assert_eq!(partition_step_end(&events, 3), 7, "last step runs to the end");
    assert_eq!(partition_step_end(&events, 1), 7, "one partition ahead means the rest");
    assert_eq!(partition_step_end(&events, 7), 7);
    assert_eq!(partition_step_end(&[d, d], 0), 2);
}

#[test]
fn replay_walks_partition_steps_then_finishes() {
    let (p, s, d) = (BuildEventKind::PartitionChosen, BuildEventKind::SegsSplit, BuildEventKind::SubsectorDone);
    let events = [p, s, d, p, s, d, d];
    assert!(start_replay(BspAnimPref::Off, 7, true).is_none());
    assert!(start_replay(BspAnimPref::Timed, 0, true).is_none());
    let mut r = start_replay(BspAnimPref::Timed, events.len(), false).unwrap();
    assert!(!r.instant);
    let a = advance_replay(&mut r, &events);
    assert_eq!((a.start, a.end, a.clear_kept, a.finished), (0, 3, true, false));
    let b = advance_replay(&mut r, &events);
    assert_eq!((b.start, b.end, b.finished), (3, 7, true));
    let mut i = start_replay(BspAnimPref::Instant, events.len(), true).unwrap();
    let all = advance_replay(&mut i, &events);
    assert_eq!((all.start, all.end, all.clear_kept, all.finished), (0, 7, false, true));
}

#[test]
fn replay_interval_is_clamped() {
    assert_eq!(replay_interval_ms(0), 1);
    assert_eq!(replay_interval_ms(100), 100);
    assert_eq!(replay_interval_ms(5000), 1000);
}

#[test]
fn sweep_lookups_find_first_match() {
    let w = |top: usize, bot: usize| Wall { top, bot };
    let spans = [
        SweepSpan { left: w(0, 4), right: w(1, 5), helper: 0 },
        SweepSpan { left: w(2, 6), right: w(3, 6), helper: 2 },
        SweepSpan { left: w(2, 5), right: w(3, 4), helper: 3 },
    ];
    assert_eq!(span_ending_at(&spans, 6), Some(1));
    assert_eq!(span_ending_at(&spans, 5), None);
    assert_eq!(span_with_right_at(&spans, 4), Some(2));
    assert_eq!(span_with_left_at(&spans, 5), Some(2));
    assert_eq!(span_with_left_at(&spans, 9), None);
}

#[test]
fn sector_seed_hashes_the_whole_record() {
    let floor = *b"FLOOR4_8";
    let ceil = [b'C', b'E', b'I', b'L', b'3', b'_', b'5', 0];
    let mut h: u64 = 0xcbf2_9ce4_8422_2325;
    for v in floor.iter().chain(ceil.iter()).map(|b| *b as u64).chain([0u64, 128, 160, 9, (-1i64) as u64]) {
        h = (h ^ v).wrapping_mul(0x100_0000_01b3);
    }
    let seed = sector_seed(floor, ceil, 0, 128, 160, 9, -1);
    assert_eq!(seed, h);
    assert_ne!(seed, sector_seed(floor, ceil, 0, 128, 160, 9, 0), "the tag takes part");
    assert_ne!(seed, sector_seed(ceil, floor, 0, 128, 160, 9, -1), "flat order matters");
}

#[test]
fn playpal_reads_triples_and_fills_the_rest() {
    let data = [0x12, 0x34, 0x56, 0xff, 0x00, 0x80, 0x01];
    let pal = playpal_colours(&data, 0xff00_0000);
    assert_eq!(pal[0], 0xff12_3456);
    assert_eq!(pal[1], 0xffff_0080);
    assert_eq!(pal[2], 0xff00_0000, "an incomplete triple is not read");
    assert_eq!(pal[255], 0xff00_0000);
    let full: Vec<u8> = (0..800u32).map(|i| (i % 251) as u8).collect();
    let pal = playpal_colours(&full, 0);
    assert_eq!(pal[255], 0xff00_0000 | (full[765] as u32) << 16 | (full[766] as u32) << 8 | full[767] as u32);
}

#[test]
fn colormaps_take_whole_tables_up_to_the_cap() {
    let data: Vec<u8> = (0..(256 * 2 + 100)).map(|i| (i % 256) as u8 ^ (i / 256) as u8).collect();
    let maps = colormaps_from_lump(&data);
    assert_eq!(maps.len(), 2, "the partial third table is dropped");
    assert_eq!(maps[1][5], data[256 + 5]);
    let big = vec![7u8; 256 * 34];
    assert_eq!(colormaps_from_lump(&big).len(), 32);
    assert!(colormaps_from_lump(&[1, 2, 3]).is_empty());
}

#[test]
fn surface_slots_keep_other_spans_intact() {
    let tomb = 0i32;
    let mut mesh: Vec<i32> = Vec::new();
    let mut slots = SurfaceSlots::default();
    let mut patches = Vec::new();
    slots.update_sector(&mut mesh, 1, vec![1, 1, 1], &mut patches, tomb);
    slots.update_line(&mut mesh, 7, vec![7, 7, 7, 7, 7, 7], &mut patches, tomb);
    assert_eq!(slots.sector[&1], Span { offset: 0, len: 3, cap: 3 });
    assert_eq!(slots.line[&7], Span { offset: 3, len: 6, cap: 9 });
    assert_eq!(slots.used, 12);
    assert_eq!(mesh, vec![1, 1, 1, 7, 7, 7, 7, 7, 7, 7, 7, 7]);

    // The sector outgrows its capacity: it moves to the tail; the wall keeps its slots.
    patches.clear();
    slots.update_sector(&mut mesh, 1, vec![2, 2, 2, 2], &mut patches, tomb);
    assert_eq!(slots.sector[&1], Span { offset: 12, len: 4, cap: 6 });
    assert_eq!(&mesh[..3], &[tomb; 3]);
    assert_eq!(&mesh[3..12], &[7; 9]);
    assert_eq!(&mesh[12..], &[2, 2, 2, 2, 2, 2]);
    assert_eq!(patches, vec![SpanPatch { offset: 0, count: 3 }, SpanPatch { offset: 12, count: 6 }]);

    patches.clear();
    slots.free_line(&mut mesh, 7, &mut patches, tomb);
    assert!(!slots.line.contains_key(&7));
    assert_eq!(&mesh[3..12], &[tomb; 9]);
    assert_eq!(patches, vec![SpanPatch { offset: 3, count: 9 }]);
    slots.free_line(&mut mesh, 7, &mut patches, tomb);
    assert_eq!(patches.len(), 1, "freeing an unknown key does nothing");
    slots.free_sector(&mut mesh, 1, &mut patches, tomb);
    assert!(slots.sector.is_empty());
    assert_eq!(slots.used, 18, "freed slots are not reclaimed");
}

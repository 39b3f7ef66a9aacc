use doomed_editor::light::{
    build, light_anim_active, reconcile_lights, spawn_rolls_needed, strobe_min, tic,
    tic_rolls_needed, LightEffect, LightSector, LineSectors, SectorLight,
};
use doomed_editor::selection::SectorFill;

/// Two sectors: sector 0 (bright, carrying `special`) faces sector 1 (dark) across one line;
/// the other three walls of sector 0 are one-sided.
fn two_sector_map(special: i32) -> (Vec<LightSector>, Vec<LineSectors>) {
    let sectors = vec![
        LightSector { light_level: 192, special },
        LightSector { light_level: 96, special: 0 },
    ];
    let mut lines = Vec::new();
    for _ in 0..3 {
        lines.push(LineSectors { front: Some(0), back: None });
    }
    lines.push(LineSectors { front: Some(0), back: Some(1) });
    (sectors, lines)
}

fn build_with_zero_rolls(sectors: &[LightSector], lines: &[LineSectors]) -> Vec<SectorLight> {
    let rolls = vec![0; spawn_rolls_needed(sectors)];
    build(sectors, lines, &rolls)
}

#[test]
fn build_maps_special_to_effect() {
    for (special, want) in [
        (1, Some(LightEffect::Flicker)),
        (2, Some(LightEffect::StrobeFast)),
        (3, Some(LightEffect::StrobeSlow)),
        (4, Some(LightEffect::StrobeFast)),
        (8, Some(LightEffect::Glow)),
        (12, Some(LightEffect::StrobeSlowSync)),
        (13, Some(LightEffect::StrobeFastSync)),
        (17, Some(LightEffect::FireFlicker)),
        (9, None),
        (0, None),
    ] {
        let (sectors, lines) = two_sector_map(special);
        let lights = build_with_zero_rolls(&sectors, &lines);
        match want {
            Some(effect) => {
                assert_eq!(lights.len(), 1, "special {special} spawns one light");
                assert_eq!(lights[0].effect, effect, "special {special}");
            }
            None => assert!(lights.is_empty(), "special {special} is not a light"),
        }
    }
}

#[test]
fn neighbor_min_takes_darker_adjacent_sector() {
    let (sectors, lines) = two_sector_map(8);
    let lights = build_with_zero_rolls(&sectors, &lines);
    assert_eq!(lights[0].min_light, 96);
    assert_eq!(lights[0].max_light, 192);
}

#[test]
fn strobe_zeroes_min_when_equal_to_max() {
    let (mut sectors, lines) = two_sector_map(2);
    sectors[1].light_level = 192;
    let lights = build_with_zero_rolls(&sectors, &lines);
    assert_eq!(lights[0].min_light, 0);
}

#[test]
fn effect_uses_only_the_low_five_bits() {
    assert_eq!(LightEffect::from_special(32 + 8), Some(LightEffect::Glow));
    assert_eq!(LightEffect::from_special(64 + 1), Some(LightEffect::Flicker));
    assert_eq!(LightEffect::from_special(5), None);
}

#[test]
fn strobe_min_exact_values() {
    assert_eq!(strobe_min(96, 192), 96);
    assert_eq!(strobe_min(192, 192), 0);
}

#[test]
fn unrelated_sector_does_not_darken() {
    // Sector 2 is dark but shares no line with sector 0.
    let (mut sectors, lines) = two_sector_map(8);
    sectors.push(LightSector { light_level: 0, special: 0 });
    let lights = build_with_zero_rolls(&sectors, &lines);
    assert_eq!(lights[0].min_light, 96);
}

#[test]
fn glow_moves_and_stays_in_band() {
    let (sectors, lines) = two_sector_map(8);
    let mut lights = build_with_zero_rolls(&sectors, &lines);
    for _ in 0..200 {
        let rolls = vec![0; tic_rolls_needed(&lights)];
        tic(&mut lights, &rolls);
        let l = lights[0];
        assert!(l.min_light <= l.current && l.current <= l.max_light);
    }
    assert_eq!(lights[0].min_light, 96);
    assert_eq!(lights[0].max_light, 192);
}

#[test]
fn glow_first_tic_steps_down_by_glowspeed() {
    let (sectors, lines) = two_sector_map(8);
    let mut lights = build_with_zero_rolls(&sectors, &lines);
    assert_eq!(lights[0].current, 192);
    tic(&mut lights, &[]);
    assert_eq!(lights[0].current, 192 - 8);
}

#[test]
fn light_anim_runs_only_when_every_condition_holds() {
    let (sectors, lines) = two_sector_map(8);
    let lights = build_with_zero_rolls(&sectors, &lines);
    assert!(light_anim_active(true, SectorFill::Texture, false, &lights));
    assert!(!light_anim_active(false, SectorFill::Texture, false, &lights));
    assert!(!light_anim_active(true, SectorFill::Colour, false, &lights));
    assert!(!light_anim_active(true, SectorFill::Texture, true, &lights));
    assert!(!light_anim_active(true, SectorFill::Texture, false, &[]));
}

#[test]
fn reconcile_keeps_running_phases_for_same_sectors() {
    let (sectors, lines) = two_sector_map(8);
    let mut running = build_with_zero_rolls(&sectors, &lines);
    tic(&mut running, &[]);
    let advanced = running[0].current;
    let fresh = build_with_zero_rolls(&sectors, &lines);
    reconcile_lights(&mut running, fresh);
    assert_eq!(running[0].current, advanced, "same sectors keep their phase");

    let (other, lines2) = two_sector_map(0);
    let none = build_with_zero_rolls(&other, &lines2);
    reconcile_lights(&mut running, none);
    assert!(running.is_empty(), "a different set replaces the list");
}

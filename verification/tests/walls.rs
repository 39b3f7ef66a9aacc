use doomed_editor::boundary::TexSlot;
use doomed_editor::walls::{
    side_bands, side_bands_tagged, vertex_floor_z, wall_bands, LineEnds, WallSide, SURFACE_WALL_LOWER, SURFACE_WALL_MASKED, SURFACE_WALL_MID, SURFACE_WALL_UPPER,
};

fn side(sector: Option<u32>, top: &str, bottom: &str, mid: &str) -> WallSide {
    WallSide {
        sector,
        x_offset: 8,
        y_offset: -4,
        top_tex: top.to_owned(),
        bottom_tex: bottom.to_owned(),
        middle_tex: mid.to_owned(),
    }
}

#[test]
fn one_sided_line_gets_one_middle_wall() {
    let sectors = [(0, 128)];
    let bands = wall_bands(&side(Some(0), "", "", "STARTAN3"), None, &sectors, false, &[]);
    assert_eq!(bands.len(), 1);
    let b = &bands[0];
    assert!(b.front);
    assert_eq!((b.z_bot, b.z_top, b.peg_top), (0, 128, 128));
    assert_eq!((b.vis_bot, b.vis_top), (0, 128));
    assert_eq!((b.x_off, b.y_off, b.sector, b.surface), (8, -4, 0, SURFACE_WALL_MID));
    assert_eq!(b.tex, "STARTAN3");
    assert!(wall_bands(&side(Some(0), "", "", ""), None, &sectors, false, &[]).is_empty());
    assert!(wall_bands(&side(None, "", "", "X"), None, &sectors, false, &[]).is_empty());
    assert!(wall_bands(&side(Some(3), "", "", "X"), None, &sectors, false, &[]).is_empty());
}

#[test]
fn height_steps_get_upper_and_lower_walls() {
    // Front: floor 0, ceiling 128. Back: floor 24, ceiling 96.
    let sectors = [(0, 128), (24, 96)];
    let front = side(Some(0), "UP", "LOW", "");
    let back = side(Some(1), "BUP", "BLOW", "");
    let bands = wall_bands(&front, Some(&back), &sectors, false, &[]);
    let got: Vec<(bool, i64, i64, u32, &str)> =
        bands.iter().map(|b| (b.front, b.z_bot, b.z_top, b.surface, b.tex.as_str())).collect();
    assert_eq!(
        got,
        vec![
            (true, 96, 128, SURFACE_WALL_UPPER, "UP"),
            (false, 96, 128, SURFACE_WALL_UPPER, "BUP"),
            (true, 0, 24, SURFACE_WALL_LOWER, "LOW"),
            (false, 0, 24, SURFACE_WALL_LOWER, "BLOW"),
        ]
    );
    assert_eq!(bands[1].sector, 1);
    // Equal heights: no step, no walls.
    assert!(wall_bands(&front, Some(&back), &[(0, 128), (0, 128)], false, &[]).is_empty());
}

#[test]
fn masked_middle_texture_pegs_to_the_opening() {
    let sectors = [(0, 128), (16, 112)];
    let front = side(Some(0), "", "", "MIDGRATE");
    let back = side(Some(1), "", "", "NOTINATLAS");
    let heights = vec![("MIDGRATE".to_owned(), 64u32)];
    let bands = wall_bands(&front, Some(&back), &sectors, false, &heights);
    assert_eq!(bands.len(), 2);
    let f = &bands[0];
    assert_eq!(f.surface, SURFACE_WALL_MASKED);
    assert_eq!((f.z_bot, f.z_top), (16, 112), "the opening between the higher floor and lower ceiling");
    assert_eq!((f.peg_top, f.vis_bot, f.vis_top), (112, 48, 112), "top-pegged, 64 units visible");
    let b = &bands[1];
    assert!(!b.front);
    assert_eq!((b.peg_top, b.vis_bot, b.vis_top), (112, 16, 112), "missing texture: 128 units, clipped");
    let unpegged = wall_bands(&front, Some(&back), &sectors, true, &heights);
    assert_eq!((unpegged[0].peg_top, unpegged[0].vis_bot, unpegged[0].vis_top), (80, 16, 80));
    // A closed opening has no masked walls.
    assert!(wall_bands(&front, Some(&back), &[(0, 128), (64, 64)], false, &heights).is_empty());
}

#[test]
fn vertices_sit_on_their_lowest_bordering_floor() {
    let floors = [40, -16, 8];
    let l = |v1: u32, v2: u32, s: Option<u32>| LineEnds { v1, v2, front_sector: s };
    let lines = [l(0, 1, Some(0)), l(1, 2, Some(1)), l(2, 0, Some(2)), l(3, 4, None), l(4, 5, Some(9))];
    let z = vertex_floor_z(6, &lines, &floors);
    assert_eq!(z, vec![8, -16, -16, 0, 0, 0]);
}

#[test]
fn preview_bands_follow_the_height_steps() {
    // This side: floor 0, ceiling 128; behind it: floor 32, ceiling 96.
    let front = side(Some(0), "UP", "", "GRATE");
    let bands = side_bands_tagged((0, 128), Some((32, 96)), &front, true);
    let got: Vec<(TexSlot, Option<&str>, i64, bool)> =
        bands.iter().map(|b| (b.slot, b.tex.as_deref(), b.height, b.masked)).collect();
    assert_eq!(
        got,
        vec![
            (TexSlot::FrontTop, Some("UP"), 32, false),
            (TexSlot::FrontMid, Some("GRATE"), 64, true),
            (TexSlot::FrontBottom, None, 32, false),
        ]
    );
    let back = side(Some(1), "", "", "WALL");
    let one = side_bands_tagged((8, 72), None, &back, false);
    assert_eq!(one.len(), 1);
    assert_eq!((one[0].slot, one[0].height, one[0].masked), (TexSlot::BackMid, 64, false));
}

#[test]
fn side_preview_is_cropped_to_textured_bands() {
    let sectors = [(0, 128), (32, 96)];
    let front = side(Some(0), "UP", "", "");
    let back = side(Some(1), "", "", "");
    // Only the upper band has a texture: the gap bands below it are cropped away.
    let bands = side_bands(&sectors, &front, Some(&back), true).expect("textured");
    assert_eq!(bands.len(), 1);
    assert_eq!((bands[0].slot, bands[0].height), (TexSlot::FrontTop, 32));
    // A gap between two textured bands stays.
    let front = side(Some(0), "UP", "LOW", "");
    let bands = side_bands(&sectors, &front, Some(&back), true).expect("textured");
    assert_eq!(bands.len(), 3);
    assert_eq!(bands[1].tex, None);
    assert!(side_bands(&sectors, &back, Some(&front), false).is_none(), "nothing textured");
    assert!(side_bands(&sectors, &side(None, "A", "B", "C"), None, true).is_none());
}

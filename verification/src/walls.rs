//! Which wall quads a line gets in the 3D preview, and how their textures peg: a one-sided
//! line gets its middle wall; a two-sided line gets upper and lower walls on each side where
//! the neighbouring floors or ceilings differ, and masked middle textures in the opening.
//! Heights are whole map units. Also the bands of the hover wall-elevation preview of one side,
//! and the floor height each vertex sits at in the wireframe.

use vstd::prelude::*;

use crate::boundary::TexSlot;

verus! {

/// Surface kinds of the 3D preview mesh.
pub const SURFACE_FLOOR: u32 = 0;

pub const SURFACE_CEIL: u32 = 1;

pub const SURFACE_WALL_UPPER: u32 = 2;

pub const SURFACE_WALL_MID: u32 = 3;

pub const SURFACE_WALL_LOWER: u32 = 4;

/// Two-sided middle texture: drawn once, not tiled vertically.
pub const SURFACE_WALL_MASKED: u32 = 5;

/// Height given to a masked middle texture that is not in the atlas.
pub const MASKED_MISSING_HEIGHT: i64 = 128;

/// One side of a line, as the wall builder reads it.
#[derive(Debug, Clone, PartialEq)]
pub struct WallSide {
    /// Index of the sector the side faces, if any.
    pub sector: Option<u32>,
    pub x_offset: i32,
    pub y_offset: i32,
    pub top_tex: String,
    pub bottom_tex: String,
    pub middle_tex: String,
}

/// One solid wall quad of a line. `z_bot..z_top` is the geometry; `vis_bot..vis_top` the
/// outline drawn around it (narrower for a masked middle texture); the texture's top edge sits
/// at `peg_top`.
#[derive(Debug, Clone, PartialEq)]
pub struct WallBand {
    /// Drawn from the line's first vertex to its second (the front side), else reversed.
    pub front: bool,
    pub z_bot: i64,
    pub z_top: i64,
    pub peg_top: i64,
    pub vis_bot: i64,
    pub vis_top: i64,
    pub x_off: i32,
    pub y_off: i32,
    pub sector: u32,
    pub surface: u32,
    pub tex: String,
}

/// What a wall band says, with its texture name as text.
pub struct WallBandView {
    pub front: bool,
    pub z_bot: int,
    pub z_top: int,
    pub peg_top: int,
    pub vis_bot: int,
    pub vis_top: int,
    pub x_off: i32,
    pub y_off: i32,
    pub sector: u32,
    pub surface: u32,
    pub tex: Seq<char>,
}

impl View for WallBand {
    type V = WallBandView;

    open spec fn view(&self) -> WallBandView {
        WallBandView {
            front: self.front,
            z_bot: self.z_bot as int,
            z_top: self.z_top as int,
            peg_top: self.peg_top as int,
            vis_bot: self.vis_bot as int,
            vis_top: self.vis_top as int,
            x_off: self.x_off,
            y_off: self.y_off,
            sector: self.sector,
            surface: self.surface,
            tex: self.tex@,
        }
    }
}

/// A wall quad of `side` from `z_bot` to `z_top`, pegged at its top; none for an empty texture
/// name or no height.
pub open spec fn solid_band(
    front: bool,
    z_bot: int,
    z_top: int,
    side: WallSide,
    sector: u32,
    surface: u32,
    tex: Seq<char>,
) -> Seq<WallBandView> {
    if tex.len() == 0 || z_top <= z_bot {
        Seq::empty()
    } else {
        seq![
            WallBandView {
                front,
                z_bot,
                z_top,
                peg_top: z_top,
                vis_bot: z_bot,
                vis_top: z_top,
                x_off: side.x_offset,
                y_off: side.y_offset,
                sector,
                surface,
                tex,
            },
        ]
    }
}

/// A masked middle texture `h` units tall across the opening `mid_bot..mid_top`: pegged to the
/// opening's top, or with `unpeg_bottom` its bottom edge on the opening's floor; the outline
/// covers the texture's extent within the opening. None for an empty texture name.
pub open spec fn masked_band(
    front: bool,
    mid_bot: int,
    mid_top: int,
    unpeg_bottom: bool,
    h: int,
    side: WallSide,
    sector: u32,
    tex: Seq<char>,
) -> Seq<WallBandView> {
    if tex.len() == 0 {
        Seq::empty()
    } else {
        let peg_top = if unpeg_bottom { mid_bot + h } else { mid_top };
        let vis_bot = if unpeg_bottom {
            mid_bot
        } else if mid_top - h > mid_bot {
            mid_top - h
        } else {
            mid_bot
        };
        let vis_top = if !unpeg_bottom {
            mid_top
        } else if mid_bot + h < mid_top {
            mid_bot + h
        } else {
            mid_top
        };
        seq![
            WallBandView {
                front,
                z_bot: mid_bot,
                z_top: mid_top,
                peg_top,
                vis_bot,
                vis_top,
                x_off: side.x_offset,
                y_off: side.y_offset,
                sector,
                surface: SURFACE_WALL_MASKED,
                tex,
            },
        ]
    }
}

/// Height of `tex` in the atlas (the first entry of that name), or [`MASKED_MISSING_HEIGHT`].
pub open spec fn tex_height(heights: Seq<(String, u32)>, tex: Seq<char>, i: int) -> int
    decreases heights.len() - i,
{
    if i < 0 || i >= heights.len() {
        MASKED_MISSING_HEIGHT as int
    } else if heights[i].0@ == tex {
        heights[i].1 as int
    } else {
        tex_height(heights, tex, i + 1)
    }
}

pub open spec fn min_int(a: int, b: int) -> int {
    if a < b { a } else { b }
}

pub open spec fn max_int(a: int, b: int) -> int {
    if a > b { a } else { b }
}

/// The wall quads of a line with sides `front` and `back`, in drawing order. `sectors` holds each
/// sector's `(floor, ceiling)` heights by index; a side whose sector is missing gives nothing.
pub open spec fn line_bands(
    front: WallSide,
    back: Option<WallSide>,
    sectors: Seq<(i32, i32)>,
    unpeg_bottom: bool,
    heights: Seq<(String, u32)>,
) -> Seq<WallBandView> {
    match back {
        None => match front.sector {
            Some(s) if s < sectors.len() => solid_band(
                true,
                sectors[s as int].0 as int,
                sectors[s as int].1 as int,
                front,
                s,
                SURFACE_WALL_MID,
                front.middle_tex@,
            ),
            _ => Seq::empty(),
        },
        Some(b) => match (front.sector, b.sector) {
            (Some(fi), Some(bi)) if fi < sectors.len() && bi < sectors.len() => {
                let ff = sectors[fi as int].0 as int;
                let fc = sectors[fi as int].1 as int;
                let bf = sectors[bi as int].0 as int;
                let bc = sectors[bi as int].1 as int;
                let up_bot = min_int(bc, fc);
                let up_top = max_int(bc, fc);
                let lo_bot = min_int(ff, bf);
                let lo_top = max_int(ff, bf);
                let mid_bot = max_int(ff, bf);
                let mid_top = min_int(fc, bc);
                let walls = solid_band(true, up_bot, up_top, front, fi, SURFACE_WALL_UPPER, front.top_tex@)
                    + solid_band(false, up_bot, up_top, b, bi, SURFACE_WALL_UPPER, b.top_tex@)
                    + solid_band(true, lo_bot, lo_top, front, fi, SURFACE_WALL_LOWER, front.bottom_tex@)
                    + solid_band(false, lo_bot, lo_top, b, bi, SURFACE_WALL_LOWER, b.bottom_tex@);
                if mid_top > mid_bot {
                    walls + masked_band(
                        true,
                        mid_bot,
                        mid_top,
                        unpeg_bottom,
                        tex_height(heights, front.middle_tex@, 0),
                        front,
                        fi,
                        front.middle_tex@,
                    ) + masked_band(
                        false,
                        mid_bot,
                        mid_top,
                        unpeg_bottom,
                        tex_height(heights, b.middle_tex@, 0),
                        b,
                        bi,
                        b.middle_tex@,
                    )
                } else {
                    walls
                }
            },
            _ => Seq::empty(),
        },
    }
}

/// The views of a list of bands.
pub open spec fn band_views(bands: Seq<WallBand>) -> Seq<WallBandView> {
    bands.map_values(|b: WallBand| b@)
}

fn copy_text(s: &String) -> (c: String)
    ensures
        c@ == s@,
{
    s.clone()
}

/// Looks up the atlas height of `tex` (the first entry of that name).
fn lookup_height(heights: &[(String, u32)], tex: &String) -> (h: i64)
    ensures
        h == tex_height(heights@, tex@, 0),
        0 <= h <= u32::MAX,
{
    let mut i: usize = 0;
    while i < heights.len()
        invariant
            i <= heights@.len(),
            tex_height(heights@, tex@, 0) == tex_height(heights@, tex@, i as int),
        decreases heights@.len() - i,
    {
        if heights[i].0 == *tex {
            return heights[i].1 as i64;
        }
        i = i + 1;
    }
    MASKED_MISSING_HEIGHT
}

/// Appends the wall quad of `side` from `z_bot` to `z_top`, unless its texture name is empty or
/// it has no height.
fn push_solid(
    bands: &mut Vec<WallBand>,
    front: bool,
    z_bot: i64,
    z_top: i64,
    side: &WallSide,
    sector: u32,
    surface: u32,
    tex: &String,
)
    ensures
        band_views(final(bands)@) == band_views(old(bands)@) + solid_band(
            front,
            z_bot as int,
            z_top as int,
            *side,
            sector,
            surface,
            tex@,
        ),
{
    let ghost before = old(bands)@;
    if tex.as_str().is_empty() || z_top <= z_bot {
        assert(band_views(bands@) =~= band_views(before) + Seq::<WallBandView>::empty());
        return;
    }
    bands.push(
        WallBand {
            front,
            z_bot,
            z_top,
            peg_top: z_top,
            vis_bot: z_bot,
            vis_top: z_top,
            x_off: side.x_offset,
            y_off: side.y_offset,
            sector,
            surface,
            tex: copy_text(tex),
        },
    );
    assert(band_views(bands@) =~= band_views(before) + solid_band(
        front,
        z_bot as int,
        z_top as int,
        *side,
        sector,
        surface,
        tex@,
    ));
}

/// Appends the masked middle quad of `side` across the opening, unless its texture name is empty.
fn push_masked(
    bands: &mut Vec<WallBand>,
    front: bool,
    mid_bot: i64,
    mid_top: i64,
    unpeg_bottom: bool,
    h: i64,
    side: &WallSide,
    sector: u32,
)
    requires
        i32::MIN <= mid_bot <= i32::MAX,
        i32::MIN <= mid_top <= i32::MAX,
        0 <= h <= u32::MAX,
    ensures
        band_views(final(bands)@) == band_views(old(bands)@) + masked_band(
            front,
            mid_bot as int,
            mid_top as int,
            unpeg_bottom,
            h as int,
            *side,
            sector,
            side.middle_tex@,
        ),
{
    let ghost before = old(bands)@;
    if side.middle_tex.as_str().is_empty() {
        assert(band_views(bands@) =~= band_views(before) + Seq::<WallBandView>::empty());
        return;
    }
    let peg_top: i64 = if unpeg_bottom { mid_bot + h } else { mid_top };
    let vis_bot: i64 = if unpeg_bottom {
        mid_bot
    } else if mid_top - h > mid_bot {
        mid_top - h
    } else {
        mid_bot
    };
    let vis_top: i64 = if !unpeg_bottom {
        mid_top
    } else if mid_bot + h < mid_top {
        mid_bot + h
    } else {
        mid_top
    };
    bands.push(
        WallBand {
            front,
            z_bot: mid_bot,
            z_top: mid_top,
            peg_top,
            vis_bot,
            vis_top,
            x_off: side.x_offset,
            y_off: side.y_offset,
            sector,
            surface: SURFACE_WALL_MASKED,
            tex: copy_text(&side.middle_tex),
        },
    );
    assert(band_views(bands@) =~= band_views(before) + masked_band(
        front,
        mid_bot as int,
        mid_top as int,
        unpeg_bottom,
        h as int,
        *side,
        sector,
        side.middle_tex@,
    ));
}

/// The wall quads of a line, in drawing order: a one-sided line's middle wall; for a two-sided
/// line the front and back upper walls between the two ceilings, the front and back lower walls
/// between the two floors, then the masked middle textures in the opening between the higher
/// floor and the lower ceiling. Walls without a texture name or without height are skipped;
/// so is a line whose sectors are missing. `sectors` holds each sector's `(floor, ceiling)` by
/// index; `heights` maps atlas texture names to their heights; `unpeg_bottom` is the line's
/// lower-unpegged flag.
pub fn wall_bands(
    front: &WallSide,
    back: Option<&WallSide>,
    sectors: &[(i32, i32)],
    unpeg_bottom: bool,
    heights: &[(String, u32)],
) -> (bands: Vec<WallBand>)
    ensures
        band_views(bands@) == line_bands(
            *front,
            match back {
                Some(b) => Some(*b),
                None => None,
            },
            sectors@,
            unpeg_bottom,
            heights@,
        ),
{
    let mut bands: Vec<WallBand> = Vec::new();
    assert(band_views(bands@) =~= Seq::<WallBandView>::empty());
    match back {
        None => {
            match front.sector {
                Some(s) => {
                    if (s as usize) < sectors.len() {
                        let (floor, ceil) = sectors[s as usize];
                        push_solid(
                            &mut bands,
                            true,
                            floor as i64,
                            ceil as i64,
                            front,
                            s,
                            SURFACE_WALL_MID,
                            &front.middle_tex,
                        );
                    }
                },
                None => {},
            }
        },
        Some(b) => {
            match (front.sector, b.sector) {
                (Some(fi), Some(bi)) => {
                    if (fi as usize) < sectors.len() && (bi as usize) < sectors.len() {
                        let (ff32, fc32) = sectors[fi as usize];
                        let (bf32, bc32) = sectors[bi as usize];
                        let ff: i64 = ff32 as i64;
                        let fc: i64 = fc32 as i64;
                        let bf: i64 = bf32 as i64;
                        let bc: i64 = bc32 as i64;
                        let up_bot: i64 = if bc < fc { bc } else { fc };
                        let up_top: i64 = if bc > fc { bc } else { fc };
                        let lo_bot: i64 = if ff < bf { ff } else { bf };
                        let lo_top: i64 = if ff > bf { ff } else { bf };
                        push_solid(&mut bands, true, up_bot, up_top, front, fi, SURFACE_WALL_UPPER, &front.top_tex);
                        push_solid(&mut bands, false, up_bot, up_top, b, bi, SURFACE_WALL_UPPER, &b.top_tex);
                        push_solid(
                            &mut bands,
                            true,
                            lo_bot,
                            lo_top,
                            front,
                            fi,
                            SURFACE_WALL_LOWER,
                            &front.bottom_tex,
                        );
                        push_solid(&mut bands, false, lo_bot, lo_top, b, bi, SURFACE_WALL_LOWER, &b.bottom_tex);
                        let mid_bot: i64 = if ff > bf { ff } else { bf };
                        let mid_top: i64 = if fc < bc { fc } else { bc };
                        if mid_top > mid_bot {
                            let fh: i64 = lookup_height(heights, &front.middle_tex);
                            let bh: i64 = lookup_height(heights, &b.middle_tex);
                            push_masked(&mut bands, true, mid_bot, mid_top, unpeg_bottom, fh, front, fi);
                            push_masked(&mut bands, false, mid_bot, mid_top, unpeg_bottom, bh, b, bi);
                        }
                    }
                },
                _ => {},
            }
        },
    }
    bands
}

proof fn lemma_tex_height_nonneg(heights: Seq<(String, u32)>, tex: Seq<char>, i: int)
    ensures
        0 <= tex_height(heights, tex, i),
    decreases heights.len() - i,
{
    if 0 <= i < heights.len() && heights[i].0@ != tex {
        lemma_tex_height_nonneg(heights, tex, i + 1);
    }
}

/// A band is a real quad with its outline inside it.
pub open spec fn band_ok(b: WallBandView) -> bool {
    b.z_bot < b.z_top && b.z_bot <= b.vis_bot <= b.vis_top <= b.z_top
}

/// Every wall quad of a line has height, and its outline lies within it; a one-sided line has at
/// most one quad, a two-sided line at most six.
pub proof fn lemma_bands_well_formed(
    front: WallSide,
    back: Option<WallSide>,
    sectors: Seq<(i32, i32)>,
    unpeg_bottom: bool,
    heights: Seq<(String, u32)>,
)
    ensures
        forall|i: int|
            0 <= i < line_bands(front, back, sectors, unpeg_bottom, heights).len() ==> band_ok(
                #[trigger] line_bands(front, back, sectors, unpeg_bottom, heights)[i],
            ),
        back is None ==> line_bands(front, back, sectors, unpeg_bottom, heights).len() <= 1,
        line_bands(front, back, sectors, unpeg_bottom, heights).len() <= 6,
{
    lemma_tex_height_nonneg(heights, front.middle_tex@, 0);
    if let Some(b) = back {
        lemma_tex_height_nonneg(heights, b.middle_tex@, 0);
    }
}

/// What each wall quad of a line is. A one-sided line facing an existing sector gets at most its
/// front middle wall, from that sector's floor to its ceiling. For a two-sided line every quad
/// is an upper wall between the two ceilings, a lower wall between the two floors, or a masked
/// middle texture in the opening between the higher floor and the lower ceiling; each shows its
/// own side's texture and faces that side's sector. Solid walls (middle, upper, lower) are
/// pegged at their top and outlined whole. A masked texture is pegged at the opening's top, or
/// with `unpeg_bottom` its bottom edge rests on the opening's floor, `h` units below its top.
pub proof fn lemma_wall_bands_law(
    front: WallSide,
    back: Option<WallSide>,
    sectors: Seq<(i32, i32)>,
    unpeg_bottom: bool,
    heights: Seq<(String, u32)>,
)
    ensures
        ({
            let bands = line_bands(front, back, sectors, unpeg_bottom, heights);
            &&& forall|i: int|
                0 <= i < bands.len() && #[trigger] bands[i].surface != SURFACE_WALL_MASKED ==> {
                    &&& bands[i].peg_top == bands[i].z_top
                    &&& bands[i].vis_bot == bands[i].z_bot
                    &&& bands[i].vis_top == bands[i].z_top
                }
            &&& forall|i: int| 0 <= i < bands.len() ==> bands[i].z_bot < bands[i].z_top
            &&& back is None ==> forall|i: int|
                0 <= i < bands.len() ==> {
                    &&& front.sector matches Some(si) && si < sectors.len()
                    &&& #[trigger] bands[i].front
                    &&& bands[i].surface == SURFACE_WALL_MID
                    &&& bands[i].sector == front.sector->0
                    &&& bands[i].z_bot == sectors[front.sector->0 as int].0
                    &&& bands[i].z_top == sectors[front.sector->0 as int].1
                    &&& bands[i].tex == front.middle_tex@
                    &&& bands[i].x_off == front.x_offset && bands[i].y_off == front.y_offset
                }
            &&& back matches Some(b) ==> forall|i: int|
                0 <= i < bands.len() ==> {
                    let side = if bands[i].front { front } else { b };
                    &&& front.sector matches Some(fi) && fi < sectors.len()
                    &&& b.sector matches Some(bi) && bi < sectors.len()
                    &&& bands[i].sector == side.sector->0
                    &&& bands[i].x_off == side.x_offset && bands[i].y_off == side.y_offset
                    &&& {
                        let (ff, fc) = (sectors[front.sector->0 as int].0 as int, sectors[front.sector->0 as int].1 as int);
                        let (bf, bc) = (sectors[b.sector->0 as int].0 as int, sectors[b.sector->0 as int].1 as int);
                        ||| (#[trigger] bands[i].surface == SURFACE_WALL_UPPER && bands[i].z_bot == min_int(fc, bc)
                            && bands[i].z_top == max_int(fc, bc) && bands[i].tex == side.top_tex@)
                        ||| (bands[i].surface == SURFACE_WALL_LOWER && bands[i].z_bot == min_int(ff, bf)
                            && bands[i].z_top == max_int(ff, bf) && bands[i].tex == side.bottom_tex@)
                        ||| (bands[i].surface == SURFACE_WALL_MASKED && bands[i].z_bot == max_int(ff, bf)
                            && bands[i].z_top == min_int(fc, bc) && bands[i].tex == side.middle_tex@
                            && (!unpeg_bottom ==> bands[i].peg_top == bands[i].z_top
                                && bands[i].vis_top == bands[i].z_top)
                            && (unpeg_bottom ==> bands[i].peg_top == bands[i].z_bot + tex_height(
                                heights,
                                side.middle_tex@,
                                0,
                            ) && bands[i].vis_bot == bands[i].z_bot))
                    }
                }
        }),
{
    lemma_bands_well_formed(front, back, sectors, unpeg_bottom, heights);
    let bands = line_bands(front, back, sectors, unpeg_bottom, heights);
    let solid = |x: WallBandView|
        x.surface != SURFACE_WALL_MASKED ==> (x.peg_top == x.z_top && x.vis_bot == x.z_bot && x.vis_top
            == x.z_top);
    match back {
        None => {
            if let Some(si) = front.sector {
                if si < sectors.len() {
                    let one = |x: WallBandView|
                        x.front && x.surface == SURFACE_WALL_MID && x.sector == si && x.z_bot
                            == sectors[si as int].0 && x.z_top == sectors[si as int].1 && x.tex
                            == front.middle_tex@ && x.x_off == front.x_offset && x.y_off == front.y_offset;
                    assert forall|i: int| 0 <= i < bands.len() implies one(bands[i]) && solid(bands[i]) by {}
                }
            }
        },
        Some(b) => {
            if let (Some(fi), Some(bi)) = (front.sector, b.sector) {
                if fi < sectors.len() && bi < sectors.len() {
                    let ff = sectors[fi as int].0 as int;
                    let fc = sectors[fi as int].1 as int;
                    let bf = sectors[bi as int].0 as int;
                    let bc = sectors[bi as int].1 as int;
                    let ok = |x: WallBandView|
                        {
                            let side = if x.front { front } else { b };
                            &&& x.sector == side.sector->0
                            &&& x.x_off == side.x_offset && x.y_off == side.y_offset
                            &&& {
                                ||| (x.surface == SURFACE_WALL_UPPER && x.z_bot == min_int(fc, bc) && x.z_top
                                    == max_int(fc, bc) && x.tex == side.top_tex@)
                                ||| (x.surface == SURFACE_WALL_LOWER && x.z_bot == min_int(ff, bf) && x.z_top
                                    == max_int(ff, bf) && x.tex == side.bottom_tex@)
                                ||| (x.surface == SURFACE_WALL_MASKED && x.z_bot == max_int(ff, bf) && x.z_top
                                    == min_int(fc, bc) && x.tex == side.middle_tex@ && (!unpeg_bottom
                                    ==> x.peg_top == x.z_top && x.vis_top == x.z_top) && (unpeg_bottom
                                    ==> x.peg_top == x.z_bot + tex_height(heights, side.middle_tex@, 0)
                                    && x.vis_bot == x.z_bot))
                            }
                        };
                    let both = |x: WallBandView| ok(x) && solid(x);
                    let p1 = solid_band(true, min_int(bc, fc), max_int(bc, fc), front, fi, SURFACE_WALL_UPPER, front.top_tex@);
                    let p2 = solid_band(false, min_int(bc, fc), max_int(bc, fc), b, bi, SURFACE_WALL_UPPER, b.top_tex@);
                    let p3 = solid_band(true, min_int(ff, bf), max_int(ff, bf), front, fi, SURFACE_WALL_LOWER, front.bottom_tex@);
                    let p4 = solid_band(false, min_int(ff, bf), max_int(ff, bf), b, bi, SURFACE_WALL_LOWER, b.bottom_tex@);
                    let mid_bot = max_int(ff, bf);
                    let mid_top = min_int(fc, bc);
                    let m1 = masked_band(true, mid_bot, mid_top, unpeg_bottom, tex_height(heights, front.middle_tex@, 0), front, fi, front.middle_tex@);
                    let m2 = masked_band(false, mid_bot, mid_top, unpeg_bottom, tex_height(heights, b.middle_tex@, 0), b, bi, b.middle_tex@);
                    assert(forall|i: int| 0 <= i < p1.len() ==> both(p1[i]));
                    assert(forall|i: int| 0 <= i < p2.len() ==> both(p2[i]));
                    assert(forall|i: int| 0 <= i < p3.len() ==> both(p3[i]));
                    assert(forall|i: int| 0 <= i < p4.len() ==> both(p4[i]));
                    assert(forall|i: int| 0 <= i < m1.len() ==> both(m1[i]));
                    assert(forall|i: int| 0 <= i < m2.len() ==> both(m2[i]));
                    lemma_all_concat(p1, p2, both);
                    lemma_all_concat(p1 + p2, p3, both);
                    lemma_all_concat(p1 + p2 + p3, p4, both);
                    let walls = p1 + p2 + p3 + p4;
                    lemma_all_concat(walls, m1, both);
                    lemma_all_concat(walls + m1, m2, both);
                    assert(bands == if mid_top > mid_bot { walls + m1 + m2 } else { walls });
                    assert forall|i: int| 0 <= i < bands.len() implies ok(bands[i]) && solid(bands[i]) by {
                        assert(both(bands[i]));
                    }
                }
            }
        },
    }
}

proof fn lemma_all_concat(a: Seq<WallBandView>, b: Seq<WallBandView>, p: spec_fn(WallBandView) -> bool)
    requires
        forall|i: int| 0 <= i < a.len() ==> p(a[i]),
        forall|i: int| 0 <= i < b.len() ==> p(b[i]),
    ensures
        forall|i: int| 0 <= i < (a + b).len() ==> p((a + b)[i]),
{
    assert forall|i: int| 0 <= i < (a + b).len() implies p((a + b)[i]) by {
        if i < a.len() {
            assert((a + b)[i] == a[i]);
        } else {
            assert((a + b)[i] == b[i - a.len()]);
        }
    }
}

/// A line's two vertices and the sector its front side faces, as the wireframe reads them.
#[derive(Debug, Clone, Copy, PartialEq, Eq, Structural)]
pub struct LineEnds {
    pub v1: u32,
    pub v2: u32,
    pub front_sector: Option<u32>,
}

/// The floor height of a line's front sector, when it has one.
pub open spec fn front_floor(l: LineEnds, floors: Seq<i32>) -> Option<int> {
    match l.front_sector {
        Some(s) if s < floors.len() => Some(floors[s as int] as int),
        _ => None,
    }
}

/// The lower of two optional heights.
pub open spec fn lower(a: Option<int>, b: Option<int>) -> Option<int> {
    match (a, b) {
        (Some(x), Some(y)) => Some(min_int(x, y)),
        (Some(x), None) => Some(x),
        (None, y) => y,
    }
}

/// The lowest front-sector floor among the first `n` lines that touch vertex `v`.
pub open spec fn lowest_floor(lines: Seq<LineEnds>, floors: Seq<i32>, v: int, n: int) -> Option<int>
    decreases n,
{
    if n <= 0 {
        None
    } else {
        let l = lines[n - 1];
        let here = if l.v1 == v || l.v2 == v { front_floor(l, floors) } else { None };
        lower(lowest_floor(lines, floors, v, n - 1), here)
    }
}

/// Where vertex `v` sits in the wireframe: the lowest front-sector floor among its lines, or 0
/// when none of its lines faces a sector.
pub open spec fn vertex_floor(lines: Seq<LineEnds>, floors: Seq<i32>, v: int) -> int {
    match lowest_floor(lines, floors, v, lines.len() as int) {
        Some(z) => z,
        None => 0,
    }
}

/// Line `i` touches vertex `v` and faces an existing sector, whose floor is `f`.
pub open spec fn touching_floor(lines: Seq<LineEnds>, floors: Seq<i32>, v: int, i: int, f: int) -> bool {
    &&& 0 <= i < lines.len()
    &&& (lines[i].v1 == v || lines[i].v2 == v)
    &&& front_floor(lines[i], floors) == Some(f)
}

proof fn lemma_lowest_floor(lines: Seq<LineEnds>, floors: Seq<i32>, v: int, n: int)
    requires
        0 <= n <= lines.len(),
    ensures
        lowest_floor(lines, floors, v, n) matches Some(z) ==> (exists|i: int|
            0 <= i < n && #[trigger] touching_floor(lines, floors, v, i, z)),
        lowest_floor(lines, floors, v, n) matches Some(z) ==> forall|i: int, f: int|
            0 <= i < n && #[trigger] touching_floor(lines, floors, v, i, f) ==> z <= f,
        lowest_floor(lines, floors, v, n) is None ==> forall|i: int, f: int|
            0 <= i < n ==> !#[trigger] touching_floor(lines, floors, v, i, f),
    decreases n,
{
    if n > 0 {
        lemma_lowest_floor(lines, floors, v, n - 1);
        let l = lines[n - 1];
        if (l.v1 == v || l.v2 == v) && front_floor(l, floors) is Some {
            assert(touching_floor(lines, floors, v, n - 1, front_floor(l, floors)->0));
        }
    }
}

/// Each vertex sits on the lowest floor among the front sectors of the lines that touch it: no
/// such floor is lower, and one of them is exactly that height; a vertex none of whose lines
/// faces a sector sits at 0.
pub proof fn lemma_vertex_floor_law(lines: Seq<LineEnds>, floors: Seq<i32>, v: int)
    ensures
        (exists|i: int, f: int| #[trigger] touching_floor(lines, floors, v, i, f)) ==> {
            &&& exists|i: int| #[trigger] touching_floor(lines, floors, v, i, vertex_floor(lines, floors, v))
            &&& forall|i: int, f: int| #[trigger] touching_floor(lines, floors, v, i, f) ==> vertex_floor(
                lines,
                floors,
                v,
            ) <= f
        },
        !(exists|i: int, f: int| #[trigger] touching_floor(lines, floors, v, i, f)) ==> vertex_floor(
            lines,
            floors,
            v,
        ) == 0,
{
    lemma_lowest_floor(lines, floors, v, lines.len() as int);
    if exists|i: int, f: int| #[trigger] touching_floor(lines, floors, v, i, f) {
        let (i, f) = choose|i: int, f: int| #[trigger] touching_floor(lines, floors, v, i, f);
        assert(0 <= i < lines.len());
        assert(lowest_floor(lines, floors, v, lines.len() as int) is Some);
        let z = lowest_floor(lines, floors, v, lines.len() as int)->0;
        assert(vertex_floor(lines, floors, v) == z);
        let w = choose|w: int| 0 <= w < lines.len() && #[trigger] touching_floor(lines, floors, v, w, z);
        assert(touching_floor(lines, floors, v, w, vertex_floor(lines, floors, v)));
        assert forall|i: int, f: int| #[trigger] touching_floor(lines, floors, v, i, f) implies vertex_floor(
            lines,
            floors,
            v,
        ) <= f by {
            assert(0 <= i < lines.len());
        }
    }
}

fn lower_of(a: Option<i32>, b: i32) -> (r: Option<i32>)
    ensures
        r matches Some(z) && lower(
            match a {
                Some(x) => Some(x as int),
                None => None,
            },
            Some(b as int),
        ) == Some(z as int),
{
    match a {
        Some(x) => if x < b {
            Some(x)
        } else {
            Some(b)
        },
        None => Some(b),
    }
}

/// Per-vertex floor height for the wireframe: each vertex sits on the lowest floor of the front
/// sectors of the lines that touch it, or at 0 when none does. `floors` holds each sector's
/// floor height by index.
pub fn vertex_floor_z(vertex_count: usize, lines: &[LineEnds], floors: &[i32]) -> (z: Vec<i32>)
    requires
        forall|i: int| 0 <= i < lines@.len() ==> #[trigger] lines@[i].v1 < vertex_count && lines@[i].v2
            < vertex_count,
    ensures
        z@.len() == vertex_count,
        forall|v: int| 0 <= v < vertex_count ==> #[trigger] z@[v] as int == vertex_floor(lines@, floors@, v),
{
    let mut low: Vec<Option<i32>> = Vec::new();
    let mut v: usize = 0;
    while v < vertex_count
        invariant
            v <= vertex_count,
            low@.len() == v,
            forall|u: int| 0 <= u < v ==> #[trigger] low@[u] is None,
        decreases vertex_count - v,
    {
        low.push(None);
        v = v + 1;
    }
    let mut i: usize = 0;
    while i < lines.len()
        invariant
            i <= lines@.len(),
            low@.len() == vertex_count,
            forall|k: int| 0 <= k < lines@.len() ==> #[trigger] lines@[k].v1 < vertex_count && lines@[k].v2
                < vertex_count,
            forall|u: int|
                0 <= u < vertex_count ==> (match #[trigger] low@[u] {
                    Some(x) => Some(x as int),
                    None => None,
                }) == lowest_floor(lines@, floors@, u, i as int),
        decreases lines@.len() - i,
    {
        let l: LineEnds = lines[i];
        assert(lines@[i as int].v1 < vertex_count && lines@[i as int].v2 < vertex_count);
        let f: Option<i32> = match l.front_sector {
            Some(s) => if (s as usize) < floors.len() {
                Some(floors[s as usize])
            } else {
                None
            },
            None => None,
        };
        let ghost before = low@;
        match f {
            Some(fl) => {
                let a = lower_of(low[l.v1 as usize], fl);
                low.set(l.v1 as usize, a);
                let b = lower_of(low[l.v2 as usize], fl);
                low.set(l.v2 as usize, b);
            },
            None => {},
        }
        proof {
            assert forall|u: int| 0 <= u < vertex_count implies (match #[trigger] low@[u] {
                Some(x) => Some(x as int),
                None => None,
            }) == lowest_floor(lines@, floors@, u, i as int + 1) by {
                let prev = lowest_floor(lines@, floors@, u, i as int);
                assert(lowest_floor(lines@, floors@, u, i as int + 1) == lower(
                    prev,
                    if l.v1 == u || l.v2 == u { front_floor(l, floors@) } else { None },
                ));
                if u != l.v1 && u != l.v2 {
                    assert(low@[u] == before[u]);
                }
            }
        }
        i = i + 1;
    }
    let mut z: Vec<i32> = Vec::new();
    let mut u: usize = 0;
    while u < vertex_count
        invariant
            u <= vertex_count,
            low@.len() == vertex_count,
            z@.len() == u,
            forall|w: int|
                0 <= w < vertex_count ==> (match #[trigger] low@[w] {
                    Some(x) => Some(x as int),
                    None => None,
                }) == lowest_floor(lines@, floors@, w, lines@.len() as int),
            forall|w: int| 0 <= w < u ==> #[trigger] z@[w] as int == vertex_floor(lines@, floors@, w),
        decreases vertex_count - u,
    {
        let h: i32 = match low[u] {
            Some(x) => x,
            None => 0,
        };
        z.push(h);
        u = u + 1;
    }
    z
}

/// One band of a side's wall-elevation preview, top to bottom.
#[derive(Debug, Clone, PartialEq)]
pub struct PreviewBand {
    /// The texture slot the band shows.
    pub slot: TexSlot,
    /// `None`: an empty texture name, drawn as a see-through gap.
    pub tex: Option<String>,
    pub height: i64,
    /// A two-sided middle texture: drawn once, not tiled vertically.
    pub masked: bool,
}

/// What a preview band says, with its texture name as text.
pub struct PreviewBandView {
    pub slot: TexSlot,
    pub tex: Option<Seq<char>>,
    pub height: int,
    pub masked: bool,
}

impl View for PreviewBand {
    type V = PreviewBandView;

    open spec fn view(&self) -> PreviewBandView {
        PreviewBandView {
            slot: self.slot,
            tex: match self.tex {
                Some(t) => Some(t@),
                None => None,
            },
            height: self.height as int,
            masked: self.masked,
        }
    }
}

/// A texture name, or `None` when it is empty.
pub open spec fn named(t: Seq<char>) -> Option<Seq<char>> {
    if t.len() == 0 {
        None
    } else {
        Some(t)
    }
}

/// A preview band of `height`, or nothing when it has no height.
pub open spec fn band_if(slot: TexSlot, tex: Seq<char>, height: int, masked: bool) -> Seq<PreviewBandView> {
    if height > 0 {
        seq![PreviewBandView { slot, tex: named(tex), height, masked }]
    } else {
        Seq::empty()
    }
}

/// The preview bands of a side facing a sector with `(floor, ceiling)` heights `s`, top to
/// bottom: a one-sided wall is its middle band; with a sector `other` behind it, the upper band
/// down to the other ceiling, the masked middle band of the opening, and the lower band up from
/// the other floor. Bands without height are left out; empty texture names are gaps.
pub open spec fn tagged_bands(s: (i32, i32), other: Option<(i32, i32)>, side: WallSide, is_front: bool) -> Seq<
    PreviewBandView,
> {
    let top = if is_front { TexSlot::FrontTop } else { TexSlot::BackTop };
    let mid = if is_front { TexSlot::FrontMid } else { TexSlot::BackMid };
    let bottom = if is_front { TexSlot::FrontBottom } else { TexSlot::BackBottom };
    match other {
        None => band_if(mid, side.middle_tex@, s.1 - s.0, false),
        Some(o) => band_if(top, side.top_tex@, s.1 - o.1, false) + band_if(
            mid,
            side.middle_tex@,
            min_int(s.1 as int, o.1 as int) - max_int(s.0 as int, o.0 as int),
            true,
        ) + band_if(bottom, side.bottom_tex@, o.0 - s.0, false),
    }
}

/// What each preview band of a side is: a band has height; a middle band of a one-sided wall
/// spans floor to ceiling and is not masked; with a sector behind, the upper band spans down to
/// the other ceiling, the masked middle band spans the opening, the lower band up from the
/// other floor; every band shows its own slot's texture (an empty name is a gap) and is tagged
/// with the front or back slots by `is_front`; bands come top first, at most three.
pub proof fn lemma_preview_bands_law(s: (i32, i32), other: Option<(i32, i32)>, side: WallSide, is_front: bool)
    ensures
        ({
            let bands = tagged_bands(s, other, side, is_front);
            let top = if is_front { TexSlot::FrontTop } else { TexSlot::BackTop };
            let mid = if is_front { TexSlot::FrontMid } else { TexSlot::BackMid };
            let bottom = if is_front { TexSlot::FrontBottom } else { TexSlot::BackBottom };
            &&& bands.len() <= 3
            &&& other is None ==> bands.len() <= 1
            &&& forall|i: int| 0 <= i < bands.len() ==> {
                &&& #[trigger] bands[i].height > 0
                &&& (bands[i].slot == top || bands[i].slot == mid || bands[i].slot == bottom)
                &&& bands[i].slot == top ==> other is Some && bands[i].height == s.1 - other.unwrap().1
                    && bands[i].tex == named(side.top_tex@) && !bands[i].masked
                &&& bands[i].slot == bottom ==> other is Some && bands[i].height == other.unwrap().0 - s.0
                    && bands[i].tex == named(side.bottom_tex@) && !bands[i].masked
                &&& bands[i].slot == mid ==> bands[i].tex == named(side.middle_tex@) && (match other {
                    None => bands[i].height == s.1 - s.0 && !bands[i].masked,
                    Some(o) => bands[i].height == min_int(s.1 as int, o.1 as int) - max_int(
                        s.0 as int,
                        o.0 as int,
                    ) && bands[i].masked,
                })
            }
            &&& forall|i: int, j: int|
                0 <= i < j < bands.len() ==> (#[trigger] bands[i].slot == top && (bands[j].slot == mid
                    || bands[j].slot == bottom)) || (bands[i].slot == mid && #[trigger] bands[j].slot == bottom)
        }),
{
}

/// The views of a list of preview bands.
pub open spec fn preview_views(bands: Seq<PreviewBand>) -> Seq<PreviewBandView> {
    bands.map_values(|b: PreviewBand| b@)
}

fn named_text(t: &String) -> (n: Option<String>)
    ensures
        match n {
            Some(c) => Some(c@) == named(t@),
            None => named(t@) is None,
        },
{
    if t.as_str().is_empty() {
        None
    } else {
        Some(t.clone())
    }
}

fn push_band(bands: &mut Vec<PreviewBand>, slot: TexSlot, tex: &String, height: i64, masked: bool)
    ensures
        preview_views(final(bands)@) == preview_views(old(bands)@) + band_if(slot, tex@, height as int, masked),
{
    let ghost before = old(bands)@;
    if height > 0 {
        let t = named_text(tex);
        bands.push(PreviewBand { slot, tex: t, height, masked });
        assert(preview_views(bands@) =~= preview_views(before) + band_if(slot, tex@, height as int, masked));
    } else {
        assert(preview_views(bands@) =~= preview_views(before) + Seq::<PreviewBandView>::empty());
    }
}

/// The preview bands of one side, tagged with their texture slots and not cropped: see
/// [`tagged_bands`]. `s` and `other` are `(floor, ceiling)` heights.
pub fn side_bands_tagged(s: (i32, i32), other: Option<(i32, i32)>, side: &WallSide, is_front: bool) -> (bands: Vec<
    PreviewBand,
>)
    ensures
        preview_views(bands@) == tagged_bands(s, other, *side, is_front),
{
    let top = if is_front { TexSlot::FrontTop } else { TexSlot::BackTop };
    let mid = if is_front { TexSlot::FrontMid } else { TexSlot::BackMid };
    let bottom = if is_front { TexSlot::FrontBottom } else { TexSlot::BackBottom };
    let mut bands: Vec<PreviewBand> = Vec::new();
    assert(preview_views(bands@) =~= Seq::<PreviewBandView>::empty());
    match other {
        None => {
            push_band(&mut bands, mid, &side.middle_tex, s.1 as i64 - s.0 as i64, false);
            assert(preview_views(bands@) =~= band_if(mid, side.middle_tex@, s.1 - s.0, false));
        },
        Some(o) => {
            push_band(&mut bands, top, &side.top_tex, s.1 as i64 - o.1 as i64, false);
            let lo_ceil: i64 = if s.1 < o.1 { s.1 as i64 } else { o.1 as i64 };
            let hi_floor: i64 = if s.0 > o.0 { s.0 as i64 } else { o.0 as i64 };
            push_band(&mut bands, mid, &side.middle_tex, lo_ceil - hi_floor, true);
            push_band(&mut bands, bottom, &side.bottom_tex, o.0 as i64 - s.0 as i64, false);
            assert(preview_views(bands@) =~= tagged_bands(s, other, *side, is_front));
        },
    }
    bands
}

/// Index of the first band from `i` on that has a texture.
pub open spec fn first_textured(bands: Seq<PreviewBandView>, i: int) -> Option<int>
    decreases bands.len() - i,
{
    if i < 0 || i >= bands.len() {
        None
    } else if bands[i].tex is Some {
        Some(i)
    } else {
        first_textured(bands, i + 1)
    }
}

/// Index of the last band before `n` that has a texture.
pub open spec fn last_textured(bands: Seq<PreviewBandView>, n: int) -> Option<int>
    decreases n,
{
    if n <= 0 || n > bands.len() {
        None
    } else if bands[n - 1].tex is Some {
        Some(n - 1)
    } else {
        last_textured(bands, n - 1)
    }
}

/// The bands cropped to the textured range: from the first textured band to the last, or
/// `None` when no band has a texture.
pub open spec fn cropped(bands: Seq<PreviewBandView>) -> Option<Seq<PreviewBandView>> {
    match (first_textured(bands, 0), last_textured(bands, bands.len() as int)) {
        (Some(a), Some(b)) => Some(bands.subrange(a, b + 1)),
        _ => None,
    }
}

proof fn lemma_first_before_last(bands: Seq<PreviewBandView>, i: int, n: int)
    requires
        0 <= i,
        n == bands.len(),
    ensures
        first_textured(bands, i) is Some ==> {
            &&& i <= first_textured(bands, i)->0 < bands.len()
            &&& bands[first_textured(bands, i)->0].tex is Some
        },
        first_textured(bands, i) is None ==> forall|k: int| i <= k < bands.len() ==> bands[k].tex is None,
    decreases bands.len() - i,
{
    if i < bands.len() && bands[i].tex is None {
        lemma_first_before_last(bands, i + 1, n);
    }
}

proof fn lemma_last_textured(bands: Seq<PreviewBandView>, n: int)
    requires
        0 <= n <= bands.len(),
    ensures
        last_textured(bands, n) is Some ==> {
            &&& 0 <= last_textured(bands, n)->0 < n
            &&& bands[last_textured(bands, n)->0].tex is Some
            &&& forall|k: int| last_textured(bands, n)->0 < k < n ==> bands[k].tex is None
        },
        last_textured(bands, n) is None ==> forall|k: int| 0 <= k < n ==> bands[k].tex is None,
    decreases n,
{
    if n > 0 && bands[n - 1].tex is None {
        lemma_last_textured(bands, n - 1);
    }
}

/// The preview bands of `side`, cropped to the textured range top to bottom (see [`cropped`]);
/// `None` when the side faces no sector, or no band has a texture. `other_side` is the line's
/// opposite side, if any; `sectors` holds each sector's `(floor, ceiling)` by index.
pub fn side_bands(
    sectors: &[(i32, i32)],
    side: &WallSide,
    other_side: Option<&WallSide>,
    is_front: bool,
) -> (bands: Option<Vec<PreviewBand>>)
    ensures
        match side.sector {
            Some(si) if si < sectors@.len() => {
                let other = match other_side {
                    Some(o) => match o.sector {
                        Some(oi) if oi < sectors@.len() => Some(sectors@[oi as int]),
                        _ => None,
                    },
                    None => None,
                };
                match bands {
                    Some(b) => cropped(tagged_bands(sectors@[si as int], other, *side, is_front)) == Some(
                        preview_views(b@),
                    ),
                    None => cropped(tagged_bands(sectors@[si as int], other, *side, is_front)) is None,
                }
            },
            _ => bands is None,
        },
{
    let si: u32 = match side.sector {
        Some(si) => si,
        None => {
            return None;
        },
    };
    if si as usize >= sectors.len() {
        return None;
    }
    let s: (i32, i32) = sectors[si as usize];
    let other: Option<(i32, i32)> = match other_side {
        Some(o) => match o.sector {
            Some(oi) => if (oi as usize) < sectors.len() {
                Some(sectors[oi as usize])
            } else {
                None
            },
            None => None,
        },
        None => None,
    };
    let raw: Vec<PreviewBand> = side_bands_tagged(s, other, side, is_front);
    let ghost views = preview_views(raw@);
    let mut first: usize = 0;
    while first < raw.len() && raw[first].tex.is_none()
        invariant
            first <= raw@.len(),
            views == preview_views(raw@),
            first_textured(views, 0) == first_textured(views, first as int),
        decreases raw@.len() - first,
    {
        first = first + 1;
    }
    proof {
        lemma_first_before_last(views, first as int, views.len() as int);
        lemma_last_textured(views, views.len() as int);
    }
    if first == raw.len() {
        return None;
    }
    let mut last: usize = raw.len();
    while last > 0 && raw[last - 1].tex.is_none()
        invariant
            last <= raw@.len(),
            views == preview_views(raw@),
            last_textured(views, views.len() as int) == last_textured(views, last as int),
        decreases last,
    {
        last = last - 1;
    }
    proof {
        lemma_last_textured(views, last as int);
    }
    let mut kept: Vec<PreviewBand> = Vec::new();
    let mut k: usize = first;
    while k < last
        invariant
            first <= k <= last <= raw@.len(),
            views == preview_views(raw@),
            preview_views(kept@) == views.subrange(first as int, k as int),
        decreases last - k,
    {
        let b: PreviewBand = PreviewBand {
            slot: raw[k].slot,
            tex: match &raw[k].tex {
                Some(t) => Some(t.clone()),
                None => None,
            },
            height: raw[k].height,
            masked: raw[k].masked,
        };
        assert(b@ == views[k as int]);
        let ghost before = kept@;
        kept.push(b);
        assert(preview_views(kept@) =~= preview_views(before).push(b@));
        assert(preview_views(kept@) =~= views.subrange(first as int, k + 1));
        k = k + 1;
    }
    Some(kept)
}

} // verus!

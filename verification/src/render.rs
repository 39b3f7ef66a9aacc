//! Canvas rendering values: colours, camera modes, the sector-colour hash and the span table
//! that places per-sector and per-line runs of vertices in the 3D preview mesh.

use vstd::prelude::*;

use crate::atlas::fnv;

verus! {

/// One canvas colour, RGBA8.
pub type Color = [u8; 4];

/// Strong grid spacing in world units (flat alignment grid).
pub const TILE_GRID: i32 = 64;

/// Canvas drawing colours, all opaque.
#[derive(Debug, Clone, Copy, PartialEq)]
pub struct CanvasStyle {
    pub back: Color,
    pub grid: Color,
    pub tile: Color,
    pub selected: Color,
    pub point: Color,
    pub one_sided: Color,
    pub two_sided: Color,
    pub special: Color,
    pub thing: Color,
    /// Lines with a void-facing side, when the un-enclosed highlight is on.
    pub warning: Color,
}

impl Default for CanvasStyle {
    fn default() -> (style: Self)
        ensures
            style.back@ == seq![0xffu8, 0xff, 0xff, 0xff],
            style.grid@ == seq![0xecu8, 0xec, 0xec, 0xff],
            style.tile@ == seq![0xd0u8, 0xd0, 0xd0, 0xff],
            style.selected@ == seq![0xe0u8, 0x20, 0x20, 0xff],
            style.point@ == seq![0x20u8, 0x20, 0x20, 0xff],
            style.one_sided@ == seq![0x00u8, 0x00, 0x00, 0xff],
            style.two_sided@ == seq![0x90u8, 0x90, 0x90, 0xff],
            style.special@ == seq![0x00u8, 0xa0, 0x00, 0xff],
            style.thing@ == seq![0x80u8, 0x30, 0xa0, 0xff],
            style.warning@ == seq![0xe0u8, 0x80, 0x00, 0xff],
    {
        let style = CanvasStyle {
            back: [0xff, 0xff, 0xff, 0xff],
            grid: [0xec, 0xec, 0xec, 0xff],
            tile: [0xd0, 0xd0, 0xd0, 0xff],
            selected: [0xe0, 0x20, 0x20, 0xff],
            point: [0x20, 0x20, 0x20, 0xff],
            one_sided: [0x00, 0x00, 0x00, 0xff],
            two_sided: [0x90, 0x90, 0x90, 0xff],
            special: [0x00, 0xa0, 0x00, 0xff],
            thing: [0x80, 0x30, 0xa0, 0xff],
            warning: [0xe0, 0x80, 0x00, 0xff],
        };
        assert(style.back@ =~= seq![0xffu8, 0xff, 0xff, 0xff]);
        assert(style.grid@ =~= seq![0xecu8, 0xec, 0xec, 0xff]);
        assert(style.tile@ =~= seq![0xd0u8, 0xd0, 0xd0, 0xff]);
        assert(style.selected@ =~= seq![0xe0u8, 0x20, 0x20, 0xff]);
        assert(style.point@ =~= seq![0x20u8, 0x20, 0x20, 0xff]);
        assert(style.one_sided@ =~= seq![0x00u8, 0x00, 0x00, 0xff]);
        assert(style.two_sided@ =~= seq![0x90u8, 0x90, 0x90, 0xff]);
        assert(style.special@ =~= seq![0x00u8, 0xa0, 0x00, 0xff]);
        assert(style.thing@ =~= seq![0x80u8, 0x30, 0xa0, 0xff]);
        assert(style.warning@ =~= seq![0xe0u8, 0x80, 0x00, 0xff]);
        style
    }
}

/// `c` with its alpha replaced.
pub fn with_alpha(c: Color, alpha: u8) -> (out: Color)
    ensures
        out@ == seq![c@[0], c@[1], c@[2], alpha],
{
    let out: Color = [c[0], c[1], c[2], alpha];
    assert(out@ =~= seq![c@[0], c@[1], c@[2], alpha]);
    out
}

/// Parallel or perspective projection.
#[derive(Debug, Clone, Copy, PartialEq, Eq, Structural)]
pub enum Projection {
    Ortho,
    Perspective,
}

impl Default for Projection {
    fn default() -> (p: Self)
        ensures
            p == Projection::Ortho,
    {
        Projection::Ortho
    }
}

/// View mode derived from the camera orientation and projection.
#[derive(Debug, Clone, Copy, PartialEq, Eq, Structural)]
pub enum CameraMode {
    TopDown,
    Ortho3d,
    Perspective3d,
}

/// What a camera command changed.
#[derive(Debug, Clone, Copy, PartialEq, Eq, Structural)]
pub enum CameraChange {
    /// Nothing moved.
    Unchanged,
    /// The view moved (pan, zoom, orbit, projection flip); geometry is unchanged.
    View,
}

/// FNV-1a seed, shared by the sector-colour hash and the atlas content key.
pub const FNV_OFFSET: u64 = 0xcbf2_9ce4_8422_2325;

/// FNV-1a prime.
pub const FNV_PRIME: u64 = 0x100_0000_01b3;

/// One FNV-1a fold step: xor in `v`, then multiply by the prime modulo 2^64.
pub fn fnv_fold(h: u64, v: u64) -> (r: u64)
    ensures
        r as int == ((h ^ v) as int * FNV_PRIME as int) % 0x1_0000_0000_0000_0000,
{
    (h ^ v).wrapping_mul(FNV_PRIME)
}

/// `h` folded with the first `n` values.
pub open spec fn fold_values(h: u64, vals: Seq<u64>, n: int) -> u64
    decreases n,
{
    if n <= 0 {
        h
    } else {
        fnv(fold_values(h, vals, n - 1), vals[n - 1])
    }
}

/// What a sector's colour hash folds, in order: the floor flat's eight name bytes, the ceiling
/// flat's, then floor height, ceiling height, light level, special and tag, each sign-extended
/// to 64 bits.
pub open spec fn sector_record_values(floor_flat: Seq<u8>, ceil_flat: Seq<u8>, fields: Seq<i32>) -> Seq<
    u64,
> {
    floor_flat.map_values(|b: u8| b as u64) + ceil_flat.map_values(|b: u8| b as u64) + fields.map_values(
        |v: i32| v as u64,
    )
}

/// FNV-1a hash of a whole sector record, the seed of its gradient colour: the same record gives
/// the same colour, whatever the sector's number.
pub fn sector_seed(
    floor_flat: [u8; 8],
    ceil_flat: [u8; 8],
    floor_height: i32,
    ceil_height: i32,
    light_level: i32,
    special: i32,
    tag: i32,
) -> (seed: u64)
    ensures
        seed == fold_values(
            FNV_OFFSET,
            sector_record_values(
                floor_flat@,
                ceil_flat@,
                seq![floor_height, ceil_height, light_level, special, tag],
            ),
            21,
        ),
{
    let ghost vals = sector_record_values(
        floor_flat@,
        ceil_flat@,
        seq![floor_height, ceil_height, light_level, special, tag],
    );
    let mut v: Vec<u64> = Vec::new();
    let mut i: usize = 0;
    while i < 8
        invariant
            i <= 8,
            vals == sector_record_values(
                floor_flat@,
                ceil_flat@,
                seq![floor_height, ceil_height, light_level, special, tag],
            ),
            v@.len() == i,
            forall|k: int| 0 <= k < i ==> v@[k] == vals[k],
        decreases 8 - i,
    {
        v.push(floor_flat[i] as u64);
        i = i + 1;
    }
    i = 0;
    while i < 8
        invariant
            i <= 8,
            vals == sector_record_values(
                floor_flat@,
                ceil_flat@,
                seq![floor_height, ceil_height, light_level, special, tag],
            ),
            v@.len() == 8 + i,
            forall|k: int| 0 <= k < 8 + i ==> v@[k] == vals[k],
        decreases 8 - i,
    {
        v.push(ceil_flat[i] as u64);
        i = i + 1;
    }
    v.push(#[verifier::truncate] (floor_height as u64));
    v.push(#[verifier::truncate] (ceil_height as u64));
    v.push(#[verifier::truncate] (light_level as u64));
    v.push(#[verifier::truncate] (special as u64));
    v.push(#[verifier::truncate] (tag as u64));
    assert(v@ == vals);
    let mut seed: u64 = FNV_OFFSET;
    let mut j: usize = 0;
    while j < v.len()
        invariant
            j <= v@.len(),
            v@ == vals,
            v@.len() == 21,
            seed == fold_values(FNV_OFFSET, vals, j as int),
        decreases v@.len() - j,
    {
        seed = fnv_fold(seed, v[j]);
        j = j + 1;
    }
    seed
}

/// Atlas rect for a wall texture: origin in the wall atlas and intrinsic size (for texel-space
/// tiling).
#[derive(Debug, Clone, Copy, PartialEq, Eq, Structural)]
pub struct WallRect {
    pub x: u32,
    pub y: u32,
    pub w: u32,
    pub h: u32,
}

impl Default for WallRect {
    fn default() -> (r: Self)
        ensures
            r == (WallRect { x: 0, y: 0, w: 0, h: 0 }),
    {
        WallRect { x: 0, y: 0, w: 0, h: 0 }
    }
}

/// RGBA flat, wall and sprite atlases, rebuilt when the map or assets change.
pub struct AtlasData {
    /// RGBA flat atlas: `flat_atlas_w` x `flat_atlas_h`, 4 bytes per texel.
    pub flat_rgba: Vec<u8>,
    pub flat_atlas_w: u32,
    pub flat_atlas_h: u32,
    /// RGBA wall atlas; alpha 0 marks transparent texels (masked mid-textures).
    pub wall_rgba: Vec<u8>,
    pub wall_atlas_w: u32,
    pub wall_atlas_h: u32,
    /// RGBA sprite atlas: `sprite_w` x `sprite_h`.
    pub sprite_rgba: Vec<u8>,
    pub sprite_w: u32,
    pub sprite_h: u32,
    /// Bumped on change; the renderer re-uploads only when this differs.
    pub generation: u64,
}

impl Default for AtlasData {
    fn default() -> (a: Self)
        ensures
            a.flat_rgba@.len() == 0,
            a.wall_rgba@.len() == 0,
            a.sprite_rgba@.len() == 0,
            a.flat_atlas_w == 0 && a.flat_atlas_h == 0,
            a.wall_atlas_w == 0 && a.wall_atlas_h == 0,
            a.sprite_w == 0 && a.sprite_h == 0,
            a.generation == 0,
    {
        AtlasData {
            flat_rgba: Vec::new(),
            flat_atlas_w: 0,
            flat_atlas_h: 0,
            wall_rgba: Vec::new(),
            wall_atlas_w: 0,
            wall_atlas_h: 0,
            sprite_rgba: Vec::new(),
            sprite_w: 0,
            sprite_h: 0,
            generation: 0,
        }
    }
}

/// Source of a thing's icon sprite.
pub enum SpriteSource<'a> {
    /// Full patch lump name (a project thing definition's icon).
    Patch(&'a str),
    /// Four-character sprite prefix; frame `A` is used.
    Prefix(&'a str),
    /// No sprite; the caller draws a colour square.
    NoSprite,
}

/// Kind of resource a map names that the loaded WADs do not provide.
#[derive(Debug, Clone, Copy, PartialEq, Eq, Structural)]
pub enum ResourceKind {
    /// Wall texture or flat.
    Texture,
    /// Patch lump a texture composes from.
    Patch,
}

impl ResourceKind {
    /// Lowercase label for the resources panel.
    pub fn label(self) -> (text: &'static str)
        ensures
            text@ == match self {
                ResourceKind::Texture => "texture"@,
                ResourceKind::Patch => "patch"@,
            },
    {
        match self {
            ResourceKind::Texture => "texture",
            ResourceKind::Patch => "patch",
        }
    }
}

} // verus!

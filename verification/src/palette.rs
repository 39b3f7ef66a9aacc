//! Palette entries read from `PLAYPAL`, light-fade tables read from `COLORMAP`, and the
//! nearest-index quantiser used for picture import.

use vstd::prelude::*;

verus! {

/// Red, green and blue channels of a `0xAARRGGBB` palette entry.
pub open spec fn red(c: u32) -> int {
    ((c >> 16u32) & 0xffu32) as int
}

pub open spec fn green(c: u32) -> int {
    ((c >> 8u32) & 0xffu32) as int
}

pub open spec fn blue(c: u32) -> int {
    (c & 0xffu32) as int
}

/// Opaque RGBA8 from a `0xAARRGGBB` palette entry.
pub fn wad_color_to_rgba(c: u32) -> (rgba: [u8; 4])
    ensures
        rgba@ == seq![red(c) as u8, green(c) as u8, blue(c) as u8, 0xffu8],
{
    let r: u32 = (c >> 16u32) & 0xffu32;
    let g: u32 = (c >> 8u32) & 0xffu32;
    let b: u32 = c & 0xffu32;
    assert(r < 256 && g < 256 && b < 256) by (bit_vector)
        requires r == (c >> 16u32) & 0xffu32, g == (c >> 8u32) & 0xffu32, b == c & 0xffu32;
    let out: [u8; 4] = [r as u8, g as u8, b as u8, 0xffu8];
    assert(out@ =~= seq![red(c) as u8, green(c) as u8, blue(c) as u8, 0xffu8]);
    out
}


/// Squared RGB distance between two palette-style colours.
pub open spec fn colour_dist(a: u32, b: u32) -> int {
    (red(a) - red(b)) * (red(a) - red(b)) + (green(a) - green(b)) * (green(a) - green(b))
        + (blue(a) - blue(b)) * (blue(a) - blue(b))
}

/// How many leading palette entries the quantiser considers.
pub open spec fn searched_len(palette: Seq<u32>) -> int {
    if palette.len() < 256 { palette.len() as int } else { 256 }
}

/// `best` is the first entry among the searched ones closest to `colour`.
pub open spec fn is_first_nearest(colour: u32, palette: Seq<u32>, best: int) -> bool {
    &&& 0 <= best < searched_len(palette)
    &&& forall|j: int| 0 <= j < searched_len(palette)
        ==> colour_dist(colour, palette[best]) <= colour_dist(colour, #[trigger] palette[j])
    &&& forall|j: int| 0 <= j < best
        ==> colour_dist(colour, palette[best]) < colour_dist(colour, #[trigger] palette[j])
}

proof fn lemma_channels(c: u32)
    ensures
        0 <= red(c) < 256,
        0 <= green(c) < 256,
        0 <= blue(c) < 256,
{
    assert((c >> 16u32) & 0xffu32 < 256) by (bit_vector);
    assert((c >> 8u32) & 0xffu32 < 256) by (bit_vector);
    assert(c & 0xffu32 < 256) by (bit_vector);
}

proof fn lemma_dist_bound(a: u32, b: u32)
    ensures
        0 <= colour_dist(a, b) <= 3 * 255 * 255,
{
    lemma_channels(a);
    lemma_channels(b);
    let dr = red(a) - red(b);
    let dg = green(a) - green(b);
    let db = blue(a) - blue(b);
    assert(0 <= dr * dr <= 255 * 255) by (nonlinear_arith)
        requires -255 <= dr <= 255;
    assert(0 <= dg * dg <= 255 * 255) by (nonlinear_arith)
        requires -255 <= dg <= 255;
    assert(0 <= db * db <= 255 * 255) by (nonlinear_arith)
        requires -255 <= db <= 255;
}

/// Nearest palette index for `0xFFRRGGBB` via RGB squared distance; 0 for transparent.
/// Only the first 256 entries are searched; ties go to the lower index.
pub fn nearest_palette_index(colour: u32, palette: &[u32]) -> (index: u8)
    ensures
        colour == 0 ==> index == 0,
        colour != 0 && searched_len(palette@) == 0 ==> index == 0,
        colour != 0 && searched_len(palette@) > 0 ==> is_first_nearest(colour, palette@, index as int),
{
    if colour == 0 {
        return 0;
    }
    proof {
        lemma_channels(colour);
    }
    let cr: u32 = (colour >> 16u32) & 0xffu32;
    let cg: u32 = (colour >> 8u32) & 0xffu32;
    let cb: u32 = colour & 0xffu32;
    let r: i32 = cr as i32;
    let g: i32 = cg as i32;
    let b: i32 = cb as i32;
    let n: usize = if palette.len() < 256 { palette.len() } else { 256 };
    let mut best_dist: i32 = i32::MAX;
    let mut best: u8 = 0;
    let mut i: usize = 0;
    while i < n
        invariant
            n == searched_len(palette@),
            n <= palette@.len(),
            i <= n,
            r == red(colour),
            g == green(colour),
            b == blue(colour),
            0 <= r < 256,
            0 <= g < 256,
            0 <= b < 256,
            i == 0 ==> best == 0 && best_dist == i32::MAX,
            i > 0 ==> (best as int) < i && best_dist == colour_dist(colour, palette@[best as int]),
            forall|j: int| 0 <= j < i ==> best_dist <= colour_dist(colour, #[trigger] palette@[j]),
            forall|j: int| 0 <= j < best ==> best_dist < colour_dist(colour, #[trigger] palette@[j]),
        decreases n - i,
    {
        let p: u32 = palette[i];
        proof {
            lemma_channels(p);
            lemma_dist_bound(colour, p);
        }
        let pr: u32 = (p >> 16u32) & 0xffu32;
        let pg: u32 = (p >> 8u32) & 0xffu32;
        let pb: u32 = p & 0xffu32;
        let dr: i32 = r - pr as i32;
        let dg: i32 = g - pg as i32;
        let db: i32 = b - pb as i32;
        assert(dr * dr <= 255 * 255 && dg * dg <= 255 * 255 && db * db <= 255 * 255) by (nonlinear_arith)
            requires -255 <= dr <= 255, -255 <= dg <= 255, -255 <= db <= 255;
        let dist: i32 = dr * dr + dg * dg + db * db;
        if dist < best_dist {
            best_dist = dist;
            best = i as u8;
        }
        i = i + 1;
    }
    best
}

/// A colour that is exactly in the searched palette quantises to an entry at distance zero,
/// and to the first such entry.
pub proof fn lemma_exact_colour_found(colour: u32, palette: Seq<u32>, i: int, best: int)
    requires
        0 <= i < searched_len(palette),
        palette[i] == colour,
        is_first_nearest(colour, palette, best),
    ensures
        colour_dist(colour, palette[best]) == 0,
        best <= i,
{
    lemma_dist_bound(colour, palette[best]);
    let p = palette[i];
    assert(red(colour) - red(p) == 0 && green(colour) - green(p) == 0 && blue(colour) - blue(p) == 0);
    assert(colour_dist(colour, p) == 0) by (nonlinear_arith)
        requires red(colour) - red(p) == 0, green(colour) - green(p) == 0, blue(colour) - blue(p) == 0;
}

/// Entries in a 256-colour lump table.
pub const COLORMAP_ENTRIES: usize = 256;

/// Light-fade tables exposed from `COLORMAP` (a WAD may carry more after them).
pub const COLORMAP_LEVELS: usize = 32;

/// Palette entry `i` of a `PLAYPAL` lump: opaque `0xFFRRGGBB` from the `i`-th RGB triple, or
/// `fill` where the lump holds no complete triple for it.
pub open spec fn playpal_entry(data: Seq<u8>, fill: u32, i: int) -> u32 {
    if 3 * i + 3 <= data.len() {
        (0xff00_0000 + data[3 * i] * 0x1_0000 + data[3 * i + 1] * 0x100 + data[3 * i + 2]) as u32
    } else {
        fill
    }
}

/// Palette 0 of a `PLAYPAL` lump: the first 256 RGB triples, gamma-free; entries the lump does
/// not cover keep `fill`.
pub fn playpal_colours(data: &[u8], fill: u32) -> (pal: [u32; 256])
    ensures
        forall|i: int| 0 <= i < 256 ==> pal@[i] == playpal_entry(data@, fill, i),
{
    let mut pal: [u32; 256] = [fill; 256];
    let mut i: usize = 0;
    while i < 256
        invariant
            i <= 256,
            pal@.len() == 256,
            forall|k: int| 0 <= k < i ==> pal@[k] == playpal_entry(data@, fill, k),
            forall|k: int| i <= k < 256 ==> pal@[k] == fill,
        decreases 256 - i,
    {
        if data.len() >= 3 && i <= (data.len() - 3) / 3 {
            let r: u32 = data[3 * i] as u32;
            let g: u32 = data[3 * i + 1] as u32;
            let b: u32 = data[3 * i + 2] as u32;
            pal[i] = 0xff00_0000u32 + r * 0x1_0000 + g * 0x100 + b;
        } else {
            assert(!(3 * i + 3 <= data@.len()));
        }
        i = i + 1;
    }
    pal
}

/// The light-fade tables of a `COLORMAP` lump: up to [`COLORMAP_LEVELS`] whole 256-byte tables,
/// in order; a trailing partial table is dropped.
pub fn colormaps_from_lump(data: &[u8]) -> (maps: Vec<[u8; 256]>)
    ensures
        maps@.len() == (if data@.len() / 256 < 32 { data@.len() / 256 } else { 32 }),
        forall|l: int, k: int|
            0 <= l < maps@.len() && 0 <= k < 256 ==> #[trigger] maps@[l]@[k] == data@[l * 256 + k],
{
    let mut maps: Vec<[u8; 256]> = Vec::new();
    let mut level: usize = 0;
    while level < COLORMAP_LEVELS
        invariant
            level <= 32,
            maps@.len() == level,
            level * 256 <= data@.len(),
            forall|l: int, k: int|
                0 <= l < level && 0 <= k < 256 ==> #[trigger] maps@[l]@[k] == data@[l * 256 + k],
        decreases 32 - level,
    {
        if data.len() - level * COLORMAP_ENTRIES < COLORMAP_ENTRIES {
            assert(data@.len() / 256 == level) by (nonlinear_arith)
                requires
                    level * 256 <= data@.len(),
                    data@.len() - level * 256 < 256,
            ;
            return maps;
        }
        let start: usize = level * COLORMAP_ENTRIES;
        let mut map: [u8; 256] = [0u8; 256];
        let mut k: usize = 0;
        while k < 256
            invariant
                k <= 256,
                map@.len() == 256,
                start == level * 256,
                start + 256 <= data@.len(),
                forall|j: int| 0 <= j < k ==> map@[j] == data@[start + j],
            decreases 256 - k,
        {
            map[k] = data[start + k];
            k = k + 1;
        }
        let ghost before = maps@;
        maps.push(map);
        assert forall|l: int, k: int| 0 <= l < level + 1 && 0 <= k < 256 implies #[trigger] maps@[l]@[k]
            == data@[l * 256 + k] by {
            if l < level {
                assert(maps@[l] == before[l]);
            } else {
                assert(l * 256 + k == start + k);
            }
        }
        level = level + 1;
    }
    assert(data@.len() / 256 >= 32) by (nonlinear_arith)
        requires
            32 * 256 <= data@.len(),
    ;
    maps
}

} // verus!

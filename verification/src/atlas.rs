//! Atlas packing for the canvas: wall textures shelf-packed into one RGBA atlas, flats in a
//! strip of 64x64 tiles, thing icons side by side.

use vstd::prelude::*;
use vstd::string::StrSliceExecFns;

use crate::palette::{blue, green, red, wad_color_to_rgba};
use crate::picture::{FlatPic, WallPic, MISSING_PATCH_INDEX, MISSING_PATCH_RGBA, TRANSPARENT_INDEX};
use crate::remap::{lex_lt, string_texts, text_bytes};
use crate::render::{fnv_fold, AtlasData, WallRect, FNV_OFFSET, FNV_PRIME};
use crate::sprites::{SpriteRgba, ThingSpriteCache};

verus! {

/// Wall atlas width in texels; wider textures are skipped.
pub const WALL_ATLAS_MAX: u32 = 4096;

/// Padding (texels) between packed wall textures.
pub const WALL_PAD: u32 = 1;

/// Shelf cursor: x of the next texture, y of the current shelf, height of the current shelf.
pub type Shelf = (int, int, int);

/// The next texture of width `w` does not fit on the current, non-empty shelf.
pub open spec fn wraps(st: Shelf, w: int) -> bool {
    st.0 + w + WALL_PAD > WALL_ATLAS_MAX && st.0 > 0
}

/// Where a texture of width `w` goes: on a new shelf when it wraps, else at the cursor.
pub open spec fn place(st: Shelf, w: int) -> (int, int) {
    if wraps(st, w) {
        (0, st.1 + st.2 + WALL_PAD)
    } else {
        (st.0, st.1)
    }
}

/// Shelf state after laying out the first `n` entries; `None` entries are skipped.
pub open spec fn shelf_after(dims: Seq<Option<(int, int)>>, n: int) -> Shelf
    decreases n,
{
    if n <= 0 {
        (0, 0, 0)
    } else {
        let st = shelf_after(dims, n - 1);
        match dims[n - 1] {
            None => st,
            Some(d) => {
                let p = place(st, d.0);
                let sh = if wraps(st, d.0) {
                    d.1
                } else if st.2 < d.1 {
                    d.1
                } else {
                    st.2
                };
                (p.0 + d.0 + WALL_PAD, p.1, sh)
            },
        }
    }
}

/// Origin of entry `i` in the atlas.
pub open spec fn layout_origin(dims: Seq<Option<(int, int)>>, i: int) -> (int, int) {
    place(shelf_after(dims, i), dims[i].unwrap().0)
}

/// Height of the atlas: the bottom of the last shelf.
pub open spec fn layout_height(dims: Seq<Option<(int, int)>>) -> int {
    let st = shelf_after(dims, dims.len() as int);
    st.1 + st.2
}

/// Every present entry is between 1 and [`WALL_ATLAS_MAX`] texels each way.
pub open spec fn dims_ok(dims: Seq<Option<(int, int)>>) -> bool {
    forall|i: int|
        0 <= i < dims.len() && #[trigger] dims[i] is Some ==> 1 <= dims[i].unwrap().0
            <= WALL_ATLAS_MAX && 1 <= dims[i].unwrap().1 <= WALL_ATLAS_MAX
}

/// Two rectangles `(x, y, w, h)` share no texel.
pub open spec fn disjoint(a: (int, int), da: (int, int), b: (int, int), db: (int, int)) -> bool {
    a.0 + da.0 <= b.0 || b.0 + db.0 <= a.0 || a.1 + da.1 <= b.1 || b.1 + db.1 <= a.1
}

/// Entry `i`, when present, lies inside the atlas width and above the bottom of the shelf
/// `st`, and either on an earlier shelf (with the padding row below it) or on shelf `st` left of
/// its cursor.
pub open spec fn entry_ok(dims: Seq<Option<(int, int)>>, i: int, st: Shelf) -> bool {
    dims[i] is Some ==> {
        let o = layout_origin(dims, i);
        let d = dims[i].unwrap();
        &&& 0 <= o.0 && o.0 + d.0 <= WALL_ATLAS_MAX
        &&& 0 <= o.1 && o.1 + d.1 <= st.1 + st.2
        &&& (o.1 + d.1 < st.1 || (o.1 == st.1 && o.0 + d.0 + WALL_PAD <= st.0 && d.1 <= st.2))
    }
}

/// What stays true of the entries placed so far, relative to the shelf cursor.
pub open spec fn placed_ok(dims: Seq<Option<(int, int)>>, n: int) -> bool {
    let st = shelf_after(dims, n);
    &&& 0 <= st.0 <= WALL_ATLAS_MAX + WALL_PAD
    &&& 0 <= st.1
    &&& 0 <= st.2
    &&& forall|i: int| 0 <= i < n ==> #[trigger] entry_ok(dims, i, st)
}

proof fn lemma_entry_kept(dims: Seq<Option<(int, int)>>, i: int, st: Shelf, nst: Shelf)
    requires
        entry_ok(dims, i, st),
        0 <= st.2,
        st.1 + st.2 <= nst.1 + nst.2,
        (nst.1 > st.1 + st.2) || (nst.1 == st.1 && nst.0 >= st.0 && nst.2 >= st.2),
    ensures
        entry_ok(dims, i, nst),
{
}

proof fn lemma_placed_step(dims: Seq<Option<(int, int)>>, n: int)
    requires
        dims_ok(dims),
        0 < n <= dims.len(),
        placed_ok(dims, n - 1),
    ensures
        placed_ok(dims, n),
{
    let st = shelf_after(dims, n - 1);
    let nst = shelf_after(dims, n);
    if dims[n - 1] is Some {
        let d = dims[n - 1].unwrap();
        assert(1 <= d.0 <= WALL_ATLAS_MAX && 1 <= d.1 <= WALL_ATLAS_MAX);
        assert forall|i: int| 0 <= i < n implies #[trigger] entry_ok(dims, i, nst) by {
            if i < n - 1 {
                assert(entry_ok(dims, i, st));
                lemma_entry_kept(dims, i, st, nst);
            }
        }
    } else {
        assert forall|i: int| 0 <= i < n implies #[trigger] entry_ok(dims, i, nst) by {
            if i < n - 1 {
                assert(entry_ok(dims, i, st));
            }
        }
    }
}

proof fn lemma_placed_ok(dims: Seq<Option<(int, int)>>, n: int)
    requires
        dims_ok(dims),
        0 <= n <= dims.len(),
    ensures
        placed_ok(dims, n),
    decreases n,
{
    if n > 0 {
        lemma_placed_ok(dims, n - 1);
        lemma_placed_step(dims, n);
    }
}

proof fn lemma_placed_disjoint(dims: Seq<Option<(int, int)>>, i: int, j: int)
    requires
        dims_ok(dims),
        0 <= i < j < dims.len(),
        dims[i] is Some,
        dims[j] is Some,
    ensures
        disjoint(layout_origin(dims, i), dims[i].unwrap(), layout_origin(dims, j), dims[j].unwrap()),
{
    lemma_placed_ok(dims, j);
    let st = shelf_after(dims, j);
    assert(entry_ok(dims, i, st));
}

/// The shelf layout keeps every texture inside the atlas and no two textures overlap.
pub proof fn lemma_layout_sound(dims: Seq<Option<(int, int)>>)
    requires
        dims_ok(dims),
    ensures
        forall|i: int|
            0 <= i < dims.len() && #[trigger] dims[i] is Some ==> {
                let o = layout_origin(dims, i);
                &&& 0 <= o.0 && o.0 + dims[i].unwrap().0 <= WALL_ATLAS_MAX
                &&& 0 <= o.1 && o.1 + dims[i].unwrap().1 <= layout_height(dims)
            },
        forall|i: int, j: int|
            0 <= i < j < dims.len() && #[trigger] dims[i] is Some && #[trigger] dims[j] is Some
                ==> disjoint(layout_origin(dims, i), dims[i].unwrap(), layout_origin(dims, j), dims[j].unwrap()),
{
    let n = dims.len() as int;
    lemma_placed_ok(dims, n);
    assert forall|i: int| 0 <= i < n && #[trigger] dims[i] is Some implies {
        let o = layout_origin(dims, i);
        &&& 0 <= o.0 && o.0 + dims[i].unwrap().0 <= WALL_ATLAS_MAX
        &&& 0 <= o.1 && o.1 + dims[i].unwrap().1 <= layout_height(dims)
    } by {
        assert(entry_ok(dims, i, shelf_after(dims, n)));
    }
    assert forall|i: int, j: int|
        0 <= i < j < n && #[trigger] dims[i] is Some && #[trigger] dims[j] is Some implies disjoint(
        layout_origin(dims, i),
        dims[i].unwrap(),
        layout_origin(dims, j),
        dims[j].unwrap(),
    ) by {
        lemma_placed_disjoint(dims, i, j);
    }
}

// ---------------------------------------------------------------------------------------------
// RGBA images: texel (`col`, `row`) of an image `aw` texels wide is bytes `(row*aw + col)*4 ..+4`.

/// Byte `c` of texel (`col`, `row`) in an RGBA image `aw` texels wide.
pub open spec fn px_byte(aw: int, col: int, row: int, c: int) -> int {
    (row * aw + col) * 4 + c
}

/// Byte `k` of an RGBA image `aw` texels wide lies in the `w` x `h` rectangle at (`x`, `y`).
pub open spec fn in_rect(k: int, aw: int, x: int, y: int, w: int, h: int) -> bool {
    let p = k / 4;
    let col = p % aw;
    let row = p / aw;
    x <= col < x + w && y <= row < y + h
}

pub proof fn lemma_px_byte(aw: int, col: int, row: int, c: int)
    requires
        aw > 0,
        0 <= col < aw,
        0 <= row,
        0 <= c < 4,
    ensures
        px_byte(aw, col, row, c) >= 0,
        px_byte(aw, col, row, c) / 4 == row * aw + col,
        px_byte(aw, col, row, c) % 4 == c,
        (px_byte(aw, col, row, c) / 4) / aw == row,
        (px_byte(aw, col, row, c) / 4) % aw == col,
{
    assert(row * aw >= 0) by (nonlinear_arith)
        requires row >= 0, aw > 0;
    vstd::arithmetic::div_mod::lemma_fundamental_div_mod_converse(
        px_byte(aw, col, row, c),
        4,
        row * aw + col,
        c,
    );
    vstd::arithmetic::div_mod::lemma_fundamental_div_mod_converse(row * aw + col, aw, row, col);
}

/// A byte of the image's texel (`col`, `row`) is in the rectangle exactly when the texel is.
proof fn lemma_px_in_rect(aw: int, col: int, row: int, c: int, x: int, y: int, w: int, h: int)
    requires
        aw > 0,
        0 <= col < aw,
        0 <= row,
        0 <= c < 4,
    ensures
        in_rect(px_byte(aw, col, row, c), aw, x, y, w, h) <==> (x <= col < x + w && y <= row < y
            + h),
{
    lemma_px_byte(aw, col, row, c);
}

/// Copy a `w` x `h` RGBA tile into `atlas` (an image `aw` texels wide) at (`x`, `y`).
fn copy_rect(atlas: &mut Vec<u8>, aw: usize, x: usize, y: usize, tile: &[u8], w: usize, h: usize)
    requires
        aw >= 1,
        x + w <= aw,
        (y + h) * aw * 4 <= old(atlas)@.len(),
        tile@.len() == w * h * 4,
    ensures
        final(atlas)@.len() == old(atlas)@.len(),
        forall|r: int, cc: int, c: int|
            y <= r < y + h && x <= cc < x + w && 0 <= c < 4 ==> final(atlas)@[#[trigger] px_byte(
                aw as int,
                cc,
                r,
                c,
            )] == tile@[px_byte(w as int, cc - x, r - y, c)],
        forall|k: int|
            0 <= k < old(atlas)@.len() && !in_rect(k, aw as int, x as int, y as int, w as int, h as int)
                ==> #[trigger] final(atlas)@[k] == old(atlas)@[k],
{
    let ghost start = atlas@;
    let ghost a = aw as int;
    let atlas_len: usize = atlas.len();
    let tile_len: usize = tile.len();
    let mut ty: usize = 0;
    while ty < h
        invariant
            a == aw,
            atlas_len == start.len(),
            tile_len == tile@.len(),
            aw >= 1,
            x + w <= aw,
            (y + h) * aw * 4 <= start.len(),
            tile@.len() == w * h * 4,
            ty <= h,
            atlas@.len() == start.len(),
            forall|r: int, cc: int, c: int|
                y <= r < y + ty && x <= cc < x + w && 0 <= c < 4 ==> atlas@[#[trigger] px_byte(
                    a,
                    cc,
                    r,
                    c,
                )] == tile@[px_byte(w as int, cc - x, r - y, c)],
            forall|k: int|
                0 <= k < start.len() && !in_rect(k, a, x as int, y as int, w as int, h as int)
                    ==> #[trigger] atlas@[k] == start[k],
        decreases h - ty,
    {
        proof {
            assert((y + ty + 1) * a * 4 <= (y + h) * a * 4) by (nonlinear_arith)
                requires ty < h, a >= 1;
            assert((y + ty + 1) * a * 4 == (y + ty) * a * 4 + a * 4) by (nonlinear_arith);
            assert(ty * w * 4 + w * 4 <= w * h * 4) by (nonlinear_arith)
                requires ty < h;
            assert((y + ty) * a >= 0) by (nonlinear_arith)
                requires a >= 1;
            assert(((y + ty) * a + x) * 4 + w * 4 <= (y + ty + 1) * a * 4);
            assert(ty * w * 4 >= 0) by (nonlinear_arith);
            assert(y + h <= (y + h) * a * 4) by (nonlinear_arith)
                requires a >= 1, y + h >= 0;
        }
        let dst_row: usize = ((y + ty) * aw + x) * 4;
        let src_row: usize = ty * w * 4;
        let row_bytes: usize = w * 4;
        let ghost before_row = atlas@;
        let mut b: usize = 0;
        while b < row_bytes
            invariant
                a == aw,
                atlas_len == start.len(),
                tile_len == tile@.len(),
                aw >= 1,
                x + w <= aw,
                ty < h,
                row_bytes == w * 4,
                dst_row == ((y + ty) * a + x) * 4,
                src_row == ty * w * 4,
                dst_row + row_bytes <= start.len(),
                src_row + row_bytes <= tile@.len(),
                b <= row_bytes,
                atlas@.len() == start.len(),
                forall|r: int, cc: int, c: int|
                    y <= r < y + ty && x <= cc < x + w && 0 <= c < 4 ==> atlas@[#[trigger] px_byte(
                        a,
                        cc,
                        r,
                        c,
                    )] == tile@[px_byte(w as int, cc - x, r - y, c)],
                forall|bb: int| 0 <= bb < b ==> #[trigger] atlas@[dst_row + bb] == tile@[src_row + bb],
                forall|k: int|
                    0 <= k < start.len() && !in_rect(k, a, x as int, y as int, w as int, h as int)
                        ==> #[trigger] atlas@[k] == start[k],
            decreases row_bytes - b,
        {
            let ghost k = dst_row + b;
            proof {
                let col = x + b / 4;
                let c = (b % 4) as int;
                assert(b == (b / 4) * 4 + b % 4);
                assert(k == px_byte(a, col, y + ty, c));
                lemma_px_in_rect(a, col, (y + ty) as int, c, x as int, y as int, w as int, h as int);
                assert forall|r: int, cc: int, c2: int|
                    y <= r < y + ty && x <= cc < x + w && 0 <= c2 < 4 implies px_byte(a, cc, r, c2)
                    < k by {
                    assert(px_byte(a, cc, r, c2) < (r + 1) * a * 4) by (nonlinear_arith)
                        requires cc < a, c2 < 4, px_byte(a, cc, r, c2) == (r * a + cc) * 4 + c2;
                    assert((r + 1) * a * 4 <= (y + ty) * a * 4) by (nonlinear_arith)
                        requires r + 1 <= y + ty, a >= 1;
                }
            }
            atlas.set(dst_row + b, tile[src_row + b]);
            b = b + 1;
        }
        proof {
            assert forall|r: int, cc: int, c: int|
                y <= r < y + ty + 1 && x <= cc < x + w && 0 <= c < 4 implies atlas@[#[trigger] px_byte(
                a,
                cc,
                r,
                c,
            )] == tile@[px_byte(w as int, cc - x, r - y, c)] by {
                if r == y + ty {
                    let bb = (cc - x) * 4 + c;
                    assert(px_byte(a, cc, r, c) == dst_row + bb);
                    assert(px_byte(w as int, cc - x, r - y, c) == src_row + bb) by (nonlinear_arith)
                        requires r - y == ty, src_row == ty * w * 4, bb == (cc - x) * 4 + c;
                }
            }
        }
        ty = ty + 1;
    }
}

/// Set the four bytes of texel (`col`, `row`).
pub(crate) fn set_px(img: &mut Vec<u8>, aw: usize, col: usize, row: usize, px: [u8; 4])
    requires
        aw >= 1,
        col < aw,
        (row * aw + col) * 4 + 4 <= old(img)@.len(),
    ensures
        final(img)@.len() == old(img)@.len(),
        forall|c: int| 0 <= c < 4 ==> final(img)@[#[trigger] px_byte(aw as int, col as int, row as int, c)] == px@[c],
        forall|k: int|
            0 <= k < old(img)@.len() && k / 4 != row * aw + col ==> #[trigger] final(img)@[k] == old(img)@[k],
{
    let len: usize = img.len();
    proof {
        assert(row * aw >= 0) by (nonlinear_arith);
    }
    let at: usize = (row * aw + col) * 4;
    proof {
        let p = row * aw + col;
        vstd::arithmetic::div_mod::lemma_fundamental_div_mod_converse(at + 0, 4, p, 0);
        vstd::arithmetic::div_mod::lemma_fundamental_div_mod_converse(at + 1, 4, p, 1);
        vstd::arithmetic::div_mod::lemma_fundamental_div_mod_converse(at + 2, 4, p, 2);
        vstd::arithmetic::div_mod::lemma_fundamental_div_mod_converse(at + 3, 4, p, 3);
    }
    img.set(at, px[0]);
    img.set(at + 1, px[1]);
    img.set(at + 2, px[2]);
    img.set(at + 3, px[3]);
}

/// RGBA8 of a `0xAARRGGBB` palette entry, made opaque.
pub open spec fn rgba_of(c: u32) -> Seq<u8> {
    seq![red(c) as u8, green(c) as u8, blue(c) as u8, 0xffu8]
}

/// Colour of a wall texel in the atlas: magenta for a missing patch, clear for a transparent
/// texel, else its opaque palette colour.
pub open spec fn wall_texel_rgba(idx: u16, palette: Seq<u32>) -> Seq<u8> {
    if idx == MISSING_PATCH_INDEX {
        MISSING_PATCH_RGBA@
    } else if idx == TRANSPARENT_INDEX {
        seq![0u8, 0u8, 0u8, 0u8]
    } else {
        rgba_of(palette[idx as int])
    }
}

/// A wall picture whose texels all fit its size and name a palette entry (or are one of the
/// two markers).
pub open spec fn wall_pic_ok(p: WallPic) -> bool {
    &&& p.data@.len() == p.width * p.height
    &&& forall|k: int|
        0 <= k < p.data@.len() ==> #[trigger] p.data@[k] == TRANSPARENT_INDEX || p.data@[k]
            == MISSING_PATCH_INDEX || p.data@[k] < 256
}

/// A wall texture as a row-major RGBA tile.
fn bake_wall_tile(pic: &WallPic, palette: &[u32; 256]) -> (tile: Vec<u8>)
    requires
        wall_pic_ok(*pic),
        1 <= pic.width <= WALL_ATLAS_MAX,
        1 <= pic.height <= WALL_ATLAS_MAX,
    ensures
        tile@.len() == pic.width * pic.height * 4,
        forall|tx: int, ty: int, c: int|
            0 <= tx < pic.width && 0 <= ty < pic.height && 0 <= c < 4 ==> tile@[#[trigger] px_byte(
                pic.width as int,
                tx,
                ty,
                c,
            )] == wall_texel_rgba(pic.data@[tx * pic.height + ty], palette@)[c],
{
    let w: usize = pic.width;
    let h: usize = pic.height;
    let ghost wi = w as int;
    let ghost hi = h as int;
    proof {
        assert(wi * hi <= 4096 * 4096) by (nonlinear_arith)
            requires 1 <= wi <= 4096, 1 <= hi <= 4096;
    }
    let mut tile: Vec<u8> = vec![0u8; w * h * 4];
    proof {
        assert forall|tx: int, ty2: int, c: int|
            0 <= tx < wi && 0 <= ty2 < hi && 0 <= c < 4 implies tile@[#[trigger] px_byte(wi, tx, ty2, c)]
            == 0 by {
            assert(0 <= px_byte(wi, tx, ty2, c) < wi * hi * 4) by (nonlinear_arith)
                requires 0 <= tx < wi, 0 <= ty2 < hi, 0 <= c < 4, px_byte(wi, tx, ty2, c) == (ty2 * wi + tx) * 4 + c;
        }
    }
    let mut ty: usize = 0;
    while ty < h
        invariant
            w == pic.width,
            h == pic.height,
            wi == w,
            hi == h,
            wall_pic_ok(*pic),
            1 <= w <= 4096,
            1 <= h <= 4096,
            wi * hi <= 16777216,
            ty <= h,
            tile@.len() == wi * hi * 4,
            forall|tx: int, ty2: int, c: int|
                0 <= tx < wi && 0 <= ty2 < ty && 0 <= c < 4 ==> tile@[#[trigger] px_byte(wi, tx, ty2, c)]
                    == wall_texel_rgba(pic.data@[tx * hi + ty2], palette@)[c],
            forall|tx: int, ty2: int, c: int|
                0 <= tx < wi && ty <= ty2 < hi && 0 <= c < 4 ==> tile@[#[trigger] px_byte(wi, tx, ty2, c)]
                    == 0,
        decreases h - ty,
    {
        let mut tx: usize = 0;
        while tx < w
            invariant
                w == pic.width,
                h == pic.height,
                wi == w,
                hi == h,
                wall_pic_ok(*pic),
                1 <= w <= 4096,
                1 <= h <= 4096,
                wi * hi <= 16777216,
                ty < h,
                tx <= w,
                tile@.len() == wi * hi * 4,
                forall|tx2: int, ty2: int, c: int|
                    0 <= tx2 < wi && 0 <= c < 4 && (ty2 < ty || (ty2 == ty && tx2 < tx)) && 0 <= ty2
                        ==> tile@[#[trigger] px_byte(wi, tx2, ty2, c)] == wall_texel_rgba(
                        pic.data@[tx2 * hi + ty2],
                        palette@,
                    )[c],
                forall|tx2: int, ty2: int, c: int|
                    0 <= tx2 < wi && ty2 < hi && 0 <= c < 4 && (ty2 > ty || (ty2 == ty && tx2 >= tx))
                        ==> tile@[#[trigger] px_byte(wi, tx2, ty2, c)] == 0,
            decreases w - tx,
        {
            proof {
                assert(tx * hi + ty < wi * hi) by (nonlinear_arith)
                    requires 0 <= tx < wi, 0 <= ty < hi;
                assert(0 <= tx * hi) by (nonlinear_arith)
                    requires 0 <= tx, 0 <= hi;
                assert((ty * wi + tx) * 4 + 4 <= wi * hi * 4) by (nonlinear_arith)
                    requires tx < wi, ty < hi;
            }
            let idx: u16 = pic.data[tx * h + ty];
            let ghost before = tile@;
            let ghost k0 = ty * wi + tx;
            if idx == MISSING_PATCH_INDEX {
                set_px(&mut tile, w, tx, ty, MISSING_PATCH_RGBA);
            } else if idx != TRANSPARENT_INDEX {
                let px: [u8; 4] = wad_color_to_rgba(palette[idx as usize]);
                set_px(&mut tile, w, tx, ty, px);
            }
            proof {
                assert forall|tx2: int, ty2: int, c: int|
                    0 <= tx2 < wi && 0 <= ty2 < hi && 0 <= c < 4 && (tx2 != tx || ty2 != ty) implies tile@[
                    #[trigger] px_byte(wi, tx2, ty2, c)] == before[px_byte(wi, tx2, ty2, c)] by {
                    lemma_px_byte(wi, tx2, ty2, c);
                    assert(ty2 * wi + tx2 != ty * wi + tx) by (nonlinear_arith)
                        requires 0 <= tx2 < wi, 0 <= tx < wi, tx2 != tx || ty2 != ty, 0 <= ty2, 0 <= ty;
                    assert(px_byte(wi, tx2, ty2, c) < wi * hi * 4) by (nonlinear_arith)
                        requires 0 <= tx2 < wi, 0 <= ty2 < hi, 0 <= c < 4, px_byte(wi, tx2, ty2, c) == (ty2 * wi + tx2) * 4 + c;
                }
                if idx == TRANSPARENT_INDEX {
                    assert forall|c: int| 0 <= c < 4 implies tile@[#[trigger] px_byte(wi, tx as int, ty as int, c)]
                        == wall_texel_rgba(idx, palette@)[c] by {
                    }
                }
            }
            tx = tx + 1;
        }
        ty = ty + 1;
    }
    tile
}

proof fn lemma_height_step(dims: Seq<Option<(int, int)>>, n: int)
    requires
        dims_ok(dims),
        0 <= n < dims.len(),
        placed_ok(dims, n),
    ensures
        shelf_after(dims, n).1 + shelf_after(dims, n).2 <= shelf_after(dims, n + 1).1 + shelf_after(
            dims,
            n + 1,
        ).2,
        dims[n] is Some && wraps(shelf_after(dims, n), dims[n].unwrap().0) ==> shelf_after(dims, n).1
            + shelf_after(dims, n).2 + WALL_PAD <= shelf_after(dims, n + 1).1 + shelf_after(
            dims,
            n + 1,
        ).2,
{
}

proof fn lemma_height_mono(dims: Seq<Option<(int, int)>>, n: int, m: int)
    requires
        dims_ok(dims),
        0 <= n <= m <= dims.len(),
    ensures
        shelf_after(dims, n).1 + shelf_after(dims, n).2 <= shelf_after(dims, m).1 + shelf_after(
            dims,
            m,
        ).2,
    decreases m - n,
{
    if n < m {
        lemma_placed_ok(dims, n);
        lemma_height_step(dims, n);
        lemma_height_mono(dims, n + 1, m);
    }
}

/// The entries of a wall list that get packed: present, and 1 to [`WALL_ATLAS_MAX`] texels
/// each way.
pub open spec fn kept_dims(pics: Seq<Option<WallPic>>) -> Seq<Option<(int, int)>> {
    Seq::new(
        pics.len(),
        |i: int|
            match pics[i] {
                Some(p) => if 1 <= p.width <= WALL_ATLAS_MAX && 1 <= p.height <= WALL_ATLAS_MAX {
                    Some((p.width as int, p.height as int))
                } else {
                    None
                },
                None => None,
            },
    )
}

/// Some entry is packed.
pub open spec fn any_kept(dims: Seq<Option<(int, int)>>) -> bool {
    exists|i: int| 0 <= i < dims.len() && #[trigger] dims[i] is Some
}

/// The atlas rectangle of entry `i`.
pub open spec fn layout_rect(dims: Seq<Option<(int, int)>>, i: int) -> WallRect {
    let o = layout_origin(dims, i);
    WallRect { x: o.0 as u32, y: o.1 as u32, w: dims[i].unwrap().0 as u32, h: dims[i].unwrap().1 as u32 }
}

/// Byte `k` of the wall atlas lies in the rectangle of a packed entry.
pub open spec fn in_some_rect(dims: Seq<Option<(int, int)>>, k: int) -> bool {
    exists|j: int|
        0 <= j < dims.len() && #[trigger] dims[j] is Some && in_rect(
            k,
            WALL_ATLAS_MAX as int,
            layout_origin(dims, j).0,
            layout_origin(dims, j).1,
            dims[j].unwrap().0,
            dims[j].unwrap().1,
        )
}

proof fn lemma_other_rect_untouched(
    dims: Seq<Option<(int, int)>>,
    i: int,
    j: int,
    tx: int,
    ty: int,
    c: int,
)
    requires
        dims_ok(dims),
        0 <= i < dims.len(),
        0 <= j < dims.len(),
        i != j,
        dims[i] is Some,
        dims[j] is Some,
        0 <= tx < dims[j].unwrap().0,
        0 <= ty < dims[j].unwrap().1,
        0 <= c < 4,
    ensures
        !in_rect(
            px_byte(
                WALL_ATLAS_MAX as int,
                layout_origin(dims, j).0 + tx,
                layout_origin(dims, j).1 + ty,
                c,
            ),
            WALL_ATLAS_MAX as int,
            layout_origin(dims, i).0,
            layout_origin(dims, i).1,
            dims[i].unwrap().0,
            dims[i].unwrap().1,
        ),
{
    lemma_layout_sound(dims);
    let oi = layout_origin(dims, i);
    let oj = layout_origin(dims, j);
    if i < j {
        assert(disjoint(oi, dims[i].unwrap(), oj, dims[j].unwrap()));
    } else {
        assert(disjoint(oj, dims[j].unwrap(), oi, dims[i].unwrap()));
    }
    lemma_px_in_rect(
        WALL_ATLAS_MAX as int,
        oj.0 + tx,
        oj.1 + ty,
        c,
        oi.0,
        oi.1,
        dims[i].unwrap().0,
        dims[i].unwrap().1,
    );
}

/// Shelf-pack the wall textures into one RGBA atlas [`WALL_ATLAS_MAX`] texels wide. Entries
/// that are absent (not composed), empty or too large are skipped. Returns the atlas bytes,
/// its width and height, and each entry's rectangle (`None` for a skipped entry); with nothing
/// to pack, the atlas is empty and 0 x 0.
pub fn pack_wall_atlas(pics: &[Option<WallPic>], palette: &[u32; 256]) -> (atlas: (
    Vec<u8>,
    u32,
    u32,
    Vec<Option<WallRect>>,
))
    requires
        forall|i: int|
            0 <= i < pics@.len() && #[trigger] kept_dims(pics@)[i] is Some ==> wall_pic_ok(
                pics@[i].unwrap(),
            ),
        layout_height(kept_dims(pics@)) * WALL_ATLAS_MAX * 4 <= u32::MAX,
    ensures
        ({
            let dims = kept_dims(pics@);
            &&& atlas.3@.len() == pics@.len()
            &&& forall|i: int|
                0 <= i < pics@.len() ==> #[trigger] atlas.3@[i] == (if dims[i] is Some {
                    Some(layout_rect(dims, i))
                } else {
                    None
                })
            &&& !any_kept(dims) ==> atlas.0@.len() == 0 && atlas.1 == 0 && atlas.2 == 0
            &&& any_kept(dims) ==> {
                &&& atlas.1 == WALL_ATLAS_MAX
                &&& atlas.2 == layout_height(dims)
                &&& atlas.0@.len() == WALL_ATLAS_MAX * layout_height(dims) * 4
                &&& forall|i: int, tx: int, ty: int, c: int|
                    0 <= i < pics@.len() && dims[i] is Some && 0 <= tx < dims[i].unwrap().0 && 0
                        <= ty < dims[i].unwrap().1 && 0 <= c < 4 ==> atlas.0@[#[trigger] px_byte(
                        WALL_ATLAS_MAX as int,
                        layout_origin(dims, i).0 + tx,
                        layout_origin(dims, i).1 + ty,
                        c,
                    )] == wall_texel_rgba(
                        pics@[i].unwrap().data@[tx * dims[i].unwrap().1 + ty],
                        palette@,
                    )[c]
                &&& forall|k: int|
                    0 <= k < atlas.0@.len() && !in_some_rect(dims, k) ==> #[trigger] atlas.0@[k]
                        == 0
            }
        }),
{
    let ghost dims = kept_dims(pics@);
    proof {
        assert(dims_ok(dims));
        lemma_layout_sound(dims);
    }
    // Lay out the shelves.
    let mut rects: Vec<Option<WallRect>> = Vec::new();
    let mut cx: u32 = 0;
    let mut sy: u32 = 0;
    let mut sh: u32 = 0;
    let mut any: bool = false;
    let mut i: usize = 0;
    while i < pics.len()
        invariant
            dims == kept_dims(pics@),
            dims_ok(dims),
            layout_height(dims) * WALL_ATLAS_MAX * 4 <= u32::MAX,
            i <= pics@.len(),
            (cx as int, sy as int, sh as int) == shelf_after(dims, i as int),
            cx <= WALL_ATLAS_MAX + WALL_PAD,
            rects@.len() == i,
            forall|j: int|
                0 <= j < i ==> #[trigger] rects@[j] == (if dims[j] is Some {
                    Some(layout_rect(dims, j))
                } else {
                    None
                }),
            any == (exists|j: int| 0 <= j < i && #[trigger] dims[j] is Some),
        decreases pics@.len() - i,
    {
        proof {
            lemma_placed_ok(dims, i as int);
            lemma_height_step(dims, i as int);
            lemma_height_mono(dims, i + 1, dims.len() as int);
        }
        let entry: &Option<WallPic> = &pics[i];
        let mut rect: Option<WallRect> = None;
        match entry {
            Some(pic) => {
                if 1 <= pic.width && pic.width <= 4096 && 1 <= pic.height && pic.height <= 4096 {
                    let w: u32 = pic.width as u32;
                    let h: u32 = pic.height as u32;
                    assert(dims[i as int] == Some((w as int, h as int)));
                    let needed_w: u32 = w + WALL_PAD;
                    if cx + needed_w > WALL_ATLAS_MAX && cx > 0 {
                        sy = sy + sh + WALL_PAD;
                        cx = 0;
                        sh = 0;
                    }
                    if h > sh {
                        sh = h;
                    }
                    rect = Some(WallRect { x: cx, y: sy, w, h });
                    cx = cx + needed_w;
                    any = true;
                }
            },
            None => {},
        }
        rects.push(rect);
        proof {
            assert(rects@[i as int] == (if dims[i as int] is Some {
                Some(layout_rect(dims, i as int))
            } else {
                None
            }));
        }
        i = i + 1;
    }
    if !any {
        proof {
            assert(!any_kept(dims));
        }
        return (Vec::new(), 0, 0, rects);
    }
    proof {
        assert(any_kept(dims));
    }
    // Copy each texture into place.
    let atlas_h: u32 = sy + sh;
    let total: u32 = WALL_ATLAS_MAX * atlas_h * 4;
    let mut rgba: Vec<u8> = vec![0u8; total as usize];
    let mut i: usize = 0;
    while i < pics.len()
        invariant
            dims == kept_dims(pics@),
            dims_ok(dims),
            any_kept(dims),
            atlas_h == layout_height(dims),
            rgba@.len() == WALL_ATLAS_MAX * layout_height(dims) * 4,
            i <= pics@.len(),
            rects@.len() == pics@.len(),
            forall|j: int|
                0 <= j < pics@.len() ==> #[trigger] rects@[j] == (if dims[j] is Some {
                    Some(layout_rect(dims, j))
                } else {
                    None
                }),
            forall|j: int|
                0 <= j < pics@.len() && #[trigger] dims[j] is Some ==> wall_pic_ok(pics@[j].unwrap()),
            forall|j: int, tx: int, ty: int, c: int|
                0 <= j < i && dims[j] is Some && 0 <= tx < dims[j].unwrap().0 && 0 <= ty
                    < dims[j].unwrap().1 && 0 <= c < 4 ==> rgba@[#[trigger] px_byte(
                    WALL_ATLAS_MAX as int,
                    layout_origin(dims, j).0 + tx,
                    layout_origin(dims, j).1 + ty,
                    c,
                )] == wall_texel_rgba(pics@[j].unwrap().data@[tx * dims[j].unwrap().1 + ty], palette@)[c],
            forall|k: int|
                0 <= k < rgba@.len() && !(exists|j: int|
                    0 <= j < i && #[trigger] dims[j] is Some && in_rect(
                        k,
                        WALL_ATLAS_MAX as int,
                        layout_origin(dims, j).0,
                        layout_origin(dims, j).1,
                        dims[j].unwrap().0,
                        dims[j].unwrap().1,
                    )) ==> #[trigger] rgba@[k] == 0,
        decreases pics@.len() - i,
    {
        match &rects[i] {
            Some(r) => {
                let pic: &WallPic = pics[i].as_ref().unwrap();
                let tile: Vec<u8> = bake_wall_tile(pic, palette);
                let ghost before = rgba@;
                proof {
                    lemma_layout_sound(dims);
                    assert(dims[i as int] is Some);
                    let o = layout_origin(dims, i as int);
                    assert((o.1 + dims[i as int].unwrap().1) * WALL_ATLAS_MAX * 4 <= layout_height(dims)
                        * WALL_ATLAS_MAX * 4) by (nonlinear_arith)
                        requires o.1 + dims[i as int].unwrap().1 <= layout_height(dims);
                }
                copy_rect(
                    &mut rgba,
                    WALL_ATLAS_MAX as usize,
                    r.x as usize,
                    r.y as usize,
                    tile.as_slice(),
                    r.w as usize,
                    r.h as usize,
                );
                proof {
                    let o = layout_origin(dims, i as int);
                    let d = dims[i as int].unwrap();
                    assert forall|j: int, tx: int, ty: int, c: int|
                        0 <= j < i + 1 && dims[j] is Some && 0 <= tx < dims[j].unwrap().0 && 0 <= ty
                            < dims[j].unwrap().1 && 0 <= c < 4 implies rgba@[#[trigger] px_byte(
                        WALL_ATLAS_MAX as int,
                        layout_origin(dims, j).0 + tx,
                        layout_origin(dims, j).1 + ty,
                        c,
                    )] == wall_texel_rgba(
                        pics@[j].unwrap().data@[tx * dims[j].unwrap().1 + ty],
                        palette@,
                    )[c] by {
                        if j < i {
                            lemma_other_rect_untouched(dims, i as int, j, tx, ty, c);
                            lemma_px_byte(WALL_ATLAS_MAX as int, layout_origin(dims, j).0 + tx, layout_origin(dims, j).1 + ty, c);
                            assert(px_byte(WALL_ATLAS_MAX as int, layout_origin(dims, j).0 + tx, layout_origin(dims, j).1 + ty, c) < rgba@.len()) by (nonlinear_arith)
                                requires
                                    layout_origin(dims, j).0 + tx < WALL_ATLAS_MAX,
                                    layout_origin(dims, j).1 + ty < layout_height(dims),
                                    0 <= layout_origin(dims, j).0 + tx,
                                    0 <= c < 4,
                                    rgba@.len() == WALL_ATLAS_MAX * layout_height(dims) * 4,
                                    px_byte(WALL_ATLAS_MAX as int, layout_origin(dims, j).0 + tx, layout_origin(dims, j).1 + ty, c)
                                        == ((layout_origin(dims, j).1 + ty) * WALL_ATLAS_MAX + layout_origin(dims, j).0 + tx) * 4 + c;
                        } else {
                            assert(px_byte(WALL_ATLAS_MAX as int, o.0 + tx, o.1 + ty, c) == px_byte(
                                WALL_ATLAS_MAX as int,
                                o.0 + tx,
                                o.1 + ty,
                                c,
                            ));
                            assert(tile@[px_byte(d.0, tx, ty, c)] == wall_texel_rgba(
                                pic.data@[tx * d.1 + ty],
                                palette@,
                            )[c]);
                            assert((o.0 + tx) - o.0 == tx && (o.1 + ty) - o.1 == ty);
                        }
                    }
                    assert forall|k: int|
                        0 <= k < rgba@.len() && !(exists|j: int|
                            0 <= j < i + 1 && #[trigger] dims[j] is Some && in_rect(
                                k,
                                WALL_ATLAS_MAX as int,
                                layout_origin(dims, j).0,
                                layout_origin(dims, j).1,
                                dims[j].unwrap().0,
                                dims[j].unwrap().1,
                            )) implies #[trigger] rgba@[k] == 0 by {
                        assert(!in_rect(k, WALL_ATLAS_MAX as int, o.0, o.1, d.0, d.1));
                        assert(rgba@[k] == before[k]);
                    }
                }
            },
            None => {
                proof {
                    assert forall|k: int|
                        0 <= k < rgba@.len() && !(exists|j: int|
                            0 <= j < i + 1 && #[trigger] dims[j] is Some && in_rect(
                                k,
                                WALL_ATLAS_MAX as int,
                                layout_origin(dims, j).0,
                                layout_origin(dims, j).1,
                                dims[j].unwrap().0,
                                dims[j].unwrap().1,
                            )) implies #[trigger] rgba@[k] == 0 by {
                    }
                }
            },
        }
        i = i + 1;
    }
    proof {
        assert forall|k: int| 0 <= k < rgba@.len() && !in_some_rect(dims, k) implies #[trigger] rgba@[k] == 0 by {
        }
    }
    (rgba, WALL_ATLAS_MAX, atlas_h, rects)
}

// ---------------------------------------------------------------------------------------------
// Flat atlas.

/// Side of a flat tile, in texels.
pub const FLAT_SIDE: u32 = 64;

/// Every texel of the flat names a palette entry.
pub open spec fn flat_ok(f: FlatPic) -> bool {
    forall|k: int| 0 <= k < 4096 ==> #[trigger] f.data@[k] < 256
}

/// A flat as a row-major 64x64 RGBA tile.
fn bake_flat_tile(pic: &FlatPic, palette: &[u32; 256]) -> (tile: Vec<u8>)
    requires
        flat_ok(*pic),
    ensures
        tile@.len() == 64 * 64 * 4,
        forall|tx: int, ty: int, c: int|
            0 <= tx < 64 && 0 <= ty < 64 && 0 <= c < 4 ==> tile@[#[trigger] px_byte(64, tx, ty, c)]
                == rgba_of(palette@[pic.data@[ty * 64 + tx] as int])[c],
{
    let mut tile: Vec<u8> = Vec::new();
    let mut ty: usize = 0;
    while ty < 64
        invariant
            flat_ok(*pic),
            ty <= 64,
            tile@.len() == ty * 64 * 4,
            forall|tx: int, ty2: int, c: int|
                0 <= tx < 64 && 0 <= ty2 < ty && 0 <= c < 4 ==> tile@[#[trigger] px_byte(64, tx, ty2, c)]
                    == rgba_of(palette@[pic.data@[ty2 * 64 + tx] as int])[c],
        decreases 64 - ty,
    {
        let mut tx: usize = 0;
        while tx < 64
            invariant
                flat_ok(*pic),
                ty < 64,
                tx <= 64,
                tile@.len() == (ty * 64 + tx) * 4,
                forall|tx2: int, ty2: int, c: int|
                    0 <= tx2 < 64 && 0 <= c < 4 && 0 <= ty2 && (ty2 < ty || (ty2 == ty && tx2 < tx))
                        ==> tile@[#[trigger] px_byte(64, tx2, ty2, c)] == rgba_of(
                        palette@[pic.data@[ty2 * 64 + tx2] as int],
                    )[c],
            decreases 64 - tx,
        {
            let idx: u16 = pic.data[ty * 64 + tx];
            assert(idx < 256);
            let px: [u8; 4] = wad_color_to_rgba(palette[idx as usize]);
            let ghost before = tile@;
            tile.push(px[0]);
            tile.push(px[1]);
            tile.push(px[2]);
            tile.push(px[3]);
            proof {
                assert forall|tx2: int, ty2: int, c: int|
                    0 <= tx2 < 64 && 0 <= c < 4 && 0 <= ty2 && (ty2 < ty || (ty2 == ty && tx2 < tx + 1))
                        implies tile@[#[trigger] px_byte(64, tx2, ty2, c)] == rgba_of(
                    palette@[pic.data@[ty2 * 64 + tx2] as int],
                )[c] by {
                    if ty2 == ty && tx2 == tx {
                    } else {
                        assert(px_byte(64, tx2, ty2, c) < before.len());
                    }
                }
            }
            tx = tx + 1;
        }
        ty = ty + 1;
    }
    tile
}

/// Pack flats into a horizontal strip of 64x64 RGBA tiles, flat `i` at x = `i * 64`. Returns
/// the atlas bytes, its width and height, and each tile's x origin; with no flats the atlas is
/// empty and 0 x 0.
pub fn pack_flat_atlas(flats: &[FlatPic], palette: &[u32; 256]) -> (atlas: (Vec<u8>, u32, u32, Vec<u32>))
    requires
        forall|i: int| 0 <= i < flats@.len() ==> flat_ok(#[trigger] flats@[i]),
        flats@.len() * 64 * 64 * 4 <= u32::MAX,
    ensures
        flats@.len() == 0 ==> atlas.0@.len() == 0 && atlas.1 == 0 && atlas.2 == 0 && atlas.3@.len()
            == 0,
        flats@.len() > 0 ==> {
            &&& atlas.1 == flats@.len() * 64
            &&& atlas.2 == 64
            &&& atlas.0@.len() == flats@.len() * 64 * 64 * 4
            &&& atlas.3@.len() == flats@.len()
            &&& forall|i: int| 0 <= i < flats@.len() ==> #[trigger] atlas.3@[i] == i * 64
            &&& forall|i: int, tx: int, ty: int, c: int|
                0 <= i < flats@.len() && 0 <= tx < 64 && 0 <= ty < 64 && 0 <= c < 4 ==> atlas.0@[
                    #[trigger] px_byte(atlas.1 as int, i * 64 + tx, ty, c)] == rgba_of(
                    palette@[flats@[i].data@[ty * 64 + tx] as int],
                )[c]
        },
{
    let n: usize = flats.len();
    if n == 0 {
        return (Vec::new(), 0, 0, Vec::new());
    }
    let cols: u32 = n as u32;
    let atlas_w: u32 = cols * FLAT_SIDE;
    let ghost aw = atlas_w as int;
    let mut rgba: Vec<u8> = vec![0u8; (atlas_w * FLAT_SIDE * 4) as usize];
    let mut origins: Vec<u32> = Vec::new();
    let mut i: usize = 0;
    while i < n
        invariant
            n == flats@.len(),
            n > 0,
            aw == atlas_w,
            atlas_w == n * 64,
            n * 64 * 64 * 4 <= u32::MAX,
            forall|j: int| 0 <= j < flats@.len() ==> flat_ok(#[trigger] flats@[j]),
            rgba@.len() == n * 64 * 64 * 4,
            i <= n,
            origins@.len() == i,
            forall|j: int| 0 <= j < i ==> #[trigger] origins@[j] == j * 64,
            forall|j: int, tx: int, ty: int, c: int|
                0 <= j < i && 0 <= tx < 64 && 0 <= ty < 64 && 0 <= c < 4 ==> rgba@[#[trigger] px_byte(
                    aw,
                    j * 64 + tx,
                    ty,
                    c,
                )] == rgba_of(palette@[flats@[j].data@[ty * 64 + tx] as int])[c],
        decreases n - i,
    {
        let tile: Vec<u8> = bake_flat_tile(&flats[i], palette);
        let ox: u32 = (i as u32) * FLAT_SIDE;
        proof {
            assert((0 + 64) * aw * 4 == n * 64 * 64 * 4) by (nonlinear_arith)
                requires aw == n * 64;
        }
        copy_rect(&mut rgba, atlas_w as usize, ox as usize, 0, tile.as_slice(), 64, 64);
        proof {
            assert forall|j: int, tx: int, ty: int, c: int|
                0 <= j < i + 1 && 0 <= tx < 64 && 0 <= ty < 64 && 0 <= c < 4 implies rgba@[
                #[trigger] px_byte(aw, j * 64 + tx, ty, c)] == rgba_of(
                palette@[flats@[j].data@[ty * 64 + tx] as int],
            )[c] by {
                if j < i {
                    lemma_px_in_rect(aw, j * 64 + tx, ty, c, ox as int, 0, 64, 64);
                    assert(px_byte(aw, j * 64 + tx, ty, c) < rgba@.len()) by (nonlinear_arith)
                        requires
                            0 <= j * 64 + tx < aw,
                            0 <= ty < 64,
                            0 <= c < 4,
                            aw == n * 64,
                            rgba@.len() == n * 64 * 64 * 4,
                            px_byte(aw, j * 64 + tx, ty, c) == (ty * aw + j * 64 + tx) * 4 + c;
                } else {
                    assert((j * 64 + tx) - ox == tx);
                }
            }
        }
        origins.push(ox);
        i = i + 1;
    }
    (rgba, atlas_w, FLAT_SIDE, origins)
}

// ---------------------------------------------------------------------------------------------
// Sprite atlas.

/// Padding (texels) around each icon in the sprite atlas.
pub const SPRITE_PAD: u32 = 1;

/// Strictly increasing.
pub open spec fn increasing(s: Seq<i32>) -> bool {
    forall|i: int, j: int| 0 <= i < j < s.len() ==> #[trigger] s[i] < #[trigger] s[j]
}

/// The distinct values of `kinds`, in increasing order.
pub fn sorted_distinct(kinds: &[i32]) -> (out: Vec<i32>)
    ensures
        increasing(out@),
        forall|v: i32| out@.contains(v) <==> kinds@.contains(v),
{
    let mut out: Vec<i32> = Vec::new();
    let mut i: usize = 0;
    while i < kinds.len()
        invariant
            i <= kinds@.len(),
            increasing(out@),
            forall|v: i32| out@.contains(v) <==> kinds@.subrange(0, i as int).contains(v),
        decreases kinds@.len() - i,
    {
        let v: i32 = kinds[i];
        let mut pos: usize = 0;
        while pos < out.len() && out[pos] < v
            invariant
                pos <= out@.len(),
                forall|j: int| 0 <= j < pos ==> #[trigger] out@[j] < v,
            decreases out@.len() - pos,
        {
            pos = pos + 1;
        }
        let ghost old_out = out@;
        if pos < out.len() && out[pos] == v {
        } else {
            out.insert(pos, v);
            proof {
                assert forall|a: int, b: int| 0 <= a < b < out@.len() implies #[trigger] out@[a]
                    < #[trigger] out@[b] by {
                    if b < pos {
                    } else if a < pos && b == pos {
                    } else if a < pos {
                        assert(out@[b] == old_out[b - 1]);
                        assert(old_out[a] < old_out[b - 1]);
                    } else if a == pos {
                        assert(out@[b] == old_out[b - 1]);
                        if pos < old_out.len() {
                            assert(old_out[pos as int] >= v);
                            assert(old_out[pos as int] != v);
                            if b - 1 > pos {
                                assert(old_out[pos as int] < old_out[b - 1]);
                            }
                        }
                    } else {
                        assert(out@[a] == old_out[a - 1]);
                        assert(out@[b] == old_out[b - 1]);
                    }
                }
            }
        }
        proof {
            let pre = kinds@.subrange(0, i as int);
            let sub = kinds@.subrange(0, i + 1);
            assert(sub =~= pre.push(v));
            assert forall|u: i32| out@.contains(u) <==> kinds@.subrange(0, i + 1).contains(u) by {
                if kinds@.subrange(0, i + 1).contains(u) {
                    let k = choose|k: int| 0 <= k < sub.len() && sub[k] == u;
                    if k < i {
                        assert(pre[k] == u);
                        assert(old_out.contains(u));
                        let j = choose|j: int| 0 <= j < old_out.len() && old_out[j] == u;
                        if out@.len() == old_out.len() {
                            assert(out@[j] == u);
                        } else if j < pos {
                            assert(out@[j] == u);
                        } else {
                            assert(out@[j + 1] == u);
                        }
                    } else {
                        if out@.len() == old_out.len() {
                            assert(out@[pos as int] == v);
                        } else {
                            assert(out@[pos as int] == v);
                        }
                    }
                }
                if out@.contains(u) {
                    let j = choose|j: int| 0 <= j < out@.len() && out@[j] == u;
                    if u != v {
                        if out@.len() == old_out.len() {
                            assert(old_out[j] == u);
                        } else if j < pos {
                            assert(old_out[j] == u);
                        } else {
                            assert(old_out[j - 1] == u);
                        }
                        assert(old_out.contains(u));
                        assert(pre.contains(u));
                        let k = choose|k: int| 0 <= k < pre.len() && pre[k] == u;
                        assert(sub[k] == u);
                    } else {
                        assert(sub[i as int] == u);
                    }
                }
            }
        }
        i = i + 1;
    }
    proof {
        assert(kinds@.subrange(0, kinds@.len() as int) =~= kinds@);
    }
    out
}

/// A sprite's bytes fit its size.
pub open spec fn sprite_ok(s: SpriteRgba) -> bool {
    s.rgba@.len() == s.width * s.height * 4
}

/// Total width of the first `n` icons, each followed by its padding column.
pub open spec fn strip_width(sprites: Seq<SpriteRgba>, n: int) -> int
    decreases n,
{
    if n <= 0 {
        0
    } else {
        strip_width(sprites, n - 1) + sprites[n - 1].width + SPRITE_PAD
    }
}

/// Height of the tallest of the first `n` icons.
pub open spec fn strip_height(sprites: Seq<SpriteRgba>, n: int) -> int
    decreases n,
{
    if n <= 0 {
        0
    } else if strip_height(sprites, n - 1) < sprites[n - 1].height {
        sprites[n - 1].height as int
    } else {
        strip_height(sprites, n - 1)
    }
}

proof fn lemma_strip_nonneg(sprites: Seq<SpriteRgba>, n: int)
    ensures
        0 <= strip_width(sprites, n),
        0 <= strip_height(sprites, n),
    decreases n,
{
    if n > 0 {
        lemma_strip_nonneg(sprites, n - 1);
    }
}

proof fn lemma_strip_mono(sprites: Seq<SpriteRgba>, a: int, b: int)
    requires
        0 <= a <= b <= sprites.len(),
    ensures
        strip_width(sprites, a) + (if a < b { sprites[a].width + SPRITE_PAD } else { 0 }) <= strip_width(
            sprites,
            b,
        ),
        strip_height(sprites, a) <= strip_height(sprites, b),
        0 <= strip_width(sprites, a),
        0 <= strip_height(sprites, a),
        a < b ==> sprites[a].height <= strip_height(sprites, b),
    decreases b - a,
{
    lemma_strip_nonneg(sprites, a);
    if a < b {
        lemma_strip_mono(sprites, a + 1, b);
    }
}

/// The icons laid side by side at y = [`SPRITE_PAD`], icon `i` at x = `SPRITE_PAD +
/// strip_width(i)`.
fn pack_sprite_strip(sprites: &[&SpriteRgba]) -> (atlas: (Vec<u8>, u32, u32, Vec<u32>))
    requires
        sprites@.len() > 0,
        forall|i: int| 0 <= i < sprites@.len() ==> sprite_ok(*#[trigger] sprites@[i]),
        (strip_width(sprites@.map_values(|s: &SpriteRgba| *s), sprites@.len() as int) + SPRITE_PAD)
            * (strip_height(sprites@.map_values(|s: &SpriteRgba| *s), sprites@.len() as int) + 2
            * SPRITE_PAD) * 4 <= u32::MAX,
    ensures
        ({
            let sp = sprites@.map_values(|s: &SpriteRgba| *s);
            let n = sprites@.len() as int;
            let aw = strip_width(sp, n) + SPRITE_PAD;
            &&& atlas.1 == aw
            &&& atlas.2 == strip_height(sp, n) + 2 * SPRITE_PAD
            &&& atlas.0@.len() == atlas.1 * atlas.2 * 4
            &&& atlas.3@.len() == n
            &&& forall|i: int| 0 <= i < n ==> #[trigger] atlas.3@[i] == SPRITE_PAD + strip_width(sp, i)
            &&& forall|i: int, sx: int, sy: int, c: int|
                0 <= i < n && 0 <= sx < sp[i].width && 0 <= sy < sp[i].height && 0 <= c < 4
                    ==> atlas.0@[#[trigger] px_byte(
                    aw,
                    SPRITE_PAD + strip_width(sp, i) + sx,
                    SPRITE_PAD + sy,
                    c,
                )] == sp[i].rgba@[px_byte(sp[i].width as int, sx, sy, c)]
            &&& forall|k: int|
                0 <= k < atlas.0@.len() && !(exists|i: int|
                    0 <= i < n && #[trigger] in_rect(
                        k,
                        aw,
                        SPRITE_PAD + strip_width(sp, i),
                        SPRITE_PAD as int,
                        sp[i].width as int,
                        sp[i].height as int,
                    )) ==> #[trigger] atlas.0@[k] == 0
        }),
{
    let ghost sp = sprites@.map_values(|s: &SpriteRgba| *s);
    let ghost n = sprites@.len() as int;
    proof {
        lemma_strip_mono(sp, n, n);
    }
    // Atlas size: one padding column after each icon plus one before the first, and a
    // padding row above and below the tallest.
    let mut widths: u32 = 0;
    let mut tallest: u32 = 0;
    let mut i: usize = 0;
    while i < sprites.len()
        invariant
            sp == sprites@.map_values(|s: &SpriteRgba| *s),
            n == sprites@.len(),
            i <= n,
            (strip_width(sp, n) + SPRITE_PAD) * (strip_height(sp, n) + 2 * SPRITE_PAD) * 4 <= u32::MAX,
            widths == strip_width(sp, i as int),
            tallest == strip_height(sp, i as int),
        decreases n - i,
    {
        proof {
            lemma_strip_mono(sp, i + 1, n);
            lemma_strip_mono(sp, i as int, i + 1);
            assert(strip_width(sp, n) + SPRITE_PAD <= (strip_width(sp, n) + SPRITE_PAD) * (strip_height(
                sp,
                n,
            ) + 2 * SPRITE_PAD) * 4) by (nonlinear_arith)
                requires strip_width(sp, n) >= 0, strip_height(sp, n) >= 0;
            assert(sp[i as int] == *sprites@[i as int]);
        }
        widths = widths + sprites[i].width + SPRITE_PAD;
        if sprites[i].height > tallest {
            tallest = sprites[i].height;
        }
        i = i + 1;
    }
    proof {
        lemma_strip_nonneg(sp, n);
        assert(strip_width(sp, n) + SPRITE_PAD <= (strip_width(sp, n) + SPRITE_PAD) * (strip_height(sp, n)
            + 2 * SPRITE_PAD) * 4) by (nonlinear_arith)
            requires strip_width(sp, n) >= 0, strip_height(sp, n) >= 0;
        assert(strip_height(sp, n) + 2 * SPRITE_PAD <= (strip_width(sp, n) + SPRITE_PAD) * (strip_height(sp, n)
            + 2 * SPRITE_PAD) * 4) by (nonlinear_arith)
            requires strip_width(sp, n) >= 0, strip_height(sp, n) >= 0;
    }
    let atlas_w: u32 = widths + SPRITE_PAD;
    let atlas_h: u32 = tallest + SPRITE_PAD * 2;
    let ghost aw = atlas_w as int;
    let mut rgba: Vec<u8> = vec![0u8; (atlas_w * atlas_h * 4) as usize];
    let mut xs: Vec<u32> = Vec::new();
    let mut cx: u32 = SPRITE_PAD;
    let mut i: usize = 0;
    while i < sprites.len()
        invariant
            sp == sprites@.map_values(|s: &SpriteRgba| *s),
            n == sprites@.len(),
            forall|j: int| 0 <= j < n ==> sprite_ok(*#[trigger] sprites@[j]),
            i <= n,
            aw == atlas_w,
            atlas_w == strip_width(sp, n) + SPRITE_PAD,
            atlas_h == strip_height(sp, n) + 2 * SPRITE_PAD,
            atlas_w * atlas_h * 4 <= u32::MAX,
            rgba@.len() == atlas_w * atlas_h * 4,
            cx == SPRITE_PAD + strip_width(sp, i as int),
            xs@.len() == i,
            forall|j: int| 0 <= j < i ==> #[trigger] xs@[j] == SPRITE_PAD + strip_width(sp, j),
            forall|j: int, sx: int, sy: int, c: int|
                0 <= j < i && 0 <= sx < sp[j].width && 0 <= sy < sp[j].height && 0 <= c < 4
                    ==> rgba@[#[trigger] px_byte(aw, SPRITE_PAD + strip_width(sp, j) + sx, SPRITE_PAD + sy, c)]
                    == sp[j].rgba@[px_byte(sp[j].width as int, sx, sy, c)],
            forall|k: int|
                0 <= k < rgba@.len() && !(exists|j: int|
                    0 <= j < i && #[trigger] in_rect(
                        k,
                        aw,
                        SPRITE_PAD + strip_width(sp, j),
                        SPRITE_PAD as int,
                        sp[j].width as int,
                        sp[j].height as int,
                    )) ==> #[trigger] rgba@[k] == 0,
        decreases n - i,
    {
        let s: &SpriteRgba = sprites[i];
        proof {
            assert(sp[i as int] == *s);
            lemma_strip_mono(sp, i as int, n);
            lemma_strip_mono(sp, i + 1, n);
            lemma_strip_mono(sp, i as int, i + 1);
            assert((SPRITE_PAD + s.height) * aw * 4 <= atlas_w * atlas_h * 4) by (nonlinear_arith)
                requires SPRITE_PAD + s.height <= atlas_h, aw == atlas_w, aw >= 0;
        }
        let ghost before = rgba@;
        copy_rect(
            &mut rgba,
            atlas_w as usize,
            cx as usize,
            SPRITE_PAD as usize,
            s.rgba.as_slice(),
            s.width as usize,
            s.height as usize,
        );
        proof {
            assert forall|j: int, sx: int, sy: int, c: int|
                0 <= j < i + 1 && 0 <= sx < sp[j].width && 0 <= sy < sp[j].height && 0 <= c < 4
                    implies rgba@[#[trigger] px_byte(aw, SPRITE_PAD + strip_width(sp, j) + sx, SPRITE_PAD + sy, c)]
                    == sp[j].rgba@[px_byte(sp[j].width as int, sx, sy, c)] by {
                if j < i {
                    lemma_strip_mono(sp, j, i as int);
                    lemma_strip_mono(sp, j + 1, n);
                    lemma_strip_mono(sp, j, j + 1);
                    lemma_px_in_rect(
                        aw,
                        SPRITE_PAD + strip_width(sp, j) + sx,
                        SPRITE_PAD + sy,
                        c,
                        cx as int,
                        SPRITE_PAD as int,
                        s.width as int,
                        s.height as int,
                    );
                    assert(px_byte(aw, SPRITE_PAD + strip_width(sp, j) + sx, SPRITE_PAD + sy, c) < rgba@.len())
                        by (nonlinear_arith)
                        requires
                            0 <= SPRITE_PAD + strip_width(sp, j) + sx < aw,
                            SPRITE_PAD + sy < atlas_h,
                            0 <= sy,
                            0 <= c < 4,
                            aw == atlas_w,
                            rgba@.len() == atlas_w * atlas_h * 4,
                            px_byte(aw, SPRITE_PAD + strip_width(sp, j) + sx, SPRITE_PAD + sy, c) == ((
                            SPRITE_PAD + sy) * aw + SPRITE_PAD + strip_width(sp, j) + sx) * 4 + c;
                } else {
                    assert((SPRITE_PAD + strip_width(sp, j) + sx) - cx == sx);
                }
            }
            assert forall|k: int|
                0 <= k < rgba@.len() && !(exists|j: int|
                    0 <= j < i + 1 && #[trigger] in_rect(
                        k,
                        aw,
                        SPRITE_PAD + strip_width(sp, j),
                        SPRITE_PAD as int,
                        sp[j].width as int,
                        sp[j].height as int,
                    )) implies #[trigger] rgba@[k] == 0 by {
                assert(!in_rect(
                    k,
                    aw,
                    SPRITE_PAD + strip_width(sp, i as int),
                    SPRITE_PAD as int,
                    sp[i as int].width as int,
                    sp[i as int].height as int,
                ));
                assert(rgba@[k] == before[k]);
            }
        }
        xs.push(cx);
        cx = cx + s.width + SPRITE_PAD;
        i = i + 1;
    }
    (rgba, atlas_w, atlas_h, xs)
}

proof fn lemma_increasing_unique(a: Seq<i32>, b: Seq<i32>)
    requires
        increasing(a),
        increasing(b),
        forall|v: i32| a.contains(v) <==> b.contains(v),
    ensures
        a == b,
    decreases a.len(),
{
    if a.len() == 0 {
        if b.len() > 0 {
            assert(b.contains(b[0]));
        }
        assert(a =~= b);
    } else {
        assert(a.contains(a[0]));
        assert(b.len() > 0);
        assert(b.contains(b[0]));
        let ia = choose|i: int| 0 <= i < a.len() && a[i] == b[0];
        let ib = choose|i: int| 0 <= i < b.len() && b[i] == a[0];
        if ia > 0 {
            assert(a[0] < a[ia]);
        }
        if ib > 0 {
            assert(b[0] < b[ib]);
        }
        assert(a[0] == b[0]);
        let ra = a.drop_first();
        let rb = b.drop_first();
        assert forall|v: i32| ra.contains(v) <==> rb.contains(v) by {
            if ra.contains(v) {
                let i = choose|i: int| 0 <= i < ra.len() && ra[i] == v;
                assert(a[i + 1] == v);
                assert(a[0] < a[i + 1]);
                assert(a.contains(v));
                let j = choose|j: int| 0 <= j < b.len() && b[j] == v;
                assert(j != 0);
                assert(rb[j - 1] == v);
            }
            if rb.contains(v) {
                let i = choose|i: int| 0 <= i < rb.len() && rb[i] == v;
                assert(b[i + 1] == v);
                assert(b[0] < b[i + 1]);
                assert(b.contains(v));
                let j = choose|j: int| 0 <= j < a.len() && a[j] == v;
                assert(j != 0);
                assert(ra[j - 1] == v);
            }
        }
        lemma_increasing_unique(ra, rb);
        assert(a =~= seq![a[0]] + ra);
        assert(b =~= seq![b[0]] + rb);
    }
}

/// The cache holds a sprite for `kind`.
pub open spec fn has_sprite(cache: Map<i32, Option<SpriteRgba>>, kind: i32) -> bool {
    cache.contains_key(kind) && cache[kind] is Some
}

/// The thing kinds that get an atlas icon: the distinct kinds of `kinds` with a cached
/// sprite, in increasing order.
pub open spec fn sprite_kinds(kinds: Seq<i32>, cache: Map<i32, Option<SpriteRgba>>) -> Seq<i32> {
    choose|ks: Seq<i32>|
        increasing(ks) && forall|v: i32| #[trigger] ks.contains(v) <==> (kinds.contains(v) && has_sprite(cache, v))
}

/// The icons of `ks`, in order.
pub open spec fn sprites_of(ks: Seq<i32>, cache: Map<i32, Option<SpriteRgba>>) -> Seq<SpriteRgba> {
    ks.map_values(|k: i32| cache[k].unwrap())
}

/// Pack the cached icons of the distinct thing kinds of `kinds` side by side, in increasing
/// kind order. Returns the atlas bytes, its width and height, and each packed kind with the x
/// of its icon (the icon's top is at y = [`SPRITE_PAD`]); with no icon to pack the atlas is
/// empty and 0 x 0.
pub fn pack_sprite_atlas(kinds: &[i32], cache: &ThingSpriteCache) -> (atlas: (
    Vec<u8>,
    u32,
    u32,
    Vec<(i32, u32)>,
))
    requires
        forall|k: i32| kinds@.contains(k) && has_sprite(cache@, k) ==> sprite_ok(#[trigger] cache@[k].unwrap()),
        ({
            let ks = sprite_kinds(kinds@, cache@);
            let sp = sprites_of(ks, cache@);
            ks.len() > 0 ==> (strip_width(sp, ks.len() as int) + SPRITE_PAD) * (strip_height(
                sp,
                ks.len() as int,
            ) + 2 * SPRITE_PAD) * 4 <= u32::MAX
        }),
    ensures
        ({
            let ks = sprite_kinds(kinds@, cache@);
            let sp = sprites_of(ks, cache@);
            let n = ks.len() as int;
            let aw = strip_width(sp, n) + SPRITE_PAD;
            &&& atlas.3@.len() == n
            &&& forall|i: int| 0 <= i < n ==> (#[trigger] atlas.3@[i]).0 == ks[i]
            &&& n == 0 ==> atlas.0@.len() == 0 && atlas.1 == 0 && atlas.2 == 0
            &&& n > 0 ==> {
                &&& atlas.1 == aw
                &&& atlas.2 == strip_height(sp, n) + 2 * SPRITE_PAD
                &&& atlas.0@.len() == atlas.1 * atlas.2 * 4
                &&& forall|i: int| 0 <= i < n ==> (#[trigger] atlas.3@[i]).1 == SPRITE_PAD + strip_width(sp, i)
                &&& forall|i: int, sx: int, sy: int, c: int|
                    0 <= i < n && 0 <= sx < sp[i].width && 0 <= sy < sp[i].height && 0 <= c < 4
                        ==> atlas.0@[#[trigger] px_byte(
                        aw,
                        SPRITE_PAD + strip_width(sp, i) + sx,
                        SPRITE_PAD + sy,
                        c,
                    )] == sp[i].rgba@[px_byte(sp[i].width as int, sx, sy, c)]
                &&& forall|k: int|
                    0 <= k < atlas.0@.len() && !(exists|i: int|
                        0 <= i < n && #[trigger] in_rect(
                            k,
                            aw,
                            SPRITE_PAD + strip_width(sp, i),
                            SPRITE_PAD as int,
                            sp[i].width as int,
                            sp[i].height as int,
                        )) ==> #[trigger] atlas.0@[k] == 0
            }
        }),
{
    let distinct: Vec<i32> = sorted_distinct(kinds);
    let mut ks: Vec<i32> = Vec::new();
    let mut icons: Vec<&SpriteRgba> = Vec::new();
    let mut i: usize = 0;
    while i < distinct.len()
        invariant
            increasing(distinct@),
            forall|v: i32| distinct@.contains(v) <==> kinds@.contains(v),
            i <= distinct@.len(),
            increasing(ks@),
            icons@.len() == ks@.len(),
            forall|j: int| 0 <= j < ks@.len() ==> has_sprite(cache@, #[trigger] ks@[j]),
            forall|j: int| 0 <= j < ks@.len() ==> *#[trigger] icons@[j] == cache@[ks@[j]].unwrap(),
            forall|v: i32|
                ks@.contains(v) <==> (distinct@.subrange(0, i as int).contains(v) && has_sprite(cache@, v)),
            forall|j: int| 0 <= j < ks@.len() ==> #[trigger] ks@[j] < (if i < distinct@.len() {
                distinct@[i as int]
            } else {
                i32::MAX
            }) || i == distinct@.len(),
        decreases distinct@.len() - i,
    {
        let k: i32 = distinct[i];
        let ghost sub = distinct@.subrange(0, i + 1);
        proof {
            assert(sub =~= distinct@.subrange(0, i as int).push(k));
        }
        match cache.get(k) {
            Some(icon) => {
                let ghost old_ks = ks@;
                ks.push(k);
                icons.push(icon);
                proof {
                    assert forall|a: int, b: int| 0 <= a < b < ks@.len() implies #[trigger] ks@[a]
                        < #[trigger] ks@[b] by {
                        if b == ks@.len() - 1 {
                            assert(old_ks[a] < k);
                        }
                    }
                    assert forall|v: i32| ks@.contains(v) <==> (sub.contains(v) && has_sprite(cache@, v)) by {
                        if ks@.contains(v) {
                            let j = choose|j: int| 0 <= j < ks@.len() && ks@[j] == v;
                            if j < old_ks.len() {
                                assert(old_ks[j] == v);
                                assert(old_ks.contains(v));
                                assert(distinct@.subrange(0, i as int).contains(v));
                                let t = choose|t: int| 0 <= t < i && distinct@.subrange(0, i as int)[t] == v;
                                assert(sub[t] == v);
                            } else {
                                assert(sub[i as int] == v);
                                assert(has_sprite(cache@, k));
                            }
                        }
                        if sub.contains(v) && has_sprite(cache@, v) {
                            let j = choose|j: int| 0 <= j < sub.len() && sub[j] == v;
                            if j < i {
                                assert(distinct@.subrange(0, i as int)[j] == v);
                                assert(old_ks.contains(v));
                                let t = choose|t: int| 0 <= t < old_ks.len() && old_ks[t] == v;
                                assert(ks@[t] == v);
                            } else {
                                assert(ks@[ks@.len() - 1] == v);
                            }
                        }
                    }
                }
            },
            None => {
                proof {
                    assert(!has_sprite(cache@, k));
                    assert forall|v: i32| ks@.contains(v) <==> (sub.contains(v) && has_sprite(cache@, v)) by {
                        if sub.contains(v) && has_sprite(cache@, v) {
                            let j = choose|j: int| 0 <= j < sub.len() && sub[j] == v;
                            if j < i {
                                assert(distinct@.subrange(0, i as int)[j] == v);
                            }
                        }
                        if ks@.contains(v) {
                            assert(distinct@.subrange(0, i as int).contains(v));
                            let j = choose|j: int| 0 <= j < i && distinct@.subrange(0, i as int)[j] == v;
                            assert(sub[j] == v);
                        }
                    }
                }
            },
        }
        proof {
            if i + 1 < distinct@.len() {
                assert(k < distinct@[i + 1]);
                assert forall|j: int| 0 <= j < ks@.len() implies #[trigger] ks@[j] < distinct@[i + 1] by {
                    if ks@[j] != k {
                        assert(ks@[j] < k);
                    }
                }
            }
        }
        i = i + 1;
    }
    let ghost want = sprite_kinds(kinds@, cache@);
    proof {
        assert(distinct@.subrange(0, distinct@.len() as int) =~= distinct@);
        assert(forall|v: i32| #[trigger] ks@.contains(v) <==> (kinds@.contains(v) && has_sprite(cache@, v)));
        assert(exists|s: Seq<i32>|
            increasing(s) && forall|v: i32| #[trigger] s.contains(v) <==> (kinds@.contains(v) && has_sprite(cache@, v)));
        lemma_increasing_unique(ks@, want);
        assert(icons@.map_values(|s: &SpriteRgba| *s) =~= sprites_of(want, cache@));
    }
    if ks.len() == 0 {
        return (Vec::new(), 0, 0, Vec::new());
    }
    proof {
        assert forall|j: int| 0 <= j < icons@.len() implies sprite_ok(*#[trigger] icons@[j]) by {
            assert(ks@.contains(ks@[j]));
        }
    }
    let (rgba, w, h, xs) = pack_sprite_strip(icons.as_slice());
    let mut slots: Vec<(i32, u32)> = Vec::new();
    let mut j: usize = 0;
    while j < ks.len()
        invariant
            xs@.len() == ks@.len(),
            j <= ks@.len(),
            slots@.len() == j,
            forall|t: int| 0 <= t < j ==> #[trigger] slots@[t] == (ks@[t], xs@[t]),
        decreases ks@.len() - j,
    {
        slots.push((ks[j], xs[j]));
        j = j + 1;
    }
    (rgba, w, h, slots)
}

// ---------------------------------------------------------------------------------------------
// Names to pack.

/// The distinct names among the first `n` slots that `usable` accepts, in order of first
/// occurrence.
pub open spec fn distinct_usable(slots: Seq<Seq<char>>, known: Seq<Seq<char>>, skip_dash: bool, n: int) -> Seq<
    Seq<char>,
>
    decreases n,
{
    if n <= 0 {
        Seq::empty()
    } else {
        let rest = distinct_usable(slots, known, skip_dash, n - 1);
        let s = slots[n - 1];
        if usable(s, known, skip_dash) && !rest.contains(s) {
            rest.push(s)
        } else {
            rest
        }
    }
}

/// A slot names something to pack: it is not empty, not `-` when `skip_dash`, and `known`
/// has it.
pub open spec fn usable(s: Seq<char>, known: Seq<Seq<char>>, skip_dash: bool) -> bool {
    s.len() > 0 && !(skip_dash && s == seq!['-']) && known.contains(s)
}

fn is_dash(s: &str) -> (dash: bool)
    ensures
        dash == (s@ == seq!['-']),
{
    if s.unicode_len() == 1 {
        let c: char = s.get_char(0);
        proof {
            if c == '-' {
                assert(s@ =~= seq!['-']);
            }
        }
        c == '-'
    } else {
        false
    }
}

pub(crate) fn contains_text(list: &[String], s: &String) -> (found: bool)
    ensures
        found == crate::remap::string_texts(list@).contains(s@),
{
    let ghost texts = crate::remap::string_texts(list@);
    let mut i: usize = 0;
    while i < list.len()
        invariant
            texts == crate::remap::string_texts(list@),
            i <= list@.len(),
            forall|j: int| 0 <= j < i ==> texts[j] != s@,
        decreases list@.len() - i,
    {
        if list[i] == *s {
            proof {
                assert(texts[i as int] == s@);
            }
            return true;
        }
        i = i + 1;
    }
    false
}

fn distinct_usable_names(slots: &[String], known: &[String], skip_dash: bool) -> (names: Vec<String>)
    ensures
        crate::remap::string_texts(names@) == distinct_usable(
            crate::remap::string_texts(slots@),
            crate::remap::string_texts(known@),
            skip_dash,
            slots@.len() as int,
        ),
{
    let ghost st = crate::remap::string_texts(slots@);
    let ghost kt = crate::remap::string_texts(known@);
    let mut names: Vec<String> = Vec::new();
    let mut i: usize = 0;
    while i < slots.len()
        invariant
            st == crate::remap::string_texts(slots@),
            kt == crate::remap::string_texts(known@),
            i <= slots@.len(),
            crate::remap::string_texts(names@) == distinct_usable(st, kt, skip_dash, i as int),
        decreases slots@.len() - i,
    {
        let s: &String = &slots[i];
        proof {
            assert(st[i as int] == s@);
        }
        let take: bool = !s.as_str().is_empty() && !(skip_dash && is_dash(s.as_str())) && contains_text(known, s)
            && !contains_text(names.as_slice(), s);
        if take {
            names.push(s.clone());
            proof {
                assert(crate::remap::string_texts(names@) =~= distinct_usable(st, kt, skip_dash, i + 1));
            }
        }
        i = i + 1;
    }
    names
}

/// The distinct wall texture names the map uses that the loaded textures define, in order
/// of first use; empty slots and `-` are skipped. `slots` are the map's side texture slots
/// (upper, middle, lower of each side), `textures` the names the assets define.
pub fn collect_wall_names(slots: &[String], textures: &[String]) -> (names: Vec<String>)
    ensures
        crate::remap::string_texts(names@) == distinct_usable(
            crate::remap::string_texts(slots@),
            crate::remap::string_texts(textures@),
            true,
            slots@.len() as int,
        ),
{
    distinct_usable_names(slots, textures, true)
}

/// The distinct flat names the map uses that the IWAD's flats include, in order of first
/// use; empty slots are skipped. `slots` are the sectors' floor and ceiling flats.
pub fn collect_flat_names(slots: &[String], flats: &[String]) -> (names: Vec<String>)
    ensures
        crate::remap::string_texts(names@) == distinct_usable(
            crate::remap::string_texts(slots@),
            crate::remap::string_texts(flats@),
            false,
            slots@.len() as int,
        ),
{
    distinct_usable_names(slots, flats, false)
}

/// Every name collected for packing is distinct, non-empty and known.
pub proof fn lemma_distinct_usable(slots: Seq<Seq<char>>, known: Seq<Seq<char>>, skip_dash: bool, n: int)
    ensures
        forall|i: int|
            0 <= i < distinct_usable(slots, known, skip_dash, n).len() ==> usable(
                #[trigger] distinct_usable(slots, known, skip_dash, n)[i],
                known,
                skip_dash,
            ),
        forall|i: int, j: int|
            0 <= i < j < distinct_usable(slots, known, skip_dash, n).len() ==> #[trigger] distinct_usable(
                slots,
                known,
                skip_dash,
                n,
            )[i] != #[trigger] distinct_usable(slots, known, skip_dash, n)[j],
    decreases n,
{
    if n > 0 {
        lemma_distinct_usable(slots, known, skip_dash, n - 1);
        let rest = distinct_usable(slots, known, skip_dash, n - 1);
        let cur = distinct_usable(slots, known, skip_dash, n);
        if cur.len() > rest.len() {
            assert forall|i: int, j: int| 0 <= i < j < cur.len() implies #[trigger] cur[i] != #[trigger] cur[j] by {
                if j == rest.len() {
                    assert(cur[i] == rest[i]);
                    assert(rest.contains(rest[i]));
                }
            }
        }
    }
}

// ---------------------------------------------------------------------------------------------
// Atlas content key.

/// One fold step: `(h ^ v) * FNV_PRIME`, wrapping.
pub open spec fn fnv(h: u64, v: u64) -> u64 {
    (((h ^ v) as int * FNV_PRIME as int) % 0x1_0000_0000_0000_0000) as u64
}

/// `h` folded with the first `n` bytes.
pub open spec fn fold_bytes(h: u64, bytes: Seq<u8>, n: int) -> u64
    decreases n,
{
    if n <= 0 {
        h
    } else {
        fnv(fold_bytes(h, bytes, n - 1), bytes[n - 1] as u64)
    }
}

/// `h` folded with a name's bytes, then the separator.
pub open spec fn fold_name(h: u64, name: Seq<char>, sep: u64) -> u64 {
    let b = text_bytes(name);
    fnv(fold_bytes(h, b, b.len() as int), sep)
}

/// `h` folded with the first `n` names.
pub open spec fn fold_names(h: u64, names: Seq<Seq<char>>, sep: u64, n: int) -> u64
    decreases n,
{
    if n <= 0 {
        h
    } else {
        fold_name(fold_names(h, names, sep, n - 1), names[n - 1], sep)
    }
}

/// `h` folded with the first `n` thing kinds, each followed by a 1 when it has a sprite.
pub open spec fn fold_kinds(h: u64, kinds: Seq<i32>, cache: Map<i32, Option<SpriteRgba>>, n: int) -> u64
    decreases n,
{
    if n <= 0 {
        h
    } else {
        let k = kinds[n - 1];
        let h1 = fnv(fold_kinds(h, kinds, cache, n - 1), k as u64);
        if has_sprite(cache, k) {
            fnv(h1, 1)
        } else {
            h1
        }
    }
}

/// The key of the atlas inputs: the asset edit counters (textures, patches, animations), the
/// flat names, the wall names, then the thing kinds with their sprite flags, each list in
/// sorted order.
pub open spec fn key_of(
    counters: (u64, u64, u64),
    flats: Seq<Seq<char>>,
    walls: Seq<Seq<char>>,
    kinds: Seq<i32>,
    cache: Map<i32, Option<SpriteRgba>>,
) -> u64 {
    let h0 = fnv(fnv(fnv(FNV_OFFSET, counters.0), counters.1), counters.2);
    let h1 = fold_names(h0, flats, 0xff, flats.len() as int);
    let h2 = fold_names(h1, walls, 0xfe, walls.len() as int);
    fold_kinds(h2, kinds, cache, kinds.len() as int)
}

/// Non-decreasing in byte order.
pub open spec fn sorted_le(texts: Seq<Seq<char>>) -> bool {
    forall|i: int, j: int|
        0 <= i < j < texts.len() ==> !lex_lt(text_bytes(#[trigger] texts[j]), text_bytes(#[trigger] texts[i]))
}

fn fold_step(h: u64, v: u64) -> (r: u64)
    ensures
        r == fnv(h, v),
{
    let r: u64 = fnv_fold(h, v);
    proof {
        assert(0 <= ((h ^ v) as int * FNV_PRIME as int) % 0x1_0000_0000_0000_0000 < 0x1_0000_0000_0000_0000);
    }
    r
}

fn fold_name_exec(h: u64, name: &String, sep: u64) -> (r: u64)
    ensures
        r == fold_name(h, name@, sep),
{
    let bytes: &[u8] = name.as_str().as_bytes();
    let mut acc: u64 = h;
    let mut i: usize = 0;
    while i < bytes.len()
        invariant
            i <= bytes@.len(),
            acc == fold_bytes(h, bytes@, i as int),
        decreases bytes@.len() - i,
    {
        acc = fold_step(acc, bytes[i] as u64);
        i = i + 1;
    }
    fold_step(acc, sep)
}

fn fold_names_exec(h: u64, names: &Vec<String>, sep: u64) -> (r: u64)
    ensures
        r == fold_names(h, string_texts(names@), sep, names@.len() as int),
{
    let ghost nv = string_texts(names@);
    let mut acc: u64 = h;
    let mut i: usize = 0;
    while i < names.len()
        invariant
            nv == string_texts(names@),
            i <= names@.len(),
            acc == fold_names(h, nv, sep, i as int),
        decreases names@.len() - i,
    {
        proof {
            assert(nv[i as int] == names@[i as int]@);
        }
        acc = fold_name_exec(acc, &names[i], sep);
        i = i + 1;
    }
    acc
}

/// Sort by bytes, keeping repeats.
fn sort_texts(values: &[String]) -> (out: Vec<String>)
    ensures
        sorted_le(string_texts(out@)),
        string_texts(out@).to_multiset() == string_texts(values@).to_multiset(),
{
    let ghost src = string_texts(values@);
    let mut out: Vec<String> = Vec::new();
    proof {
        assert(string_texts(out@) =~= src.subrange(0, 0));
    }
    let mut i: usize = 0;
    while i < values.len()
        invariant
            src == string_texts(values@),
            i <= values@.len(),
            sorted_le(string_texts(out@)),
            string_texts(out@).to_multiset() == src.subrange(0, i as int).to_multiset(),
        decreases values@.len() - i,
    {
        let v: &String = &values[i];
        let ghost t = v@;
        let ghost ov = string_texts(out@);
        let vb: &[u8] = v.as_str().as_bytes();
        let mut pos: usize = 0;
        while pos < out.len()
            invariant
                ov == string_texts(out@),
                t == v@,
                vb@ == text_bytes(t),
                pos <= out@.len(),
                forall|j: int| 0 <= j < pos ==> !lex_lt(text_bytes(t), text_bytes(#[trigger] ov[j])),
            ensures
                pos <= out@.len(),
                forall|j: int| 0 <= j < pos ==> !lex_lt(text_bytes(t), text_bytes(#[trigger] ov[j])),
                pos < out@.len() ==> lex_lt(text_bytes(t), text_bytes(ov[pos as int])),
            decreases out@.len() - pos,
        {
            let ob: &[u8] = out[pos].as_str().as_bytes();
            if crate::remap::bytes_lt(vb, ob) {
                break;
            }
            pos = pos + 1;
        }
        out.insert(pos, v.clone());
        proof {
            let nv = string_texts(out@);
            assert(nv =~= ov.insert(pos as int, t));
            vstd::seq_lib::to_multiset_insert(ov, pos as int, t);
            assert(src.subrange(0, i + 1) =~= src.subrange(0, i as int).push(t));
            vstd::seq_lib::to_multiset_build(src.subrange(0, i as int), t);
            assert forall|a: int, b: int| 0 <= a < b < nv.len() implies !lex_lt(
                text_bytes(#[trigger] nv[b]),
                text_bytes(#[trigger] nv[a]),
            ) by {
                if a < pos && b == pos {
                } else if a < pos && b > pos {
                    assert(nv[a] == ov[a]);
                    assert(nv[b] == ov[b - 1]);
                } else if a == pos && b > pos {
                    assert(nv[b] == ov[b - 1]);
                    // t < ov[pos] <= ov[b - 1]
                    if lex_lt(text_bytes(ov[b - 1]), text_bytes(t)) {
                        if b - 1 > pos {
                            crate::remap::lemma_lex_total_or_equal(text_bytes(ov[pos as int]), text_bytes(ov[b - 1]));
                            if text_bytes(ov[pos as int]) != text_bytes(ov[b - 1]) {
                                crate::remap::lemma_lex_transitive(
                                    text_bytes(ov[b - 1]),
                                    text_bytes(t),
                                    text_bytes(ov[pos as int]),
                                );
                                crate::remap::lemma_lex_asymmetric(text_bytes(ov[b - 1]), text_bytes(ov[pos as int]));
                            } else {
                                crate::remap::lemma_lex_asymmetric(text_bytes(t), text_bytes(ov[pos as int]));
                            }
                        } else {
                            crate::remap::lemma_lex_asymmetric(text_bytes(t), text_bytes(ov[pos as int]));
                        }
                    }
                } else if b < pos {
                    assert(nv[a] == ov[a]);
                    assert(nv[b] == ov[b]);
                } else {
                    assert(nv[a] == ov[a - 1]);
                    assert(nv[b] == ov[b - 1]);
                }
            }
        }
        i = i + 1;
    }
    proof {
        assert(src.subrange(0, src.len() as int) =~= src);
    }
    out
}

fn clone_strings(values: &[String]) -> (out: Vec<String>)
    ensures
        string_texts(out@) == string_texts(values@),
{
    let mut out: Vec<String> = Vec::new();
    let mut i: usize = 0;
    while i < values.len()
        invariant
            i <= values@.len(),
            string_texts(out@) == string_texts(values@.subrange(0, i as int)),
        decreases values@.len() - i,
    {
        let ghost before = string_texts(out@);
        out.push(values[i].clone());
        proof {
            assert(string_texts(out@) =~= before.push(values@[i as int]@));
            assert(string_texts(values@.subrange(0, i + 1)) =~= string_texts(values@.subrange(0, i as int)).push(
                values@[i as int]@,
            ));
        }
        i = i + 1;
    }
    proof {
        assert(values@.subrange(0, values@.len() as int) =~= values@);
    }
    out
}

/// Key of the atlas inputs: the asset edit counters `(textures, patches, animations)`, the
/// distinct flat names the map's sectors use (`flats`: floor and ceiling of each), the wall
/// texture names `walls`, and the distinct thing kinds with whether each has a cached sprite;
/// each list folded in sorted order. An unchanged key means the atlas bytes are unchanged, so
/// packing and upload can be skipped.
pub fn content_key(
    counters: (u64, u64, u64),
    flats: &[String],
    walls: &[String],
    kinds: &[i32],
    cache: &ThingSpriteCache,
) -> (key: u64)
    ensures
        exists|sf: Seq<Seq<char>>, sw: Seq<Seq<char>>, sk: Seq<i32>|
            {
                &&& crate::remap::strictly_sorted(sf)
                &&& sf.to_set() == string_texts(flats@).to_set()
                &&& sorted_le(sw)
                &&& sw.to_multiset() == string_texts(walls@).to_multiset()
                &&& increasing(sk)
                &&& (forall|v: i32| sk.contains(v) <==> kinds@.contains(v))
                &&& key == key_of(counters, sf, sw, sk, cache@)
            },
{
    let mut h: u64 = fold_step(FNV_OFFSET, counters.0);
    h = fold_step(h, counters.1);
    h = fold_step(h, counters.2);
    let ghost h0 = h;
    let flat_names: Vec<String> = crate::remap::unique_sorted(clone_strings(flats));
    h = fold_names_exec(h, &flat_names, 0xff);
    let wall_names: Vec<String> = sort_texts(walls);
    h = fold_names_exec(h, &wall_names, 0xfe);
    let ks: Vec<i32> = sorted_distinct(kinds);
    let ghost h2 = h;
    let mut i: usize = 0;
    while i < ks.len()
        invariant
            i <= ks@.len(),
            h == fold_kinds(h2, ks@, cache@, i as int),
        decreases ks@.len() - i,
    {
        let k: i32 = ks[i];
        h = fold_step(h, k as u64);
        if cache.get(k).is_some() {
            h = fold_step(h, 1);
        }
        i = i + 1;
    }
    proof {
        let sf = string_texts(flat_names@);
        let sw = string_texts(wall_names@);
        let sk = ks@;
        assert(h == key_of(counters, sf, sw, sk, cache@));
    }
    h
}

proof fn lemma_strictly_sorted_unique(a: Seq<Seq<char>>, b: Seq<Seq<char>>)
    requires
        crate::remap::strictly_sorted(a),
        crate::remap::strictly_sorted(b),
        a.to_set() == b.to_set(),
    ensures
        a == b,
    decreases a.len(),
{
    if a.len() == 0 {
        if b.len() > 0 {
            assert(b.to_set().contains(b[0]));
        }
        assert(a =~= b);
    } else {
        assert(a.to_set().contains(a[0]));
        assert(b.to_set().contains(a[0]));
        assert(b.len() > 0);
        assert(b.to_set().contains(b[0]));
        assert(a.to_set().contains(b[0]));
        let ia = choose|i: int| 0 <= i < a.len() && a[i] == b[0];
        let ib = choose|i: int| 0 <= i < b.len() && b[i] == a[0];
        if ia > 0 && ib > 0 {
            assert(lex_lt(text_bytes(a[0]), text_bytes(a[ia])));
            assert(lex_lt(text_bytes(b[0]), text_bytes(b[ib])));
            crate::remap::lemma_lex_asymmetric(text_bytes(a[0]), text_bytes(b[0]));
        }
        assert(a[0] == b[0]);
        let ra = a.drop_first();
        let rb = b.drop_first();
        assert forall|x: Seq<char>| ra.to_set().contains(x) <==> rb.to_set().contains(x) by {
            if ra.to_set().contains(x) {
                let i = choose|i: int| 0 <= i < ra.len() && ra[i] == x;
                assert(a[i + 1] == x);
                assert(lex_lt(text_bytes(a[0]), text_bytes(a[i + 1])));
                crate::remap::lemma_lex_irreflexive(text_bytes(x));
                assert(a.to_set().contains(x));
                assert(b.to_set().contains(x));
                let j = choose|j: int| 0 <= j < b.len() && b[j] == x;
                assert(j != 0);
                assert(rb[j - 1] == x);
            }
            if rb.to_set().contains(x) {
                let i = choose|i: int| 0 <= i < rb.len() && rb[i] == x;
                assert(b[i + 1] == x);
                assert(lex_lt(text_bytes(b[0]), text_bytes(b[i + 1])));
                crate::remap::lemma_lex_irreflexive(text_bytes(x));
                assert(b.to_set().contains(x));
                assert(a.to_set().contains(x));
                let j = choose|j: int| 0 <= j < a.len() && a[j] == x;
                assert(j != 0);
                assert(ra[j - 1] == x);
            }
        }
        assert(ra.to_set() =~= rb.to_set());
        lemma_strictly_sorted_unique(ra, rb);
        assert(a =~= seq![a[0]] + ra);
        assert(b =~= seq![b[0]] + rb);
    }
}

proof fn lemma_sorted_le_unique(a: Seq<Seq<char>>, b: Seq<Seq<char>>)
    requires
        sorted_le(a),
        sorted_le(b),
        a.to_multiset() == b.to_multiset(),
    ensures
        a == b,
    decreases a.len(),
{
    broadcast use vstd::seq_lib::group_to_multiset_ensures;

    assert(a.len() == a.to_multiset().len());
    assert(b.len() == b.to_multiset().len());
    if a.len() == 0 {
        assert(a =~= b);
    } else {
        assert(a.contains(a[0]));
        assert(a.to_multiset().count(a[0]) > 0);
        assert(b.contains(a[0]));
        assert(b.contains(b[0]));
        assert(b.to_multiset().count(b[0]) > 0);
        assert(a.contains(b[0]));
        let ia = choose|i: int| 0 <= i < a.len() && a[i] == b[0];
        let ib = choose|i: int| 0 <= i < b.len() && b[i] == a[0];
        if ia > 0 {
            assert(!lex_lt(text_bytes(a[ia]), text_bytes(a[0])));
        }
        if ib > 0 {
            assert(!lex_lt(text_bytes(b[ib]), text_bytes(b[0])));
        }
        crate::remap::lemma_lex_total_or_equal(text_bytes(a[0]), text_bytes(b[0]));
        if text_bytes(a[0]) == text_bytes(b[0]) {
            crate::remap::lemma_text_bytes_injective(a[0], b[0]);
        }
        assert(a[0] == b[0]);
        let ra = a.drop_first();
        let rb = b.drop_first();
        assert(a.remove(0) =~= ra);
        assert(b.remove(0) =~= rb);
        vstd::seq_lib::to_multiset_remove(a, 0);
        vstd::seq_lib::to_multiset_remove(b, 0);
        assert(ra.to_multiset() =~= rb.to_multiset());
        assert forall|i: int, j: int| 0 <= i < j < ra.len() implies !lex_lt(
            text_bytes(#[trigger] ra[j]),
            text_bytes(#[trigger] ra[i]),
        ) by {
            assert(ra[i] == a[i + 1] && ra[j] == a[j + 1]);
        }
        assert forall|i: int, j: int| 0 <= i < j < rb.len() implies !lex_lt(
            text_bytes(#[trigger] rb[j]),
            text_bytes(#[trigger] rb[i]),
        ) by {
            assert(rb[i] == b[i + 1] && rb[j] == b[j + 1]);
        }
        lemma_sorted_le_unique(ra, rb);
        assert(a =~= seq![a[0]] + ra);
        assert(b =~= seq![b[0]] + rb);
    }
}

/// The content key depends only on which flat names, which wall names (with repeats) and which
/// thing kinds are in use, not on the order they are listed in: any two sorted listings of the
/// same inputs give the same key.
pub proof fn lemma_content_key_determined(
    counters: (u64, u64, u64),
    flats: Seq<Seq<char>>,
    walls: Seq<Seq<char>>,
    kinds: Seq<i32>,
    cache: Map<i32, Option<SpriteRgba>>,
    sf1: Seq<Seq<char>>,
    sw1: Seq<Seq<char>>,
    sk1: Seq<i32>,
    sf2: Seq<Seq<char>>,
    sw2: Seq<Seq<char>>,
    sk2: Seq<i32>,
)
    requires
        crate::remap::strictly_sorted(sf1) && sf1.to_set() == flats.to_set(),
        crate::remap::strictly_sorted(sf2) && sf2.to_set() == flats.to_set(),
        sorted_le(sw1) && sw1.to_multiset() == walls.to_multiset(),
        sorted_le(sw2) && sw2.to_multiset() == walls.to_multiset(),
        increasing(sk1) && (forall|v: i32| sk1.contains(v) <==> kinds.contains(v)),
        increasing(sk2) && (forall|v: i32| sk2.contains(v) <==> kinds.contains(v)),
    ensures
        key_of(counters, sf1, sw1, sk1, cache) == key_of(counters, sf2, sw2, sk2, cache),
{
    lemma_strictly_sorted_unique(sf1, sf2);
    lemma_sorted_le_unique(sw1, sw2);
    lemma_increasing_unique(sk1, sk2);
}

/// Build the flat, wall and sprite atlases together, tagged with `generation` (bumped by the
/// caller on every change). Returns the atlases with the flat tile x origins, the wall
/// rectangles and the packed sprite kinds with their x, as [`pack_flat_atlas`],
/// [`pack_wall_atlas`] and [`pack_sprite_atlas`] give them.
pub fn build(
    walls: &[Option<WallPic>],
    flats: &[FlatPic],
    kinds: &[i32],
    cache: &ThingSpriteCache,
    palette: &[u32; 256],
    generation: u64,
) -> (built: (AtlasData, Vec<u32>, Vec<Option<WallRect>>, Vec<(i32, u32)>))
    requires
        forall|i: int|
            0 <= i < walls@.len() && #[trigger] kept_dims(walls@)[i] is Some ==> wall_pic_ok(walls@[i].unwrap()),
        layout_height(kept_dims(walls@)) * WALL_ATLAS_MAX * 4 <= u32::MAX,
        forall|i: int| 0 <= i < flats@.len() ==> flat_ok(#[trigger] flats@[i]),
        flats@.len() * 64 * 64 * 4 <= u32::MAX,
        forall|k: i32| kinds@.contains(k) && has_sprite(cache@, k) ==> sprite_ok(#[trigger] cache@[k].unwrap()),
        ({
            let ks = sprite_kinds(kinds@, cache@);
            let sp = sprites_of(ks, cache@);
            ks.len() > 0 ==> (strip_width(sp, ks.len() as int) + SPRITE_PAD) * (strip_height(
                sp,
                ks.len() as int,
            ) + 2 * SPRITE_PAD) * 4 <= u32::MAX
        }),
    ensures
        ({
            let (data, flat_xs, wall_rects, sprite_xs) = built;
            &&& data.generation == generation
            &&& exists|fa: (Vec<u8>, u32, u32, Vec<u32>), wa: (Vec<u8>, u32, u32, Vec<Option<WallRect>>), sa: (
                Vec<u8>,
                u32,
                u32,
                Vec<(i32, u32)>,
            )|
                {
                    &&& call_ensures(pack_flat_atlas, (flats, palette), fa)
                    &&& call_ensures(pack_wall_atlas, (walls, palette), wa)
                    &&& call_ensures(pack_sprite_atlas, (kinds, cache), sa)
                    &&& data.flat_rgba@ == fa.0@ && data.flat_atlas_w == fa.1 && data.flat_atlas_h == fa.2
                        && flat_xs@ == fa.3@
                    &&& data.wall_rgba@ == wa.0@ && data.wall_atlas_w == wa.1 && data.wall_atlas_h == wa.2
                        && wall_rects@ == wa.3@
                    &&& data.sprite_rgba@ == sa.0@ && data.sprite_w == sa.1 && data.sprite_h == sa.2
                        && sprite_xs@ == sa.3@
                }
        }),
{
    let (flat_rgba, flat_w, flat_h, flat_xs) = pack_flat_atlas(flats, palette);
    let (wall_rgba, wall_w, wall_h, rects) = pack_wall_atlas(walls, palette);
    let (sprite_rgba, sprite_w, sprite_h, slots) = pack_sprite_atlas(kinds, cache);
    let ghost fa = (flat_rgba, flat_w, flat_h, flat_xs);
    let ghost wa = (wall_rgba, wall_w, wall_h, rects);
    let ghost sa = (sprite_rgba, sprite_w, sprite_h, slots);
    let data = AtlasData {
        flat_rgba,
        flat_atlas_w: flat_w,
        flat_atlas_h: flat_h,
        wall_rgba,
        wall_atlas_w: wall_w,
        wall_atlas_h: wall_h,
        sprite_rgba,
        sprite_w,
        sprite_h,
        generation,
    };
    (data, flat_xs, rects, slots)
}

} // verus!

//! Flat thumbnails: a palette-indexed flat as RGBA8, at its own size or scaled to a square.

use vstd::prelude::*;

use crate::atlas::px_byte;
use crate::compose::{preview_rgba, put_palette_color};
use crate::picture::FlatPic;

verus! {

/// Colour of a thumbnail texel that has no picture behind it.
pub const GAP_FILL: [u8; 4] = [0x20, 0x20, 0x20, 0x90];

/// Every texel of a flat, in data order, as RGBA8: texel `k` comes from palette index `k`.
pub fn flat_rgba(pic: &FlatPic, palette: &[u32; 256]) -> (rgba: Vec<u8>)
    requires
        pic.width * pic.height >= 4096,
        pic.width * pic.height * 4 <= usize::MAX,
    ensures
        rgba@.len() == pic.width * pic.height * 4,
        forall|k: int, c: int|
            0 <= k < 4096 && 0 <= c < 4 ==> rgba@[#[trigger] (k * 4 + c)] == preview_rgba(
                pic.data@[k],
                palette@,
            )[c],
        forall|k: int| 4096 * 4 <= k < rgba@.len() ==> rgba@[k] == 0u8,
{
    let n: usize = pic.width * pic.height * 4;
    let mut rgba: Vec<u8> = Vec::new();
    let mut j: usize = 0;
    while j < n
        invariant
            j <= n,
            rgba@.len() == j,
            forall|k: int| 0 <= k < j ==> rgba@[k] == 0u8,
        decreases n - j,
    {
        rgba.push(0u8);
        j = j + 1;
    }
    let mut k: usize = 0;
    while k < 4096
        invariant
            k <= 4096,
            rgba@.len() == n,
            n >= 4096 * 4,
            forall|k2: int, c: int|
                0 <= k2 < k && 0 <= c < 4 ==> rgba@[#[trigger] (k2 * 4 + c)] == preview_rgba(
                    pic.data@[k2],
                    palette@,
                )[c],
            forall|b: int| k * 4 <= b < n ==> rgba@[b] == 0u8,
        decreases 4096 - k,
    {
        let ghost before = rgba@;
        put_palette_color(&mut rgba, 1, 0, k, palette, pic.data[k]);
        proof {
            assert forall|k2: int, c: int| 0 <= k2 < k + 1 && 0 <= c < 4 implies rgba@[#[trigger] (k2
                * 4 + c)] == preview_rgba(pic.data@[k2], palette@)[c] by {
                assert(px_byte(1, 0, k2, c) == k2 * 4 + c);
                if k2 < k {
                    assert((k2 * 4 + c) / 4 == k2);
                    assert(rgba@[k2 * 4 + c] == before[k2 * 4 + c]);
                }
            }
            assert forall|b: int| (k + 1) * 4 <= b < n implies rgba@[b] == 0u8 by {
                assert(b / 4 != k * 1 + 0);
                assert(rgba@[b] == before[b]);
            }
        }
        k = k + 1;
    }
    rgba
}

/// Where texel (`x`, `y`) of a `side`-texel square thumbnail samples the flat: nearest texel.
pub open spec fn square_source(p: FlatPic, side: int, x: int, y: int) -> int {
    (y * p.height / side) * p.width + x * p.width / side
}

/// Texel (`x`, `y`) of a square thumbnail: the nearest flat texel, or the gap fill without one.
pub open spec fn square_texel(pic: Option<FlatPic>, side: int, palette: Seq<u32>, x: int, y: int) -> Seq<
    u8,
> {
    match pic {
        Some(p) => preview_rgba(p.data@[square_source(p, side, x, y)], palette),
        None => GAP_FILL@,
    }
}

proof fn lemma_square_source_in_flat(p: FlatPic, side: int, x: int, y: int)
    requires
        0 <= x < side,
        0 <= y < side,
        p.width <= 4096,
        p.height <= 4096,
        p.width * p.height <= 4096,
    ensures
        0 <= x * p.width / side <= p.width,
        p.width > 0 ==> x * p.width / side < p.width,
        0 <= y * p.height / side <= p.height,
        p.height > 0 ==> y * p.height / side < p.height,
        0 <= square_source(p, side, x, y) < 4096,
{
    let w = p.width as int;
    let h = p.height as int;
    let tx = x * w / side;
    let ty = y * h / side;
    assert(0 <= x * w <= side * w) by (nonlinear_arith)
        requires 0 <= x < side, 0 <= w;
    assert(0 <= y * h <= side * h) by (nonlinear_arith)
        requires 0 <= y < side, 0 <= h;
    assert(0 <= tx <= w) by (nonlinear_arith)
        requires 0 <= x * w <= side * w, side > 0, tx == x * w / side, w >= 0;
    assert(0 <= ty <= h) by (nonlinear_arith)
        requires 0 <= y * h <= side * h, side > 0, ty == y * h / side, h >= 0;
    if w > 0 {
        assert(x * w < side * w) by (nonlinear_arith)
            requires 0 <= x < side, w > 0;
        assert(tx < w) by (nonlinear_arith)
            requires 0 <= x * w < side * w, side > 0, tx == x * w / side;
    }
    if h > 0 {
        assert(y * h < side * h) by (nonlinear_arith)
            requires 0 <= y < side, h > 0;
        assert(ty < h) by (nonlinear_arith)
            requires 0 <= y * h < side * h, side > 0, ty == y * h / side;
    }
    if w > 0 && h > 0 {
        assert(0 <= ty * w + tx < 4096) by (nonlinear_arith)
            requires 0 <= ty < h, 0 <= tx < w, w * h <= 4096;
    } else if w == 0 {
        assert(ty * w == 0) by (nonlinear_arith)
            requires w == 0;
    } else {
        assert(ty == 0);
    }
}

/// A flat rendered as a `side`-texel square by nearest sampling; without a flat, every texel is
/// the gap fill.
pub fn flat_square_rgba(pic: Option<&FlatPic>, side: u32, palette: &[u32; 256]) -> (rgba: Vec<u8>)
    requires
        side * side * 4 <= usize::MAX,
        pic matches Some(p) ==> p.width <= 4096 && p.height <= 4096 && p.width * p.height <= 4096,
    ensures
        rgba@.len() == side * side * 4,
        forall|x: int, y: int, c: int|
            0 <= x < side && 0 <= y < side && 0 <= c < 4 ==> rgba@[#[trigger] px_byte(
                side as int,
                x,
                y,
                c,
            )] == square_texel(
                match pic {
                    Some(p) => Some(*p),
                    None => None,
                },
                side as int,
                palette@,
                x,
                y,
            )[c],
{
    let ghost src: Option<FlatPic> = match pic {
        Some(p) => Some(*p),
        None => None,
    };
    let s: usize = side as usize;
    let mut rgba: Vec<u8> = Vec::new();
    let mut y: usize = 0;
    while y < s
        invariant
            s == side,
            s * s * 4 <= usize::MAX,
            src == (match pic {
                Some(p) => Some(*p),
                None => None::<FlatPic>,
            }),
            pic matches Some(p) ==> p.width <= 4096 && p.height <= 4096 && p.width * p.height <= 4096,
            y <= s,
            rgba@.len() == y * s * 4,
            forall|x2: int, y2: int, c: int|
                0 <= x2 < s && 0 <= y2 < y && 0 <= c < 4 ==> rgba@[#[trigger] px_byte(s as int, x2, y2, c)]
                    == square_texel(src, s as int, palette@, x2, y2)[c],
        decreases s - y,
    {
        let mut x: usize = 0;
        while x < s
            invariant
                s == side,
                s * s * 4 <= usize::MAX,
                src == (match pic {
                    Some(p) => Some(*p),
                    None => None::<FlatPic>,
                }),
                pic matches Some(p) ==> p.width <= 4096 && p.height <= 4096 && p.width * p.height
                    <= 4096,
                y < s,
                x <= s,
                rgba@.len() == (y * s + x) * 4,
                forall|x2: int, y2: int, c: int|
                    0 <= x2 < s && 0 <= c < 4 && 0 <= y2 && (y2 < y || (y2 == y && x2 < x))
                        ==> rgba@[#[trigger] px_byte(s as int, x2, y2, c)] == square_texel(
                        src,
                        s as int,
                        palette@,
                        x2,
                        y2,
                    )[c],
            decreases s - x,
        {
            proof {
                assert((y * s + x) * 4 + 4 <= s * s * 4) by (nonlinear_arith)
                    requires y < s, x < s;
            }
            let ghost before = rgba@;
            let at: usize = (y * s + x) * 4;
            rgba.push(0u8);
            rgba.push(0u8);
            rgba.push(0u8);
            rgba.push(0u8);
            match pic {
                Some(p) => {
                    proof {
                        lemma_square_source_in_flat(*p, s as int, x as int, y as int);
                    }
                    assert(x * p.width <= 0xffff_ffff * 4096 && y * p.height <= 0xffff_ffff * 4096)
                        by (nonlinear_arith)
                        requires x < s, y < s, s <= 0xffff_ffff, p.width <= 4096, p.height <= 4096;
                    let tx: u64 = (x as u64 * p.width as u64) / (s as u64);
                    let ty: u64 = (y as u64 * p.height as u64) / (s as u64);
                    let idx: usize = (ty as usize) * p.width + (tx as usize);
                    assert(idx == square_source(*p, s as int, x as int, y as int));
                    put_palette_color(&mut rgba, s, x, y, palette, p.data[idx]);
                },
                None => {
                    rgba.set(at, GAP_FILL[0]);
                    rgba.set(at + 1, GAP_FILL[1]);
                    rgba.set(at + 2, GAP_FILL[2]);
                    rgba.set(at + 3, GAP_FILL[3]);
                },
            }
            proof {
                assert forall|x2: int, y2: int, c: int|
                    0 <= x2 < s && 0 <= c < 4 && 0 <= y2 && (y2 < y || (y2 == y && x2 < x + 1))
                        implies rgba@[#[trigger] px_byte(s as int, x2, y2, c)] == square_texel(
                    src,
                    s as int,
                    palette@,
                    x2,
                    y2,
                )[c] by {
                    crate::atlas::lemma_px_byte(s as int, x2, y2, c);
                    if y2 == y && x2 == x {
                        if src is None {
                            assert(px_byte(s as int, x2, y2, c) == at + c);
                        }
                    } else {
                        assert(y2 * s + x2 < y * s + x) by (nonlinear_arith)
                            requires y2 < y || (y2 == y && x2 < x), 0 <= x2 < s, 0 <= x < s;
                        assert(px_byte(s as int, x2, y2, c) < before.len());
                        assert(rgba@[px_byte(s as int, x2, y2, c)] == before[px_byte(s as int, x2, y2, c)]);
                    }
                }
            }
            x = x + 1;
        }
        assert((y * s + s) * 4 == (y + 1) * s * 4) by (nonlinear_arith);
        y = y + 1;
    }
    rgba
}

} // verus!

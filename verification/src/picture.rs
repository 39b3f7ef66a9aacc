//! Doom picture codec: the patch lump format and the editor's picture types.
//!
//! A patch lump is `{width, height, left, top}` as little-endian 16-bit words, a table of
//! `width` little-endian 32-bit column offsets, and per column a list of posts
//! `{topdelta u8 (0xFF ends the column), length u8, pad, pixels.., pad}`.

use vstd::prelude::*;

verus! {

/// `u16::MAX`: no post covers this texel.
pub const TRANSPARENT_INDEX: u16 = 65535;

/// Texel covered by a missing patch lump; distinct from [`TRANSPARENT_INDEX`] and out of palette range.
pub const MISSING_PATCH_INDEX: u16 = 65534;

/// Opaque magenta shown for [`MISSING_PATCH_INDEX`].
pub const MISSING_PATCH_RGBA: [u8; 4] = [0xff, 0x00, 0xff, 0xff];

/// Vanilla engines stop posts at 128 pixels.
pub const MAX_POST_LEN: usize = 128;

/// `topdelta` is a byte and 0xFF ends the column, leaving 254 addressable rows.
pub const MAX_PATCH_HEIGHT: usize = 254;

/// Widest and tallest picture the decoder accepts.
pub const MAX_DECODE_DIM: usize = 4096;

/// Wall texture as palette indices, column-major (`data[x*h + y]`); `u16::MAX` = transparent.
pub struct WallPic {
    pub data: Vec<u16>,
    pub width: usize,
    pub height: usize,
}

/// A 64x64 flat as palette indices, row-major.
pub struct FlatPic {
    pub data: [u16; 4096],
    pub width: usize,
    pub height: usize,
}

impl FlatPic {
    /// Decode a raw flat lump (64x64 palette indices, row-major); short lumps are zero-padded
    /// and bytes past the 4096th are ignored.
    pub fn from_lump(lump: &[u8]) -> (flat: Self)
        ensures
            flat.width == 64,
            flat.height == 64,
            forall|k: int|
                0 <= k < 4096 ==> #[trigger] flat.data@[k] == (if k < lump@.len() {
                    lump@[k] as u16
                } else {
                    0u16
                }),
    {
        let mut data: [u16; 4096] = [0u16; 4096];
        let n: usize = if lump.len() < 4096 { lump.len() } else { 4096 };
        let mut i: usize = 0;
        while i < n
            invariant
                n <= 4096,
                n == (if lump@.len() < 4096 { lump@.len() as int } else { 4096 }),
                i <= n,
                data@.len() == 4096,
                forall|k: int| 0 <= k < i ==> #[trigger] data@[k] == lump@[k] as u16,
                forall|k: int| i <= k < 4096 ==> #[trigger] data@[k] == 0u16,
            decreases n - i,
        {
            data.set(i, lump[i] as u16);
            i = i + 1;
        }
        FlatPic { data, width: 64, height: 64 }
    }
}

/// Decoded Doom picture (patch lump).
pub struct PatchImage {
    pub width: usize,
    pub height: usize,
    /// Row-major palette indices; [`TRANSPARENT_INDEX`] where no post covers the texel.
    pub data: Vec<u16>,
}

// ---------------------------------------------------------------------------------------------
// The lump format, read side.

/// Little-endian unsigned 16-bit word at `at`.
pub open spec fn le16(lump: Seq<u8>, at: int) -> int {
    lump[at] as int + 256 * lump[at + 1] as int
}

/// Little-endian unsigned 32-bit word at `at`.
pub open spec fn le32(lump: Seq<u8>, at: int) -> int {
    lump[at] as int + 256 * lump[at + 1] as int + 65536 * lump[at + 2] as int + 16777216
        * lump[at + 3] as int
}

/// Texel `(x, y)` of a row-major image of width `w`.
pub open spec fn texel(data: Seq<u16>, w: int, x: int, y: int) -> u16 {
    data[y * w + x]
}

/// How many of a post's `length` pixels, starting at row `top`, fall inside `h` rows.
pub open spec fn rows_in_column(top: int, length: int, h: int) -> int {
    if top >= h {
        0
    } else if top + length <= h {
        length
    } else {
        h - top
    }
}

/// A column after the post at `at` (rows `top..top + length`) is drawn over it; rows past the
/// column's height are dropped.
pub open spec fn fill_post(col: Seq<u16>, lump: Seq<u8>, at: int, top: int, length: int) -> Seq<u16> {
    Seq::new(
        col.len(),
        |y: int|
            if top <= y < top + length {
                lump[at + 3 + y - top] as u16
            } else {
                col[y]
            },
    )
}

/// Draws the posts starting at `at` over `col`; `None` when the lump ends before the column does.
pub open spec fn decode_column(lump: Seq<u8>, at: int, col: Seq<u16>) -> Option<Seq<u16>>
    decreases lump.len() - at,
{
    if at < 0 || at >= lump.len() {
        None
    } else if lump[at] == 0xff {
        Some(col)
    } else if at + 1 >= lump.len() {
        None
    } else {
        let top = lump[at] as int;
        let length = lump[at + 1] as int;
        let rows = rows_in_column(top, length, col.len() as int);
        if rows > 0 && at + 3 + rows > lump.len() {
            None
        } else if at + 4 + length >= lump.len() {
            None
        } else {
            decode_column(lump, at + 4 + length, fill_post(col, lump, at, top, length))
        }
    }
}

/// A fully transparent column of `h` rows.
pub open spec fn blank_column(h: int) -> Seq<u16> {
    Seq::new(h as nat, |y: int| TRANSPARENT_INDEX)
}

/// Column `x` of the picture, decoded from the offset stored in the column table.
pub open spec fn column_of(lump: Seq<u8>, x: int, h: int) -> Option<Seq<u16>> {
    decode_column(lump, le32(lump, 8 + 4 * x), blank_column(h))
}

pub open spec fn header_width(lump: Seq<u8>) -> int {
    le16(lump, 0)
}

pub open spec fn header_height(lump: Seq<u8>) -> int {
    le16(lump, 2)
}

/// The lump is a well-formed picture: sane dimensions, a complete column table and every
/// column's posts inside the lump.
pub open spec fn decodable(lump: Seq<u8>) -> bool {
    &&& lump.len() >= 4
    &&& 1 <= header_width(lump) <= MAX_DECODE_DIM
    &&& 1 <= header_height(lump) <= MAX_DECODE_DIM
    &&& 8 + 4 * header_width(lump) <= lump.len()
    &&& forall|x: int|
        0 <= x < header_width(lump) ==> #[trigger] column_of(lump, x, header_height(lump)) is Some
}

/// `lump` decodes to the `width` x `height` row-major picture `texels`.
pub open spec fn decodes_to(lump: Seq<u8>, width: int, height: int, texels: Seq<u16>) -> bool {
    &&& decodable(lump)
    &&& width == header_width(lump)
    &&& height == header_height(lump)
    &&& texels.len() == width * height
    &&& forall|x: int, y: int|
        0 <= x < width && 0 <= y < height ==> #[trigger] texel(texels, width, x, y)
            == column_of(lump, x, height).unwrap()[y]
}

pub proof fn lemma_row_major_index(w: int, h: int, x: int, y: int)
    requires
        0 <= x < w,
        0 <= y < h,
    ensures
        0 <= y * w + x < w * h,
        y * w + x + 1 <= w * h,
{
    assert(0 <= y * w) by (nonlinear_arith)
        requires 0 <= y, 0 <= w;
    assert(y * w + w <= w * h) by (nonlinear_arith)
        requires y + 1 <= h, 0 <= w;
}

pub proof fn lemma_row_major_distinct(w: int, x1: int, y1: int, x2: int, y2: int)
    requires
        0 <= x1 < w,
        0 <= x2 < w,
        0 <= y1,
        0 <= y2,
        y1 * w + x1 == y2 * w + x2,
    ensures
        x1 == x2,
        y1 == y2,
{
    if y1 < y2 {
        assert(y1 * w + w <= y2 * w) by (nonlinear_arith)
            requires y1 + 1 <= y2, 0 <= w;
    } else if y2 < y1 {
        assert(y2 * w + w <= y1 * w) by (nonlinear_arith)
            requires y2 + 1 <= y1, 0 <= w;
    }
}

/// Decode the Doom picture format; `None` unless the lump is [`decodable`].
pub fn decode_patch(lump: &[u8]) -> (image: Option<PatchImage>)
    ensures
        image is Some <==> decodable(lump@),
        image matches Some(img) ==> decodes_to(lump@, img.width as int, img.height as int, img.data@),
{
    if lump.len() < 4 {
        return None;
    }
    // The header words are signed; a negative one reads as more than 4096 here and is refused.
    let width: usize = lump[0] as usize + 256 * (lump[1] as usize);
    let height: usize = lump[2] as usize + 256 * (lump[3] as usize);
    if width == 0 || height == 0 || width > MAX_DECODE_DIM || height > MAX_DECODE_DIM {
        return None;
    }
    let ghost w = width as int;
    let ghost h = height as int;
    assert(w * h <= 16777216) by (nonlinear_arith)
        requires 1 <= w <= 4096, 1 <= h <= 4096;
    let total: usize = width * height;
    let mut data: Vec<u16> = vec![TRANSPARENT_INDEX; total];
    proof {
        assert forall|x2: int, y: int| 0 <= x2 < w && 0 <= y < h implies #[trigger] texel(
            data@,
            w,
            x2,
            y,
        ) == TRANSPARENT_INDEX by {
            lemma_row_major_index(w, h, x2, y);
        }
    }
    let mut x: usize = 0;
    while x < width
        invariant
            w == width,
            h == height,
            w == header_width(lump@),
            h == header_height(lump@),
            1 <= w <= 4096,
            1 <= h <= 4096,
            lump@.len() >= 4,
            w * h <= 16777216,
            x <= width,
            data@.len() == w * h,
            x > 0 ==> 8 + 4 * x <= lump@.len(),
            forall|x2: int| 0 <= x2 < x ==> #[trigger] column_of(lump@, x2, h) is Some,
            forall|x2: int, y: int|
                0 <= x2 < x && 0 <= y < h ==> #[trigger] texel(data@, w, x2, y) == column_of(
                    lump@,
                    x2,
                    h,
                ).unwrap()[y],
            forall|x2: int, y: int|
                x <= x2 < w && 0 <= y < h ==> #[trigger] texel(data@, w, x2, y)
                    == TRANSPARENT_INDEX,
        decreases width - x,
    {
        let off_at: usize = 8 + x * 4;
        if off_at + 3 >= lump.len() {
            proof {
                assert(!(8 + 4 * w <= lump@.len())) by (nonlinear_arith)
                    requires off_at == 8 + x * 4, off_at + 3 >= lump@.len(), x < w;
            }
            return None;
        }
        let col_start: usize = lump[off_at] as usize + 256 * (lump[off_at + 1] as usize) + 65536 * (
        lump[off_at + 2] as usize) + 16777216 * (lump[off_at + 3] as usize);
        assert(col_start == le32(lump@, 8 + 4 * x));
        let ghost col0 = blank_column(h);
        let ghost mut col = col0;
        let mut at: usize = col_start;
        let ghost data_before = data@;
        let mut column_done: bool = false;
        loop
            invariant_except_break
                w == width,
                h == height,
                1 <= w <= 4096,
                1 <= h <= 4096,
                x < w,
                w * h <= 16777216,
                data@.len() == w * h,
                col.len() == h,
                decode_column(lump@, at as int, col) == column_of(lump@, x as int, h),
                forall|y: int| 0 <= y < h ==> #[trigger] texel(data@, w, x as int, y) == col[y],
                forall|x2: int, y: int|
                    0 <= x2 < w && x2 != x && 0 <= y < h ==> #[trigger] texel(data@, w, x2, y)
                        == texel(data_before, w, x2, y),
            ensures
                data@.len() == w * h,
                column_done ==> column_of(lump@, x as int, h) == Some(col),
                !column_done ==> column_of(lump@, x as int, h) is None,
                column_done ==> forall|y: int|
                    0 <= y < h ==> #[trigger] texel(data@, w, x as int, y) == col[y],
                column_done ==> forall|x2: int, y: int|
                    0 <= x2 < w && x2 != x && 0 <= y < h ==> #[trigger] texel(data@, w, x2, y)
                        == texel(data_before, w, x2, y),
            decreases lump@.len() - at,
        {
            if at >= lump.len() {
                column_done = false;
                break;
            }
            let topdelta: usize = lump[at] as usize;
            if topdelta == 0xff {
                column_done = true;
                break;
            }
            if lump.len() - at <= 1 {
                column_done = false;
                break;
            }
            let length: usize = lump[at + 1] as usize;
            let ghost post_col = fill_post(col, lump@, at as int, topdelta as int, length as int);
            let ghost at0 = at as int;
            let mut i: usize = 0;
            let mut short: bool = false;
            while i < length
                invariant_except_break
                    w == width,
                    h == height,
                    1 <= w <= 4096,
                    1 <= h <= 4096,
                    x < w,
                    at0 == at,
                    at < lump@.len(),
                    w * h <= 16777216,
                    col.len() == h,
                    post_col == fill_post(col, lump@, at as int, topdelta as int, length as int),
                    topdelta == lump@[at as int],
                    length == lump@[at + 1],
                    i <= length,
                    data@.len() == w * h,
                    !short,
                    rows_in_column(topdelta as int, i as int, h) > 0 ==> at + 3 + rows_in_column(
                        topdelta as int,
                        i as int,
                        h,
                    ) <= lump@.len(),
                    forall|y: int|
                        0 <= y < h ==> #[trigger] texel(data@, w, x as int, y) == (if topdelta <= y
                            < topdelta + i {
                            post_col[y]
                        } else {
                            col[y]
                        }),
                    forall|x2: int, y: int|
                        0 <= x2 < w && x2 != x && 0 <= y < h ==> #[trigger] texel(data@, w, x2, y)
                            == texel(data_before, w, x2, y),
                ensures
                    data@.len() == w * h,
                    short ==> rows_in_column(topdelta as int, length as int, h) > 0 && at + 3
                        + rows_in_column(topdelta as int, length as int, h) > lump@.len(),
                    !short ==> (rows_in_column(topdelta as int, length as int, h) > 0 ==> at + 3
                        + rows_in_column(topdelta as int, length as int, h) <= lump@.len()),
                    !short ==> forall|y: int|
                        0 <= y < h ==> #[trigger] texel(data@, w, x as int, y) == post_col[y],
                    forall|x2: int, y: int|
                        0 <= x2 < w && x2 != x && 0 <= y < h ==> #[trigger] texel(data@, w, x2, y)
                            == texel(data_before, w, x2, y),
                decreases length - i,
            {
                let y: usize = topdelta + i;
                if y < height {
                    if i + 3 >= lump.len() - at {
                        short = true;
                        break;
                    }
                    proof {
                        lemma_row_major_index(w, h, x as int, y as int);
                    }
                    let k: usize = y * width + x;
                    let v: u16 = lump[at + 3 + i] as u16;
                    let ghost before = data@;
                    data.set(k, v);
                    proof {
                        assert forall|x2: int, y2: int| 0 <= x2 < w && 0 <= y2 < h && (x2 != x || y2
                            != y) implies #[trigger] texel(data@, w, x2, y2) == texel(
                            before,
                            w,
                            x2,
                            y2,
                        ) by {
                            lemma_row_major_index(w, h, x2, y2);
                            if y2 * w + x2 == y * w + x {
                                lemma_row_major_distinct(w, x2, y2, x as int, y as int);
                            }
                        }
                    }
                }
                i = i + 1;
            }
            if short {
                column_done = false;
                break;
            }
            proof {
                col = post_col;
            }
            if length + 4 >= lump.len() - at {
                column_done = false;
                break;
            }
            at = at + 4 + length;
        }
        if !column_done {
            return None;
        }
        proof {
            assert forall|x2: int| 0 <= x2 < x + 1 implies #[trigger] column_of(lump@, x2, h) is Some by {
            }
        }
        x = x + 1;
    }
    proof {
        if width > 0 {
            assert(8 + 4 * w <= lump@.len());
        }
    }
    Some(PatchImage { width, height, data })
}


// ---------------------------------------------------------------------------------------------
// The lump format, write side.

/// Height actually written: taller pictures are capped at [`MAX_PATCH_HEIGHT`].
pub open spec fn capped_height(height: int) -> int {
    if height > MAX_PATCH_HEIGHT {
        MAX_PATCH_HEIGHT as int
    } else {
        height
    }
}

/// Number of opaque texels from row `y` down to the first transparent one (or the column's end).
pub open spec fn opaque_run(col: Seq<u16>, y: int) -> nat
    decreases col.len() - y,
{
    if y < 0 || y >= col.len() || col[y] == TRANSPARENT_INDEX {
        0
    } else {
        1 + opaque_run(col, y + 1)
    }
}

/// Length of the post that starts at row `y`: the opaque run, split every 128 pixels.
pub open spec fn post_len(col: Seq<u16>, y: int) -> int {
    if opaque_run(col, y) > MAX_POST_LEN {
        MAX_POST_LEN as int
    } else {
        opaque_run(col, y) as int
    }
}

/// The `n` pixel bytes of a post starting at row `y`.
pub open spec fn post_pixels(col: Seq<u16>, y: int, n: int) -> Seq<u8> {
    Seq::new(n as nat, |i: int| col[y + i] as u8)
}

/// The posts of a column from row `y` on, ending with the 0xFF terminator.
pub open spec fn encode_column(col: Seq<u16>, y: int) -> Seq<u8>
    decreases col.len() - y
    via encode_column_decreases
{
    if y < 0 || y >= col.len() {
        seq![0xffu8]
    } else if col[y] == TRANSPARENT_INDEX {
        encode_column(col, y + 1)
    } else {
        let n = post_len(col, y);
        seq![y as u8, n as u8, 0u8] + post_pixels(col, y, n) + seq![0u8] + encode_column(col, y + n)
    }
}

proof fn lemma_opaque_run_bound(col: Seq<u16>, y: int)
    requires
        0 <= y,
    ensures
        y + opaque_run(col, y) <= (if y <= col.len() { col.len() as int } else { y }),
    decreases col.len() - y,
{
    if 0 <= y < col.len() && col[y] != TRANSPARENT_INDEX {
        lemma_opaque_run_bound(col, y + 1);
    }
}

#[via_fn]
proof fn encode_column_decreases(col: Seq<u16>, y: int) {
    if 0 <= y < col.len() && col[y] != TRANSPARENT_INDEX {
        lemma_opaque_run_bound(col, y);
    }
}

/// Column `x` (rows `0..h`) of a row-major image of width `w`.
pub open spec fn column_seq(data: Seq<u16>, w: int, h: int, x: int) -> Seq<u16> {
    Seq::new(h as nat, |y: int| data[y * w + x])
}

/// The encoded columns `0..n`, back to back.
pub open spec fn columns_bytes(data: Seq<u16>, w: int, h: int, n: int) -> Seq<u8>
    decreases n,
{
    if n <= 0 {
        Seq::empty()
    } else {
        columns_bytes(data, w, h, n - 1) + encode_column(column_seq(data, w, h, n - 1), 0)
    }
}

pub open spec fn le16_bytes(v: int) -> Seq<u8> {
    seq![(v % 256) as u8, ((v / 256) % 256) as u8]
}

pub open spec fn le32_bytes(v: int) -> Seq<u8> {
    seq![
        (v % 256) as u8,
        ((v / 256) % 256) as u8,
        ((v / 65536) % 256) as u8,
        ((v / 16777216) % 256) as u8,
    ]
}

/// The column table's first `n` entries: each column's offset, just past the table.
pub open spec fn offset_table(data: Seq<u16>, w: int, h: int, n: int) -> Seq<u8>
    decreases n,
{
    if n <= 0 {
        Seq::empty()
    } else {
        offset_table(data, w, h, n - 1) + le32_bytes(
            8 + 4 * w + columns_bytes(data, w, h, n - 1).len(),
        )
    }
}

/// The eight header bytes: width, height and a zero origin.
pub open spec fn patch_header(w: int, h: int) -> Seq<u8> {
    le16_bytes(w) + le16_bytes(h) + seq![0u8, 0u8, 0u8, 0u8]
}

/// The picture lump written for a row-major `width` x `height` image.
pub open spec fn encoded_patch(width: int, height: int, data: Seq<u16>) -> Seq<u8> {
    let h = capped_height(height);
    patch_header(width, h) + offset_table(data, width, h, width) + columns_bytes(data, width, h, width)
}

proof fn lemma_opaque_run_step(col: Seq<u16>, top: int, y: int)
    requires
        0 <= top <= y <= col.len(),
        forall|r: int| top <= r < y ==> col[r] != TRANSPARENT_INDEX,
    ensures
        opaque_run(col, top) == (y - top) + opaque_run(col, y),
    decreases y - top,
{
    if top < y {
        lemma_opaque_run_step(col, top + 1, y);
    }
}

proof fn lemma_offset_table_len(data: Seq<u16>, w: int, h: int, n: int)
    requires
        n >= 0,
    ensures
        offset_table(data, w, h, n).len() == 4 * n,
    decreases n,
{
    if n > 0 {
        lemma_offset_table_len(data, w, h, n - 1);
    }
}

proof fn lemma_columns_bytes_grow(data: Seq<u16>, w: int, h: int, a: int, b: int)
    requires
        0 <= a <= b,
    ensures
        columns_bytes(data, w, h, a).len() <= columns_bytes(data, w, h, b).len(),
    decreases b - a,
{
    if a < b {
        lemma_columns_bytes_grow(data, w, h, a, b - 1);
    }
}

proof fn lemma_encode_column_len(col: Seq<u16>, y: int)
    requires
        0 <= y <= col.len(),
    ensures
        encode_column(col, y).len() <= 1 + 5 * (col.len() - y),
    decreases col.len() - y,
{
    if y < col.len() {
        if col[y] == TRANSPARENT_INDEX {
            lemma_encode_column_len(col, y + 1);
        } else {
            lemma_opaque_run_bound(col, y);
            let n = post_len(col, y);
            assert(opaque_run(col, y) >= 1);
            assert(1 <= n);
            lemma_encode_column_len(col, y + n);
        }
    }
}

proof fn lemma_columns_bytes_len(data: Seq<u16>, w: int, h: int, n: int)
    requires
        0 <= n,
        0 <= h,
    ensures
        columns_bytes(data, w, h, n).len() <= n * (1 + 5 * h),
    decreases n,
{
    if n > 0 {
        lemma_columns_bytes_len(data, w, h, n - 1);
        lemma_encode_column_len(column_seq(data, w, h, n - 1), 0);
        assert((n - 1) * (1 + 5 * h) + (1 + 5 * h) == n * (1 + 5 * h)) by (nonlinear_arith);
    }
}

/// A picture up to [`MAX_DECODE_DIM`] columns wide always encodes to a lump whose length fits in
/// 32 bits: each column takes at most five bytes per row plus its terminator, and rows are capped
/// at [`MAX_PATCH_HEIGHT`].
pub proof fn lemma_encoded_patch_len(width: int, height: int, data: Seq<u16>)
    requires
        0 <= width <= MAX_DECODE_DIM,
        0 <= height,
    ensures
        encoded_patch(width, height, data).len() <= u32::MAX,
{
    let h = capped_height(height);
    lemma_offset_table_len(data, width, h, width);
    lemma_columns_bytes_len(data, width, h, width);
    assert(width * (1 + 5 * h) <= 4096 * 1271) by (nonlinear_arith)
        requires
            0 <= width <= 4096,
            0 <= h <= 254,
    ;
}


/// The posts of column `x`, as [`encode_column`] lays them out.
fn encode_column_vec(data: &[u16], width: usize, height: usize, x: usize) -> (col: Vec<u8>)
    requires
        height <= MAX_PATCH_HEIGHT,
        x < width,
        data@.len() >= width * height,
    ensures
        col@ == encode_column(column_seq(data@, width as int, height as int, x as int), 0),
{
    let ghost w = width as int;
    let ghost h = height as int;
    let dlen: usize = data.len();
    let ghost c = column_seq(data@, w, h, x as int);
    let mut col: Vec<u8> = Vec::new();
    let mut y: usize = 0;
    while y < height
        invariant
            w == width,
            h == height,
            h <= MAX_PATCH_HEIGHT,
            data@.len() >= w * h,
            dlen == data@.len(),
            x < width,
            c == column_seq(data@, w, h, x as int),
            y <= height,
            encode_column(c, 0) == col@ + encode_column(c, y as int),
        decreases height - y,
    {
        proof {
            lemma_row_major_index(w, h, x as int, y as int);
        }
        if data[y * width + x] == TRANSPARENT_INDEX {
            y = y + 1;
            continue;
        }
        let top: usize = y;
        while y < height
            invariant_except_break
                w == width,
                h == height,
                data@.len() >= w * h,
                dlen == data@.len(),
            dlen == data@.len(),
                x < width,
                c == column_seq(data@, w, h, x as int),
                top < height,
                top <= y <= height,
                top < height,
                c[top as int] != TRANSPARENT_INDEX,
                forall|r: int| top <= r < y ==> c[r] != TRANSPARENT_INDEX,
            ensures
                top < y <= height,
                forall|r: int| top <= r < y ==> c[r] != TRANSPARENT_INDEX,
                y < height ==> c[y as int] == TRANSPARENT_INDEX,
            decreases height - y,
        {
            proof {
                lemma_row_major_index(w, h, x as int, y as int);
            }
            if data[y * width + x] == TRANSPARENT_INDEX {
                break;
            }
            y = y + 1;
        }
        proof {
            lemma_opaque_run_step(c, top as int, y as int);
            assert(opaque_run(c, y as int) == 0);
        }
        let mut run: usize = top;
        while run < y
            invariant
                w == width,
                h == height,
                h <= MAX_PATCH_HEIGHT,
                data@.len() >= w * h,
                dlen == data@.len(),
            dlen == data@.len(),
                x < width,
                c == column_seq(data@, w, h, x as int),
                top <= run <= y,
                y <= height,
                forall|r: int| top <= r < y ==> c[r] != TRANSPARENT_INDEX,
                run < y ==> opaque_run(c, run as int) == y - run,
                y < c.len() ==> c[y as int] == TRANSPARENT_INDEX,
                encode_column(c, 0) == col@ + encode_column(c, run as int),
            decreases y - run,
        {
            let len: usize = if y - run > MAX_POST_LEN {
                MAX_POST_LEN
            } else {
                y - run
            };
            assert(len == post_len(c, run as int));
            let ghost prefix = col@;
            col.push(run as u8);
            col.push(len as u8);
            col.push(0u8);
            let mut row: usize = run;
            while row < run + len
                invariant
                    w == width,
                    h == height,
                    data@.len() >= w * h,
                    dlen == data@.len(),
                dlen == data@.len(),
            dlen == data@.len(),
                    x < width,
                    c == column_seq(data@, w, h, x as int),
                    run <= row <= run + len,
                    run + len <= y <= height,
                    col@ == prefix + seq![run as u8, len as u8, 0u8] + post_pixels(
                        c,
                        run as int,
                        row - run,
                    ),
                decreases run + len - row,
            {
                proof {
                    lemma_row_major_index(w, h, x as int, row as int);
                }
                col.push(data[row * width + x] as u8);
                row = row + 1;
                proof {
                    assert(col@ =~= prefix + seq![run as u8, len as u8, 0u8] + post_pixels(
                        c,
                        run as int,
                        row - run,
                    ));
                }
            }
            col.push(0u8);
            proof {
                let n = len as int;
                assert(encode_column(c, run as int) == seq![run as u8, n as u8, 0u8]
                    + post_pixels(c, run as int, n) + seq![0u8] + encode_column(c, run + n));
                assert(col@ + encode_column(c, run + n) =~= prefix + encode_column(
                    c,
                    run as int,
                ));
                if run + len < y {
                    lemma_opaque_run_step(c, (run + len) as int, y as int);
                }
            }
            run = run + len;
        }
    }
    proof {
        assert(encode_column(c, height as int) == seq![0xffu8]);
    }
    col.push(0xffu8);
    proof {
        assert(col@ =~= encode_column(c, 0));
    }
    col
}

/// Encode row-major palette indices as a Doom picture lump. Heights over
/// [`MAX_PATCH_HEIGHT`] are capped; opaque runs become posts of at most 128 pixels; only the
/// low byte of each opaque texel is written.
#[verifier::rlimit(60)]
pub fn encode_patch(width: usize, height: usize, data: &[u16]) -> (lump: Vec<u8>)
    requires
        data@.len() >= width * capped_height(height as int),
        encoded_patch(width as int, height as int, data@).len() <= u32::MAX,
    ensures
        lump@ == encoded_patch(width as int, height as int, data@),
{
    let height: usize = if height > MAX_PATCH_HEIGHT {
        MAX_PATCH_HEIGHT
    } else {
        height
    };
    let ghost w = width as int;
    let ghost h = height as int;
    proof {
        lemma_offset_table_len(data@, w, h, w);
    }
    let mut columns: Vec<Vec<u8>> = Vec::new();
    let mut x: usize = 0;
    while x < width
        invariant
            w == width,
            h == height,
            h <= MAX_PATCH_HEIGHT,
            data@.len() >= w * h,
            x <= width,
            columns@.len() == x,
            forall|x2: int|
                0 <= x2 < x ==> (#[trigger] columns@[x2])@ == encode_column(
                    column_seq(data@, w, h, x2),
                    0,
                ),
        decreases width - x,
    {
        let col: Vec<u8> = encode_column_vec(data, width, height, x);
        columns.push(col);
        x = x + 1;
    }
    assert(8 + 4 * w <= encoded_patch(w, height as int, data@).len());
    let table_start: usize = 8 + width * 4;
    let mut out: Vec<u8> = Vec::new();
    out.push((width % 256) as u8);
    out.push(((width / 256) % 256) as u8);
    out.push((height % 256) as u8);
    out.push(((height / 256) % 256) as u8);
    out.push(0u8);
    out.push(0u8);
    out.push(0u8);
    out.push(0u8);
    assert(out@ =~= patch_header(w, h));
    let mut offset: u32 = table_start as u32;
    let mut i: usize = 0;
    while i < width
        invariant
            w == width,
            h == height,
            table_start == 8 + 4 * w,
            columns@.len() == w,
            forall|x2: int|
                0 <= x2 < w ==> (#[trigger] columns@[x2])@ == encode_column(
                    column_seq(data@, w, h, x2),
                    0,
                ),
            i <= width,
            offset == table_start + columns_bytes(data@, w, h, i as int).len(),
            table_start + columns_bytes(data@, w, h, w).len() <= u32::MAX,
            out@ == patch_header(w, h) + offset_table(data@, w, h, i as int),
        decreases width - i,
    {
        let ghost before = out@;
        out.push((offset % 256) as u8);
        out.push(((offset / 256) % 256) as u8);
        out.push(((offset / 65536) % 256) as u8);
        out.push(((offset / 16777216) % 256) as u8);
        proof {
            lemma_columns_bytes_grow(data@, w, h, i + 1, w);
            assert(columns_bytes(data@, w, h, i + 1) == columns_bytes(data@, w, h, i as int)
                + columns@[i as int]@);
            assert(out@ =~= patch_header(w, h) + offset_table(data@, w, h, i + 1));
        }
        offset = offset + columns[i].len() as u32;
        i = i + 1;
    }
    let mut j: usize = 0;
    while j < width
        invariant
            w == width,
            h == height,
            columns@.len() == w,
            forall|x2: int|
                0 <= x2 < w ==> (#[trigger] columns@[x2])@ == encode_column(
                    column_seq(data@, w, h, x2),
                    0,
                ),
            j <= width,
            out@ == patch_header(w, h) + offset_table(data@, w, h, w) + columns_bytes(
                data@,
                w,
                h,
                j as int,
            ),
        decreases width - j,
    {
        let col: &Vec<u8> = &columns[j];
        let ghost before = out@;
        let mut k: usize = 0;
        while k < col.len()
            invariant
                k <= col@.len(),
                out@ == before + col@.subrange(0, k as int),
            decreases col@.len() - k,
        {
            out.push(col[k]);
            k = k + 1;
            proof {
                assert(out@ =~= before + col@.subrange(0, k as int));
            }
        }
        proof {
            assert(col@.subrange(0, col@.len() as int) =~= col@);
            assert(columns_bytes(data@, w, h, j + 1) == columns_bytes(data@, w, h, j as int)
                + columns@[j as int]@);
            assert(out@ =~= patch_header(w, h) + offset_table(data@, w, h, w) + columns_bytes(
                data@,
                w,
                h,
                j + 1,
            ));
        }
        j = j + 1;
    }
    out
}

// ---------------------------------------------------------------------------------------------
// Round trip.

proof fn lemma_le16_round_trip(v: int)
    requires
        0 <= v < 65536,
    ensures
        le16(le16_bytes(v), 0) == v,
{
    let b = le16_bytes(v);
    let u = v as u32;
    assert(((u % 256) + 256 * ((u / 256) % 256)) == u) by (bit_vector)
        requires u < 65536;
}

proof fn lemma_le32_round_trip(v: int)
    requires
        0 <= v <= u32::MAX,
    ensures
        le32(le32_bytes(v), 0) == v,
{
    let u = v as u32;
    assert(((u % 256) as int + 256 * ((u / 256) % 256) as int + 65536 * ((u / 65536) % 256) as int
        + 16777216 * ((u / 16777216) % 256) as int) == u) by (bit_vector);
}

proof fn lemma_opaque_run_members(col: Seq<u16>, y: int, r: int)
    requires
        0 <= y <= r < y + opaque_run(col, y),
    ensures
        r < col.len(),
        col[r] != TRANSPARENT_INDEX,
    decreases r - y,
{
    if r > y {
        lemma_opaque_run_members(col, y + 1, r);
    }
}

/// Columns whose opaque texels are palette indices survive the post format unchanged.
pub open spec fn byte_texels(col: Seq<u16>) -> bool {
    forall|r: int| 0 <= r < col.len() ==> #[trigger] col[r] == TRANSPARENT_INDEX || col[r] < 256
}

proof fn lemma_encode_column_nonempty(c: Seq<u16>, y: int)
    ensures
        encode_column(c, y).len() >= 1,
    decreases c.len() - y,
{
    if 0 <= y < c.len() {
        if c[y] == TRANSPARENT_INDEX {
            lemma_encode_column_nonempty(c, y + 1);
        } else {
            lemma_opaque_run_bound(c, y);
            lemma_encode_column_nonempty(c, y + post_len(c, y));
        }
    }
}

proof fn lemma_decode_encoded_column(lump: Seq<u8>, at: int, c: Seq<u16>, y: int, cur: Seq<u16>)
    requires
        0 <= y <= c.len(),
        c.len() <= MAX_PATCH_HEIGHT,
        byte_texels(c),
        cur.len() == c.len(),
        forall|r: int| 0 <= r < y ==> #[trigger] cur[r] == c[r],
        forall|r: int| y <= r < c.len() ==> #[trigger] cur[r] == TRANSPARENT_INDEX,
        0 <= at,
        at + encode_column(c, y).len() <= lump.len(),
        lump.subrange(at, at + encode_column(c, y).len()) == encode_column(c, y),
    ensures
        decode_column(lump, at, cur) == Some(c),
    decreases c.len() - y,
{
    let e = encode_column(c, y);
    if y == c.len() {
        assert(e == seq![0xffu8]);
        assert(lump[at] == e[0]);
        assert(cur =~= c);
    } else if c[y] == TRANSPARENT_INDEX {
        lemma_decode_encoded_column(lump, at, c, y + 1, cur);
    } else {
        let n = post_len(c, y);
        lemma_opaque_run_bound(c, y);
        let rest = encode_column(c, y + n);
        assert(e == seq![y as u8, n as u8, 0u8] + post_pixels(c, y, n) + seq![0u8] + rest);
        assert(e.len() == 4 + n + rest.len());
        lemma_encode_column_nonempty(c, y + n);
        assert(lump[at] == e[0]);
        assert(lump[at + 1] == e[1]);
        assert(lump[at] as int == y);
        assert(lump[at + 1] as int == n);
        assert(rows_in_column(y, n, c.len() as int) == n);
        let next = fill_post(cur, lump, at, y, n);
        assert forall|r: int| 0 <= r < y + n implies #[trigger] next[r] == c[r] by {
            if y <= r {
                lemma_opaque_run_members(c, y, r);
                assert(lump[at + 3 + r - y] == e[3 + r - y]);
                assert(e[3 + r - y] == post_pixels(c, y, n)[r - y]);
            }
        }
        assert forall|r: int| y + n <= r < c.len() implies #[trigger] next[r] == TRANSPARENT_INDEX by {
        }
        assert(lump.subrange(at + 4 + n, at + 4 + n + rest.len()) =~= rest) by {
            assert forall|i: int| 0 <= i < rest.len() implies lump.subrange(
                at + 4 + n,
                at + 4 + n + rest.len(),
            )[i] == rest[i] by {
                assert(lump[at + 4 + n + i] == e[4 + n + i]);
            }
        }
        lemma_decode_encoded_column(lump, at + 4 + n, c, y + n, next);
    }
}

proof fn lemma_columns_bytes_prefix(data: Seq<u16>, w: int, h: int, m: int, n: int)
    requires
        0 <= m <= n,
    ensures
        columns_bytes(data, w, h, m).len() <= columns_bytes(data, w, h, n).len(),
        columns_bytes(data, w, h, n).subrange(0, columns_bytes(data, w, h, m).len() as int)
            == columns_bytes(data, w, h, m),
    decreases n - m,
{
    if m < n {
        lemma_columns_bytes_prefix(data, w, h, m, n - 1);
        let a = columns_bytes(data, w, h, m);
        let b = columns_bytes(data, w, h, n - 1);
        let c = columns_bytes(data, w, h, n);
        assert(c == b + encode_column(column_seq(data, w, h, n - 1), 0));
        assert(c.subrange(0, a.len() as int) =~= b.subrange(0, a.len() as int));
    } else {
        let c = columns_bytes(data, w, h, n);
        assert(c.subrange(0, c.len() as int) =~= c);
    }
}

proof fn lemma_offset_table_entry(data: Seq<u16>, w: int, h: int, n: int, x: int, k: int)
    requires
        0 <= x < n,
        0 <= k < 4,
    ensures
        offset_table(data, w, h, n).len() == 4 * n,
        offset_table(data, w, h, n)[4 * x + k] == le32_bytes(
            8 + 4 * w + columns_bytes(data, w, h, x).len(),
        )[k],
    decreases n,
{
    lemma_offset_table_len(data, w, h, n);
    lemma_offset_table_len(data, w, h, n - 1);
    if x < n - 1 {
        lemma_offset_table_entry(data, w, h, n - 1, x, k);
    }
}

/// Decoding what [`encode_patch`] writes gives the picture back: the same width, the capped
/// height, and every texel of the kept rows. This holds for pictures the decoder accepts (at
/// most 4096 wide), whose opaque texels are palette indices (below 256), and whose lump fits
/// the 32-bit column offsets.
pub proof fn lemma_patch_round_trip(width: int, height: int, data: Seq<u16>)
    requires
        1 <= width <= MAX_DECODE_DIM,
        1 <= height,
        data.len() >= width * capped_height(height),
        forall|k: int|
            0 <= k < width * capped_height(height) ==> #[trigger] data[k] == TRANSPARENT_INDEX
                || data[k] < 256,
        encoded_patch(width, height, data).len() <= u32::MAX,
    ensures
        decodes_to(
            encoded_patch(width, height, data),
            width,
            capped_height(height),
            data.subrange(0, width * capped_height(height)),
        ),
{
    let h = capped_height(height);
    let w = width;
    let e = encoded_patch(width, height, data);
    let hdr = patch_header(w, h);
    let ot = offset_table(data, w, h, w);
    let cb = columns_bytes(data, w, h, w);
    let texels = data.subrange(0, w * h);
    lemma_offset_table_len(data, w, h, w);
    assert(e == hdr + ot + cb);
    assert(e.len() == 8 + 4 * w + cb.len());
    // Header.
    assert(le16(e, 0) == le16(le16_bytes(w), 0)) by {
        assert(e[0] == hdr[0] && e[1] == hdr[1]);
    }
    lemma_le16_round_trip(w);
    assert(le16(e, 2) == le16(le16_bytes(h), 0)) by {
        assert(e[2] == hdr[2] && e[3] == hdr[3]);
    }
    lemma_le16_round_trip(h);
    // Columns.
    assert forall|x: int| 0 <= x < w implies #[trigger] column_of(e, x, h) == Some(
        column_seq(data, w, h, x),
    ) by {
        let c = column_seq(data, w, h, x);
        let enc = encode_column(c, 0);
        let before = columns_bytes(data, w, h, x);
        let off = 8 + 4 * w + before.len();
        lemma_columns_bytes_prefix(data, w, h, x + 1, w);
        assert(columns_bytes(data, w, h, x + 1) == before + enc);
        assert(off + enc.len() <= e.len());
        assert forall|k: int| 0 <= k < 4 implies e[8 + 4 * x + k] == le32_bytes(off)[k] by {
            lemma_offset_table_entry(data, w, h, w, x, k);
            assert(e[8 + 4 * x + k] == ot[4 * x + k]);
        }
        assert(le32(e, 8 + 4 * x) == le32(le32_bytes(off), 0));
        lemma_le32_round_trip(off);
        assert(e.subrange(off, off + enc.len()) =~= enc) by {
            assert forall|i: int| 0 <= i < enc.len() implies e.subrange(off, off + enc.len())[i]
                == enc[i] by {
                assert(e[off + i] == cb[before.len() + i]);
                assert(cb[before.len() + i] == columns_bytes(data, w, h, x + 1)[before.len() + i]);
            }
        }
        assert forall|r: int| 0 <= r < c.len() implies #[trigger] c[r] == TRANSPARENT_INDEX
            || c[r] < 256 by {
            lemma_row_major_index(w, h, x, r);
            assert(data[r * w + x] == TRANSPARENT_INDEX || data[r * w + x] < 256);
        }
        assert(byte_texels(c));
        lemma_decode_encoded_column(e, off, c, 0, blank_column(h));
    }
    assert(texels.len() == w * h) by {
        assert(0 <= w * h) by (nonlinear_arith)
            requires 1 <= w, 1 <= h;
    }
    assert forall|x: int, y: int| 0 <= x < w && 0 <= y < h implies #[trigger] texel(
        texels,
        w,
        x,
        y,
    ) == column_of(e, x, h).unwrap()[y] by {
        lemma_row_major_index(w, h, x, y);
        assert(column_of(e, x, h) == Some(column_seq(data, w, h, x)));
    }
    assert forall|x: int| 0 <= x < header_width(e) implies #[trigger] column_of(
        e,
        x,
        header_height(e),
    ) is Some by {
        assert(column_of(e, x, h) == Some(column_seq(data, w, h, x)));
    }
}

} // verus!

//! Texture composition: the patches of a texture definition drawn, in order, into one wall
//! picture of palette indices.

use vstd::prelude::*;
use vstd::string::StringSliceAdditionalSpecFns;

use crate::atlas::{lemma_px_byte, px_byte, rgba_of, set_px};
use crate::palette::wad_color_to_rgba;
use crate::picture::{
    MISSING_PATCH_RGBA,
    column_of, decode_column, fill_post, decodable, decode_patch, header_height, header_width, WallPic, MISSING_PATCH_INDEX,
    TRANSPARENT_INDEX,
};

verus! {

/// A patch lump brought into the project; it shadows a WAD lump of the same name.
#[derive(Debug, Clone, PartialEq)]
pub struct ImportedPatch {
    pub name: String,
    pub lump: Vec<u8>,
}

/// One patch of a texture, with its top-left corner in texture space.
#[derive(Debug, Clone, PartialEq)]
pub struct PatchPlacement {
    pub patch: String,
    pub origin_x: i32,
    pub origin_y: i32,
}

/// A texture definition: its size and its patches, drawn in order.
#[derive(Debug, Clone, PartialEq)]
pub struct TextureDef {
    pub name: String,
    pub width: i32,
    pub height: i32,
    pub patches: Vec<PatchPlacement>,
}

/// ASCII lower case of a byte.
pub open spec fn ascii_lower(b: u8) -> u8 {
    if 65 <= b <= 90 {
        (b + 32) as u8
    } else {
        b
    }
}

/// Two byte strings match ignoring ASCII case.
pub open spec fn same_ignoring_case(a: Seq<u8>, b: Seq<u8>) -> bool {
    a.len() == b.len() && forall|i: int| 0 <= i < a.len() ==> ascii_lower(#[trigger] a[i]) == ascii_lower(b[i])
}

fn lower_byte(b: u8) -> (l: u8)
    ensures
        l == ascii_lower(b),
{
    if 65 <= b && b <= 90 {
        b + 32
    } else {
        b
    }
}

/// `str::eq_ignore_ascii_case`: the strings match byte for byte, ignoring ASCII case.
pub fn eq_ignore_ascii_case(a: &str, b: &str) -> (same: bool)
    ensures
        same == same_ignoring_case(a.spec_bytes(), b.spec_bytes()),
{
    let ab: &[u8] = a.as_bytes();
    let bb: &[u8] = b.as_bytes();
    if ab.len() != bb.len() {
        return false;
    }
    let mut i: usize = 0;
    while i < ab.len()
        invariant
            ab@ == a.spec_bytes(),
            bb@ == b.spec_bytes(),
            ab@.len() == bb@.len(),
            i <= ab@.len(),
            forall|j: int| 0 <= j < i ==> ascii_lower(#[trigger] ab@[j]) == ascii_lower(bb@[j]),
        decreases ab@.len() - i,
    {
        if lower_byte(ab[i]) != lower_byte(bb[i]) {
            return false;
        }
        i = i + 1;
    }
    true
}

/// Index of the first imported patch from `i` on whose name matches `name`.
pub open spec fn first_import_from(imported: Seq<ImportedPatch>, name: Seq<u8>, i: int) -> Option<int>
    decreases imported.len() - i,
{
    if i < 0 || i >= imported.len() {
        None
    } else if same_ignoring_case(vstd::utf8::encode_utf8(imported[i].name@), name) {
        Some(i)
    } else {
        first_import_from(imported, name, i + 1)
    }
}

/// The lump a patch name resolves to: the first matching imported patch, else the WAD's
/// lump of that name (`wad_lump`, looked up by the caller).
pub open spec fn resolved_lump(
    name: Seq<char>,
    imported: Seq<ImportedPatch>,
    wad_lump: Option<Seq<u8>>,
) -> Option<Seq<u8>> {
    match first_import_from(imported, vstd::utf8::encode_utf8(name), 0) {
        Some(i) => Some(imported[i].lump@),
        None => wad_lump,
    }
}

/// The bytes of an optional lump.
pub open spec fn opt_bytes(lump: Option<&[u8]>) -> Option<Seq<u8>> {
    match lump {
        Some(l) => Some(l@),
        None => None,
    }
}

/// Resolve a patch lump; imported patches shadow the WAD's lump (`wad_lump`).
pub fn resolve_patch_lump<'a>(
    name: &str,
    imported: &'a [ImportedPatch],
    wad_lump: Option<&'a [u8]>,
) -> (lump: Option<&'a [u8]>)
    ensures
        lump matches Some(l) ==> resolved_lump(name@, imported@, opt_bytes(wad_lump)) == Some(l@),
        lump is None ==> resolved_lump(name@, imported@, opt_bytes(wad_lump)) is None,
{
    let mut i: usize = 0;
    while i < imported.len()
        invariant
            i <= imported@.len(),
            first_import_from(imported@, name.spec_bytes(), 0) == first_import_from(
                imported@,
                name.spec_bytes(),
                i as int,
            ),
        decreases imported@.len() - i,
    {
        let p: &ImportedPatch = &imported[i];
        if eq_ignore_ascii_case(p.name.as_str(), name) {
            return Some(p.lump.as_slice());
        }
        i = i + 1;
    }
    wad_lump
}

/// Adds an imported patch to the project's list; refused, with the list unchanged, when a patch
/// of that name (ignoring ASCII case) is already imported.
pub fn import_patch(imported: &mut Vec<ImportedPatch>, patch: ImportedPatch) -> (r: Result<(), &'static str>)
    ensures
        first_import_from(old(imported)@, vstd::utf8::encode_utf8(patch.name@), 0) is Some ==> {
            &&& r matches Err(msg) && msg@ == "a patch with that name is already imported"@
            &&& final(imported)@ == old(imported)@
        },
        first_import_from(old(imported)@, vstd::utf8::encode_utf8(patch.name@), 0) is None ==> {
            &&& r is Ok
            &&& final(imported)@ == old(imported)@.push(patch)
        },
{
    let mut i: usize = 0;
    while i < imported.len()
        invariant
            i <= imported@.len(),
            first_import_from(imported@, vstd::utf8::encode_utf8(patch.name@), 0) == first_import_from(
                imported@,
                vstd::utf8::encode_utf8(patch.name@),
                i as int,
            ),
        decreases imported@.len() - i,
    {
        if eq_ignore_ascii_case(imported[i].name.as_str(), patch.name.as_str()) {
            return Err("a patch with that name is already imported");
        }
        i = i + 1;
    }
    imported.push(patch);
    Ok(())
}

/// The bytes of an optional owned lump.
pub open spec fn opt_vec_bytes(lump: Option<Vec<u8>>) -> Option<Seq<u8>> {
    match lump {
        Some(l) => Some(l@),
        None => None,
    }
}

/// Texel (`px`, `py`) of a decodable picture lump.
pub open spec fn lump_texel(lump: Seq<u8>, px: int, py: int) -> u16 {
    column_of(lump, px, header_height(lump)).unwrap()[py]
}

/// What a patch placed at (`ox`, `oy`) draws at texture texel (`tx`, `ty`): its opaque texel
/// there, if it has one.
pub open spec fn drawn_at(lump: Seq<u8>, ox: int, oy: int, tx: int, ty: int) -> Option<u16> {
    let px = tx - ox;
    let py = ty - oy;
    if 0 <= px < header_width(lump) && 0 <= py < header_height(lump) && lump_texel(lump, px, py)
        != TRANSPARENT_INDEX {
        Some(lump_texel(lump, px, py))
    } else {
        None
    }
}

/// The picture drawn for placement `k`: its resolved lump when that decodes, else `None`
/// (the patch is missing).
pub open spec fn placement_lump(
    def: TextureDef,
    imported: Seq<ImportedPatch>,
    wad_lumps: Seq<Option<Vec<u8>>>,
    k: int,
) -> Option<Seq<u8>> {
    match resolved_lump(def.patches@[k].patch@, imported, opt_vec_bytes(wad_lumps[k])) {
        Some(l) => if decodable(l) {
            Some(l)
        } else {
            None
        },
        None => None,
    }
}

/// Texel (`tx`, `ty`) after drawing the first `n` placements over a transparent texture: the
/// last opaque patch texel drawn there.
pub open spec fn composed(
    def: TextureDef,
    imported: Seq<ImportedPatch>,
    wad_lumps: Seq<Option<Vec<u8>>>,
    n: int,
    tx: int,
    ty: int,
) -> u16
    decreases n,
{
    if n <= 0 {
        TRANSPARENT_INDEX
    } else {
        let below = composed(def, imported, wad_lumps, n - 1, tx, ty);
        match placement_lump(def, imported, wad_lumps, n - 1) {
            Some(l) => match drawn_at(
                l,
                def.patches@[n - 1].origin_x as int,
                def.patches@[n - 1].origin_y as int,
                tx,
                ty,
            ) {
                Some(v) => v,
                None => below,
            },
            None => below,
        }
    }
}

/// What placement `k` of a texture draws at texel (`tx`, `ty`): the opaque texel of its
/// patch there, if the patch resolves and decodes and covers that texel.
pub open spec fn draws(
    def: TextureDef,
    imported: Seq<ImportedPatch>,
    wad_lumps: Seq<Option<Vec<u8>>>,
    k: int,
    tx: int,
    ty: int,
) -> Option<u16> {
    match placement_lump(def, imported, wad_lumps, k) {
        Some(l) => drawn_at(l, def.patches@[k].origin_x as int, def.patches@[k].origin_y as int, tx, ty),
        None => None,
    }
}

/// Patches draw in order, each over the ones before: a texel shows what the last placement
/// that draws there draws, and stays transparent where none does.
pub proof fn lemma_topmost_patch_wins(
    def: TextureDef,
    imported: Seq<ImportedPatch>,
    wad_lumps: Seq<Option<Vec<u8>>>,
    n: int,
    tx: int,
    ty: int,
)
    requires
        0 <= n,
    ensures
        (forall|k: int| 0 <= k < n ==> #[trigger] draws(def, imported, wad_lumps, k, tx, ty) is None)
            ==> composed(def, imported, wad_lumps, n, tx, ty) == TRANSPARENT_INDEX,
        forall|k: int|
            0 <= k < n && #[trigger] draws(def, imported, wad_lumps, k, tx, ty) is Some && (forall|j: int|
                k < j < n ==> draws(def, imported, wad_lumps, j, tx, ty) is None) ==> composed(
                def,
                imported,
                wad_lumps,
                n,
                tx,
                ty,
            ) == draws(def, imported, wad_lumps, k, tx, ty)->0,
    decreases n,
{
    if n > 0 {
        lemma_topmost_patch_wins(def, imported, wad_lumps, n - 1, tx, ty);
        assert forall|k: int|
            0 <= k < n && #[trigger] draws(def, imported, wad_lumps, k, tx, ty) is Some && (forall|j: int|
                k < j < n ==> draws(def, imported, wad_lumps, j, tx, ty) is None) implies composed(
            def,
            imported,
            wad_lumps,
            n,
            tx,
            ty,
        ) == draws(def, imported, wad_lumps, k, tx, ty)->0 by {
            if k < n - 1 {
                assert(draws(def, imported, wad_lumps, n - 1, tx, ty) is None);
                assert forall|j: int| k < j < n - 1 implies draws(def, imported, wad_lumps, j, tx, ty) is None by {
                    assert(k < j < n);
                }
            }
        }
        if forall|k: int| 0 <= k < n ==> #[trigger] draws(def, imported, wad_lumps, k, tx, ty) is None {
            assert(draws(def, imported, wad_lumps, n - 1, tx, ty) is None);
        }
    }
}

/// Some of the first `n` placements is missing.
pub open spec fn missing_any(
    def: TextureDef,
    imported: Seq<ImportedPatch>,
    wad_lumps: Seq<Option<Vec<u8>>>,
    n: int,
) -> bool {
    exists|k: int| 0 <= k < n && #[trigger] placement_lump(def, imported, wad_lumps, k) is None
}

/// The composed texel: what the patches draw; where they draw nothing, transparent, or the
/// missing-patch marker once any patch is missing.
pub open spec fn texture_texel(
    def: TextureDef,
    imported: Seq<ImportedPatch>,
    wad_lumps: Seq<Option<Vec<u8>>>,
    tx: int,
    ty: int,
) -> u16 {
    let n = def.patches@.len() as int;
    let c = composed(def, imported, wad_lumps, n, tx, ty);
    if c == TRANSPARENT_INDEX && missing_any(def, imported, wad_lumps, n) {
        MISSING_PATCH_INDEX
    } else {
        c
    }
}

/// A size below one texel counts as one.
pub open spec fn at_least_one(v: i32) -> int {
    if v < 1 {
        1
    } else {
        v as int
    }
}

/// Compose a texture to palette indices, column-major (`data[x*h + y]`): each patch, in
/// order, draws its opaque texels over the earlier ones, clipped to the texture. If any patch
/// lump is missing (or does not decode), every texel left uncovered becomes
/// [`MISSING_PATCH_INDEX`] instead of [`TRANSPARENT_INDEX`]. `wad_lumps[k]` is the WAD's lump
/// named by placement `k`, looked up by the caller.
pub fn compose_texture_indices(
    def: &TextureDef,
    imported: &[ImportedPatch],
    wad_lumps: &[Option<Vec<u8>>],
) -> (pic: WallPic)
    requires
        wad_lumps@.len() == def.patches@.len(),
        at_least_one(def.width) * at_least_one(def.height) <= usize::MAX,
    ensures
        pic.width == at_least_one(def.width),
        pic.height == at_least_one(def.height),
        pic.data@.len() == pic.width * pic.height,
        forall|tx: int, ty: int|
            0 <= tx < pic.width && 0 <= ty < pic.height ==> #[trigger] pic.data@[tx * pic.height + ty]
                == texture_texel(*def, imported@, wad_lumps@, tx, ty),
{
    let w: usize = if def.width < 1 { 1 } else { def.width as usize };
    let h: usize = if def.height < 1 { 1 } else { def.height as usize };
    let ghost wi = w as int;
    let ghost hi = h as int;
    let ghost d = *def;
    let ghost imp = imported@;
    let ghost wl = wad_lumps@;
    let mut data: Vec<u16> = vec![TRANSPARENT_INDEX; w * h];
    proof {
        assert forall|tx: int, ty: int| 0 <= tx < wi && 0 <= ty < hi implies #[trigger] data@[tx * hi + ty]
            == composed(d, imp, wl, 0, tx, ty) by {
            crate::picture::lemma_row_major_index(hi, wi, ty, tx);
            assert(hi * wi == wi * hi) by (nonlinear_arith);
        }
    }
    let mut any_missing: bool = false;
    let mut k: usize = 0;
    while k < def.patches.len()
        invariant
            d == *def,
            imp == imported@,
            wl == wad_lumps@,
            wl.len() == d.patches@.len(),
            wi == w,
            hi == h,
            1 <= w <= i32::MAX,
            1 <= h <= i32::MAX,
            w * h <= usize::MAX,
            k <= d.patches@.len(),
            data@.len() == wi * hi,
            forall|tx: int, ty: int|
                0 <= tx < wi && 0 <= ty < hi ==> #[trigger] data@[tx * hi + ty] == composed(
                    d,
                    imp,
                    wl,
                    k as int,
                    tx,
                    ty,
                ),
            any_missing == missing_any(d, imp, wl, k as int),
        decreases d.patches@.len() - k,
    {
        let placement: &PatchPlacement = &def.patches[k];
        let wad_lump: Option<&[u8]> = match &wad_lumps[k] {
            Some(v) => Some(v.as_slice()),
            None => None,
        };
        let lump: Option<&[u8]> = resolve_patch_lump(placement.patch.as_str(), imported, wad_lump);
        let patch = match lump {
            Some(l) => decode_patch(l),
            None => None,
        };
        proof {
            assert(opt_bytes(wad_lump) == opt_vec_bytes(wl[k as int]));
        }
        match patch {
            None => {
                any_missing = true;
                proof {
                    assert(placement_lump(d, imp, wl, k as int) is None);
                    assert forall|tx: int, ty: int| 0 <= tx < wi && 0 <= ty < hi implies #[trigger] data@[tx
                        * hi + ty] == composed(d, imp, wl, k + 1, tx, ty) by {
                    }
                }
            },
            Some(p) => {
                let ghost l = lump.unwrap()@;
                proof {
                    assert(placement_lump(d, imp, wl, k as int) == Some(l));
                }
                let ox: i64 = placement.origin_x as i64;
                let oy: i64 = placement.origin_y as i64;
                let pw: usize = p.width;
                let ph: usize = p.height;
                let mut py: usize = 0;
                while py < ph
                    invariant
                        d == *def,
                        imp == imported@,
                        wl == wad_lumps@,
                        k < d.patches@.len(),
                        placement_lump(d, imp, wl, k as int) == Some(l),
                        ox == d.patches@[k as int].origin_x,
                        oy == d.patches@[k as int].origin_y,
                        crate::picture::decodes_to(l, pw as int, ph as int, p.data@),
                        wi == w,
                        hi == h,
                        1 <= w <= i32::MAX,
                        1 <= h <= i32::MAX,
                        w * h <= usize::MAX,
                        py <= ph,
                        data@.len() == wi * hi,
                        forall|tx: int, ty: int|
                            0 <= tx < wi && 0 <= ty < hi ==> #[trigger] data@[tx * hi + ty] == (if ty
                                - oy < py {
                                composed(d, imp, wl, k + 1, tx, ty)
                            } else {
                                composed(d, imp, wl, k as int, tx, ty)
                            }),
                    decreases ph - py,
                {
                    let ty: i64 = oy + py as i64;
                    if ty < 0 || ty >= h as i64 {
                        proof {
                            assert forall|tx: int, ty2: int| 0 <= tx < wi && 0 <= ty2 < hi implies #[trigger] data@[
                                tx * hi + ty2] == (if ty2 - oy < py + 1 {
                                composed(d, imp, wl, k + 1, tx, ty2)
                            } else {
                                composed(d, imp, wl, k as int, tx, ty2)
                            }) by {
                            }
                        }
                        py = py + 1;
                        continue;
                    }
                    let mut px: usize = 0;
                    while px < pw
                        invariant
                            d == *def,
                            imp == imported@,
                            wl == wad_lumps@,
                            k < d.patches@.len(),
                            placement_lump(d, imp, wl, k as int) == Some(l),
                            ox == d.patches@[k as int].origin_x,
                            oy == d.patches@[k as int].origin_y,
                            crate::picture::decodes_to(l, pw as int, ph as int, p.data@),
                            wi == w,
                            hi == h,
                            1 <= w <= i32::MAX,
                            1 <= h <= i32::MAX,
                            w * h <= usize::MAX,
                            py < ph,
                            ty == oy + py,
                            0 <= ty < hi,
                            px <= pw,
                            data@.len() == wi * hi,
                            forall|tx: int, ty2: int|
                                0 <= tx < wi && 0 <= ty2 < hi ==> #[trigger] data@[tx * hi + ty2] == (if ty2
                                    - oy < py || (ty2 - oy == py && tx - ox < px) {
                                    composed(d, imp, wl, k + 1, tx, ty2)
                                } else {
                                    composed(d, imp, wl, k as int, tx, ty2)
                                }),
                        decreases pw - px,
                    {
                        let tx: i64 = ox + px as i64;
                        if tx >= 0 && tx < w as i64 {
                            proof {
                                crate::picture::lemma_row_major_index(pw as int, ph as int, px as int, py as int);
                                assert(pw * ph <= 4096 * 4096) by (nonlinear_arith)
                                    requires 1 <= pw <= 4096, 1 <= ph <= 4096;
                                crate::picture::lemma_row_major_index(hi, wi, ty as int, tx as int);
                            }
                            let index: u16 = p.data[py * pw + px];
                            proof {
                                assert(index == crate::picture::texel(p.data@, pw as int, px as int, py as int));
                                assert(index == lump_texel(l, px as int, py as int));
                            }
                            if index != TRANSPARENT_INDEX {
                                let at: usize = (tx as usize) * h + (ty as usize);
                                data.set(at, index);
                            }
                            proof {
                                assert forall|tx2: int, ty2: int| 0 <= tx2 < wi && 0 <= ty2 < hi implies #[trigger] data@[
                                    tx2 * hi + ty2] == (if ty2 - oy < py || (ty2 - oy == py && tx2 - ox
                                    < px + 1) {
                                    composed(d, imp, wl, k + 1, tx2, ty2)
                                } else {
                                    composed(d, imp, wl, k as int, tx2, ty2)
                                }) by {
                                    if tx2 != tx || ty2 != ty {
                                        crate::picture::lemma_row_major_index(hi, wi, ty2, tx2);
                                        if tx2 * hi + ty2 == tx * hi + ty {
                                            crate::picture::lemma_row_major_distinct(hi, ty2, tx2, ty as int, tx as int);
                                        }
                                    }
                                }
                            }
                        } else {
                            proof {
                                assert forall|tx2: int, ty2: int| 0 <= tx2 < wi && 0 <= ty2 < hi implies #[trigger] data@[
                                    tx2 * hi + ty2] == (if ty2 - oy < py || (ty2 - oy == py && tx2 - ox
                                    < px + 1) {
                                    composed(d, imp, wl, k + 1, tx2, ty2)
                                } else {
                                    composed(d, imp, wl, k as int, tx2, ty2)
                                }) by {
                                }
                            }
                        }
                        px = px + 1;
                    }
                    proof {
                        assert forall|tx2: int, ty2: int| 0 <= tx2 < wi && 0 <= ty2 < hi implies #[trigger] data@[
                            tx2 * hi + ty2] == (if ty2 - oy < py + 1 {
                            composed(d, imp, wl, k + 1, tx2, ty2)
                        } else {
                            composed(d, imp, wl, k as int, tx2, ty2)
                        }) by {
                        }
                    }
                    py = py + 1;
                }
                proof {
                    assert forall|tx2: int, ty2: int| 0 <= tx2 < wi && 0 <= ty2 < hi implies #[trigger] data@[
                        tx2 * hi + ty2] == composed(d, imp, wl, k + 1, tx2, ty2) by {
                    }
                    assert(placement_lump(d, imp, wl, k as int) is Some);
                    assert(missing_any(d, imp, wl, k + 1) == missing_any(d, imp, wl, k as int));
                }
            },
        }
        k = k + 1;
    }
    let ghost drawn = data@;
    if any_missing {
        let mut i: usize = 0;
        while i < data.len()
            invariant
                data@.len() == drawn.len(),
                i <= data@.len(),
                forall|j: int| 0 <= j < i ==> #[trigger] data@[j] == (if drawn[j] == TRANSPARENT_INDEX {
                    MISSING_PATCH_INDEX
                } else {
                    drawn[j]
                }),
                forall|j: int| i <= j < data@.len() ==> #[trigger] data@[j] == drawn[j],
            decreases data@.len() - i,
        {
            if data[i] == TRANSPARENT_INDEX {
                data.set(i, MISSING_PATCH_INDEX);
            }
            i = i + 1;
        }
    }
    proof {
        assert forall|tx: int, ty: int| 0 <= tx < wi && 0 <= ty < hi implies #[trigger] data@[tx * hi + ty]
            == texture_texel(d, imp, wl, tx, ty) by {
            crate::picture::lemma_row_major_index(hi, wi, ty, tx);
            assert(hi * wi == wi * hi) by (nonlinear_arith);
        }
    }
    WallPic { data, width: w, height: h }
}

/// Width and height of a patch, resolved as [`resolve_patch_lump`] does and decoded; `None`
/// when it is missing or does not decode.
pub fn patch_dims(imported: &[ImportedPatch], wad_lump: Option<&[u8]>, name: &str) -> (dims: Option<
    (usize, usize),
>)
    ensures
        dims == (match resolved_lump(name@, imported@, opt_bytes(wad_lump)) {
            Some(l) => if decodable(l) {
                Some((header_width(l) as usize, header_height(l) as usize))
            } else {
                None
            },
            None => None,
        }),
{
    let bytes: Option<&[u8]> = resolve_patch_lump(name, imported, wad_lump);
    match bytes {
        Some(b) => match decode_patch(b) {
            Some(patch) => Some((patch.width, patch.height)),
            None => None,
        },
        None => None,
    }
}

/// A texel value a picture can hold: transparent, or a palette index.
pub open spec fn picture_value(v: u16) -> bool {
    v == TRANSPARENT_INDEX || v < 256
}

proof fn lemma_column_values(lump: Seq<u8>, at: int, col: Seq<u16>)
    requires
        forall|y: int| 0 <= y < col.len() ==> picture_value(#[trigger] col[y]),
    ensures
        decode_column(lump, at, col) matches Some(c) ==> forall|y: int|
            0 <= y < c.len() ==> picture_value(#[trigger] c[y]),
    decreases lump.len() - at,
{
    if at >= 0 && at < lump.len() && lump[at] != 0xff && at + 1 < lump.len() {
        let top = lump[at] as int;
        let length = lump[at + 1] as int;
        let next = fill_post(col, lump, at, top, length);
        assert forall|y: int| 0 <= y < next.len() implies picture_value(#[trigger] next[y]) by {
            if top <= y < top + length {
                assert(next[y] == lump[at + 3 + y - top] as u16);
            }
        }
        if at + 4 + length < lump.len() {
            lemma_column_values(lump, at + 4 + length, next);
        }
    }
}

proof fn lemma_composed_values(
    def: TextureDef,
    imported: Seq<ImportedPatch>,
    wad_lumps: Seq<Option<Vec<u8>>>,
    n: int,
    tx: int,
    ty: int,
)
    ensures
        picture_value(composed(def, imported, wad_lumps, n, tx, ty)),
    decreases n,
{
    if n > 0 {
        lemma_composed_values(def, imported, wad_lumps, n - 1, tx, ty);
        match placement_lump(def, imported, wad_lumps, n - 1) {
            Some(l) => {
                let px = tx - def.patches@[n - 1].origin_x;
                let py = ty - def.patches@[n - 1].origin_y;
                if 0 <= px < header_width(l) && 0 <= py < header_height(l) {
                    let h = header_height(l);
                    assert(column_of(l, px, h) is Some);
                    let blank = crate::picture::blank_column(h);
                    assert forall|y: int| 0 <= y < blank.len() implies picture_value(#[trigger] blank[y]) by {
                    }
                    lemma_column_values(l, crate::picture::le32(l, 8 + 4 * px), blank);
                    assert(column_of(l, px, h).unwrap().len() == h) by {
                        lemma_column_len(l, crate::picture::le32(l, 8 + 4 * px), blank);
                    }
                }
            },
            None => {},
        }
    }
}

proof fn lemma_column_len(lump: Seq<u8>, at: int, col: Seq<u16>)
    ensures
        decode_column(lump, at, col) matches Some(c) ==> c.len() == col.len(),
    decreases lump.len() - at,
{
    if at >= 0 && at < lump.len() && lump[at] != 0xff && at + 1 < lump.len() {
        let top = lump[at] as int;
        let length = lump[at + 1] as int;
        if at + 4 + length < lump.len() {
            lemma_column_len(lump, at + 4 + length, fill_post(col, lump, at, top, length));
        }
    }
}

/// Genuine transparency survives only while every patch is present: with a patch missing no
/// texel is transparent, and with none missing no texel carries the missing-patch marker.
pub proof fn lemma_missing_marks_uncovered(
    def: TextureDef,
    imported: Seq<ImportedPatch>,
    wad_lumps: Seq<Option<Vec<u8>>>,
    tx: int,
    ty: int,
)
    ensures
        missing_any(def, imported, wad_lumps, def.patches@.len() as int) ==> texture_texel(
            def,
            imported,
            wad_lumps,
            tx,
            ty,
        ) != TRANSPARENT_INDEX,
        !missing_any(def, imported, wad_lumps, def.patches@.len() as int) ==> texture_texel(
            def,
            imported,
            wad_lumps,
            tx,
            ty,
        ) != MISSING_PATCH_INDEX,
{
    lemma_composed_values(def, imported, wad_lumps, def.patches@.len() as int, tx, ty);
}

// ---------------------------------------------------------------------------------------------
// Texture-editor preview.

/// Stroke colour of the highlighted patch's bounds.
pub const PATCH_HIGHLIGHT: [u8; 4] = [0xff, 0xe0, 0x40, 0xff];

/// RGBA of a preview texel: clear when transparent, magenta for a missing patch, else its
/// opaque palette colour (indices taken modulo 256).
pub open spec fn preview_rgba(index: u16, palette: Seq<u32>) -> Seq<u8> {
    if index == TRANSPARENT_INDEX {
        seq![0u8, 0u8, 0u8, 0u8]
    } else if index == MISSING_PATCH_INDEX {
        MISSING_PATCH_RGBA@
    } else {
        rgba_of(palette[(index & 0xffu16) as int])
    }
}

pub(crate) fn put_palette_color(img: &mut Vec<u8>, w: usize, x: usize, y: usize, palette: &[u32; 256], index: u16)
    requires
        w >= 1,
        x < w,
        (y * w + x) * 4 + 4 <= old(img)@.len(),
    ensures
        final(img)@.len() == old(img)@.len(),
        forall|c: int| 0 <= c < 4 ==> final(img)@[#[trigger] px_byte(w as int, x as int, y as int, c)]
            == preview_rgba(index, palette@)[c],
        forall|k: int|
            0 <= k < old(img)@.len() && k / 4 != y * w + x ==> #[trigger] final(img)@[k] == old(img)@[k],
{
    let px: [u8; 4] = if index == TRANSPARENT_INDEX {
        [0u8, 0u8, 0u8, 0u8]
    } else if index == MISSING_PATCH_INDEX {
        MISSING_PATCH_RGBA
    } else {
        let i: u16 = index & 0xff;
        assert(i < 256) by (bit_vector)
            requires i == index & 0xff;
        wad_color_to_rgba(palette[i as usize])
    };
    proof {
        assert(px@ =~= preview_rgba(index, palette@));
    }
    set_px(img, w, x, y, px);
}

/// A real palette index (neither marker).
pub open spec fn real_index(index: u16) -> bool {
    index != TRANSPARENT_INDEX && index != MISSING_PATCH_INDEX
}

/// The preview index of a texel: a real index passed through the light level's colormap when
/// one is given.
pub open spec fn shaded_index(index: u16, colormap: Option<Seq<u8>>) -> u16 {
    match colormap {
        Some(cm) => if real_index(index) {
            cm[(index & 0xffu16) as int] as u16
        } else {
            index
        },
        None => index,
    }
}

/// The highlight rectangle, clamped to the `w` x `h` texture: `(x0, y0, x1, y1)`.
pub open spec fn highlight_box(ox: int, oy: int, pw: int, ph: int, w: int, h: int) -> (int, int, int, int) {
    (clamp(ox, 0, w), clamp(oy, 0, h), clamp(ox + pw, 0, w), clamp(oy + ph, 0, h))
}

pub open spec fn clamp(v: int, lo: int, hi: int) -> int {
    if v < lo {
        lo
    } else if v > hi {
        hi
    } else {
        v
    }
}

/// Texel (`x`, `y`) is on the stroke of the box: its top row `y0` and bottom row `y1 - 1`
/// over `x0..x1`, its left column `x0` and right column `x1 - 1` over `y0..y1`.
pub open spec fn on_stroke(b: (int, int, int, int), x: int, y: int) -> bool {
    ||| (b.0 <= x < b.2 && (y == b.1 || y == b.3 - 1))
    ||| (b.1 <= y < b.3 && (x == b.0 || x == b.2 - 1))
}

/// The placement whose bounds are stroked: the highlighted one, when it exists and its patch
/// resolves and decodes; its box in texture space.
pub open spec fn stroke_box(
    def: TextureDef,
    imported: Seq<ImportedPatch>,
    wad_lumps: Seq<Option<Vec<u8>>>,
    highlight: Option<usize>,
) -> Option<(int, int, int, int)> {
    match highlight {
        Some(hi) => if hi < def.patches@.len() {
            match placement_lump(def, imported, wad_lumps, hi as int) {
                Some(l) => Some(
                    highlight_box(
                        def.patches@[hi as int].origin_x as int,
                        def.patches@[hi as int].origin_y as int,
                        header_width(l),
                        header_height(l),
                        at_least_one(def.width),
                        at_least_one(def.height),
                    ),
                ),
                None => None,
            }
        } else {
            None
        },
        None => None,
    }
}

/// RGBA of preview texel (`x`, `y`) before any stroke.
pub open spec fn preview_base(
    def: TextureDef,
    imported: Seq<ImportedPatch>,
    wad_lumps: Seq<Option<Vec<u8>>>,
    palette: Seq<u32>,
    colormap: Option<Seq<u8>>,
    x: int,
    y: int,
) -> Seq<u8> {
    preview_rgba(shaded_index(texture_texel(def, imported, wad_lumps, x, y), colormap), palette)
}

/// RGBA of preview texel (`x`, `y`).
pub open spec fn preview_texel(
    def: TextureDef,
    imported: Seq<ImportedPatch>,
    wad_lumps: Seq<Option<Vec<u8>>>,
    palette: Seq<u32>,
    highlight: Option<usize>,
    colormap: Option<Seq<u8>>,
    x: int,
    y: int,
) -> Seq<u8> {
    match stroke_box(def, imported, wad_lumps, highlight) {
        Some(b) => if on_stroke(b, x, y) {
            PATCH_HIGHLIGHT@
        } else {
            preview_base(def, imported, wad_lumps, palette, colormap, x, y)
        },
        None => preview_base(def, imported, wad_lumps, palette, colormap, x, y),
    }
}

/// The bytes of an optional colormap.
pub open spec fn opt_map(colormap: Option<&[u8]>) -> Option<Seq<u8>> {
    match colormap {
        Some(c) => Some(c@),
        None => None,
    }
}

/// Texture-editor preview as row-major RGBA (`w` x `h`, the composed texture's size): the
/// composed texture (so the preview matches the canvas), real indices shaded through the
/// light level's `colormap` when one is given, missing patches magenta, transparency clear;
/// with `highlight`, the bounds of that placement's patch stroked in [`PATCH_HIGHLIGHT`].
pub fn compose_texture_highlight(
    def: &TextureDef,
    imported: &[ImportedPatch],
    wad_lumps: &[Option<Vec<u8>>],
    palette: &[u32; 256],
    highlight: Option<usize>,
    colormap: Option<&[u8]>,
) -> (rgba: Vec<u8>)
    requires
        wad_lumps@.len() == def.patches@.len(),
        at_least_one(def.width) * at_least_one(def.height) * 4 <= usize::MAX,
        colormap matches Some(cm) ==> cm@.len() >= 256,
    ensures
        rgba@.len() == at_least_one(def.width) * at_least_one(def.height) * 4,
        forall|x: int, y: int, c: int|
            0 <= x < at_least_one(def.width) && 0 <= y < at_least_one(def.height) && 0 <= c < 4
                ==> rgba@[#[trigger] px_byte(at_least_one(def.width), x, y, c)] == preview_texel(
                *def,
                imported@,
                wad_lumps@,
                palette@,
                highlight,
                opt_map(colormap),
                x,
                y,
            )[c],
{
    let pic: WallPic = compose_texture_indices(def, imported, wad_lumps);
    let w: usize = pic.width;
    let h: usize = pic.height;
    let ghost wi = w as int;
    let ghost hi = h as int;
    let ghost d = *def;
    proof {
        assert(wi * hi * 4 >= 0) by (nonlinear_arith)
            requires wi >= 1, hi >= 1;
    }
    let mut buf: Vec<u8> = vec![0u8; w * h * 4];
    let mut y: usize = 0;
    while y < h
        invariant
            d == *def,
            wi == w,
            hi == h,
            w == at_least_one(def.width),
            h == at_least_one(def.height),
            1 <= w <= i32::MAX,
            1 <= h <= i32::MAX,
            wi * hi * 4 <= usize::MAX,
            pic.data@.len() == wi * hi,
            forall|tx: int, ty: int|
                0 <= tx < wi && 0 <= ty < hi ==> #[trigger] pic.data@[tx * hi + ty] == texture_texel(
                    d,
                    imported@,
                    wad_lumps@,
                    tx,
                    ty,
                ),
            colormap matches Some(cm) ==> cm@.len() >= 256,
            y <= h,
            buf@.len() == wi * hi * 4,
            forall|x2: int, y2: int, c: int|
                0 <= x2 < wi && 0 <= y2 < y && 0 <= c < 4 ==> buf@[#[trigger] px_byte(wi, x2, y2, c)]
                    == preview_base(d, imported@, wad_lumps@, palette@, opt_map(colormap), x2, y2)[c],
        decreases h - y,
    {
        let mut x: usize = 0;
        while x < w
            invariant
                d == *def,
                wi == w,
                hi == h,
                w == at_least_one(def.width),
                h == at_least_one(def.height),
                1 <= w <= i32::MAX,
                1 <= h <= i32::MAX,
                wi * hi * 4 <= usize::MAX,
                pic.data@.len() == wi * hi,
                forall|tx: int, ty: int|
                    0 <= tx < wi && 0 <= ty < hi ==> #[trigger] pic.data@[tx * hi + ty] == texture_texel(
                        d,
                        imported@,
                        wad_lumps@,
                        tx,
                        ty,
                    ),
                colormap matches Some(cm) ==> cm@.len() >= 256,
                y < h,
                x <= w,
                buf@.len() == wi * hi * 4,
                forall|x2: int, y2: int, c: int|
                    0 <= x2 < wi && 0 <= y2 && 0 <= c < 4 && (y2 < y || (y2 == y && x2 < x)) ==> buf@[
                        #[trigger] px_byte(wi, x2, y2, c)] == preview_base(d, imported@, wad_lumps@, palette@, opt_map(colormap), x2, y2)[c],
            decreases w - x,
        {
            proof {
                crate::picture::lemma_row_major_index(hi, wi, y as int, x as int);
                assert(hi * wi == wi * hi) by (nonlinear_arith);
                assert((y * wi + x) * 4 + 4 <= wi * hi * 4) by (nonlinear_arith)
                    requires x < wi, y < hi;
            }
            let index: u16 = pic.data[x * h + y];
            let shaded: u16 = match colormap {
                Some(cm) => if index != TRANSPARENT_INDEX && index != MISSING_PATCH_INDEX {
                    let i: u16 = index & 0xff;
                    assert(i < 256) by (bit_vector)
                        requires i == index & 0xff;
                    cm[i as usize] as u16
                } else {
                    index
                },
                None => index,
            };
            proof {
                assert(index == texture_texel(d, imported@, wad_lumps@, x as int, y as int));
                assert(shaded == shaded_index(index, opt_map(colormap)));
            }
            let ghost before = buf@;
            put_palette_color(&mut buf, w, x, y, palette, shaded);
            proof {
                assert forall|x2: int, y2: int, c: int|
                    0 <= x2 < wi && 0 <= y2 && 0 <= c < 4 && (y2 < y || (y2 == y && x2 < x + 1)) implies buf@[
                    #[trigger] px_byte(wi, x2, y2, c)] == preview_base(d, imported@, wad_lumps@, palette@, opt_map(colormap), x2, y2)[c] by {
                    if x2 != x || y2 != y {
                        lemma_px_byte(wi, x2, y2, c);
                        assert(y2 * wi + x2 != y * wi + x) by (nonlinear_arith)
                            requires 0 <= x2 < wi, 0 <= x < wi, x2 != x || y2 != y, 0 <= y2, 0 <= y;
                        assert(px_byte(wi, x2, y2, c) < wi * hi * 4) by (nonlinear_arith)
                            requires 0 <= x2 < wi, 0 <= y2 <= y, y < hi, 0 <= c < 4, px_byte(wi, x2, y2, c) == (y2 * wi + x2) * 4 + c;
                    }
                }
            }
            x = x + 1;
        }
        y = y + 1;
    }
    // Stroke the highlighted placement's bounds.
    if let Some(hl) = highlight {
        if hl < def.patches.len() {
            let placement: &PatchPlacement = &def.patches[hl];
            let wad_lump: Option<&[u8]> = match &wad_lumps[hl] {
                Some(v) => Some(v.as_slice()),
                None => None,
            };
            proof {
                assert(opt_bytes(wad_lump) == opt_vec_bytes(wad_lumps@[hl as int]));
            }
            if let Some((pw, ph)) = patch_dims(imported, wad_lump, placement.patch.as_str()) {
                let ghost b = stroke_box(d, imported@, wad_lumps@, highlight).unwrap();
                let wl: i64 = w as i64;
                let hl64: i64 = h as i64;
                let x0: i64 = clamp_i64(placement.origin_x as i64, 0, wl);
                let y0: i64 = clamp_i64(placement.origin_y as i64, 0, hl64);
                let x1: i64 = clamp_i64(placement.origin_x as i64 + pw as i64, 0, wl);
                let y1: i64 = clamp_i64(placement.origin_y as i64 + ph as i64, 0, hl64);
                proof {
                    assert(b == (x0 as int, y0 as int, x1 as int, y1 as int));
                }
                stroke_box_edges(&mut buf, w, h, x0, y0, x1, y1);
                proof {
                    assert forall|x: int, y: int, c: int|
                        0 <= x < wi && 0 <= y < hi && 0 <= c < 4 implies buf@[#[trigger] px_byte(wi, x, y, c)]
                        == preview_texel(d, imported@, wad_lumps@, palette@, highlight, opt_map(colormap), x, y)[c] by {
                    }
                }
                return buf;
            }
        }
    }
    proof {
        assert forall|x: int, y: int, c: int|
            0 <= x < wi && 0 <= y < hi && 0 <= c < 4 implies buf@[#[trigger] px_byte(wi, x, y, c)]
            == preview_texel(d, imported@, wad_lumps@, palette@, highlight, opt_map(colormap), x, y)[c] by {
        }
    }
    buf
}

fn clamp_i64(v: i64, lo: i64, hi: i64) -> (r: i64)
    requires
        lo <= hi,
    ensures
        r == clamp(v as int, lo as int, hi as int),
{
    if v < lo {
        lo
    } else if v > hi {
        hi
    } else {
        v
    }
}

/// Paint [`PATCH_HIGHLIGHT`] on the texels of the box's stroke that lie in the `w` x `h`
/// image.
fn stroke_box_edges(buf: &mut Vec<u8>, w: usize, h: usize, x0: i64, y0: i64, x1: i64, y1: i64)
    requires
        1 <= w <= i32::MAX,
        1 <= h <= i32::MAX,
        old(buf)@.len() == w * h * 4,
        0 <= x0 <= w,
        0 <= x1 <= w,
        0 <= y0 <= h,
        0 <= y1 <= h,
    ensures
        final(buf)@.len() == old(buf)@.len(),
        forall|x: int, y: int, c: int|
            0 <= x < w && 0 <= y < h && 0 <= c < 4 ==> final(buf)@[#[trigger] px_byte(w as int, x, y, c)] == (
            if on_stroke((x0 as int, y0 as int, x1 as int, y1 as int), x, y) {
                PATCH_HIGHLIGHT@[c]
            } else {
                old(buf)@[px_byte(w as int, x, y, c)]
            }),
{
    let ghost start = buf@;
    let ghost b = (x0 as int, y0 as int, x1 as int, y1 as int);
    let ghost wi = w as int;
    let ghost hi = h as int;
    // Top and bottom rows.
    let mut x: i64 = x0;
    while x < x1
        invariant
            wi == w,
            hi == h,
            1 <= w <= i32::MAX,
            1 <= h <= i32::MAX,
            0 <= x0 <= w,
            0 <= x1 <= w,
            0 <= y0 <= h,
            0 <= y1 <= h,
            x0 < x1 ==> x0 <= x <= x1,
            x1 <= x0 ==> x == x0,
            buf@.len() == start.len(),
            start.len() == wi * hi * 4,
            forall|x2: int, y2: int, c: int|
                0 <= x2 < wi && 0 <= y2 < hi && 0 <= c < 4 ==> buf@[#[trigger] px_byte(wi, x2, y2, c)] == (
                if x0 <= x2 < x && (y2 == y0 || y2 == y1 - 1) {
                    PATCH_HIGHLIGHT@[c]
                } else {
                    start[px_byte(wi, x2, y2, c)]
                }),
        decreases x1 - x,
    {
        let ghost before = buf@;
        plot(buf, w, h, x, y0);
        let ghost mid = buf@;
        plot(buf, w, h, x, y1 - 1);
        proof {
            assert forall|x2: int, y2: int, c: int|
                0 <= x2 < wi && 0 <= y2 < hi && 0 <= c < 4 implies buf@[#[trigger] px_byte(wi, x2, y2, c)] == (
                if x0 <= x2 < x + 1 && (y2 == y0 || y2 == y1 - 1) {
                    PATCH_HIGHLIGHT@[c]
                } else {
                    start[px_byte(wi, x2, y2, c)]
                }) by {
                lemma_px_byte(wi, x2, y2, c);
            }
        }
        x = x + 1;
    }
    let ghost rows = buf@;
    // Left and right columns.
    let mut y: i64 = y0;
    while y < y1
        invariant
            wi == w,
            hi == h,
            1 <= w <= i32::MAX,
            1 <= h <= i32::MAX,
            0 <= x0 <= w,
            0 <= x1 <= w,
            0 <= y0 <= h,
            0 <= y1 <= h,
            y0 < y1 ==> y0 <= y <= y1,
            y1 <= y0 ==> y == y0,
            buf@.len() == start.len(),
            start.len() == wi * hi * 4,
            forall|x2: int, y2: int, c: int|
                0 <= x2 < wi && 0 <= y2 < hi && 0 <= c < 4 ==> rows[#[trigger] px_byte(wi, x2, y2, c)] == (
                if x0 <= x2 < x1 && (y2 == y0 || y2 == y1 - 1) {
                    PATCH_HIGHLIGHT@[c]
                } else {
                    start[px_byte(wi, x2, y2, c)]
                }),
            forall|x2: int, y2: int, c: int|
                0 <= x2 < wi && 0 <= y2 < hi && 0 <= c < 4 ==> buf@[#[trigger] px_byte(wi, x2, y2, c)] == (
                if y0 <= y2 < y && (x2 == x0 || x2 == x1 - 1) {
                    PATCH_HIGHLIGHT@[c]
                } else {
                    rows[px_byte(wi, x2, y2, c)]
                }),
        decreases y1 - y,
    {
        plot(buf, w, h, x0, y);
        plot(buf, w, h, x1 - 1, y);
        proof {
            assert forall|x2: int, y2: int, c: int|
                0 <= x2 < wi && 0 <= y2 < hi && 0 <= c < 4 implies buf@[#[trigger] px_byte(wi, x2, y2, c)] == (
                if y0 <= y2 < y + 1 && (x2 == x0 || x2 == x1 - 1) {
                    PATCH_HIGHLIGHT@[c]
                } else {
                    rows[px_byte(wi, x2, y2, c)]
                }) by {
                lemma_px_byte(wi, x2, y2, c);
            }
        }
        y = y + 1;
    }
    proof {
        assert forall|x2: int, y2: int, c: int|
            0 <= x2 < wi && 0 <= y2 < hi && 0 <= c < 4 implies buf@[#[trigger] px_byte(wi, x2, y2, c)] == (
            if on_stroke(b, x2, y2) {
                PATCH_HIGHLIGHT@[c]
            } else {
                start[px_byte(wi, x2, y2, c)]
            }) by {
        }
    }
}

/// Paint texel (`x`, `y`) in [`PATCH_HIGHLIGHT`] when it lies in the `w` x `h` image.
fn plot(buf: &mut Vec<u8>, w: usize, h: usize, x: i64, y: i64)
    requires
        1 <= w <= i32::MAX,
        1 <= h <= i32::MAX,
        old(buf)@.len() == w * h * 4,
    ensures
        final(buf)@.len() == old(buf)@.len(),
        forall|x2: int, y2: int, c: int|
            0 <= x2 < w && 0 <= y2 < h && 0 <= c < 4 ==> final(buf)@[#[trigger] px_byte(w as int, x2, y2, c)] == (
            if x2 == x && y2 == y {
                PATCH_HIGHLIGHT@[c]
            } else {
                old(buf)@[px_byte(w as int, x2, y2, c)]
            }),
{
    if x >= 0 && x < w as i64 && y >= 0 && y < h as i64 {
        let ghost before = buf@;
        proof {
            assert(((y as int) * w + x) * 4 + 4 <= w * h * 4) by (nonlinear_arith)
                requires 0 <= x < w, 0 <= y < h;
        }
        set_px(buf, w, x as usize, y as usize, PATCH_HIGHLIGHT);
        proof {
            assert forall|x2: int, y2: int, c: int|
                0 <= x2 < w && 0 <= y2 < h && 0 <= c < 4 implies buf@[#[trigger] px_byte(w as int, x2, y2, c)] == (
                if x2 == x && y2 == y {
                    PATCH_HIGHLIGHT@[c]
                } else {
                    before[px_byte(w as int, x2, y2, c)]
                }) by {
                lemma_px_byte(w as int, x2, y2, c);
                if x2 != x || y2 != y {
                    assert(y2 * w + x2 != y * w + x) by (nonlinear_arith)
                        requires 0 <= x2 < w, 0 <= x < w, x2 != x || y2 != y, 0 <= y2, 0 <= y;
                    assert(px_byte(w as int, x2, y2, c) < w * h * 4) by (nonlinear_arith)
                        requires 0 <= x2 < w, 0 <= y2 < h, 0 <= c < 4, px_byte(w as int, x2, y2, c) == (y2 * w + x2) * 4 + c;
                }
            }
        }
    } else {
        proof {
            assert(!(0 <= x < w && 0 <= y < h));
        }
    }
}

} // verus!

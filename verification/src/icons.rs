//! Thing icons: which picture a thing kind shows, finding its sprite lump, and decoding it to
//! RGBA for the sprite cache.

use vstd::prelude::*;
use vstd::string::{StrSliceExecFns, StringExecFns};

use crate::compose::{preview_rgba, put_palette_color};
use crate::picture::{decodable, decode_patch, header_height, header_width, PatchImage};
use crate::render::SpriteSource;
use crate::sprites::{SpriteRgba, ThingSpriteCache};
use crate::things::{default_things, default_things_table, ThingType};

verus! {

/// Index of the first name equal to `target` among `names[lo..hi]`.
pub open spec fn first_named(names: Seq<Seq<char>>, target: Seq<char>, lo: int, hi: int) -> Option<int>
    decreases hi - lo,
{
    if lo >= hi || lo < 0 || hi > names.len() {
        None
    } else if names[lo] == target {
        Some(lo)
    } else {
        first_named(names, target, lo + 1, hi)
    }
}

/// `p` is a prefix of `s`.
pub open spec fn has_prefix(s: Seq<char>, p: Seq<char>) -> bool {
    p.len() <= s.len() && s.subrange(0, p.len() as int) == p
}

/// Index of the first name starting with `p` among `names[lo..hi]`.
pub open spec fn first_prefixed(names: Seq<Seq<char>>, p: Seq<char>, lo: int, hi: int) -> Option<int>
    decreases hi - lo,
{
    if lo >= hi || lo < 0 || hi > names.len() {
        None
    } else if has_prefix(names[lo], p) {
        Some(lo)
    } else {
        first_prefixed(names, p, lo + 1, hi)
    }
}

/// The frame-`A` sprite lump for `prefix` between the `S_START` and `S_END` markers (the first
/// of each): `<prefix>A1`, else `<prefix>A0`, else any name starting `<prefix>A`.
pub open spec fn sprite_lump_of(names: Seq<Seq<char>>, prefix: Seq<char>) -> Option<int> {
    match (first_named(names, "S_START"@, 0, names.len() as int), first_named(names, "S_END"@, 0, names.len() as int)) {
        (Some(start), Some(end)) => if end <= start + 1 {
            None
        } else {
            let frame_a = prefix + "A"@;
            match first_named(names, frame_a + "1"@, start + 1, end) {
                Some(i) => Some(i),
                None => match first_named(names, frame_a + "0"@, start + 1, end) {
                    Some(i) => Some(i),
                    None => first_prefixed(names, frame_a, start + 1, end),
                },
            }
        },
        _ => None,
    }
}

/// The texts of some strings.
pub open spec fn names_view(names: Seq<String>) -> Seq<Seq<char>> {
    names.map_values(|s: String| s@)
}

fn find_named(names: &[String], target: &String, lo: usize, hi: usize) -> (at: Option<usize>)
    requires
        lo <= hi <= names@.len(),
    ensures
        match at {
            Some(i) => first_named(names_view(names@), target@, lo as int, hi as int) == Some(i as int),
            None => first_named(names_view(names@), target@, lo as int, hi as int) is None,
        },
{
    let ghost nv = names_view(names@);
    let mut i: usize = lo;
    while i < hi
        invariant
            nv == names_view(names@),
            lo <= i <= hi <= names@.len(),
            first_named(nv, target@, lo as int, hi as int) == first_named(nv, target@, i as int, hi as int),
        decreases hi - i,
    {
        proof {
            assert(nv[i as int] == names@[i as int]@);
        }
        if names[i] == *target {
            return Some(i);
        }
        i = i + 1;
    }
    None
}

fn starts_with(s: &String, p: &String) -> (yes: bool)
    ensures
        yes == has_prefix(s@, p@),
{
    let n: usize = p.as_str().unicode_len();
    let m: usize = s.as_str().unicode_len();
    if n > m {
        return false;
    }
    let mut i: usize = 0;
    while i < n
        invariant
            n == p@.len(),
            m == s@.len(),
            n <= m,
            i <= n,
            forall|j: int| 0 <= j < i ==> s@[j] == p@[j],
        decreases n - i,
    {
        if s.as_str().get_char(i) != p.as_str().get_char(i) {
            proof {
                assert(s@.subrange(0, n as int)[i as int] != p@[i as int]);
            }
            return false;
        }
        i = i + 1;
    }
    proof {
        assert(s@.subrange(0, n as int) =~= p@);
    }
    true
}

fn find_prefixed(names: &[String], p: &String, lo: usize, hi: usize) -> (at: Option<usize>)
    requires
        lo <= hi <= names@.len(),
    ensures
        match at {
            Some(i) => first_prefixed(names_view(names@), p@, lo as int, hi as int) == Some(i as int),
            None => first_prefixed(names_view(names@), p@, lo as int, hi as int) is None,
        },
{
    let ghost nv = names_view(names@);
    let mut i: usize = lo;
    while i < hi
        invariant
            nv == names_view(names@),
            lo <= i <= hi <= names@.len(),
            first_prefixed(nv, p@, lo as int, hi as int) == first_prefixed(nv, p@, i as int, hi as int),
        decreases hi - i,
    {
        proof {
            assert(nv[i as int] == names@[i as int]@);
        }
        if starts_with(&names[i], p) {
            return Some(i);
        }
        i = i + 1;
    }
    None
}

proof fn lemma_first_named_in_range(names: Seq<Seq<char>>, target: Seq<char>, lo: int, hi: int)
    ensures
        first_named(names, target, lo, hi) matches Some(i) ==> lo <= i < hi,
    decreases hi - lo,
{
    if lo < hi && lo >= 0 && hi <= names.len() && names[lo] != target {
        lemma_first_named_in_range(names, target, lo + 1, hi);
    }
}

proof fn lemma_first_named(names: Seq<Seq<char>>, target: Seq<char>, lo: int, hi: int)
    requires
        0 <= lo,
        hi <= names.len(),
    ensures
        first_named(names, target, lo, hi) matches Some(i) ==> lo <= i < hi && names[i] == target && forall|j: int|
            lo <= j < i ==> #[trigger] names[j] != target,
        first_named(names, target, lo, hi) is None ==> forall|j: int| lo <= j < hi ==> #[trigger] names[j] != target,
    decreases hi - lo,
{
    if lo < hi && names[lo] != target {
        lemma_first_named(names, target, lo + 1, hi);
    }
}

proof fn lemma_first_prefixed(names: Seq<Seq<char>>, p: Seq<char>, lo: int, hi: int)
    requires
        0 <= lo,
        hi <= names.len(),
    ensures
        first_prefixed(names, p, lo, hi) matches Some(i) ==> lo <= i < hi && has_prefix(names[i], p) && forall|j: int|
            lo <= j < i ==> !has_prefix(#[trigger] names[j], p),
        first_prefixed(names, p, lo, hi) is None ==> forall|j: int| lo <= j < hi ==> !has_prefix(#[trigger] names[j], p),
    decreases hi - lo,
{
    if lo < hi && !has_prefix(names[lo], p) {
        lemma_first_prefixed(names, p, lo + 1, hi);
    }
}

/// The sprite lump found for `prefix` lies strictly between the first `S_START` and the first
/// `S_END` marker and its name starts `<prefix>A`; it is `<prefix>A1` when the range holds one,
/// else `<prefix>A0` when it holds one, else the first lump in the range whose name starts
/// `<prefix>A`. Nothing is found when the markers are missing or out of order, or no lump in
/// the range starts `<prefix>A`.
pub proof fn lemma_sprite_lump_law(names: Seq<Seq<char>>, prefix: Seq<char>)
    ensures
        ({
            let start = first_named(names, "S_START"@, 0, names.len() as int);
            let end = first_named(names, "S_END"@, 0, names.len() as int);
            let frame_a = prefix + "A"@;
            &&& sprite_lump_of(names, prefix) matches Some(i) ==> {
                &&& start matches Some(st) && end matches Some(en) && st < i < en
                &&& has_prefix(names[i], frame_a)
                &&& names[i] != frame_a + "1"@ ==> forall|j: int| start->0 < j < end->0 ==> #[trigger] names[j]
                    != frame_a + "1"@
                &&& (names[i] != frame_a + "1"@ && names[i] != frame_a + "0"@) ==> forall|j: int|
                    start->0 < j < i ==> !has_prefix(#[trigger] names[j], frame_a)
                &&& (names[i] != frame_a + "1"@ && names[i] != frame_a + "0"@) ==> forall|j: int|
                    start->0 < j < end->0 ==> #[trigger] names[j] != frame_a + "0"@
            }
            &&& sprite_lump_of(names, prefix) is None ==> (start is None || end is None || end->0 <= start->0
                + 1 || forall|j: int| start->0 < j < end->0 ==> !has_prefix(#[trigger] names[j], frame_a))
        }),
{
    let n = names.len() as int;
    lemma_first_named(names, "S_START"@, 0, n);
    lemma_first_named(names, "S_END"@, 0, n);
    let frame_a = prefix + "A"@;
    if let (Some(st), Some(en)) = (first_named(names, "S_START"@, 0, n), first_named(names, "S_END"@, 0, n)) {
        if en > st + 1 {
            lemma_first_named(names, frame_a + "1"@, st + 1, en);
            lemma_first_named(names, frame_a + "0"@, st + 1, en);
            lemma_first_prefixed(names, frame_a, st + 1, en);
            let one = frame_a + "1"@;
            let zero = frame_a + "0"@;
            assert(has_prefix(one, frame_a)) by {
                assert(one.subrange(0, frame_a.len() as int) =~= frame_a);
            }
            assert(has_prefix(zero, frame_a)) by {
                assert(zero.subrange(0, frame_a.len() as int) =~= frame_a);
            }
        }
    }
}

/// Index, in the WAD's lump list `names`, of the frame-`A` sprite lump for `prefix`: among the
/// lumps between the `S_START` and `S_END` markers, `<prefix>A1`, else `<prefix>A0`, else the
/// first whose name starts `<prefix>A`.
pub fn find_sprite_lump(names: &[String], prefix: &str) -> (at: Option<usize>)
    ensures
        match at {
            Some(i) => sprite_lump_of(names_view(names@), prefix@) == Some(i as int),
            None => sprite_lump_of(names_view(names@), prefix@) is None,
        },
{
    let n: usize = names.len();
    let start_marker: String = "S_START".to_owned();
    let end_marker: String = "S_END".to_owned();
    let start: usize = match find_named(names, &start_marker, 0, n) {
        Some(i) => i,
        None => return None,
    };
    let end: usize = match find_named(names, &end_marker, 0, n) {
        Some(i) => i,
        None => return None,
    };
    proof {
        lemma_first_named_in_range(names_view(names@), "S_START"@, 0, n as int);
        lemma_first_named_in_range(names_view(names@), "S_END"@, 0, n as int);
    }
    if end <= start + 1 {
        return None;
    }
    let mut frame_a: String = prefix.to_owned();
    frame_a.append("A");
    let mut want1: String = frame_a.clone();
    want1.append("1");
    if let Some(i) = find_named(names, &want1, start + 1, end) {
        return Some(i);
    }
    let mut want0: String = frame_a.clone();
    want0.append("0");
    if let Some(i) = find_named(names, &want0, start + 1, end) {
        return Some(i);
    }
    find_prefixed(names, &frame_a, start + 1, end)
}

/// Whether the WAD's lump list has a frame-`A` sprite lump for `prefix`.
pub fn sprite_present(names: &[String], prefix: &str) -> (present: bool)
    ensures
        present == (sprite_lump_of(names_view(names@), prefix@) is Some),
{
    find_sprite_lump(names, prefix).is_some()
}

/// `s` is the RGBA decoding of the picture lump `lump`: its size, and each texel's colour as
/// the texture preview paints it.
pub open spec fn decoded_sprite(lump: Seq<u8>, palette: Seq<u32>, s: SpriteRgba) -> bool {
    &&& decodable(lump)
    &&& s.width == header_width(lump)
    &&& s.height == header_height(lump)
    &&& s.rgba@.len() == s.width * s.height * 4
    &&& forall|x: int, y: int, c: int|
        0 <= x < s.width && 0 <= y < s.height && 0 <= c < 4 ==> s.rgba@[#[trigger] crate::atlas::px_byte(
            s.width as int,
            x,
            y,
            c,
        )] == preview_rgba(crate::compose::lump_texel(lump, x, y), palette)[c]
}

/// Decode a picture lump to an RGBA icon; `None` when it does not decode.
pub fn sprite_from_lump(lump: &[u8], palette: &[u32; 256]) -> (sprite: Option<SpriteRgba>)
    ensures
        sprite is Some <==> decodable(lump@),
        sprite matches Some(s) ==> decoded_sprite(lump@, palette@, s),
{
    let patch: PatchImage = match decode_patch(lump) {
        Some(p) => p,
        None => return None,
    };
    let w: usize = patch.width;
    let h: usize = patch.height;
    let ghost wi = w as int;
    let ghost hi = h as int;
    proof {
        assert(wi * hi <= 4096 * 4096) by (nonlinear_arith)
            requires 1 <= wi <= 4096, 1 <= hi <= 4096;
    }
    let mut rgba: Vec<u8> = vec![0u8; w * h * 4];
    let mut y: usize = 0;
    while y < h
        invariant
            wi == w,
            hi == h,
            1 <= w <= 4096,
            1 <= h <= 4096,
            wi * hi <= 4096 * 4096,
            crate::picture::decodes_to(lump@, wi, hi, patch.data@),
            y <= h,
            rgba@.len() == wi * hi * 4,
            forall|x2: int, y2: int, c: int|
                0 <= x2 < wi && 0 <= y2 < y && 0 <= c < 4 ==> rgba@[#[trigger] crate::atlas::px_byte(wi, x2, y2, c)]
                    == preview_rgba(crate::compose::lump_texel(lump@, x2, y2), palette@)[c],
        decreases h - y,
    {
        let mut x: usize = 0;
        while x < w
            invariant
                wi == w,
                hi == h,
                1 <= w <= 4096,
                1 <= h <= 4096,
                wi * hi <= 4096 * 4096,
                crate::picture::decodes_to(lump@, wi, hi, patch.data@),
                y < h,
                x <= w,
                rgba@.len() == wi * hi * 4,
                forall|x2: int, y2: int, c: int|
                    0 <= x2 < wi && 0 <= y2 && 0 <= c < 4 && (y2 < y || (y2 == y && x2 < x)) ==> rgba@[
                        #[trigger] crate::atlas::px_byte(wi, x2, y2, c)] == preview_rgba(
                        crate::compose::lump_texel(lump@, x2, y2),
                        palette@,
                    )[c],
            decreases w - x,
        {
            proof {
                crate::picture::lemma_row_major_index(wi, hi, x as int, y as int);
                assert((y * wi + x) * 4 + 4 <= wi * hi * 4) by (nonlinear_arith)
                    requires x < wi, y < hi;
            }
            let index: u16 = patch.data[y * w + x];
            proof {
                assert(index == crate::picture::texel(patch.data@, wi, x as int, y as int));
            }
            let ghost before = rgba@;
            put_palette_color(&mut rgba, w, x, y, palette, index);
            proof {
                assert forall|x2: int, y2: int, c: int|
                    0 <= x2 < wi && 0 <= y2 && 0 <= c < 4 && (y2 < y || (y2 == y && x2 < x + 1)) implies rgba@[
                    #[trigger] crate::atlas::px_byte(wi, x2, y2, c)] == preview_rgba(
                    crate::compose::lump_texel(lump@, x2, y2),
                    palette@,
                )[c] by {
                    if x2 != x || y2 != y {
                        crate::atlas::lemma_px_byte(wi, x2, y2, c);
                        assert(y2 * wi + x2 != y * wi + x) by (nonlinear_arith)
                            requires 0 <= x2 < wi, 0 <= x < wi, x2 != x || y2 != y, 0 <= y2, 0 <= y;
                        assert(crate::atlas::px_byte(wi, x2, y2, c) < wi * hi * 4) by (nonlinear_arith)
                            requires 0 <= x2 < wi, 0 <= y2 <= y, y < hi, 0 <= c < 4, crate::atlas::px_byte(wi, x2, y2, c)
                                == (y2 * wi + x2) * 4 + c;
                    }
                }
            }
            x = x + 1;
        }
        y = y + 1;
    }
    Some(SpriteRgba { width: w as u32, height: h as u32, rgba })
}

/// Decode the icon of `kind` into the cache unless it was looked up before; `lump` is the
/// picture lump its source names (`None`: no source, or the WAD lacks the lump). A lump that
/// does not decode is remembered as no sprite.
pub fn ensure_thing_sprite(cache: &mut ThingSpriteCache, kind: i32, lump: Option<&[u8]>, palette: &[u32; 256])
    ensures
        old(cache)@.contains_key(kind) ==> final(cache)@ == old(cache)@,
        !old(cache)@.contains_key(kind) ==> exists|s: Option<SpriteRgba>|
            {
                &&& final(cache)@ == old(cache)@.insert(kind, s)
                &&& (s is Some <==> (lump matches Some(l) && decodable(l@)))
                &&& (s matches Some(sp) ==> decoded_sprite(lump.unwrap()@, palette@, sp))
            },
{
    if cache.contains(kind) {
        return;
    }
    let sprite: Option<SpriteRgba> = match lump {
        Some(l) => sprite_from_lump(l, palette),
        None => None,
    };
    let ghost s = sprite;
    cache.insert(kind, sprite);
    proof {
        assert(final(cache)@ == old(cache)@.insert(kind, s));
    }
}

/// The icon a project thing definition gives `kind`: the icon of the first definition of that
/// kind.
pub open spec fn project_icon(defs: Seq<(i32, String)>, kind: i32, i: int) -> Option<Seq<char>>
    decreases defs.len() - i,
{
    if i < 0 || i >= defs.len() {
        None
    } else if defs[i].0 == kind {
        Some(defs[i].1@)
    } else {
        project_icon(defs, kind, i + 1)
    }
}

/// The sprite prefix of the first built-in thing of `kind`, or empty.
pub open spec fn default_prefix(things: Seq<ThingType>, kind: i32, i: int) -> Seq<char>
    decreases things.len() - i,
{
    if i < 0 || i >= things.len() {
        Seq::empty()
    } else if things[i].kind == kind {
        things[i].sprite@
    } else {
        default_prefix(things, kind, i + 1)
    }
}

/// Where the icon of `kind` comes from: a non-empty project icon (from `project_things`, pairs
/// of thing kind and icon lump name) overrides the built-in sprite prefix; kinds with neither
/// have no sprite.
pub fn sprite_source_for<'a>(kind: i32, project_things: &'a [(i32, String)]) -> (source: SpriteSource<'a>)
    ensures
        ({
            let icon = project_icon(project_things@, kind, 0);
            let prefix = default_prefix(default_things_table(), kind, 0);
            match source {
                SpriteSource::Patch(name) => icon == Some(name@) && name@.len() > 0,
                SpriteSource::Prefix(p) => !(icon matches Some(n) && n.len() > 0) && p@ == prefix && p@.len() > 0,
                SpriteSource::NoSprite => !(icon matches Some(n) && n.len() > 0) && prefix.len() == 0,
            }
        }),
{
    let mut i: usize = 0;
    let mut icon: Option<&'a String> = None;
    while i < project_things.len()
        invariant_except_break
            icon is None,
        invariant
            i <= project_things@.len(),
            project_icon(project_things@, kind, 0) == project_icon(project_things@, kind, i as int),
        ensures
            match icon {
                Some(n) => project_icon(project_things@, kind, 0) == Some(n@),
                None => project_icon(project_things@, kind, 0) is None,
            },
        decreases project_things@.len() - i,
    {
        if project_things[i].0 == kind {
            icon = Some(&project_things[i].1);
            break;
        }
        i = i + 1;
    }
    if let Some(name) = icon {
        if !name.as_str().is_empty() {
            return SpriteSource::Patch(name.as_str());
        }
    }
    let things: Vec<ThingType> = default_things();
    let mut j: usize = 0;
    while j < things.len()
        invariant
            things@ == default_things_table(),
            !(project_icon(project_things@, kind, 0) matches Some(n) && n.len() > 0),
            j <= things@.len(),
            default_prefix(things@, kind, 0) == default_prefix(things@, kind, j as int),
        decreases things@.len() - j,
    {
        if things[j].kind == kind {
            let prefix: &'static str = things[j].sprite;
            if prefix.is_empty() {
                return SpriteSource::NoSprite;
            }
            return SpriteSource::Prefix(prefix);
        }
        j = j + 1;
    }
    proof {
        reveal_strlit("");
    }
    SpriteSource::NoSprite
}

} // verus!

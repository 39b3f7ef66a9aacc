//! Texture sets: which definition a texture name resolves to, and the undo history of edits to
//! the active set.

use vstd::prelude::*;
use vstd::string::{StringExecFns, StringSliceAdditionalSpecFns};

use crate::compose::{
    eq_ignore_ascii_case, first_import_from, same_ignoring_case, ImportedPatch, PatchPlacement, TextureDef,
};
use crate::remap::{lex_lt, string_texts, text_bytes};
use crate::render::ResourceKind;

verus! {

/// How texture names resolve across WADs.
#[derive(Debug, Clone, Copy, PartialEq, Eq, Structural)]
pub enum TextureMode {
    /// Only the map's own WAD defines its textures.
    Vanilla,
    /// All loaded WADs merge by name; later WADs win.
    Custom,
}

/// The definitions of one `TEXTURE<n>` lump of one WAD.
#[derive(Debug, Clone, PartialEq)]
pub struct TextureGroup {
    pub wad_name: String,
    pub lump: String,
    pub defs: Vec<TextureDef>,
    pub edited: bool,
}

/// The group takes part in resolution: in `Custom` mode every group does; in `Vanilla` mode
/// only the groups of the map's WAD (names compared ignoring ASCII case).
pub open spec fn in_scope(g: TextureGroup, mode: TextureMode, map_wad: Seq<char>) -> bool {
    mode is Custom || same_ignoring_case(
        vstd::utf8::encode_utf8(g.wad_name@),
        vstd::utf8::encode_utf8(map_wad),
    )
}

/// Index of the first definition named `name` among `defs[t..]`.
pub open spec fn first_def_from(defs: Seq<TextureDef>, name: Seq<char>, t: int) -> Option<int>
    decreases defs.len() - t,
{
    if t < 0 || t >= defs.len() {
        None
    } else if defs[t].name@ == name {
        Some(t)
    } else {
        first_def_from(defs, name, t + 1)
    }
}

/// Where `name` resolves among groups `lo..`: the last in-scope group defining it, at its first
/// definition there.
pub open spec fn resolve_from(
    groups: Seq<TextureGroup>,
    mode: TextureMode,
    map_wad: Seq<char>,
    name: Seq<char>,
    lo: int,
) -> Option<(int, int)>
    decreases groups.len() - lo,
{
    if lo < 0 || lo >= groups.len() {
        None
    } else {
        match resolve_from(groups, mode, map_wad, name, lo + 1) {
            Some(r) => Some(r),
            None => if in_scope(groups[lo], mode, map_wad) {
                match first_def_from(groups[lo].defs@, name, 0) {
                    Some(t) => Some((lo, t)),
                    None => None,
                }
            } else {
                None
            },
        }
    }
}

/// The `(group, definition)` a texture name resolves to: later groups (later lumps, later
/// WADs) override earlier ones, and within a group the first definition counts.
pub open spec fn resolve_texture(
    groups: Seq<TextureGroup>,
    mode: TextureMode,
    map_wad: Seq<char>,
    name: Seq<char>,
) -> Option<(int, int)> {
    resolve_from(groups, mode, map_wad, name, 0)
}

/// Group `g` takes part in resolution and defines `name`.
pub open spec fn scoped_defines(groups: Seq<TextureGroup>, mode: TextureMode, map_wad: Seq<char>, name: Seq<char>, g: int) -> bool {
    &&& 0 <= g < groups.len()
    &&& in_scope(groups[g], mode, map_wad)
    &&& exists|t: int| 0 <= t < groups[g].defs@.len() && #[trigger] groups[g].defs@[t].name@ == name
}

proof fn lemma_first_def(defs: Seq<TextureDef>, name: Seq<char>, t: int)
    requires
        0 <= t,
    ensures
        first_def_from(defs, name, t) matches Some(r) ==> t <= r < defs.len() && defs[r].name@ == name
            && forall|u: int| t <= u < r ==> #[trigger] defs[u].name@ != name,
        first_def_from(defs, name, t) is None ==> forall|u: int| t <= u < defs.len() ==> #[trigger] defs[u].name@ != name,
    decreases defs.len() - t,
{
    if t < defs.len() && defs[t].name@ != name {
        lemma_first_def(defs, name, t + 1);
    }
}

proof fn lemma_resolve_from(groups: Seq<TextureGroup>, mode: TextureMode, map_wad: Seq<char>, name: Seq<char>, lo: int)
    requires
        0 <= lo,
    ensures
        resolve_from(groups, mode, map_wad, name, lo) matches Some(r) ==> {
            &&& lo <= r.0 && scoped_defines(groups, mode, map_wad, name, r.0)
            &&& 0 <= r.1 < groups[r.0].defs@.len() && groups[r.0].defs@[r.1].name@ == name
            &&& forall|u: int| 0 <= u < r.1 ==> #[trigger] groups[r.0].defs@[u].name@ != name
            &&& forall|g: int| r.0 < g < groups.len() ==> !#[trigger] scoped_defines(groups, mode, map_wad, name, g)
        },
        resolve_from(groups, mode, map_wad, name, lo) is None ==> forall|g: int|
            lo <= g < groups.len() ==> !#[trigger] scoped_defines(groups, mode, map_wad, name, g),
    decreases groups.len() - lo,
{
    if lo < groups.len() {
        lemma_resolve_from(groups, mode, map_wad, name, lo + 1);
        lemma_first_def(groups[lo].defs@, name, 0);
        if scoped_defines(groups, mode, map_wad, name, lo) {
            let t = choose|t: int| 0 <= t < groups[lo].defs@.len() && #[trigger] groups[lo].defs@[t].name@ == name;
            assert(groups[lo].defs@[t].name@ == name);
        }
    }
}

/// A name resolves to the first definition of it in the last group that takes part in
/// resolution (every group in `Custom` mode, the map WAD's groups in `Vanilla` mode) and
/// defines it; later lumps override earlier ones, and later WADs earlier WADs. A name no such
/// group defines does not resolve.
pub proof fn lemma_resolve_law(groups: Seq<TextureGroup>, mode: TextureMode, map_wad: Seq<char>, name: Seq<char>)
    ensures
        resolve_texture(groups, mode, map_wad, name) matches Some(r) ==> {
            &&& scoped_defines(groups, mode, map_wad, name, r.0)
            &&& 0 <= r.1 < groups[r.0].defs@.len() && groups[r.0].defs@[r.1].name@ == name
            &&& forall|u: int| 0 <= u < r.1 ==> #[trigger] groups[r.0].defs@[u].name@ != name
            &&& forall|g: int| r.0 < g < groups.len() ==> !#[trigger] scoped_defines(groups, mode, map_wad, name, g)
        },
        resolve_texture(groups, mode, map_wad, name) is None <==> forall|g: int|
            0 <= g < groups.len() ==> !#[trigger] scoped_defines(groups, mode, map_wad, name, g),
{
    lemma_resolve_from(groups, mode, map_wad, name, 0);
}

/// The first index entry for `name` among `entries[i..]`.
pub open spec fn lookup_from(entries: Seq<(String, usize, usize)>, name: Seq<char>, i: int) -> Option<
    (int, int),
>
    decreases entries.len() - i,
{
    if i < 0 || i >= entries.len() {
        None
    } else if entries[i].0@ == name {
        Some((entries[i].1 as int, entries[i].2 as int))
    } else {
        lookup_from(entries, name, i + 1)
    }
}

/// The index entry for `name`.
pub open spec fn lookup(entries: Seq<(String, usize, usize)>, name: Seq<char>) -> Option<(int, int)> {
    lookup_from(entries, name, 0)
}

proof fn lemma_lookup_push(entries: Seq<(String, usize, usize)>, e: (String, usize, usize), name: Seq<char>, i: int)
    requires
        0 <= i <= entries.len(),
    ensures
        lookup_from(entries.push(e), name, i) == (match lookup_from(entries, name, i) {
            Some(r) => Some(r),
            None => if e.0@ == name {
                Some((e.1 as int, e.2 as int))
            } else {
                None
            },
        }),
    decreases entries.len() - i,
{
    if i < entries.len() {
        assert(entries.push(e)[i] == entries[i]);
        lemma_lookup_push(entries, e, name, i + 1);
    } else {
        assert(entries.push(e)[i] == e);
        assert(lookup_from(entries.push(e), name, i + 1) is None);
    }
}

proof fn lemma_first_def_char(defs: Seq<TextureDef>, name: Seq<char>, t: int)
    requires
        0 <= t,
    ensures
        match first_def_from(defs, name, t) {
            Some(k) => t <= k < defs.len() && defs[k].name@ == name && forall|j: int|
                t <= j < k ==> #[trigger] defs[j].name@ != name,
            None => forall|j: int| t <= j < defs.len() ==> #[trigger] defs[j].name@ != name,
        },
    decreases defs.len() - t,
{
    if t < defs.len() && defs[t].name@ != name {
        lemma_first_def_char(defs, name, t + 1);
    }
}

proof fn lemma_first_def_before_step(defs: Seq<TextureDef>, name: Seq<char>, t: int)
    requires
        0 <= t < defs.len(),
    ensures
        first_def_before(defs, name, t + 1) == (match first_def_before(defs, name, t) {
            Some(k) => Some(k),
            None => if defs[t].name@ == name {
                Some(t)
            } else {
                None
            },
        }),
{
    lemma_first_def_char(defs, name, 0);
}

/// The name is defined among the first `t` definitions; the first such is at the result.
pub open spec fn first_def_before(defs: Seq<TextureDef>, name: Seq<char>, t: int) -> Option<int> {
    match first_def_from(defs, name, 0) {
        Some(k) => if k < t {
            Some(k)
        } else {
            None
        },
        None => None,
    }
}

/// Build the name index: every name that resolves, once, with its `(group, definition)`.
pub fn build_texture_index(groups: &[TextureGroup], mode: TextureMode, map_wad: &str) -> (index: Vec<
    (String, usize, usize),
>)
    ensures
        forall|name: Seq<char>| #[trigger] lookup(index@, name) == resolve_texture(groups@, mode, map_wad@, name),
{
    let mut index: Vec<(String, usize, usize)> = Vec::new();
    let vanilla: bool = mode == TextureMode::Vanilla;
    let mut g: usize = groups.len();
    while g > 0
        invariant
            vanilla == (mode == TextureMode::Vanilla),
            g <= groups@.len(),
            forall|name: Seq<char>| #[trigger] lookup(index@, name) == resolve_from(groups@, mode, map_wad@, name, g as int),
        decreases g,
    {
        let gi: usize = g - 1;
        let group: &TextureGroup = &groups[gi];
        let scoped: bool = !vanilla || eq_ignore_ascii_case(group.wad_name.as_str(), map_wad);
        proof {
            assert(scoped == in_scope(groups@[gi as int], mode, map_wad@));
        }
        if scoped {
            let defs: &Vec<TextureDef> = &group.defs;
            proof {
                assert forall|name: Seq<char>| #[trigger] first_def_before(defs@, name, 0) is None by {
                    lemma_first_def_char(defs@, name, 0);
                }
            }
            let mut t: usize = 0;
            while t < defs.len()
                invariant
                    g <= groups@.len(),
                    gi == g - 1,
                    defs@ == groups@[gi as int].defs@,
                    in_scope(groups@[gi as int], mode, map_wad@),
                    t <= defs@.len(),
                    forall|name: Seq<char>| #[trigger] lookup(index@, name) == (match resolve_from(
                        groups@,
                        mode,
                        map_wad@,
                        name,
                        g as int,
                    ) {
                        Some(r) => Some(r),
                        None => match first_def_before(defs@, name, t as int) {
                            Some(k) => Some((gi as int, k)),
                            None => None,
                        },
                    }),
                decreases defs@.len() - t,
            {
                let name: &String = &defs[t].name;
                let found: bool = index_has(&index, name);
                let ghost n = name@;
                proof {
                    lemma_first_def_before_step(defs@, n, t as int);
                }
                if !found {
                    let ghost before = index@;
                    index.push((name.clone(), gi, t));
                    let ghost e = index@.last();
                    proof {
                        assert(index@ =~= before.push(e));
                        assert(e.0@ == n && e.1 == gi && e.2 == t);
                        assert forall|other: Seq<char>| #[trigger] lookup(index@, other) == (match resolve_from(
                            groups@,
                            mode,
                            map_wad@,
                            other,
                            g as int,
                        ) {
                            Some(r) => Some(r),
                            None => match first_def_before(defs@, other, t + 1) {
                                Some(k) => Some((gi as int, k)),
                                None => None,
                            },
                        }) by {
                            lemma_lookup_push(before, e, other, 0);
                            assert(lookup(before, other) == lookup_from(before, other, 0));
                            lemma_first_def_before_step(defs@, other, t as int);
                            if other == n {
                                assert(lookup(before, n) is None);
                            }
                        }
                    }
                } else {
                    proof {
                        assert forall|other: Seq<char>| #[trigger] lookup(index@, other) == (match resolve_from(
                            groups@,
                            mode,
                            map_wad@,
                            other,
                            g as int,
                        ) {
                            Some(r) => Some(r),
                            None => match first_def_before(defs@, other, t + 1) {
                                Some(k) => Some((gi as int, k)),
                                None => None,
                            },
                        }) by {
                            lemma_first_def_before_step(defs@, other, t as int);
                        }
                    }
                }
                t = t + 1;
            }
            proof {
                assert forall|name: Seq<char>| #[trigger] lookup(index@, name) == resolve_from(
                    groups@,
                    mode,
                    map_wad@,
                    name,
                    gi as int,
                ) by {
                    assert(first_def_before(defs@, name, defs@.len() as int) == first_def_from(
                        defs@,
                        name,
                        0,
                    )) by {
                        lemma_first_def_bounded(defs@, name, 0);
                    }
                }
            }
        } else {
            proof {
                assert forall|name: Seq<char>| #[trigger] lookup(index@, name) == resolve_from(
                    groups@,
                    mode,
                    map_wad@,
                    name,
                    gi as int,
                ) by {
                }
            }
        }
        g = gi;
    }
    index
}

proof fn lemma_first_def_bounded(defs: Seq<TextureDef>, name: Seq<char>, t: int)
    requires
        0 <= t,
    ensures
        first_def_from(defs, name, t) matches Some(k) ==> t <= k < defs.len() && defs[k].name@ == name,
    decreases defs.len() - t,
{
    if t < defs.len() && defs[t].name@ != name {
        lemma_first_def_bounded(defs, name, t + 1);
    }
}

/// Whether the index has an entry named `name`.
fn index_has(index: &Vec<(String, usize, usize)>, name: &String) -> (found: bool)
    ensures
        found == (lookup(index@, name@) is Some),
{
    let mut i: usize = 0;
    while i < index.len()
        invariant
            i <= index@.len(),
            lookup(index@, name@) == lookup_from(index@, name@, i as int),
        decreases index@.len() - i,
    {
        if index[i].0 == *name {
            return true;
        }
        i = i + 1;
    }
    false
}

/// The index entry for `name`.
fn index_get(index: &Vec<(String, usize, usize)>, name: &String) -> (at: Option<(usize, usize)>)
    ensures
        match at {
            Some((g, t)) => lookup(index@, name@) == Some((g as int, t as int)),
            None => lookup(index@, name@) is None,
        },
{
    let mut i: usize = 0;
    while i < index.len()
        invariant
            i <= index@.len(),
            lookup(index@, name@) == lookup_from(index@, name@, i as int),
        decreases index@.len() - i,
    {
        if index[i].0 == *name {
            return Some((index[i].1, index[i].2));
        }
        i = i + 1;
    }
    None
}

// ---------------------------------------------------------------------------------------------
// Copies and comparisons of texture definitions.

/// What a placement says: its patch name and origin.
pub open spec fn placement_view(p: PatchPlacement) -> (Seq<char>, i32, i32) {
    (p.patch@, p.origin_x, p.origin_y)
}

/// What a definition says: name, size and placements.
pub open spec fn def_view(d: TextureDef) -> (Seq<char>, i32, i32, Seq<(Seq<char>, i32, i32)>) {
    (d.name@, d.width, d.height, d.patches@.map_values(|p: PatchPlacement| placement_view(p)))
}

/// What a texture set says.
pub open spec fn defs_view(defs: Seq<TextureDef>) -> Seq<(Seq<char>, i32, i32, Seq<(Seq<char>, i32, i32)>)> {
    defs.map_values(|d: TextureDef| def_view(d))
}

fn clone_def(d: &TextureDef) -> (c: TextureDef)
    ensures
        def_view(c) == def_view(*d),
{
    let mut patches: Vec<PatchPlacement> = Vec::new();
    let mut i: usize = 0;
    while i < d.patches.len()
        invariant
            i <= d.patches@.len(),
            patches@.len() == i,
            forall|j: int| 0 <= j < i ==> placement_view(#[trigger] patches@[j]) == placement_view(d.patches@[j]),
        decreases d.patches@.len() - i,
    {
        let p: &PatchPlacement = &d.patches[i];
        patches.push(PatchPlacement { patch: p.patch.clone(), origin_x: p.origin_x, origin_y: p.origin_y });
        i = i + 1;
    }
    let c = TextureDef { name: d.name.clone(), width: d.width, height: d.height, patches };
    proof {
        assert(c.patches@.map_values(|p: PatchPlacement| placement_view(p)) =~= d.patches@.map_values(
            |p: PatchPlacement| placement_view(p),
        ));
    }
    c
}

/// A copy of a texture set.
pub(crate) fn clone_defs(defs: &[TextureDef]) -> (c: Vec<TextureDef>)
    ensures
        defs_view(c@) == defs_view(defs@),
{
    let mut out: Vec<TextureDef> = Vec::new();
    let mut i: usize = 0;
    while i < defs.len()
        invariant
            i <= defs@.len(),
            out@.len() == i,
            forall|j: int| 0 <= j < i ==> def_view(#[trigger] out@[j]) == def_view(defs@[j]),
        decreases defs@.len() - i,
    {
        out.push(clone_def(&defs[i]));
        i = i + 1;
    }
    proof {
        assert(defs_view(out@) =~= defs_view(defs@));
    }
    out
}

fn same_def(a: &TextureDef, b: &TextureDef) -> (same: bool)
    ensures
        same == (def_view(*a) == def_view(*b)),
{
    if a.name != b.name || a.width != b.width || a.height != b.height || a.patches.len() != b.patches.len() {
        proof {
            if a.patches@.len() != b.patches@.len() {
                assert(def_view(*a).3.len() != def_view(*b).3.len());
            }
        }
        return false;
    }
    let mut i: usize = 0;
    while i < a.patches.len()
        invariant
            a.patches@.len() == b.patches@.len(),
            i <= a.patches@.len(),
            forall|j: int| 0 <= j < i ==> placement_view(#[trigger] a.patches@[j]) == placement_view(b.patches@[j]),
        decreases a.patches@.len() - i,
    {
        let p: &PatchPlacement = &a.patches[i];
        let q: &PatchPlacement = &b.patches[i];
        if p.patch != q.patch || p.origin_x != q.origin_x || p.origin_y != q.origin_y {
            proof {
                assert(def_view(*a).3[i as int] != def_view(*b).3[i as int]);
            }
            return false;
        }
        i = i + 1;
    }
    proof {
        assert(def_view(*a).3 =~= def_view(*b).3);
    }
    true
}

/// Whether two texture sets say the same.
fn same_defs(a: &[TextureDef], b: &[TextureDef]) -> (same: bool)
    ensures
        same == (defs_view(a@) == defs_view(b@)),
{
    if a.len() != b.len() {
        proof {
            assert(defs_view(a@).len() != defs_view(b@).len());
        }
        return false;
    }
    let mut i: usize = 0;
    while i < a.len()
        invariant
            a@.len() == b@.len(),
            i <= a@.len(),
            forall|j: int| 0 <= j < i ==> def_view(#[trigger] a@[j]) == def_view(b@[j]),
        decreases a@.len() - i,
    {
        if !same_def(&a[i], &b[i]) {
            proof {
                assert(defs_view(a@)[i as int] != defs_view(b@)[i as int]);
            }
            return false;
        }
        i = i + 1;
    }
    proof {
        assert(defs_view(a@) =~= defs_view(b@));
    }
    true
}

// ---------------------------------------------------------------------------------------------
// The editor's texture sets.

/// The texture groups of the loaded WADs (IWAD first), the active group being edited, and the
/// name index for the map's WAD.
pub struct TextureAssets {
    groups: Vec<TextureGroup>,
    active_group: usize,
    mode: TextureMode,
    active_map_wad: String,
    index: Vec<(String, usize, usize)>,
    textures_gen: u64,
}

impl TextureAssets {
    /// The texture sets are well formed: at least one group, the active one among them, and the
    /// name index current.
    pub closed spec fn wf(self) -> bool {
        &&& self.groups@.len() >= 1
        &&& self.active_group < self.groups@.len()
        &&& forall|name: Seq<char>| #[trigger] lookup(self.index@, name) == resolve_texture(
            self.groups@,
            self.mode,
            self.active_map_wad@,
            name,
        )
    }

    /// The texture groups, in load order.
    pub closed spec fn groups_view(self) -> Seq<TextureGroup> {
        self.groups@
    }

    /// Index of the group being edited.
    pub closed spec fn active_view(self) -> int {
        self.active_group as int
    }

    pub closed spec fn mode_view(self) -> TextureMode {
        self.mode
    }

    /// The WAD the open map belongs to.
    pub closed spec fn map_wad_view(self) -> Seq<char> {
        self.active_map_wad@
    }

    /// Edit counter of the texture sets; caches compare it to spot staleness.
    pub closed spec fn generation_view(self) -> u64 {
        self.textures_gen
    }

    /// Texture sets from `groups` (an empty `TEXTURE1` group when there are none), the first
    /// one active, not yet scoped to a map WAD.
    pub fn new(groups: Vec<TextureGroup>, mode: TextureMode) -> (assets: Self)
        ensures
            assets.wf(),
            groups@.len() > 0 ==> assets.groups_view() == groups@,
            groups@.len() == 0 ==> assets.groups_view().len() == 1 && assets.groups_view()[0].wad_name@.len() == 0
                && assets.groups_view()[0].lump@ == "TEXTURE1"@ && assets.groups_view()[0].defs@.len() == 0
                && assets.groups_view()[0].edited,
            assets.active_view() == 0,
            assets.mode_view() == mode,
            assets.map_wad_view().len() == 0,
            assets.generation_view() == 0,
    {
        let mut groups = groups;
        if groups.len() == 0 {
            groups.push(TextureGroup {
                wad_name: String::new(),
                lump: "TEXTURE1".to_owned(),
                defs: Vec::new(),
                edited: true,
            });
        }
        let map_wad: String = String::new();
        let index = build_texture_index(groups.as_slice(), mode, map_wad.as_str());
        TextureAssets { groups, active_group: 0, mode, active_map_wad: map_wad, index, textures_gen: 0 }
    }

    /// Definitions of the active group.
    pub fn textures(&self) -> (defs: &[TextureDef])
        requires
            self.wf(),
        ensures
            defs@ == self.groups_view()[self.active_view()].defs@,
    {
        self.groups[self.active_group].defs.as_slice()
    }

    /// Index of the active group.
    pub fn active_group(&self) -> (i: usize)
        ensures
            i == self.active_view(),
    {
        self.active_group
    }

    /// Switch the active group; out of range or unchanged does nothing.
    pub fn set_active_group(&mut self, i: usize)
        requires
            old(self).wf(),
        ensures
            final(self).wf(),
            final(self).groups_view() == old(self).groups_view(),
            final(self).mode_view() == old(self).mode_view(),
            final(self).map_wad_view() == old(self).map_wad_view(),
            final(self).active_view() == (if i < old(self).groups_view().len() {
                i as int
            } else {
                old(self).active_view()
            }),
            final(self).generation_view() == (if i < old(self).groups_view().len() && i != old(self).active_view() {
                old(self).generation_view().wrapping_add(1)
            } else {
                old(self).generation_view()
            }),
    {
        if i >= self.groups.len() || i == self.active_group {
            return;
        }
        self.active_group = i;
        self.textures_gen = self.textures_gen.wrapping_add(1);
    }

    /// Scope name resolution to the map WAD `map_wad` (`Vanilla` mode only); the same WAD,
    /// ignoring ASCII case, does nothing.
    pub fn set_map_wad(&mut self, map_wad: &str)
        requires
            old(self).wf(),
        ensures
            final(self).wf(),
            final(self).groups_view() == old(self).groups_view(),
            final(self).active_view() == old(self).active_view(),
            final(self).mode_view() == old(self).mode_view(),
            final(self).generation_view() == old(self).generation_view(),
            final(self).map_wad_view() == (if old(self).mode_view() is Vanilla && !same_ignoring_case(
                vstd::utf8::encode_utf8(old(self).map_wad_view()),
                map_wad.spec_bytes(),
            ) {
                map_wad@
            } else {
                old(self).map_wad_view()
            }),
    {
        if self.mode != TextureMode::Vanilla || eq_ignore_ascii_case(self.active_map_wad.as_str(), map_wad) {
            return;
        }
        let index = build_texture_index(self.groups.as_slice(), self.mode, map_wad);
        self.index = index;
        self.active_map_wad = map_wad.to_owned();
    }

    /// Where `name` resolves for the map WAD: `(group, definition)`.
    pub fn texture_index_of(&self, name: &String) -> (at: Option<(usize, usize)>)
        requires
            self.wf(),
        ensures
            match at {
                Some((g, t)) => resolve_texture(self.groups_view(), self.mode_view(), self.map_wad_view(), name@)
                    == Some((g as int, t as int)),
                None => resolve_texture(self.groups_view(), self.mode_view(), self.map_wad_view(), name@) is None,
            },
    {
        index_get(&self.index, name)
    }

    /// Whether the map WAD defines `name`.
    pub fn map_texture_exists(&self, name: &String) -> (exists: bool)
        requires
            self.wf(),
        ensures
            exists == (resolve_texture(self.groups_view(), self.mode_view(), self.map_wad_view(), name@) is Some),
    {
        index_has(&self.index, name)
    }

    /// The definition `name` resolves to for the map WAD.
    pub fn texture_def(&self, name: &String) -> (def: Option<&TextureDef>)
        requires
            self.wf(),
        ensures
            match resolve_texture(self.groups_view(), self.mode_view(), self.map_wad_view(), name@) {
                Some((g, t)) => def == Some(&self.groups_view()[g].defs@[t]),
                None => def is None,
            },
    {
        match index_get(&self.index, name) {
            Some((g, t)) => {
                proof {
                    lemma_resolve_in_range(self.groups@, self.mode, self.active_map_wad@, name@, 0);
                }
                Some(&self.groups[g].defs[t])
            },
            None => None,
        }
    }

    /// Swap the active group's definitions for `set` (undo and redo), marking the group
    /// edited; returns the displaced definitions.
    pub fn replace_textures(&mut self, set: Vec<TextureDef>) -> (prev: Vec<TextureDef>)
        requires
            old(self).wf(),
        ensures
            final(self).wf(),
            prev@ == old(self).groups_view()[old(self).active_view()].defs@,
            final(self).active_view() == old(self).active_view(),
            final(self).mode_view() == old(self).mode_view(),
            final(self).map_wad_view() == old(self).map_wad_view(),
            final(self).generation_view() == old(self).generation_view().wrapping_add(1),
            final(self).groups_view().len() == old(self).groups_view().len(),
            final(self).groups_view()[old(self).active_view()].defs@ == set@,
            final(self).groups_view()[old(self).active_view()].edited,
            final(self).groups_view()[old(self).active_view()].wad_name == old(self).groups_view()[old(self).active_view()].wad_name,
            final(self).groups_view()[old(self).active_view()].lump == old(self).groups_view()[old(self).active_view()].lump,
            forall|g: int|
                0 <= g < old(self).groups_view().len() && g != old(self).active_view() ==> #[trigger] final(self).groups_view()[g]
                    == old(self).groups_view()[g],
    {
        let a: usize = self.active_group;
        let mut groups: Vec<TextureGroup> = Vec::new();
        std::mem::swap(&mut groups, &mut self.groups);
        let old_group: TextureGroup = groups.remove(a);
        let TextureGroup { wad_name, lump, defs: prev, edited: _ } = old_group;
        groups.insert(a, TextureGroup { wad_name, lump, defs: set, edited: true });
        let index = build_texture_index(groups.as_slice(), self.mode, self.active_map_wad.as_str());
        self.index = index;
        self.groups = groups;
        self.textures_gen = self.textures_gen.wrapping_add(1);
        prev
    }

    /// `"wad · LUMP"` label of group `i` (just the lump for a group without a WAD name).
    pub fn group_label(&self, i: usize) -> (label: Option<String>)
        ensures
            i < self.groups_view().len() <==> label is Some,
            label matches Some(l) ==> l@ == (if self.groups_view()[i as int].wad_name@.len() == 0 {
                self.groups_view()[i as int].lump@
            } else {
                self.groups_view()[i as int].wad_name@ + " \u{b7} "@ + self.groups_view()[i as int].lump@
            }),
    {
        if i >= self.groups.len() {
            return None;
        }
        let g: &TextureGroup = &self.groups[i];
        if g.wad_name.as_str().is_empty() {
            Some(g.lump.clone())
        } else {
            let mut label: String = g.wad_name.clone();
            label.append(" \u{b7} ");
            label.append(g.lump.as_str());
            Some(label)
        }
    }
}

proof fn lemma_resolve_in_range(
    groups: Seq<TextureGroup>,
    mode: TextureMode,
    map_wad: Seq<char>,
    name: Seq<char>,
    lo: int,
)
    requires
        0 <= lo,
    ensures
        resolve_from(groups, mode, map_wad, name, lo) matches Some((g, t)) ==> lo <= g < groups.len() && 0 <= t
            < groups[g].defs@.len() && groups[g].defs@[t].name@ == name,
    decreases groups.len() - lo,
{
    if lo < groups.len() {
        lemma_resolve_in_range(groups, mode, map_wad, name, lo + 1);
        lemma_first_def_char(groups[lo].defs@, name, 0);
    }
}

// ---------------------------------------------------------------------------------------------
// Undo history of the active texture set.

/// How many texture-set snapshots undo keeps.
pub const UNDO_DEPTH: usize = 32;

/// What a texture set says (see [`defs_view`]).
pub type SetView = Seq<(Seq<char>, i32, i32, Seq<(Seq<char>, i32, i32)>)>;

/// Undo and redo stacks for the active texture set, kept apart from map undo.
pub struct TextureHistory {
    undo: Vec<Vec<TextureDef>>,
    redo: Vec<Vec<TextureDef>>,
}

/// The history after recording `cur`: unchanged when `cur` is the last snapshot; else `cur`
/// is pushed (dropping the oldest at [`UNDO_DEPTH`]) and redo is cleared.
pub open spec fn recorded(h: (Seq<SetView>, Seq<SetView>), cur: SetView) -> (Seq<SetView>, Seq<SetView>) {
    if h.0.len() > 0 && h.0.last() == cur {
        h
    } else {
        let kept = if h.0.len() == UNDO_DEPTH {
            h.0.drop_first()
        } else {
            h.0
        };
        (kept.push(cur), Seq::empty())
    }
}

/// One undo from history `h` with current set `cur`: the last snapshot becomes current and
/// `cur` goes on the redo stack. Nothing happens with no snapshot.
pub open spec fn undone(h: (Seq<SetView>, Seq<SetView>), cur: SetView) -> ((Seq<SetView>, Seq<SetView>), SetView) {
    if h.0.len() == 0 {
        (h, cur)
    } else {
        ((h.0.drop_last(), h.1.push(cur)), h.0.last())
    }
}

/// One redo: the mirror of [`undone`].
pub open spec fn redone(h: (Seq<SetView>, Seq<SetView>), cur: SetView) -> ((Seq<SetView>, Seq<SetView>), SetView) {
    if h.1.len() == 0 {
        (h, cur)
    } else {
        ((h.0.push(cur), h.1.drop_last()), h.1.last())
    }
}

impl View for TextureHistory {
    type V = (Seq<SetView>, Seq<SetView>);

    closed spec fn view(&self) -> (Seq<SetView>, Seq<SetView>) {
        (self.undo@.map_values(|s: Vec<TextureDef>| defs_view(s@)), self.redo@.map_values(
            |s: Vec<TextureDef>| defs_view(s@),
        ))
    }
}

impl Default for TextureHistory {
    fn default() -> (h: Self)
        ensures
            h@.0.len() == 0 && h@.1.len() == 0,
    {
        let h = TextureHistory { undo: Vec::new(), redo: Vec::new() };
        proof {
            assert(h@.0 =~= Seq::<SetView>::empty());
        }
        h
    }
}

impl TextureHistory {
    /// Snapshot the active set before a change; a set equal to the last snapshot is not
    /// recorded twice.
    pub fn record(&mut self, assets: &TextureAssets)
        requires
            assets.wf(),
            old(self)@.0.len() <= UNDO_DEPTH,
        ensures
            final(self)@ == recorded(old(self)@, defs_view(assets.groups_view()[assets.active_view()].defs@)),
            final(self)@.0.len() <= UNDO_DEPTH,
    {
        let set: &[TextureDef] = assets.textures();
        let n: usize = self.undo.len();
        if n > 0 && same_defs(self.undo[n - 1].as_slice(), set) {
            return;
        }
        let ghost before = self@;
        if n == UNDO_DEPTH {
            let _oldest = self.undo.remove(0);
        }
        self.undo.push(clone_defs(set));
        self.redo.clear();
        proof {
            let want = recorded(before, defs_view(set@));
            assert(self@.0 =~= want.0);
            assert(self@.1 =~= want.1);
        }
    }

    /// Step back: the last snapshot replaces the active set, which goes on the redo stack.
    /// Returns the restored set's length, or `None` with nothing to undo.
    pub fn undo(&mut self, assets: &mut TextureAssets) -> (restored: Option<usize>)
        requires
            old(assets).wf(),
        ensures
            final(assets).wf(),
            final(self)@ == undone(old(self)@, defs_view(old(assets).groups_view()[old(assets).active_view()].defs@)).0,
            defs_view(final(assets).groups_view()[final(assets).active_view()].defs@) == undone(
                old(self)@,
                defs_view(old(assets).groups_view()[old(assets).active_view()].defs@),
            ).1,
            restored is Some <==> old(self)@.0.len() > 0,
            restored matches Some(n) ==> n == final(assets).groups_view()[final(assets).active_view()].defs@.len(),
    {
        if self.undo.len() == 0 {
            return None;
        }
        let ghost before = self@;
        let snapshot: Vec<TextureDef> = self.undo.pop().unwrap();
        let current: Vec<TextureDef> = assets.replace_textures(snapshot);
        self.redo.push(current);
        proof {
            assert(self@.0 =~= before.0.drop_last());
            assert(self@.1 =~= before.1.push(defs_view(current@)));
        }
        Some(assets.textures().len())
    }

    /// Step forward again: the mirror of [`TextureHistory::undo`].
    pub fn redo(&mut self, assets: &mut TextureAssets) -> (restored: Option<usize>)
        requires
            old(assets).wf(),
        ensures
            final(assets).wf(),
            final(self)@ == redone(old(self)@, defs_view(old(assets).groups_view()[old(assets).active_view()].defs@)).0,
            defs_view(final(assets).groups_view()[final(assets).active_view()].defs@) == redone(
                old(self)@,
                defs_view(old(assets).groups_view()[old(assets).active_view()].defs@),
            ).1,
            restored is Some <==> old(self)@.1.len() > 0,
            restored matches Some(n) ==> n == final(assets).groups_view()[final(assets).active_view()].defs@.len(),
    {
        if self.redo.len() == 0 {
            return None;
        }
        let ghost before = self@;
        let snapshot: Vec<TextureDef> = self.redo.pop().unwrap();
        let current: Vec<TextureDef> = assets.replace_textures(snapshot);
        self.undo.push(current);
        proof {
            assert(self@.1 =~= before.1.drop_last());
            assert(self@.0 =~= before.0.push(defs_view(current@)));
        }
        Some(assets.textures().len())
    }

    /// Forget all snapshots.
    pub fn clear(&mut self)
        ensures
            final(self)@.0.len() == 0 && final(self)@.1.len() == 0,
    {
        self.undo.clear();
        self.redo.clear();
    }
}

/// Undo then redo puts back both the texture set and the history.
pub proof fn lemma_undo_then_redo(h: (Seq<SetView>, Seq<SetView>), cur: SetView)
    requires
        h.0.len() > 0,
    ensures
        redone(undone(h, cur).0, undone(h, cur).1) == (h, cur),
{
    assert(h.0.drop_last().push(h.0.last()) =~= h.0);
    assert(h.1.push(cur).drop_last() =~= h.1);
}

/// Redo then undo puts back both the texture set and the history.
pub proof fn lemma_redo_then_undo(h: (Seq<SetView>, Seq<SetView>), cur: SetView)
    requires
        h.1.len() > 0,
    ensures
        undone(redone(h, cur).0, redone(h, cur).1) == (h, cur),
{
    assert(h.1.drop_last().push(h.1.last()) =~= h.1);
    assert(h.0.push(cur).drop_last() =~= h.0);
}

/// After recording a set, an undo gives that set back, whatever the current set has become; the
/// undo stack never grows past [`UNDO_DEPTH`].
pub proof fn lemma_undo_restores_recorded(h: (Seq<SetView>, Seq<SetView>), recorded_set: SetView, cur: SetView)
    requires
        h.0.len() <= UNDO_DEPTH,
    ensures
        undone(recorded(h, recorded_set), cur).1 == recorded_set,
        recorded(h, recorded_set).0.len() <= (if h.0.len() < UNDO_DEPTH { h.0.len() + 1 } else { h.0.len() }),
{
}

/// Recording a snapshot: a set equal to the last snapshot changes nothing; any other set goes
/// on top of the undo stack (the oldest snapshot dropping out once [`UNDO_DEPTH`] are kept)
/// and empties the redo stack, so a redo after a new edit has nothing to bring back.
pub proof fn lemma_record_clears_redo(h: (Seq<SetView>, Seq<SetView>), cur: SetView, other: SetView)
    requires
        h.0.len() <= UNDO_DEPTH,
    ensures
        h.0.len() > 0 && h.0.last() == cur ==> recorded(h, cur) == h,
        !(h.0.len() > 0 && h.0.last() == cur) ==> {
            &&& recorded(h, cur).1.len() == 0
            &&& recorded(h, cur).0.len() > 0
            &&& recorded(h, cur).0.last() == cur
            &&& h.0.len() < UNDO_DEPTH ==> recorded(h, cur).0 == h.0.push(cur)
            &&& h.0.len() == UNDO_DEPTH ==> recorded(h, cur).0 == h.0.subrange(1, UNDO_DEPTH as int).push(cur)
            &&& redone(recorded(h, cur), other) == (recorded(h, cur), other)
        },
{
    if !(h.0.len() > 0 && h.0.last() == cur) && h.0.len() == UNDO_DEPTH {
        assert(h.0.drop_first() =~= h.0.subrange(1, UNDO_DEPTH as int));
    }
}

/// Undo brings back the newest snapshot and keeps the replaced set for redo; redo does the
/// reverse; with nothing to undo (or redo) the set and both stacks stay as they are.
pub proof fn lemma_undo_redo_moves(h: (Seq<SetView>, Seq<SetView>), cur: SetView)
    ensures
        h.0.len() == 0 ==> undone(h, cur) == (h, cur),
        h.0.len() > 0 ==> {
            &&& undone(h, cur).1 == h.0[h.0.len() - 1]
            &&& undone(h, cur).0.0 == h.0.subrange(0, h.0.len() - 1)
            &&& undone(h, cur).0.1 == h.1.push(cur)
        },
        h.1.len() == 0 ==> redone(h, cur) == (h, cur),
        h.1.len() > 0 ==> {
            &&& redone(h, cur).1 == h.1[h.1.len() - 1]
            &&& redone(h, cur).0.1 == h.1.subrange(0, h.1.len() - 1)
            &&& redone(h, cur).0.0 == h.0.push(cur)
        },
{
}

// ---------------------------------------------------------------------------------------------
// Project texture groups over the WADs' groups.

/// What a texture group says.
pub open spec fn group_view(g: TextureGroup) -> (Seq<char>, Seq<char>, SetView, bool) {
    (g.wad_name@, g.lump@, defs_view(g.defs@), g.edited)
}

/// Two groups come from the same WAD and lump (names compared ignoring ASCII case).
pub open spec fn same_source(a: (Seq<char>, Seq<char>, SetView, bool), b: (Seq<char>, Seq<char>, SetView, bool)) -> bool {
    same_ignoring_case(vstd::utf8::encode_utf8(a.0), vstd::utf8::encode_utf8(b.0)) && same_ignoring_case(
        vstd::utf8::encode_utf8(a.1),
        vstd::utf8::encode_utf8(b.1),
    )
}

/// Index of the first group from `i` on with the same source as `p`.
pub open spec fn first_same_source(groups: Seq<(Seq<char>, Seq<char>, SetView, bool)>, p: (Seq<char>, Seq<char>, SetView, bool), i: int) -> Option<int>
    decreases groups.len() - i,
{
    if i < 0 || i >= groups.len() {
        None
    } else if same_source(groups[i], p) {
        Some(i)
    } else {
        first_same_source(groups, p, i + 1)
    }
}

/// `groups` with the first `n` project groups laid over them: each replaces the first group of
/// the same source, or is appended when there is none.
pub open spec fn overlaid(
    groups: Seq<(Seq<char>, Seq<char>, SetView, bool)>,
    project: Seq<(Seq<char>, Seq<char>, SetView, bool)>,
    n: int,
) -> Seq<(Seq<char>, Seq<char>, SetView, bool)>
    decreases n,
{
    if n <= 0 {
        groups
    } else {
        let before = overlaid(groups, project, n - 1);
        let p = project[n - 1];
        match first_same_source(before, p, 0) {
            Some(i) => before.update(i, p),
            None => before.push(p),
        }
    }
}

fn clone_group(g: &TextureGroup) -> (c: TextureGroup)
    ensures
        group_view(c) == group_view(*g),
{
    TextureGroup { wad_name: g.wad_name.clone(), lump: g.lump.clone(), defs: clone_defs(g.defs.as_slice()), edited: g.edited }
}

/// Lay the project's texture groups over the WADs' groups: a project group replaces the group
pub type GroupView = (Seq<char>, Seq<char>, SetView, bool);

/// Laying project groups over the WAD groups: the list only grows, by at most one group per
/// project group; a WAD group that no project group matches (same WAD and lump, ignoring ASCII
/// case) keeps its place and content; every entry is a WAD group in its own place or one of the
/// project groups; and the last project group laid is always in the list.
pub proof fn lemma_overlay_law(groups: Seq<GroupView>, project: Seq<GroupView>, n: int)
    requires
        0 <= n <= project.len(),
    ensures
        groups.len() <= overlaid(groups, project, n).len() <= groups.len() + n,
        forall|i: int|
            0 <= i < groups.len() && (forall|k: int| 0 <= k < n ==> !same_source(groups[i], #[trigger] project[k]))
                ==> #[trigger] overlaid(groups, project, n)[i] == groups[i],
        forall|i: int|
            0 <= i < overlaid(groups, project, n).len() ==> (i < groups.len() && #[trigger] overlaid(
                groups,
                project,
                n,
            )[i] == groups[i]) || exists|k: int| 0 <= k < n && overlaid(groups, project, n)[i] == project[k],
        n > 0 ==> overlaid(groups, project, n).contains(project[n - 1]),
    decreases n,
{
    if n > 0 {
        lemma_overlay_law(groups, project, n - 1);
        let before = overlaid(groups, project, n - 1);
        let p = project[n - 1];
        let after = overlaid(groups, project, n);
        lemma_first_same_source(before, p, 0);
        match first_same_source(before, p, 0) {
            Some(j) => {
                assert(after == before.update(j, p));
                assert(after[j] == p);
                assert forall|i: int|
                    0 <= i < groups.len() && (forall|k: int| 0 <= k < n ==> !same_source(groups[i], #[trigger] project[k]))
                        implies #[trigger] after[i] == groups[i] by {
                    assert(before[i] == groups[i]);
                    if i == j {
                        assert(!same_source(groups[i], project[n - 1]));
                    }
                }
                assert forall|i: int| 0 <= i < after.len() implies (i < groups.len() && #[trigger] after[i]
                    == groups[i]) || exists|k: int| 0 <= k < n && after[i] == project[k] by {
                    if i != j {
                        assert(after[i] == before[i]);
                    }
                }
            },
            None => {
                assert(after == before.push(p));
                assert(after[before.len() as int] == p);
                assert forall|i: int|
                    0 <= i < groups.len() && (forall|k: int| 0 <= k < n ==> !same_source(groups[i], #[trigger] project[k]))
                        implies #[trigger] after[i] == groups[i] by {
                    assert(before[i] == groups[i]);
                }
                assert forall|i: int| 0 <= i < after.len() implies (i < groups.len() && #[trigger] after[i]
                    == groups[i]) || exists|k: int| 0 <= k < n && after[i] == project[k] by {
                    if i < before.len() {
                        assert(after[i] == before[i]);
                    }
                }
            },
        }
    }
}

proof fn lemma_first_same_source(groups: Seq<GroupView>, p: GroupView, i: int)
    requires
        0 <= i,
    ensures
        first_same_source(groups, p, i) matches Some(j) ==> i <= j < groups.len() && same_source(groups[j], p),
    decreases groups.len() - i,
{
    if i < groups.len() && !same_source(groups[i], p) {
        lemma_first_same_source(groups, p, i + 1);
    }
}

/// of the same WAD and lump, or is appended.
pub fn overlay_project_textures(groups: &mut Vec<TextureGroup>, project: &[TextureGroup])
    ensures
        final(groups)@.map_values(|g: TextureGroup| group_view(g)) == overlaid(
            old(groups)@.map_values(|g: TextureGroup| group_view(g)),
            project@.map_values(|g: TextureGroup| group_view(g)),
            project@.len() as int,
        ),
{
    let ghost start = groups@.map_values(|g: TextureGroup| group_view(g));
    let ghost pv = project@.map_values(|g: TextureGroup| group_view(g));
    let mut k: usize = 0;
    while k < project.len()
        invariant
            start == old(groups)@.map_values(|g: TextureGroup| group_view(g)),
            pv == project@.map_values(|g: TextureGroup| group_view(g)),
            k <= project@.len(),
            groups@.map_values(|g: TextureGroup| group_view(g)) == overlaid(start, pv, k as int),
        decreases project@.len() - k,
    {
        let pg: &TextureGroup = &project[k];
        let ghost cur = groups@.map_values(|g: TextureGroup| group_view(g));
        let mut i: usize = 0;
        let mut slot: Option<usize> = None;
        while i < groups.len()
            invariant_except_break
                slot is None,
            invariant
                cur == groups@.map_values(|g: TextureGroup| group_view(g)),
                pv == project@.map_values(|g: TextureGroup| group_view(g)),
                k < project@.len(),
                *pg == project@[k as int],
                i <= groups@.len(),
                first_same_source(cur, pv[k as int], 0) == first_same_source(cur, pv[k as int], i as int),
            ensures
                match slot {
                    Some(j) => first_same_source(cur, pv[k as int], 0) == Some(j as int) && j < groups@.len(),
                    None => first_same_source(cur, pv[k as int], 0) is None,
                },
            decreases groups@.len() - i,
        {
            let g: &TextureGroup = &groups[i];
            proof {
                assert(cur[i as int] == group_view(groups@[i as int]));
                assert(pv[k as int] == group_view(project@[k as int]));
            }
            let gw: &str = g.wad_name.as_str();
            let pw: &str = pg.wad_name.as_str();
            let gl: &str = g.lump.as_str();
            let pl: &str = pg.lump.as_str();
            let same_wad: bool = eq_ignore_ascii_case(gw, pw);
            let same_lump: bool = eq_ignore_ascii_case(gl, pl);
            proof {
                assert(gw.spec_bytes() == vstd::utf8::encode_utf8(cur[i as int].0));
                assert(pw.spec_bytes() == vstd::utf8::encode_utf8(pv[k as int].0));
                assert(gl.spec_bytes() == vstd::utf8::encode_utf8(cur[i as int].1));
                assert(pl.spec_bytes() == vstd::utf8::encode_utf8(pv[k as int].1));
            }
            if same_wad && same_lump {
                proof {
                    assert(same_source(cur[i as int], pv[k as int]));
                }
                slot = Some(i);
                break;
            }
            proof {
                assert(!same_source(cur[i as int], pv[k as int]));
            }
            i = i + 1;
        }
        let copy: TextureGroup = clone_group(pg);
        match slot {
            Some(i) => {
                groups.set(i, copy);
                proof {
                    assert(groups@.map_values(|g: TextureGroup| group_view(g)) =~= cur.update(i as int, pv[k as int]));
                }
            },
            None => {
                groups.push(copy);
                proof {
                    assert(groups@.map_values(|g: TextureGroup| group_view(g)) =~= cur.push(pv[k as int]));
                }
            },
        }
        k = k + 1;
    }
}

// ---------------------------------------------------------------------------------------------
// Resources the map names that the loaded WADs do not provide.

/// A name the map uses that the loaded WAD set does not provide.
#[derive(Debug, Clone, PartialEq)]
pub struct MissingResource {
    pub name: String,
    pub kind: ResourceKind,
}

/// A report: the missing name and its kind.
pub type Report = (Seq<char>, ResourceKind);

/// What a missing-resource entry says.
pub open spec fn report_view(m: MissingResource) -> Report {
    (m.name@, m.kind)
}

/// A patch cannot be found: no imported patch matches its name and the WAD has no lump of
/// that name.
pub open spec fn patch_missing(imported: Seq<ImportedPatch>, wad_names: Seq<Seq<char>>, patch: Seq<char>) -> bool {
    first_import_from(imported, vstd::utf8::encode_utf8(patch), 0) is None && !wad_names.contains(patch)
}

/// The missing patches among the first `n` placements, in order.
pub open spec fn placement_reports(
    placements: Seq<PatchPlacement>,
    imported: Seq<ImportedPatch>,
    wad_names: Seq<Seq<char>>,
    n: int,
) -> Seq<Report>
    decreases n,
{
    if n <= 0 {
        Seq::empty()
    } else {
        let rest = placement_reports(placements, imported, wad_names, n - 1);
        let p = placements[n - 1].patch@;
        if patch_missing(imported, wad_names, p) {
            rest.push((p, ResourceKind::Patch))
        } else {
            rest
        }
    }
}

/// What one wall texture slot reports: nothing when empty; the texture when it does not
/// resolve; else the missing patches of its definition.
pub open spec fn slot_reports(
    groups: Seq<TextureGroup>,
    mode: TextureMode,
    map_wad: Seq<char>,
    imported: Seq<ImportedPatch>,
    wad_names: Seq<Seq<char>>,
    slot: Seq<char>,
) -> Seq<Report> {
    if slot.len() == 0 {
        Seq::empty()
    } else {
        match resolve_texture(groups, mode, map_wad, slot) {
            None => seq![(slot, ResourceKind::Texture)],
            Some((g, t)) => {
                let placements = groups[g].defs@[t].patches@;
                placement_reports(placements, imported, wad_names, placements.len() as int)
            },
        }
    }
}

/// What the first `n` wall texture slots report, in order.
pub open spec fn wall_reports(
    groups: Seq<TextureGroup>,
    mode: TextureMode,
    map_wad: Seq<char>,
    imported: Seq<ImportedPatch>,
    wad_names: Seq<Seq<char>>,
    slots: Seq<Seq<char>>,
    n: int,
) -> Seq<Report>
    decreases n,
{
    if n <= 0 {
        Seq::empty()
    } else {
        wall_reports(groups, mode, map_wad, imported, wad_names, slots, n - 1) + slot_reports(
            groups,
            mode,
            map_wad,
            imported,
            wad_names,
            slots[n - 1],
        )
    }
}

/// The unknown flats among the first `n` flat slots, in order.
pub open spec fn flat_reports(flats: Seq<Seq<char>>, iwad_flats: Seq<Seq<char>>, n: int) -> Seq<Report>
    decreases n,
{
    if n <= 0 {
        Seq::empty()
    } else {
        let rest = flat_reports(flats, iwad_flats, n - 1);
        let f = flats[n - 1];
        if f.len() > 0 && !iwad_flats.contains(f) {
            rest.push((f, ResourceKind::Texture))
        } else {
            rest
        }
    }
}

/// `seen` after one more report: kept unless its name was already reported.
pub open spec fn add_report(seen: Seq<Report>, r: Report) -> Seq<Report> {
    if exists|i: int| 0 <= i < seen.len() && #[trigger] seen[i].0 == r.0 {
        seen
    } else {
        seen.push(r)
    }
}

/// The first report of each name among the first `n` reports, in order.
pub open spec fn first_reports(reports: Seq<Report>, n: int) -> Seq<Report>
    decreases n,
{
    if n <= 0 {
        Seq::empty()
    } else {
        add_report(first_reports(reports, n - 1), reports[n - 1])
    }
}

proof fn lemma_first_reports_prefix(a: Seq<Report>, b: Seq<Report>, n: int)
    requires
        0 <= n <= a.len(),
        n <= b.len(),
        a.subrange(0, n) == b.subrange(0, n),
    ensures
        first_reports(a, n) == first_reports(b, n),
    decreases n,
{
    if n > 0 {
        assert(a.subrange(0, n - 1) =~= a.subrange(0, n).subrange(0, n - 1));
        assert(b.subrange(0, n - 1) =~= b.subrange(0, n).subrange(0, n - 1));
        assert(a[n - 1] == a.subrange(0, n)[n - 1]);
        assert(b[n - 1] == b.subrange(0, n)[n - 1]);
        lemma_first_reports_prefix(a, b, n - 1);
    }
}

proof fn lemma_first_reports_push(reports: Seq<Report>, r: Report)
    ensures
        first_reports(reports.push(r), reports.len() + 1int) == add_report(
            first_reports(reports, reports.len() as int),
            r,
        ),
{
    assert(reports.push(r).subrange(0, reports.len() as int) =~= reports.subrange(0, reports.len() as int));
    lemma_first_reports_prefix(reports.push(r), reports, reports.len() as int);
}

/// Record `(name, kind)` unless `name` was already reported.
fn report(missing: &mut Vec<MissingResource>, name: &String, kind: ResourceKind)
    ensures
        final(missing)@.map_values(|m: MissingResource| report_view(m)) == add_report(
            old(missing)@.map_values(|m: MissingResource| report_view(m)),
            (name@, kind),
        ),
{
    let ghost seen = missing@.map_values(|m: MissingResource| report_view(m));
    let mut i: usize = 0;
    while i < missing.len()
        invariant
            seen == missing@.map_values(|m: MissingResource| report_view(m)),
            i <= missing@.len(),
            forall|j: int| 0 <= j < i ==> #[trigger] seen[j].0 != name@,
        decreases missing@.len() - i,
    {
        if missing[i].name == *name {
            proof {
                assert(seen[i as int].0 == name@);
            }
            return;
        }
        i = i + 1;
    }
    missing.push(MissingResource { name: name.clone(), kind });
    proof {
        assert(missing@.map_values(|m: MissingResource| report_view(m)) =~= seen.push((name@, kind)));
    }
}

/// Names strictly increase, in byte order.
pub open spec fn sorted_by_name(s: Seq<Report>) -> bool {
    forall|i: int, j: int|
        0 <= i < j < s.len() ==> lex_lt(text_bytes((#[trigger] s[i]).0), text_bytes((#[trigger] s[j]).0))
}

/// Every report in the missing-resource report for the map: its wall texture slots (upper,
proof fn lemma_flat_reports(flats: Seq<Seq<char>>, iwad_flats: Seq<Seq<char>>, n: int)
    requires
        0 <= n <= flats.len(),
    ensures
        forall|r: Report| #[trigger] flat_reports(flats, iwad_flats, n).contains(r) ==> {
            &&& r.1 == ResourceKind::Texture
            &&& r.0.len() > 0 && !iwad_flats.contains(r.0)
            &&& exists|j: int| 0 <= j < n && flats[j] == r.0
        },
        forall|j: int|
            0 <= j < n && #[trigger] flats[j].len() > 0 && !iwad_flats.contains(flats[j]) ==> flat_reports(
                flats,
                iwad_flats,
                n,
            ).contains((flats[j], ResourceKind::Texture)),
    decreases n,
{
    if n > 0 {
        lemma_flat_reports(flats, iwad_flats, n - 1);
        let rest = flat_reports(flats, iwad_flats, n - 1);
        let all = flat_reports(flats, iwad_flats, n);
        let f = flats[n - 1];
        if f.len() > 0 && !iwad_flats.contains(f) {
            assert(all == rest.push((f, ResourceKind::Texture)));
            assert forall|r: Report| #[trigger] all.contains(r) implies rest.contains(r) || r == (f, ResourceKind::Texture) by {
                let k = choose|k: int| 0 <= k < all.len() && all[k] == r;
                if k < rest.len() {
                    assert(rest[k] == r);
                }
            }
            assert(all[rest.len() as int] == (f, ResourceKind::Texture));
            assert forall|j: int|
                0 <= j < n && #[trigger] flats[j].len() > 0 && !iwad_flats.contains(flats[j]) implies all.contains(
                (flats[j], ResourceKind::Texture)) by {
                if j < n - 1 {
                    let k = choose|k: int| 0 <= k < rest.len() && rest[k] == (flats[j], ResourceKind::Texture);
                    assert(all[k] == rest[k]);
                }
            }
        }
    }
}

proof fn lemma_placement_reports(
    placements: Seq<PatchPlacement>,
    imported: Seq<ImportedPatch>,
    wad_names: Seq<Seq<char>>,
    n: int,
)
    requires
        0 <= n <= placements.len(),
    ensures
        forall|r: Report| #[trigger] placement_reports(placements, imported, wad_names, n).contains(r) ==> {
            &&& r.1 == ResourceKind::Patch
            &&& patch_missing(imported, wad_names, r.0)
            &&& exists|k: int| 0 <= k < n && placements[k].patch@ == r.0
        },
        forall|k: int|
            0 <= k < n && #[trigger] patch_missing(imported, wad_names, placements[k].patch@) ==> placement_reports(
                placements,
                imported,
                wad_names,
                n,
            ).contains((placements[k].patch@, ResourceKind::Patch)),
    decreases n,
{
    if n > 0 {
        lemma_placement_reports(placements, imported, wad_names, n - 1);
        let rest = placement_reports(placements, imported, wad_names, n - 1);
        let all = placement_reports(placements, imported, wad_names, n);
        let p = placements[n - 1].patch@;
        if patch_missing(imported, wad_names, p) {
            assert(all == rest.push((p, ResourceKind::Patch)));
            assert forall|r: Report| #[trigger] all.contains(r) implies rest.contains(r) || r == (p, ResourceKind::Patch) by {
                let k = choose|k: int| 0 <= k < all.len() && all[k] == r;
                if k < rest.len() {
                    assert(rest[k] == r);
                }
            }
            assert(all[rest.len() as int] == (p, ResourceKind::Patch));
            assert forall|k: int|
                0 <= k < n && #[trigger] patch_missing(imported, wad_names, placements[k].patch@) implies all.contains(
                (placements[k].patch@, ResourceKind::Patch)) by {
                if k < n - 1 {
                    let i = choose|i: int| 0 <= i < rest.len() && rest[i] == (placements[k].patch@, ResourceKind::Patch);
                    assert(all[i] == rest[i]);
                }
            }
        }
    }
}

/// Wall slot `slot` resolves to a definition one of whose placements names `patch`.
pub open spec fn slot_uses_patch(
    groups: Seq<TextureGroup>,
    mode: TextureMode,
    map_wad: Seq<char>,
    slot: Seq<char>,
    patch: Seq<char>,
) -> bool {
    resolve_texture(groups, mode, map_wad, slot) matches Some(r) && exists|k: int|
        0 <= k < groups[r.0].defs@[r.1].patches@.len() && #[trigger] groups[r.0].defs@[r.1].patches@[k].patch@ == patch
}

proof fn lemma_wall_reports(
    groups: Seq<TextureGroup>,
    mode: TextureMode,
    map_wad: Seq<char>,
    imported: Seq<ImportedPatch>,
    wad_names: Seq<Seq<char>>,
    slots: Seq<Seq<char>>,
    n: int,
)
    requires
        0 <= n <= slots.len(),
    ensures
        forall|r: Report| #[trigger] wall_reports(groups, mode, map_wad, imported, wad_names, slots, n).contains(r) ==> {
            &&& r.1 == ResourceKind::Texture ==> r.0.len() > 0 && resolve_texture(groups, mode, map_wad, r.0) is None
                && exists|j: int| 0 <= j < n && slots[j] == r.0
            &&& r.1 == ResourceKind::Patch ==> patch_missing(imported, wad_names, r.0) && exists|j: int|
                0 <= j < n && #[trigger] slot_uses_patch(groups, mode, map_wad, slots[j], r.0)
        },
        forall|j: int|
            0 <= j < n && #[trigger] slots[j].len() > 0 && resolve_texture(groups, mode, map_wad, slots[j]) is None
                ==> wall_reports(groups, mode, map_wad, imported, wad_names, slots, n).contains(
                (slots[j], ResourceKind::Texture),
            ),
        forall|j: int, p: Seq<char>|
            0 <= j < n && slots[j].len() > 0 && #[trigger] slot_uses_patch(groups, mode, map_wad, slots[j], p)
                && patch_missing(imported, wad_names, p) ==> wall_reports(
                groups,
                mode,
                map_wad,
                imported,
                wad_names,
                slots,
                n,
            ).contains((p, ResourceKind::Patch)),
    decreases n,
{
    if n > 0 {
        lemma_wall_reports(groups, mode, map_wad, imported, wad_names, slots, n - 1);
        let rest = wall_reports(groups, mode, map_wad, imported, wad_names, slots, n - 1);
        let slot = slots[n - 1];
        let here = slot_reports(groups, mode, map_wad, imported, wad_names, slot);
        let all = wall_reports(groups, mode, map_wad, imported, wad_names, slots, n);
        assert(all == rest + here);
        if slot.len() > 0 {
            match resolve_texture(groups, mode, map_wad, slot) {
                None => {},
                Some(r) => {
                    let pl = groups[r.0].defs@[r.1].patches@;
                    lemma_placement_reports(pl, imported, wad_names, pl.len() as int);
                },
            }
        }
        assert forall|x: Report| #[trigger] all.contains(x) implies {
            &&& x.1 == ResourceKind::Texture ==> x.0.len() > 0 && resolve_texture(groups, mode, map_wad, x.0) is None
                && exists|j: int| 0 <= j < n && slots[j] == x.0
            &&& x.1 == ResourceKind::Patch ==> patch_missing(imported, wad_names, x.0) && exists|j: int|
                0 <= j < n && #[trigger] slot_uses_patch(groups, mode, map_wad, slots[j], x.0)
        } by {
            let k = choose|k: int| 0 <= k < all.len() && all[k] == x;
            if k < rest.len() {
                assert(rest[k] == x);
                assert(rest.contains(x));
            } else {
                assert(here[k - rest.len()] == x);
                assert(here.contains(x));
                if x.1 == ResourceKind::Patch {
                    let r = resolve_texture(groups, mode, map_wad, slot)->0;
                    let pl = groups[r.0].defs@[r.1].patches@;
                    let kk = choose|kk: int| 0 <= kk < pl.len() && pl[kk].patch@ == x.0;
                    assert(slot_uses_patch(groups, mode, map_wad, slots[n - 1], x.0));
                }
            }
        }
        assert forall|j: int|
            0 <= j < n && #[trigger] slots[j].len() > 0 && resolve_texture(groups, mode, map_wad, slots[j]) is None
                implies all.contains((slots[j], ResourceKind::Texture)) by {
            if j < n - 1 {
                let k = choose|k: int| 0 <= k < rest.len() && rest[k] == (slots[j], ResourceKind::Texture);
                assert(all[k] == rest[k]);
            } else {
                assert(here == seq![(slot, ResourceKind::Texture)]);
                assert(all[rest.len() as int] == (slot, ResourceKind::Texture));
            }
        }
        assert forall|j: int, p: Seq<char>|
            0 <= j < n && slots[j].len() > 0 && #[trigger] slot_uses_patch(groups, mode, map_wad, slots[j], p)
                && patch_missing(imported, wad_names, p) implies all.contains((p, ResourceKind::Patch)) by {
            if j < n - 1 {
                let k = choose|k: int| 0 <= k < rest.len() && rest[k] == (p, ResourceKind::Patch);
                assert(all[k] == rest[k]);
            } else {
                let r = resolve_texture(groups, mode, map_wad, slot)->0;
                let pl = groups[r.0].defs@[r.1].patches@;
                let kk = choose|kk: int| 0 <= kk < pl.len() && #[trigger] pl[kk].patch@ == p;
                assert(patch_missing(imported, wad_names, pl[kk].patch@));
                let i = choose|i: int| 0 <= i < here.len() && here[i] == (p, ResourceKind::Patch);
                assert(all[rest.len() + i] == here[i]);
            }
        }
    }
}

/// The missing-resource reports are exactly justified: a texture report names a non-empty wall
/// slot that resolves nowhere, or a non-empty flat the IWAD lacks; a patch report names a patch
/// that neither an imported patch nor the WAD provides, used by a wall texture the map resolves.
/// And every such wall slot, flat and patch is reported.
pub proof fn lemma_missing_reports_law(
    assets: TextureAssets,
    walls: Seq<Seq<char>>,
    flats: Seq<Seq<char>>,
    iwad_flats: Seq<Seq<char>>,
    imported: Seq<ImportedPatch>,
    wad_names: Seq<Seq<char>>,
)
    ensures
        ({
            let groups = assets.groups_view();
            let mode = assets.mode_view();
            let map_wad = assets.map_wad_view();
            let all = all_reports(assets, walls, flats, iwad_flats, imported, wad_names);
            &&& forall|r: Report| #[trigger] all.contains(r) ==> {
                ||| (r.1 == ResourceKind::Texture && r.0.len() > 0 && walls.contains(r.0) && resolve_texture(
                    groups,
                    mode,
                    map_wad,
                    r.0,
                ) is None)
                ||| (r.1 == ResourceKind::Texture && r.0.len() > 0 && flats.contains(r.0) && !iwad_flats.contains(r.0))
                ||| (r.1 == ResourceKind::Patch && patch_missing(imported, wad_names, r.0) && exists|j: int|
                    0 <= j < walls.len() && #[trigger] slot_uses_patch(groups, mode, map_wad, walls[j], r.0))
            }
            &&& forall|j: int|
                0 <= j < walls.len() && #[trigger] walls[j].len() > 0 && resolve_texture(groups, mode, map_wad, walls[j])
                    is None ==> all.contains((walls[j], ResourceKind::Texture))
            &&& forall|j: int|
                0 <= j < flats.len() && #[trigger] flats[j].len() > 0 && !iwad_flats.contains(flats[j]) ==> all.contains(
                    (flats[j], ResourceKind::Texture))
            &&& forall|j: int, p: Seq<char>|
                0 <= j < walls.len() && walls[j].len() > 0 && #[trigger] slot_uses_patch(groups, mode, map_wad, walls[j], p)
                    && patch_missing(imported, wad_names, p) ==> all.contains((p, ResourceKind::Patch))
        }),
{
    let groups = assets.groups_view();
    let mode = assets.mode_view();
    let map_wad = assets.map_wad_view();
    let w = wall_reports(groups, mode, map_wad, imported, wad_names, walls, walls.len() as int);
    let f = flat_reports(flats, iwad_flats, flats.len() as int);
    lemma_wall_reports(groups, mode, map_wad, imported, wad_names, walls, walls.len() as int);
    lemma_flat_reports(flats, iwad_flats, flats.len() as int);
    let all = all_reports(assets, walls, flats, iwad_flats, imported, wad_names);
    assert(all == w + f);
    assert forall|r: Report| #[trigger] all.contains(r) implies w.contains(r) || f.contains(r) by {
        let k = choose|k: int| 0 <= k < all.len() && all[k] == r;
        if k < w.len() {
            assert(w[k] == r);
        } else {
            assert(f[k - w.len()] == r);
        }
    }
    assert forall|r: Report| w.contains(r) implies #[trigger] all.contains(r) by {
        let k = choose|k: int| 0 <= k < w.len() && w[k] == r;
        assert(all[k] == r);
    }
    assert forall|r: Report| f.contains(r) implies #[trigger] all.contains(r) by {
        let k = choose|k: int| 0 <= k < f.len() && f[k] == r;
        assert(all[w.len() + k] == r);
    }
}

/// middle, lower of each side) then its flat slots (floor and ceiling of each sector).
pub open spec fn all_reports(
    assets: TextureAssets,
    walls: Seq<Seq<char>>,
    flats: Seq<Seq<char>>,
    iwad_flats: Seq<Seq<char>>,
    imported: Seq<ImportedPatch>,
    wad_names: Seq<Seq<char>>,
) -> Seq<Report> {
    wall_reports(
        assets.groups_view(),
        assets.mode_view(),
        assets.map_wad_view(),
        imported,
        wad_names,
        walls,
        walls.len() as int,
    ) + flat_reports(flats, iwad_flats, flats.len() as int)
}

fn patch_is_missing(imported: &[ImportedPatch], wad_names: &[String], patch: &String) -> (missing: bool)
    ensures
        missing == patch_missing(imported@, string_texts(wad_names@), patch@),
{
    let name: &str = patch.as_str();
    let found: Option<&[u8]> = crate::compose::resolve_patch_lump(name, imported, None);
    proof {
        assert(name.spec_bytes() == vstd::utf8::encode_utf8(patch@));
    }
    found.is_none() && !crate::atlas::contains_text(wad_names, patch)
}

/// Sort reports of distinct names by name.
fn sort_reports(reports: Vec<MissingResource>) -> (out: Vec<MissingResource>)
    requires
        forall|i: int, j: int|
            0 <= i < j < reports@.len() ==> (#[trigger] reports@[i]).name@ != (#[trigger] reports@[j]).name@,
    ensures
        sorted_by_name(out@.map_values(|m: MissingResource| report_view(m))),
        out@.map_values(|m: MissingResource| report_view(m)).to_set() == reports@.map_values(
            |m: MissingResource| report_view(m),
        ).to_set(),
{
    let ghost src = reports@.map_values(|m: MissingResource| report_view(m));
    let mut out: Vec<MissingResource> = Vec::new();
    let mut i: usize = 0;
    while i < reports.len()
        invariant
            src == reports@.map_values(|m: MissingResource| report_view(m)),
            forall|a: int, b: int|
                0 <= a < b < reports@.len() ==> (#[trigger] reports@[a]).name@ != (#[trigger] reports@[b]).name@,
            i <= reports@.len(),
            sorted_by_name(out@.map_values(|m: MissingResource| report_view(m))),
            out@.map_values(|m: MissingResource| report_view(m)).to_set() == src.subrange(0, i as int).to_set(),
        decreases reports@.len() - i,
    {
        let r: &MissingResource = &reports[i];
        let ghost ov = out@.map_values(|m: MissingResource| report_view(m));
        let ghost t = report_view(*r);
        proof {
            src.subrange(0, i as int).lemma_push_to_set_commute(t);
            assert(src.subrange(0, i + 1) =~= src.subrange(0, i as int).push(t));
            assert(src[i as int] == t);
        }
        proof {
            let pre = src.subrange(0, i as int);
            assert forall|j: int| 0 <= j < ov.len() implies (#[trigger] ov[j]).0 != t.0 by {
                assert(ov.contains(ov[j]));
                assert(ov.to_set().contains(ov[j]));
                assert(pre.to_set().contains(ov[j]));
                assert(pre.contains(ov[j]));
                let m = choose|m: int| 0 <= m < pre.len() && pre[m] == ov[j];
                assert(src[m] == ov[j]);
                assert(reports@[m].name@ != reports@[i as int].name@);
            }
        }
        let rb: &[u8] = r.name.as_str().as_bytes();
        let mut pos: usize = 0;
        while pos < out.len()
            invariant
                ov == out@.map_values(|m: MissingResource| report_view(m)),
                t == report_view(*r),
                rb@ == text_bytes(t.0),
                pos <= out@.len(),
                forall|j: int| 0 <= j < pos ==> lex_lt(text_bytes(#[trigger] ov[j].0), text_bytes(t.0)),
                forall|j: int| 0 <= j < ov.len() ==> (#[trigger] ov[j]).0 != t.0,
            ensures
                pos <= out@.len(),
                forall|j: int| 0 <= j < pos ==> lex_lt(text_bytes(#[trigger] ov[j].0), text_bytes(t.0)),
                pos < out@.len() ==> lex_lt(text_bytes(t.0), text_bytes(ov[pos as int].0)),
            decreases out@.len() - pos,
        {
            let ob: &[u8] = out[pos].name.as_str().as_bytes();
            proof {
                assert(ob@ == text_bytes(ov[pos as int].0));
            }
            if crate::remap::bytes_lt(rb, ob) {
                break;
            }
            proof {
                assert(ov[pos as int].0 != t.0);
                if text_bytes(ov[pos as int].0) == text_bytes(t.0) {
                    crate::remap::lemma_text_bytes_injective(ov[pos as int].0, t.0);
                }
                crate::remap::lemma_lex_total(text_bytes(ov[pos as int].0), text_bytes(t.0));
            }
            pos = pos + 1;
        }
        out.insert(pos, r.clone_resource());
        proof {
            let nv = out@.map_values(|m: MissingResource| report_view(m));
            assert(nv =~= ov.subrange(0, pos as int).push(t) + ov.subrange(pos as int, ov.len() as int));
            assert forall|a: int, b: int| 0 <= a < b < nv.len() implies lex_lt(
                text_bytes((#[trigger] nv[a]).0),
                text_bytes((#[trigger] nv[b]).0),
            ) by {
                if a < pos && b == pos {
                } else if a < pos && b > pos {
                    assert(nv[b] == ov[b - 1]);
                } else if a == pos && b > pos {
                    assert(nv[b] == ov[b - 1]);
                    if b - 1 > pos {
                        crate::remap::lemma_lex_transitive(
                            text_bytes(t.0),
                            text_bytes(ov[pos as int].0),
                            text_bytes(ov[b - 1].0),
                        );
                    }
                } else if b < pos {
                    assert(nv[a] == ov[a]);
                    assert(nv[b] == ov[b]);
                } else {
                    assert(nv[a] == ov[a - 1]);
                    assert(nv[b] == ov[b - 1]);
                }
            }
            assert forall|x: Report| #[trigger] nv.contains(x) <==> ov.contains(x) || x == t by {
                if ov.contains(x) {
                    let j = choose|j: int| 0 <= j < ov.len() && ov[j] == x;
                    if j < pos {
                        assert(nv[j] == x);
                    } else {
                        assert(nv[j + 1] == x);
                    }
                }
                if x == t {
                    assert(nv[pos as int] == x);
                }
                if nv.contains(x) {
                    let j = choose|j: int| 0 <= j < nv.len() && nv[j] == x;
                    if j < pos {
                        assert(ov[j] == x);
                    } else if j > pos {
                        assert(ov[j - 1] == x);
                    }
                }
            }
            assert(nv.to_set() =~= ov.to_set().insert(t));
        }
        i = i + 1;
    }
    proof {
        assert(src.subrange(0, src.len() as int) =~= src);
    }
    out
}

impl MissingResource {
    fn clone_resource(&self) -> (c: MissingResource)
        ensures
            report_view(c) == report_view(*self),
    {
        MissingResource { name: self.name.clone(), kind: self.kind }
    }
}

proof fn lemma_first_reports_distinct(reports: Seq<Report>, n: int)
    ensures
        forall|i: int, j: int|
            0 <= i < j < first_reports(reports, n).len() ==> (#[trigger] first_reports(reports, n)[i]).0
                != (#[trigger] first_reports(reports, n)[j]).0,
    decreases n,
{
    if n > 0 {
        lemma_first_reports_distinct(reports, n - 1);
        let prev = first_reports(reports, n - 1);
        let r = reports[n - 1];
        let cur = first_reports(reports, n);
        if !(exists|i: int| 0 <= i < prev.len() && #[trigger] prev[i].0 == r.0) {
            assert(cur == prev.push(r));
            assert forall|i: int, j: int| 0 <= i < j < cur.len() implies (#[trigger] cur[i]).0 != (#[trigger] cur[j]).0 by {
                if j == prev.len() {
                    assert(cur[i] == prev[i]);
                    assert(prev[i].0 != r.0);
                } else {
                    assert(cur[i] == prev[i] && cur[j] == prev[j]);
                }
            }
        }
    }
}

impl TextureAssets {
    /// The names the map uses that the loaded WAD set does not provide, each once (its first
    /// report counts), sorted by name: a wall texture that does not resolve, a patch of a
    /// resolved texture that neither an imported patch nor the WAD provides, a flat the IWAD
    /// lacks. `walls` are the map's side texture slots (upper, middle, lower of each side),
    /// `flats` its sectors' floor and ceiling flats, `iwad_flats` the IWAD's flat names, and
    /// `wad_names` the names of the WAD's lumps.
    pub fn missing_resources(
        &self,
        walls: &[String],
        flats: &[String],
        iwad_flats: &[String],
        imported: &[ImportedPatch],
        wad_names: &[String],
    ) -> (missing: Vec<MissingResource>)
        requires
            self.wf(),
        ensures
            sorted_by_name(missing@.map_values(|m: MissingResource| report_view(m))),
            ({
                let all = all_reports(
                    *self,
                    string_texts(walls@),
                    string_texts(flats@),
                    string_texts(iwad_flats@),
                    imported@,
                    string_texts(wad_names@),
                );
                missing@.map_values(|m: MissingResource| report_view(m)).to_set() == first_reports(
                    all,
                    all.len() as int,
                ).to_set()
            }),
    {
        let ghost wv = string_texts(walls@);
        let ghost fv = string_texts(flats@);
        let ghost iv = string_texts(iwad_flats@);
        let ghost nv = string_texts(wad_names@);
        let ghost groups = self.groups_view();
        let ghost mode = self.mode_view();
        let ghost mw = self.map_wad_view();
        let mut found: Vec<MissingResource> = Vec::new();
        let ghost mut reps: Seq<Report> = Seq::empty();
        let mut i: usize = 0;
        while i < walls.len()
            invariant
                self.wf(),
                wv == string_texts(walls@),
                nv == string_texts(wad_names@),
                groups == self.groups_view(),
                mode == self.mode_view(),
                mw == self.map_wad_view(),
                i <= walls@.len(),
                reps == wall_reports(groups, mode, mw, imported@, nv, wv, i as int),
                found@.map_values(|m: MissingResource| report_view(m)) == first_reports(reps, reps.len() as int),
            decreases walls@.len() - i,
        {
            let slot: &String = &walls[i];
            proof {
                assert(wv[i as int] == slot@);
            }
            if !slot.as_str().is_empty() {
                match self.texture_def(slot) {
                    None => {
                        proof {
                            lemma_first_reports_push(reps, (slot@, ResourceKind::Texture));
                        }
                        report(&mut found, slot, ResourceKind::Texture);
                        proof {
                            reps = reps.push((slot@, ResourceKind::Texture));
                            assert(slot_reports(groups, mode, mw, imported@, nv, slot@) =~= seq![
                                (slot@, ResourceKind::Texture),
                            ]);
                            assert(wall_reports(groups, mode, mw, imported@, nv, wv, i + 1) =~= reps);
                        }
                    },
                    Some(def) => {
                        let ghost base = reps;
                        let ghost placements = def.patches@;
                        let mut j: usize = 0;
                        while j < def.patches.len()
                            invariant
                                placements == def.patches@,
                                nv == string_texts(wad_names@),
                                j <= placements.len(),
                                reps == base + placement_reports(placements, imported@, nv, j as int),
                                found@.map_values(|m: MissingResource| report_view(m)) == first_reports(
                                    reps,
                                    reps.len() as int,
                                ),
                            decreases placements.len() - j,
                        {
                            let patch: &String = &def.patches[j].patch;
                            if patch_is_missing(imported, wad_names, patch) {
                                proof {
                                    lemma_first_reports_push(reps, (patch@, ResourceKind::Patch));
                                }
                                report(&mut found, patch, ResourceKind::Patch);
                                proof {
                                    reps = reps.push((patch@, ResourceKind::Patch));
                                    assert(reps =~= base + placement_reports(placements, imported@, nv, j + 1));
                                }
                            } else {
                                proof {
                                    assert(reps =~= base + placement_reports(placements, imported@, nv, j + 1));
                                }
                            }
                            j = j + 1;
                        }
                        proof {
                            assert(reps =~= wall_reports(groups, mode, mw, imported@, nv, wv, i + 1));
                        }
                    },
                }
            } else {
                proof {
                    assert(wall_reports(groups, mode, mw, imported@, nv, wv, i + 1) =~= reps);
                }
            }
            i = i + 1;
        }
        let ghost wall_part = reps;
        let mut k: usize = 0;
        while k < flats.len()
            invariant
                fv == string_texts(flats@),
                iv == string_texts(iwad_flats@),
                k <= flats@.len(),
                reps == wall_part + flat_reports(fv, iv, k as int),
                found@.map_values(|m: MissingResource| report_view(m)) == first_reports(reps, reps.len() as int),
            decreases flats@.len() - k,
        {
            let flat: &String = &flats[k];
            proof {
                assert(fv[k as int] == flat@);
            }
            if !flat.as_str().is_empty() && !crate::atlas::contains_text(iwad_flats, flat) {
                proof {
                    lemma_first_reports_push(reps, (flat@, ResourceKind::Texture));
                }
                report(&mut found, flat, ResourceKind::Texture);
                proof {
                    reps = reps.push((flat@, ResourceKind::Texture));
                    assert(reps =~= wall_part + flat_reports(fv, iv, k + 1));
                }
            } else {
                proof {
                    assert(reps =~= wall_part + flat_reports(fv, iv, k + 1));
                }
            }
            k = k + 1;
        }
        proof {
            lemma_first_reports_distinct(reps, reps.len() as int);
            let fvw = found@.map_values(|m: MissingResource| report_view(m));
            assert forall|a: int, b: int| 0 <= a < b < found@.len() implies (#[trigger] found@[a]).name@
                != (#[trigger] found@[b]).name@ by {
                assert(fvw[a] == report_view(found@[a]));
                assert(fvw[b] == report_view(found@[b]));
            }
        }
        sort_reports(found)
    }
}

} // verus!

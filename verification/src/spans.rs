//! The span table of the 3D preview mesh: each sector fill and line wall owns a run of
//! vertex slots (`offset`, `cap`), of which `len` are live and the rest padding. A run that
//! outgrows its capacity moves to the tail of the mesh and its old slots are tombstoned.

use std::collections::HashMap;
use vstd::prelude::*;

verus! {

broadcast use vstd::std_specs::hash::group_hash_axioms;

/// Span capacity slack divisor: capacity is `len + len / 4`, rounded up to whole triangles.
pub const SPAN_SLACK_DIV: u32 = 4;

/// One span: `offset`/`cap` in vertices into the mesh; `len` live, the rest padding.
#[derive(Debug, Clone, Copy, PartialEq, Eq, Structural)]
pub struct Span {
    pub offset: u32,
    pub len: u32,
    pub cap: u32,
}

impl Default for Span {
    fn default() -> (span: Self)
        ensures
            span == (Span { offset: 0, len: 0, cap: 0 }),
    {
        Span { offset: 0, len: 0, cap: 0 }
    }
}

/// A mesh region rewritten by a span update; the GPU buffer patches the same vertex range.
#[derive(Debug, Clone, Copy, PartialEq, Eq, Structural)]
pub struct SpanPatch {
    pub offset: u32,
    pub count: u32,
}

/// Capacity for `len` live vertices: zero for zero, else `len + len / 4` rounded up to a
/// multiple of 3.
pub open spec fn spec_span_cap(len: int) -> int {
    if len == 0 {
        0
    } else {
        let want = len + len / SPAN_SLACK_DIV as int;
        if want % 3 == 0 {
            want
        } else {
            want + (3 - want % 3)
        }
    }
}

/// Capacity for a span of `len` vertices: slack for value edits, triangle-aligned.
pub fn span_cap(len: u32) -> (cap: u32)
    requires
        spec_span_cap(len as int) <= u32::MAX,
    ensures
        cap == spec_span_cap(len as int),
        len <= cap,
        cap % 3 == 0,
{
    if len == 0 {
        return 0;
    }
    let want: u32 = len + len / SPAN_SLACK_DIV;
    if want % 3 == 0 {
        want
    } else {
        want + (3 - want % 3)
    }
}

/// The mesh after the span's `cap` slots from `offset` are overwritten with `v`.
pub open spec fn fill_region<V>(mesh: Seq<V>, offset: int, count: int, v: V) -> Seq<V> {
    Seq::new(mesh.len(), |i: int| if offset <= i < offset + count { v } else { mesh[i] })
}

/// The mesh after `verts` are written at `offset`, followed by copies of `pad` up to `cap` slots.
pub open spec fn write_region<V>(mesh: Seq<V>, offset: int, cap: int, verts: Seq<V>, pad: V) -> Seq<V> {
    Seq::new(
        mesh.len(),
        |i: int|
            if offset <= i < offset + verts.len() {
                verts[i - offset]
            } else if offset + verts.len() <= i < offset + cap {
                pad
            } else {
                mesh[i]
            },
    )
}

/// A span lies inside a mesh of `used` slots, with its live part inside its capacity.
pub open spec fn span_fits(span: Span, used: int) -> bool {
    span.len <= span.cap && span.offset + span.cap <= used
}

/// Overwrite a span's whole region with tombstone vertices, recording the patch.
pub fn tombstone_span<V: Copy>(span: &Span, mesh: &mut Vec<V>, patches: &mut Vec<SpanPatch>, tombstone: V)
    requires
        span.offset + span.cap <= old(mesh)@.len(),
    ensures
        final(mesh)@ == fill_region(old(mesh)@, span.offset as int, span.cap as int, tombstone),
        span.cap == 0 ==> final(patches)@ == old(patches)@,
        span.cap > 0 ==> final(patches)@ == old(patches)@.push(
            SpanPatch { offset: span.offset, count: span.cap },
        ),
{
    if span.cap == 0 {
        proof {
            assert(mesh@ =~= fill_region(old(mesh)@, span.offset as int, 0, tombstone));
        }
        return;
    }
    let mlen: usize = mesh.len();
    let at: usize = span.offset as usize;
    let end: usize = at + span.cap as usize;
    let mut i: usize = at;
    while i < end
        invariant
            at == span.offset,
            end == span.offset + span.cap,
            end <= mesh@.len(),
            at <= i <= end,
            mesh@ == fill_region(old(mesh)@, at as int, i - at, tombstone),
        decreases end - i,
    {
        mesh.set(i, tombstone);
        i = i + 1;
        proof {
            assert(mesh@ =~= fill_region(old(mesh)@, at as int, i - at, tombstone));
        }
    }
    patches.push(SpanPatch { offset: span.offset, count: span.cap });
}

/// The span after `n` vertices were written into it: in place while they fit its capacity,
/// else moved to the mesh tail (`used`) with a fresh capacity.
pub open spec fn span_after(span: Span, used: u32, n: int) -> Span {
    if n > span.cap {
        Span { offset: used, len: n as u32, cap: spec_span_cap(n) as u32 }
    } else {
        Span { len: n as u32, ..span }
    }
}

/// The mesh length after `n` vertices were written into `span`.
pub open spec fn used_after(span: Span, used: u32, n: int) -> u32 {
    if n > span.cap {
        (used + spec_span_cap(n)) as u32
    } else {
        used
    }
}

/// The mesh after `verts` were written into `span`: in place, padded with the last vertex (or
/// `tombstone` when there are none); or, when they outgrow the capacity, the old region
/// tombstoned and the vertices written at the tail, which grows by the fresh capacity.
pub open spec fn mesh_after<V>(span: Span, used: u32, mesh: Seq<V>, verts: Seq<V>, tombstone: V) -> Seq<V> {
    if verts.len() > span.cap {
        let cap = spec_span_cap(verts.len() as int);
        let moved = fill_region(mesh, span.offset as int, span.cap as int, tombstone) + Seq::new(
            cap as nat,
            |i: int| tombstone,
        );
        write_region(moved, used as int, cap, verts, verts.last())
    } else {
        write_region(
            mesh,
            span.offset as int,
            span.cap as int,
            verts,
            if verts.len() == 0 { tombstone } else { verts.last() },
        )
    }
}

/// The patch list after `n` vertices were written into `span`: the span's old region, when it
/// has one, then its new region when it moved.
pub open spec fn patches_after(span: Span, used: u32, n: int, patches: Seq<SpanPatch>) -> Seq<SpanPatch> {
    let first = if span.cap > 0 {
        patches.push(SpanPatch { offset: span.offset, count: span.cap })
    } else {
        patches
    };
    if n > span.cap {
        first.push(SpanPatch { offset: used, count: spec_span_cap(n) as u32 })
    } else {
        first
    }
}

/// Write `verts` into `span`, padded to its capacity with the last vertex (or `tombstone`
/// when there are none). When `verts` outgrow the capacity, the old slots are tombstoned and
/// the span moves to the mesh tail with a fresh capacity, growing the mesh.
pub fn update_span<V: Copy>(
    span: &mut Span,
    used: &mut u32,
    mesh: &mut Vec<V>,
    verts: Vec<V>,
    patches: &mut Vec<SpanPatch>,
    tombstone: V,
)
    requires
        old(mesh)@.len() == *old(used),
        span_fits(*old(span), *old(used) as int),
        verts@.len() <= u32::MAX,
        verts@.len() > old(span).cap ==> *old(used) + spec_span_cap(verts@.len() as int)
            <= u32::MAX,
    ensures
        final(mesh)@.len() == *final(used),
        span_fits(*final(span), *final(used) as int),
        *final(span) == span_after(*old(span), *old(used), verts@.len() as int),
        *final(used) == used_after(*old(span), *old(used), verts@.len() as int),
        final(mesh)@ == mesh_after(*old(span), *old(used), old(mesh)@, verts@, tombstone),
        final(patches)@ == patches_after(*old(span), *old(used), verts@.len() as int, old(patches)@),
{
    let len: u32 = verts.len() as u32;
    if len > span.cap {
        tombstone_span(span, mesh, patches, tombstone);
        let cap: u32 = span_cap(len);
        *span = Span { offset: *used, len, cap };
        *used = *used + cap;
        let ghost tomb_mesh = mesh@;
        while mesh.len() < *used as usize
            invariant
                tomb_mesh.len() <= mesh@.len() <= *used,
                mesh@ == tomb_mesh + Seq::new((mesh@.len() - tomb_mesh.len()) as nat, |i: int| tombstone),
            decreases *used - mesh@.len(),
        {
            mesh.push(tombstone);
            proof {
                assert(mesh@ =~= tomb_mesh + Seq::new(
                    (mesh@.len() - tomb_mesh.len()) as nat,
                    |i: int| tombstone,
                ));
            }
        }
    } else {
        span.len = len;
    }
    let ghost before = mesh@;
    let mlen: usize = mesh.len();
    let at: usize = span.offset as usize;
    let mut i: usize = 0;
    while i < verts.len()
        invariant
            at == span.offset,
            len == verts@.len(),
            span.len == len,
            len <= span.cap,
            span.offset + span.cap <= mesh@.len(),
            before.len() == mesh@.len(),
            mlen == mesh@.len(),
            i <= len,
            mesh@ == write_region(before, at as int, i as int, verts@.subrange(0, i as int), tombstone),
        decreases verts@.len() - i,
    {
        mesh.set(at + i, verts[i]);
        i = i + 1;
        proof {
            assert(mesh@ =~= write_region(
                before,
                at as int,
                i as int,
                verts@.subrange(0, i as int),
                tombstone,
            ));
        }
    }
    let pad: V = if verts.len() == 0 {
        tombstone
    } else {
        verts[verts.len() - 1]
    };
    let end: usize = at + span.cap as usize;
    let mut j: usize = at + verts.len();
    while j < end
        invariant
            at == span.offset,
            len == verts@.len(),
            len <= span.cap,
            end == span.offset + span.cap,
            end <= mesh@.len(),
            before.len() == mesh@.len(),
            at + len <= j <= end,
            mesh@ == write_region(before, at as int, j - at, verts@, pad),
        decreases end - j,
    {
        mesh.set(j, pad);
        j = j + 1;
        proof {
            assert(mesh@ =~= write_region(before, at as int, j - at, verts@, pad));
        }
    }
    proof {
        assert(verts@.subrange(0, len as int) =~= verts@);
        assert(mesh@ =~= write_region(before, at as int, span.cap as int, verts@, pad));
    }
    if span.cap > 0 {
        patches.push(SpanPatch { offset: span.offset, count: span.cap });
    }
}

/// A span's capacity leaves a quarter of slack, rounded up to whole triangles: the smallest
/// multiple of 3 that is at least `len + len / 4`, and 0 for an empty span.
pub proof fn lemma_span_cap_law(len: int)
    requires
        0 <= len,
    ensures
        spec_span_cap(len) % 3 == 0,
        len + len / 4 <= spec_span_cap(len) < len + len / 4 + 3,
        (spec_span_cap(len) == 0) == (len == 0),
{
}

/// What a span update does to the mesh and the table. Vertices that fit the capacity are
/// written in place from the span's offset; the rest of its capacity repeats the last vertex
/// (or the tombstone when there are none), and nothing else changes. Vertices that outgrow it
/// are written at the old mesh end, where the span moves with a fresh capacity; the mesh grows
/// by that capacity, the old region becomes tombstones, and nothing else changes. The span's
/// length is always the number of vertices written.
pub proof fn lemma_span_update_law<V>(span: Span, used: u32, mesh: Seq<V>, verts: Seq<V>, tombstone: V)
    requires
        mesh.len() == used,
        span_fits(span, used as int),
        verts.len() <= u32::MAX,
        verts.len() > span.cap ==> used + spec_span_cap(verts.len() as int) <= u32::MAX,
    ensures
        span_after(span, used, verts.len() as int).len == verts.len(),
        verts.len() <= span.cap ==> {
            let out = mesh_after(span, used, mesh, verts, tombstone);
            &&& span_after(span, used, verts.len() as int).offset == span.offset
            &&& span_after(span, used, verts.len() as int).cap == span.cap
            &&& used_after(span, used, verts.len() as int) == used
            &&& out.len() == mesh.len()
            &&& forall|i: int| 0 <= i < verts.len() ==> #[trigger] out[span.offset + i] == verts[i]
            &&& forall|i: int|
                span.offset + verts.len() <= i < span.offset + span.cap ==> #[trigger] out[i] == (if verts.len()
                    == 0 {
                    tombstone
                } else {
                    verts[verts.len() - 1]
                })
            &&& forall|i: int|
                0 <= i < mesh.len() && !(span.offset <= i < span.offset + span.cap) ==> #[trigger] out[i]
                    == mesh[i]
        },
        verts.len() > span.cap ==> {
            let out = mesh_after(span, used, mesh, verts, tombstone);
            let cap = spec_span_cap(verts.len() as int);
            &&& span_after(span, used, verts.len() as int).offset == used
            &&& span_after(span, used, verts.len() as int).cap == cap
            &&& verts.len() <= cap
            &&& used_after(span, used, verts.len() as int) == used + cap
            &&& out.len() == used + cap
            &&& forall|i: int| 0 <= i < verts.len() ==> #[trigger] out[used + i] == verts[i]
            &&& forall|i: int| used + verts.len() <= i < used + cap ==> #[trigger] out[i] == verts[verts.len() - 1]
            &&& forall|i: int| span.offset <= i < span.offset + span.cap ==> #[trigger] out[i] == tombstone
            &&& forall|i: int|
                0 <= i < used && !(span.offset <= i < span.offset + span.cap) ==> #[trigger] out[i] == mesh[i]
        },
{
    lemma_span_cap_law(verts.len() as int);
}

/// After an in-place update the span reads back the written vertices, its padding repeats the
/// last one, and every slot outside the span is untouched.
pub proof fn lemma_write_region_reads_back<V>(mesh: Seq<V>, offset: int, cap: int, verts: Seq<V>, pad: V)
    requires
        0 <= offset,
        verts.len() <= cap,
        offset + cap <= mesh.len(),
    ensures
        write_region(mesh, offset, cap, verts, pad).len() == mesh.len(),
        forall|i: int|
            0 <= i < verts.len() ==> #[trigger] write_region(mesh, offset, cap, verts, pad)[offset + i]
                == verts[i],
        forall|i: int|
            offset + verts.len() <= i < offset + cap ==> #[trigger] write_region(
                mesh,
                offset,
                cap,
                verts,
                pad,
            )[i] == pad,
        forall|i: int|
            0 <= i < mesh.len() && !(offset <= i < offset + cap) ==> #[trigger] write_region(
                mesh,
                offset,
                cap,
                verts,
                pad,
            )[i] == mesh[i],
{
}

/// The span a key owns, or the empty span at offset 0 when it owns none yet.
pub open spec fn slot_of(spans: Map<u32, Span>, key: u32) -> Span {
    if spans.contains_key(key) {
        spans[key]
    } else {
        Span { offset: 0, len: 0, cap: 0 }
    }
}

/// Every span of the table lies inside the mesh's `used` slots.
pub open spec fn spans_fit(spans: Map<u32, Span>, used: int) -> bool {
    forall|k: u32| spans.contains_key(k) ==> span_fits(#[trigger] spans[k], used)
}

/// Slot `i` of the mesh belongs to `span`.
pub open spec fn in_span(span: Span, i: int) -> bool {
    span.offset <= i < span.offset + span.cap
}

/// Two spans share no mesh slot.
pub open spec fn spans_apart(a: Span, b: Span) -> bool {
    a.cap == 0 || b.cap == 0 || a.offset + a.cap <= b.offset || b.offset + b.cap <= a.offset
}

/// No two spans of one table share a slot.
pub open spec fn spans_disjoint(spans: Map<u32, Span>) -> bool {
    forall|k1: u32, k2: u32|
        spans.contains_key(k1) && spans.contains_key(k2) && k1 != k2 ==> spans_apart(
            #[trigger] spans[k1],
            #[trigger] spans[k2],
        )
}

/// No span of one table shares a slot with a span of the other.
pub open spec fn tables_apart(a: Map<u32, Span>, b: Map<u32, Span>) -> bool {
    forall|k1: u32, k2: u32|
        a.contains_key(k1) && b.contains_key(k2) ==> spans_apart(#[trigger] a[k1], #[trigger] b[k2])
}

/// Span table over the 3D preview mesh: sector fills and line walls by key; `used` is the mesh
/// length in vertices.
pub struct SurfaceSlots {
    pub sector: HashMap<u32, Span>,
    pub line: HashMap<u32, Span>,
    pub used: u32,
}

impl Default for SurfaceSlots {
    /// An empty table over an empty mesh.
    fn default() -> (slots: Self)
        ensures
            slots.wf(),
            slots.sector@ == Map::<u32, Span>::empty(),
            slots.line@ == Map::<u32, Span>::empty(),
            slots.used == 0,
    {
        SurfaceSlots { sector: HashMap::new(), line: HashMap::new(), used: 0 }
    }
}

impl SurfaceSlots {
    /// Every span lies inside the mesh, and no two spans share a slot.
    pub open spec fn wf(&self) -> bool {
        &&& spans_fit(self.sector@, self.used as int)
        &&& spans_fit(self.line@, self.used as int)
        &&& spans_disjoint(self.sector@)
        &&& spans_disjoint(self.line@)
        &&& tables_apart(self.sector@, self.line@)
    }

    /// Rewrite one sector's floor and ceiling span; relocates to the tail on overflow.
    pub fn update_sector<V: Copy>(
        &mut self,
        mesh: &mut Vec<V>,
        key: u32,
        verts: Vec<V>,
        patches: &mut Vec<SpanPatch>,
        tombstone: V,
    )
        requires
            old(self).wf(),
            old(mesh)@.len() == old(self).used,
            verts@.len() <= u32::MAX,
            verts@.len() > slot_of(old(self).sector@, key).cap ==> old(self).used + spec_span_cap(
                verts@.len() as int,
            ) <= u32::MAX,
        ensures
            final(self).wf(),
            final(mesh)@.len() == final(self).used,
            final(self).sector@ == old(self).sector@.insert(
                key,
                span_after(slot_of(old(self).sector@, key), old(self).used, verts@.len() as int),
            ),
            final(self).line@ == old(self).line@,
            final(self).used == used_after(slot_of(old(self).sector@, key), old(self).used, verts@.len() as int),
            final(mesh)@ == mesh_after(slot_of(old(self).sector@, key), old(self).used, old(mesh)@, verts@, tombstone),
            final(patches)@ == patches_after(
                slot_of(old(self).sector@, key),
                old(self).used,
                verts@.len() as int,
                old(patches)@,
            ),
            forall|k: u32, i: int|
                old(self).sector@.contains_key(k) && k != key && #[trigger] in_span(old(self).sector@[k], i)
                    ==> final(mesh)@[i] == old(mesh)@[i],
            forall|k: u32, i: int|
                old(self).line@.contains_key(k) && #[trigger] in_span(old(self).line@[k], i)
                    ==> final(mesh)@[i] == old(mesh)@[i],
    {
        let mut span: Span = match self.sector.get(&key) {
            Some(s) => *s,
            None => Span { offset: 0, len: 0, cap: 0 },
        };
        let mut used: u32 = self.used;
        update_span(&mut span, &mut used, mesh, verts, patches, tombstone);
        self.sector.insert(key, span);
        self.used = used;
        proof {
            assert forall|k: u32| self.line@.contains_key(k) implies span_fits(#[trigger] self.line@[k], self.used as int) by {
                assert(span_fits(old(self).line@[k], old(self).used as int));
            }
            assert forall|k: u32| self.sector@.contains_key(k) implies span_fits(#[trigger] self.sector@[k], self.used as int) by {
                if k != key {
                    assert(span_fits(old(self).sector@[k], old(self).used as int));
                }
            }
        }
    }

    /// Rewrite one line's wall span; relocates to the tail on overflow.
    pub fn update_line<V: Copy>(
        &mut self,
        mesh: &mut Vec<V>,
        key: u32,
        verts: Vec<V>,
        patches: &mut Vec<SpanPatch>,
        tombstone: V,
    )
        requires
            old(self).wf(),
            old(mesh)@.len() == old(self).used,
            verts@.len() <= u32::MAX,
            verts@.len() > slot_of(old(self).line@, key).cap ==> old(self).used + spec_span_cap(
                verts@.len() as int,
            ) <= u32::MAX,
        ensures
            final(self).wf(),
            final(mesh)@.len() == final(self).used,
            final(self).line@ == old(self).line@.insert(
                key,
                span_after(slot_of(old(self).line@, key), old(self).used, verts@.len() as int),
            ),
            final(self).sector@ == old(self).sector@,
            final(self).used == used_after(slot_of(old(self).line@, key), old(self).used, verts@.len() as int),
            final(mesh)@ == mesh_after(slot_of(old(self).line@, key), old(self).used, old(mesh)@, verts@, tombstone),
            final(patches)@ == patches_after(
                slot_of(old(self).line@, key),
                old(self).used,
                verts@.len() as int,
                old(patches)@,
            ),
            forall|k: u32, i: int|
                old(self).line@.contains_key(k) && k != key && #[trigger] in_span(old(self).line@[k], i)
                    ==> final(mesh)@[i] == old(mesh)@[i],
            forall|k: u32, i: int|
                old(self).sector@.contains_key(k) && #[trigger] in_span(old(self).sector@[k], i)
                    ==> final(mesh)@[i] == old(mesh)@[i],
    {
        let mut span: Span = match self.line.get(&key) {
            Some(s) => *s,
            None => Span { offset: 0, len: 0, cap: 0 },
        };
        let mut used: u32 = self.used;
        update_span(&mut span, &mut used, mesh, verts, patches, tombstone);
        self.line.insert(key, span);
        self.used = used;
        proof {
            assert forall|k: u32| self.sector@.contains_key(k) implies span_fits(#[trigger] self.sector@[k], self.used as int) by {
                assert(span_fits(old(self).sector@[k], old(self).used as int));
            }
            assert forall|k: u32| self.line@.contains_key(k) implies span_fits(#[trigger] self.line@[k], self.used as int) by {
                if k != key {
                    assert(span_fits(old(self).line@[k], old(self).used as int));
                }
            }
        }
    }

    /// Tombstone and forget a removed sector's span; nothing happens for a key without one.
    pub fn free_sector<V: Copy>(&mut self, mesh: &mut Vec<V>, key: u32, patches: &mut Vec<SpanPatch>, tombstone: V)
        requires
            old(self).wf(),
            old(mesh)@.len() == old(self).used,
        ensures
            final(self).wf(),
            final(self).sector@ == old(self).sector@.remove(key),
            final(self).line@ == old(self).line@,
            final(self).used == old(self).used,
            old(self).sector@.contains_key(key) ==> {
                let span = old(self).sector@[key];
                &&& final(mesh)@ == fill_region(old(mesh)@, span.offset as int, span.cap as int, tombstone)
                &&& final(patches)@ == if span.cap > 0 {
                    old(patches)@.push(SpanPatch { offset: span.offset, count: span.cap })
                } else {
                    old(patches)@
                }
            },
            !old(self).sector@.contains_key(key) ==> final(mesh)@ == old(mesh)@ && final(patches)@
                == old(patches)@,
            forall|k: u32, i: int|
                old(self).sector@.contains_key(k) && k != key && #[trigger] in_span(old(self).sector@[k], i)
                    ==> final(mesh)@[i] == old(mesh)@[i],
            forall|k: u32, i: int|
                old(self).line@.contains_key(k) && #[trigger] in_span(old(self).line@[k], i)
                    ==> final(mesh)@[i] == old(mesh)@[i],
    {
        match self.sector.remove(&key) {
            Some(span) => {
                assert(span_fits(old(self).sector@[key], old(self).used as int));
                tombstone_span(&span, mesh, patches, tombstone);
            },
            None => {},
        }
        proof {
            assert forall|k: u32| self.sector@.contains_key(k) implies span_fits(#[trigger] self.sector@[k], self.used as int) by {
                assert(span_fits(old(self).sector@[k], old(self).used as int));
            }
        }
    }

    /// Tombstone and forget a removed line's span; nothing happens for a key without one.
    pub fn free_line<V: Copy>(&mut self, mesh: &mut Vec<V>, key: u32, patches: &mut Vec<SpanPatch>, tombstone: V)
        requires
            old(self).wf(),
            old(mesh)@.len() == old(self).used,
        ensures
            final(self).wf(),
            final(self).line@ == old(self).line@.remove(key),
            final(self).sector@ == old(self).sector@,
            final(self).used == old(self).used,
            old(self).line@.contains_key(key) ==> {
                let span = old(self).line@[key];
                &&& final(mesh)@ == fill_region(old(mesh)@, span.offset as int, span.cap as int, tombstone)
                &&& final(patches)@ == if span.cap > 0 {
                    old(patches)@.push(SpanPatch { offset: span.offset, count: span.cap })
                } else {
                    old(patches)@
                }
            },
            !old(self).line@.contains_key(key) ==> final(mesh)@ == old(mesh)@ && final(patches)@
                == old(patches)@,
            forall|k: u32, i: int|
                old(self).line@.contains_key(k) && k != key && #[trigger] in_span(old(self).line@[k], i)
                    ==> final(mesh)@[i] == old(mesh)@[i],
            forall|k: u32, i: int|
                old(self).sector@.contains_key(k) && #[trigger] in_span(old(self).sector@[k], i)
                    ==> final(mesh)@[i] == old(mesh)@[i],
    {
        match self.line.remove(&key) {
            Some(span) => {
                assert(span_fits(old(self).line@[key], old(self).used as int));
                tombstone_span(&span, mesh, patches, tombstone);
            },
            None => {},
        }
        proof {
            assert forall|k: u32| self.line@.contains_key(k) implies span_fits(#[trigger] self.line@[k], self.used as int) by {
                assert(span_fits(old(self).line@[k], old(self).used as int));
            }
        }
    }
}

} // verus!

//! Render-input value types: the selection, what a 3D pick hit, and the sector fill mode.

use vstd::prelude::*;

use crate::boundary::SelectMode;

verus! {

/// A selectable map element, by its index in the map.
#[derive(Debug, Clone, Copy, PartialEq, Eq, Structural)]
pub enum SelItem {
    Vertex(u32),
    Line(u32),
    Thing(u32),
    Sector(u32),
}

/// No element occurs twice.
pub open spec fn distinct_items(s: Seq<SelItem>) -> bool {
    forall|i: int, j: int| 0 <= i < j < s.len() ==> s[i] != s[j]
}

/// The selection after `item` is pushed: unchanged when it is already selected, else with
/// `item` at the end.
pub open spec fn with_item(s: Seq<SelItem>, item: SelItem) -> Seq<SelItem> {
    if s.contains(item) {
        s
    } else {
        s.push(item)
    }
}

/// `s` without the element at `at`.
pub open spec fn remove_at(s: Seq<SelItem>, at: int) -> Seq<SelItem> {
    s.subrange(0, at) + s.subrange(at + 1, s.len() as int)
}

/// The elements of `s` whose flag is set, in order.
pub open spec fn keep_flagged(s: Seq<SelItem>, flags: Seq<bool>) -> Seq<SelItem>
    decreases s.len(),
{
    if s.len() == 0 {
        Seq::empty()
    } else {
        let rest = keep_flagged(s.drop_last(), flags.drop_last());
        if flags.last() {
            rest.push(s.last())
        } else {
            rest
        }
    }
}

/// The current selection, in insertion order, without repeats.
#[derive(Debug, PartialEq)]
pub struct Selection(Vec<SelItem>);

impl View for Selection {
    type V = Seq<SelItem>;

    closed spec fn view(&self) -> Seq<SelItem> {
        self.0@
    }
}

impl Default for Selection {
    fn default() -> (sel: Self)
        ensures
            sel@ == Seq::<SelItem>::empty(),
            distinct_items(sel@),
    {
        Selection(Vec::new())
    }
}

proof fn lemma_keep_flagged_sub(s: Seq<SelItem>, flags: Seq<bool>)
    requires
        flags.len() == s.len(),
    ensures
        keep_flagged(s, flags).len() <= s.len(),
        forall|k: int|
            0 <= k < keep_flagged(s, flags).len() ==> s.contains(
                #[trigger] keep_flagged(s, flags)[k],
            ),
        distinct_items(s) ==> distinct_items(keep_flagged(s, flags)),
    decreases s.len(),
{
    if s.len() > 0 {
        let rest = keep_flagged(s.drop_last(), flags.drop_last());
        lemma_keep_flagged_sub(s.drop_last(), flags.drop_last());
        assert forall|k: int| 0 <= k < keep_flagged(s, flags).len() implies s.contains(
            #[trigger] keep_flagged(s, flags)[k],
        ) by {
            if k < rest.len() {
                let e = rest[k];
                assert(s.drop_last().contains(e));
                let i = choose|i: int| 0 <= i < s.drop_last().len() && s.drop_last()[i] == e;
                assert(s[i] == e);
            } else {
                assert(s[s.len() - 1] == s.last());
            }
        }
        if distinct_items(s) {
            assert(distinct_items(s.drop_last()));
            assert forall|i: int, j: int|
                0 <= i < j < keep_flagged(s, flags).len() implies keep_flagged(s, flags)[i]
                != keep_flagged(s, flags)[j] by {
                if j == rest.len() && flags.last() {
                    let e = rest[i];
                    assert(s.drop_last().contains(e));
                    let k = choose|k: int| 0 <= k < s.drop_last().len() && s.drop_last()[k] == e;
                    assert(s[k] == e);
                }
            }
        }
    }
}

impl Selection {
    #[verifier::type_invariant]
    closed spec fn no_repeats(self) -> bool {
        distinct_items(self.0@)
    }

    /// Whether `item` is selected.
    pub fn contains(&self, item: &SelItem) -> (found: bool)
        ensures
            found == self@.contains(*item),
    {
        let mut i: usize = 0;
        while i < self.0.len()
            invariant
                i <= self.0@.len(),
                forall|j: int| 0 <= j < i ==> self.0@[j] != *item,
            decreases self.0@.len() - i,
        {
            if self.0[i] == *item {
                return true;
            }
            i = i + 1;
        }
        false
    }

    /// Whether nothing is selected.
    pub fn is_empty(&self) -> (empty: bool)
        ensures
            empty == (self@.len() == 0),
    {
        self.0.len() == 0
    }

    /// The selected items, in selection order.
    pub fn items(&self) -> (items: &[SelItem])
        ensures
            items@ == self@,
    {
        self.0.as_slice()
    }

    /// Deselect everything.
    pub fn clear(&mut self)
        ensures
            final(self)@ == Seq::<SelItem>::empty(),
            distinct_items(final(self)@),
    {
        self.0 = Vec::new();
    }

    /// Select exactly `item`.
    pub fn replace(&mut self, item: SelItem)
        ensures
            final(self)@ == seq![item],
            distinct_items(final(self)@),
    {
        let mut v: Vec<SelItem> = Vec::new();
        v.push(item);
        self.0 = v;
    }

    /// Add `item` at the end unless it is already selected.
    pub fn push(&mut self, item: SelItem)
        ensures
            final(self)@ == with_item(old(self)@, item),
            distinct_items(final(self)@),
    {
        proof {
            use_type_invariant(&*self);
        }
        if !self.contains(&item) {
            let mut v: Vec<SelItem> = Vec::new();
            std::mem::swap(&mut v, &mut self.0);
            v.push(item);
            proof {
                assert forall|i: int, j: int| 0 <= i < j < v@.len() implies v@[i] != v@[j] by {
                    if j == v@.len() - 1 {
                        assert(old(self)@[i] == v@[i]);
                    }
                }
            }
            self.0 = v;
        }
    }

    /// Deselect `item` if selected (keeping the others in order), else select it at the end.
    pub fn toggle(&mut self, item: SelItem)
        ensures
            !old(self)@.contains(item) ==> final(self)@ == old(self)@.push(item),
            distinct_items(final(self)@),
            forall|at: int|
                0 <= at < old(self)@.len() && old(self)@[at] == item ==> final(self)@ == remove_at(
                    old(self)@,
                    at,
                ),
    {
        proof {
            use_type_invariant(&*self);
        }
        let mut v: Vec<SelItem> = Vec::new();
        std::mem::swap(&mut v, &mut self.0);
        let ghost s = v@;
        let mut i: usize = 0;
        while i < v.len()
            invariant
                v@ == s,
                distinct_items(s),
                i <= s.len(),
                forall|j: int| 0 <= j < i ==> s[j] != item,
            ensures
                i <= s.len(),
                forall|j: int| 0 <= j < i ==> s[j] != item,
                i < s.len() ==> s[i as int] == item,
            decreases s.len() - i,
        {
            if v[i] == item {
                break;
            }
            i = i + 1;
        }
        if i < v.len() {
            v.remove(i);
            proof {
                assert(s[i as int] == item);
                assert(s.contains(item));
                assert(v@ =~= remove_at(s, i as int));
                assert forall|at: int| 0 <= at < s.len() && s[at] == item implies at == i by {
                    if at != i {
                        assert(s[at] == s[i as int]);
                    }
                }
                assert forall|a: int, b: int| 0 <= a < b < v@.len() implies v@[a] != v@[b] by {
                    let a2 = if a < i { a } else { a + 1 };
                    let b2 = if b < i { b } else { b + 1 };
                    assert(v@[a] == s[a2] && v@[b] == s[b2]);
                }
            }
        } else {
            v.push(item);
            proof {
                assert forall|a: int, b: int| 0 <= a < b < v@.len() implies v@[a] != v@[b] by {
                    if b == v@.len() - 1 {
                        assert(s[a] == v@[a]);
                    }
                }
            }
        }
        self.0 = v;
    }

    /// Keep only the items for which `keep` returns true, in their order.
    pub fn retain(&mut self, keep: impl Fn(&SelItem) -> bool)
        requires
            forall|item: SelItem| call_requires(keep, (&item,)),
        ensures
            exists|flags: Seq<bool>|
                {
                    &&& flags.len() == old(self)@.len()
                    &&& forall|k: int|
                        0 <= k < flags.len() ==> call_ensures(
                            keep,
                            (&old(self)@[k],),
                            #[trigger] flags[k],
                        )
                    &&& final(self)@ == keep_flagged(old(self)@, flags)
                },
            distinct_items(final(self)@),
    {
        proof {
            use_type_invariant(&*self);
        }
        let mut v: Vec<SelItem> = Vec::new();
        std::mem::swap(&mut v, &mut self.0);
        let ghost s = v@;
        let mut kept: Vec<SelItem> = Vec::new();
        let ghost mut flags: Seq<bool> = Seq::empty();
        let mut i: usize = 0;
        while i < v.len()
            invariant
                v@ == s,
                i <= s.len(),
                flags.len() == i,
                forall|item: SelItem| call_requires(keep, (&item,)),
                forall|k: int| 0 <= k < i ==> call_ensures(keep, (&s[k],), #[trigger] flags[k]),
                kept@ == keep_flagged(s.subrange(0, i as int), flags),
            decreases s.len() - i,
        {
            let item: SelItem = v[i];
            let b: bool = keep(&item);
            if b {
                kept.push(item);
            }
            proof {
                let old_flags = flags;
                flags = flags.push(b);
                assert(s.subrange(0, i + 1).drop_last() =~= s.subrange(0, i as int));
                assert(flags.drop_last() =~= old_flags);
            }
            i = i + 1;
        }
        proof {
            assert(s.subrange(0, s.len() as int) =~= s);
            lemma_keep_flagged_sub(s, flags);
            assert(s == old(self)@);
            assert(kept@ == keep_flagged(old(self)@, flags));
            assert(forall|k: int|
                0 <= k < flags.len() ==> call_ensures(keep, (&old(self)@[k],), #[trigger] flags[k]));
        }
        self.0 = kept;
    }
}

/// The kind of a selectable element.
#[derive(Debug, Clone, Copy, PartialEq, Eq, Structural)]
pub enum ItemKind {
    Vertex,
    Line,
    Thing,
    Sector,
}

/// The element's index when it is of `kind`.
pub open spec fn key_if(item: SelItem, kind: ItemKind) -> Option<u32> {
    match (item, kind) {
        (SelItem::Vertex(k), ItemKind::Vertex) => Some(k),
        (SelItem::Line(k), ItemKind::Line) => Some(k),
        (SelItem::Thing(k), ItemKind::Thing) => Some(k),
        (SelItem::Sector(k), ItemKind::Sector) => Some(k),
        _ => None,
    }
}

/// The indices of the elements of `kind` in `s`, in order.
pub open spec fn keys_of(s: Seq<SelItem>, kind: ItemKind) -> Seq<u32>
    decreases s.len(),
{
    if s.len() == 0 {
        Seq::empty()
    } else {
        let rest = keys_of(s.drop_last(), kind);
        match key_if(s.last(), kind) {
            Some(k) => rest.push(k),
            None => rest,
        }
    }
}

impl Selection {
    /// Indices of the selected elements of `kind`, in selection order.
    pub fn selected_of(&self, kind: ItemKind) -> (keys: Vec<u32>)
        ensures
            keys@ == keys_of(self@, kind),
    {
        let items: &[SelItem] = self.0.as_slice();
        let mut keys: Vec<u32> = Vec::new();
        let mut i: usize = 0;
        while i < items.len()
            invariant
                items@ == self@,
                i <= items@.len(),
                keys@ == keys_of(items@.subrange(0, i as int), kind),
            decreases items@.len() - i,
        {
            assert(items@.subrange(0, i + 1).drop_last() =~= items@.subrange(0, i as int));
            let k: Option<u32> = match (items[i], kind) {
                (SelItem::Vertex(k), ItemKind::Vertex) => Some(k),
                (SelItem::Line(k), ItemKind::Line) => Some(k),
                (SelItem::Thing(k), ItemKind::Thing) => Some(k),
                (SelItem::Sector(k), ItemKind::Sector) => Some(k),
                _ => None,
            };
            match k {
                Some(key) => keys.push(key),
                None => {},
            }
            i = i + 1;
        }
        assert(items@.subrange(0, items@.len() as int) =~= items@);
        keys
    }

    /// Selected sectors, in selection order.
    pub fn selected_sectors(&self) -> (keys: Vec<u32>)
        ensures
            keys@ == keys_of(self@, ItemKind::Sector),
    {
        self.selected_of(ItemKind::Sector)
    }

    /// Selected lines, in selection order.
    pub fn selected_lines(&self) -> (keys: Vec<u32>)
        ensures
            keys@ == keys_of(self@, ItemKind::Line),
    {
        self.selected_of(ItemKind::Line)
    }

    /// Selected things, in selection order.
    pub fn selected_things(&self) -> (keys: Vec<u32>)
        ensures
            keys@ == keys_of(self@, ItemKind::Thing),
    {
        self.selected_of(ItemKind::Thing)
    }

    /// Selected vertices, in selection order.
    pub fn selected_vertices(&self) -> (keys: Vec<u32>)
        ensures
            keys@ == keys_of(self@, ItemKind::Vertex),
    {
        self.selected_of(ItemKind::Vertex)
    }

    /// The sectors to highlight: the selected sectors if any, else the sector shown in the
    /// sector panel (`current_sector`), else none.
    pub fn highlighted_sectors(&self, current_sector: Option<u32>) -> (keys: Vec<u32>)
        ensures
            keys_of(self@, ItemKind::Sector).len() > 0 ==> keys@ == keys_of(self@, ItemKind::Sector),
            keys_of(self@, ItemKind::Sector).len() == 0 ==> keys@ == match current_sector {
                Some(s) => seq![s],
                None => Seq::<u32>::empty(),
            },
    {
        let sel: Vec<u32> = self.selected_sectors();
        if sel.len() == 0 {
            let mut v: Vec<u32> = Vec::new();
            match current_sector {
                Some(s) => v.push(s),
                None => {},
            }
            proof {
                assert(v@ =~= match current_sector {
                    Some(s) => seq![s],
                    None => Seq::<u32>::empty(),
                });
            }
            v
        } else {
            sel
        }
    }
}

/// What a 3D pick hit.
#[derive(Debug, Clone, Copy, PartialEq, Eq, Structural)]
pub enum PickKind {
    Linedef(u32),
    Sector(u32),
    Vertex(u32),
    Thing(u32),
}

impl PickKind {
    /// Whether a select tool in `mode` accepts this hit.
    pub fn matches_mode(self, mode: SelectMode) -> (accepted: bool)
        ensures
            accepted == match mode {
                SelectMode::All => true,
                SelectMode::Vertex => self is Vertex,
                SelectMode::Line => self is Linedef,
                SelectMode::Sector => self is Sector,
                SelectMode::Thing => self is Thing,
            },
    {
        match mode {
            SelectMode::All => true,
            SelectMode::Vertex => matches!(self, PickKind::Vertex(_)),
            SelectMode::Line => matches!(self, PickKind::Linedef(_)),
            SelectMode::Sector => matches!(self, PickKind::Sector(_)),
            SelectMode::Thing => matches!(self, PickKind::Thing(_)),
        }
    }

    /// The draggable selection item of the hit; `None` for a sector.
    pub fn as_item(self) -> (item: Option<SelItem>)
        ensures
            item == match self {
                PickKind::Vertex(k) => Some(SelItem::Vertex(k)),
                PickKind::Linedef(k) => Some(SelItem::Line(k)),
                PickKind::Thing(k) => Some(SelItem::Thing(k)),
                PickKind::Sector(_) => None,
            },
    {
        match self {
            PickKind::Vertex(k) => Some(SelItem::Vertex(k)),
            PickKind::Linedef(k) => Some(SelItem::Line(k)),
            PickKind::Thing(k) => Some(SelItem::Thing(k)),
            PickKind::Sector(_) => None,
        }
    }
}

/// How sector interiors paint on the canvas.
#[derive(Debug, Clone, Copy, PartialEq, Eq, Structural)]
pub enum SectorFill {
    /// Outlines only.
    Unfilled,
    Colour,
    Texture,
}

impl Default for SectorFill {
    fn default() -> (fill: Self)
        ensures
            fill == SectorFill::Unfilled,
    {
        SectorFill::Unfilled
    }
}

/// Toggling an unselected item twice leaves the selection as it was.
pub proof fn lemma_toggle_twice_restores(sel: Seq<SelItem>, item: SelItem)
    requires
        distinct_items(sel),
        !sel.contains(item),
    ensures
        sel.push(item)[sel.len() as int] == item,
        remove_at(sel.push(item), sel.len() as int) == sel,
{
    assert(remove_at(sel.push(item), sel.len() as int) =~= sel);
}

/// Pushing an item makes it selected, keeps everything that was selected, and pushing it again
/// changes nothing.
pub proof fn lemma_push_selects(sel: Seq<SelItem>, item: SelItem)
    ensures
        with_item(sel, item).contains(item),
        forall|other: SelItem| sel.contains(other) ==> with_item(sel, item).contains(other),
        with_item(with_item(sel, item), item) == with_item(sel, item),
{
    if !sel.contains(item) {
        assert(sel.push(item)[sel.len() as int] == item);
        assert forall|other: SelItem| sel.contains(other) implies with_item(sel, item).contains(other) by {
            let i = choose|i: int| 0 <= i < sel.len() && sel[i] == other;
            assert(sel.push(item)[i] == other);
        }
    }
}

} // verus!

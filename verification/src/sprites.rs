//! Decoded thing-icon sprites as straight RGBA8, cached per thing kind.

use std::collections::HashMap;
use vstd::prelude::*;

verus! {

broadcast use vstd::std_specs::hash::group_hash_axioms;

/// A decoded sprite: `width` x `height` texels, 4 bytes each.
pub struct SpriteRgba {
    pub width: u32,
    pub height: u32,
    pub rgba: Vec<u8>,
}

/// Per-kind icon cache. A `None` entry records a kind that was looked up and has no sprite,
/// so it is not retried.
pub struct ThingSpriteCache {
    by_kind: HashMap<i32, Option<SpriteRgba>>,
}

impl View for ThingSpriteCache {
    type V = Map<i32, Option<SpriteRgba>>;

    closed spec fn view(&self) -> Map<i32, Option<SpriteRgba>> {
        self.by_kind@
    }
}

impl Default for ThingSpriteCache {
    fn default() -> (cache: Self)
        ensures
            cache@ == Map::<i32, Option<SpriteRgba>>::empty(),
    {
        ThingSpriteCache { by_kind: HashMap::new() }
    }
}

impl ThingSpriteCache {
    /// Whether `kind` has been looked up (with or without a sprite).
    pub fn contains(&self, kind: i32) -> (looked_up: bool)
        ensures
            looked_up == self@.contains_key(kind),
    {
        self.by_kind.contains_key(&kind)
    }

    /// Record the lookup result for `kind`, replacing any earlier one.
    pub fn insert(&mut self, kind: i32, sprite: Option<SpriteRgba>)
        ensures
            final(self)@ == old(self)@.insert(kind, sprite),
    {
        self.by_kind.insert(kind, sprite);
    }

    /// The cached sprite of `kind`; `None` when not looked up or looked up without a sprite.
    pub fn get(&self, kind: i32) -> (sprite: Option<&SpriteRgba>)
        ensures
            match sprite {
                Some(s) => self@.contains_key(kind) && self@[kind] == Some(*s),
                None => !self@.contains_key(kind) || self@[kind] is None,
            },
    {
        match self.by_kind.get(&kind) {
            Some(entry) => entry.as_ref(),
            None => None,
        }
    }
}

/// A lookup answers what was last recorded for that kind; other kinds are unaffected.
pub proof fn lemma_get_after_insert(
    cache: Map<i32, Option<SpriteRgba>>,
    kind: i32,
    sprite: Option<SpriteRgba>,
    other: i32,
)
    requires
        other != kind,
    ensures
        cache.insert(kind, sprite).contains_key(kind),
        cache.insert(kind, sprite)[kind] == sprite,
        cache.insert(kind, sprite).contains_key(other) == cache.contains_key(other),
        cache.contains_key(other) ==> cache.insert(kind, sprite)[other] == cache[other],
{
}

} // verus!

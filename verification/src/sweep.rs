//! The sweep status of the monotone-partition triangulator: the interior strips ("spans")
//! crossing the sweep line, each bounded by a left and a right wall.

use vstd::prelude::*;

verus! {

/// A polygon edge crossing the sweep line, from its upper to its lower vertex.
#[derive(Debug, Clone, Copy, PartialEq, Eq, Structural)]
pub struct Wall {
    pub top: usize,
    pub bot: usize,
}

/// An interior strip at the sweep line, between two walls, with its helper vertex.
#[derive(Debug, Clone, Copy, PartialEq, Eq, Structural)]
pub struct SweepSpan {
    pub left: Wall,
    pub right: Wall,
    pub helper: usize,
}

/// `at` is the first span satisfying `p`.
pub open spec fn first_match(spans: Seq<SweepSpan>, p: spec_fn(SweepSpan) -> bool, at: int) -> bool {
    &&& 0 <= at < spans.len()
    &&& p(spans[at])
    &&& forall|j: int| 0 <= j < at ==> !p(#[trigger] spans[j])
}

pub open spec fn ends_at(i: usize) -> spec_fn(SweepSpan) -> bool {
    |s: SweepSpan| s.left.bot == i && s.right.bot == i
}

pub open spec fn right_ends_at(i: usize) -> spec_fn(SweepSpan) -> bool {
    |s: SweepSpan| s.right.bot == i
}

pub open spec fn left_ends_at(i: usize) -> spec_fn(SweepSpan) -> bool {
    |s: SweepSpan| s.left.bot == i
}

/// The span whose left and right walls both end at vertex `i` (an end vertex).
pub fn span_ending_at(spans: &[SweepSpan], i: usize) -> (at: Option<usize>)
    ensures
        match at {
            Some(k) => first_match(spans@, ends_at(i), k as int),
            None => forall|j: int| 0 <= j < spans@.len() ==> !ends_at(i)(#[trigger] spans@[j]),
        },
{
    let mut k: usize = 0;
    while k < spans.len()
        invariant
            k <= spans@.len(),
            forall|j: int| 0 <= j < k ==> !ends_at(i)(#[trigger] spans@[j]),
        decreases spans@.len() - k,
    {
        if spans[k].left.bot == i && spans[k].right.bot == i {
            return Some(k);
        }
        k = k + 1;
    }
    None
}

/// The span whose right wall ends at `i` (the left neighbour at a merge vertex).
pub fn span_with_right_at(spans: &[SweepSpan], i: usize) -> (at: Option<usize>)
    ensures
        match at {
            Some(k) => first_match(spans@, right_ends_at(i), k as int),
            None => forall|j: int| 0 <= j < spans@.len() ==> !right_ends_at(i)(#[trigger] spans@[j]),
        },
{
    let mut k: usize = 0;
    while k < spans.len()
        invariant
            k <= spans@.len(),
            forall|j: int| 0 <= j < k ==> !right_ends_at(i)(#[trigger] spans@[j]),
        decreases spans@.len() - k,
    {
        if spans[k].right.bot == i {
            return Some(k);
        }
        k = k + 1;
    }
    None
}

/// The span whose left wall ends at `i`.
pub fn span_with_left_at(spans: &[SweepSpan], i: usize) -> (at: Option<usize>)
    ensures
        match at {
            Some(k) => first_match(spans@, left_ends_at(i), k as int),
            None => forall|j: int| 0 <= j < spans@.len() ==> !left_ends_at(i)(#[trigger] spans@[j]),
        },
{
    let mut k: usize = 0;
    while k < spans.len()
        invariant
            k <= spans@.len(),
            forall|j: int| 0 <= j < k ==> !left_ends_at(i)(#[trigger] spans@[j]),
        decreases spans@.len() - k,
    {
        if spans[k].left.bot == i {
            return Some(k);
        }
        k = k + 1;
    }
    None
}

} // verus!

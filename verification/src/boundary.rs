//! Editor domain types shared by the tools, the canvas and the UI bridge.

use vstd::prelude::*;

verus! {

/// Draw-tool shape. `Line` is a freeform chain; the others are two-click shapes.
#[derive(Debug, Clone, Copy, PartialEq, Eq, Structural)]
pub enum DrawShape {
    Line,
    Rect,
    Triangle,
    Ngon,
}

impl Default for DrawShape {
    fn default() -> (shape: Self)
        ensures
            shape == DrawShape::Line,
    {
        DrawShape::Line
    }
}

/// Select-tool filter. `All` uses the full priority order; the others restrict to one kind.
#[derive(Debug, Clone, Copy, PartialEq, Eq, Structural)]
pub enum SelectMode {
    All,
    Vertex,
    Line,
    Thing,
    Sector,
}

impl Default for SelectMode {
    fn default() -> (mode: Self)
        ensures
            mode == SelectMode::All,
    {
        SelectMode::All
    }
}

/// The active editing tool.
#[derive(Debug, Clone, Copy, PartialEq, Eq, Structural)]
pub enum Tool {
    Select(SelectMode),
    /// Line/shape draw; a closed shape or chain derives a sector.
    Draw(DrawShape),
    Thing,
    Sector,
    Launch,
}

impl Default for Tool {
    fn default() -> (tool: Self)
        ensures
            tool == Tool::Select(SelectMode::All),
    {
        Tool::Select(SelectMode::All)
    }
}

/// A thing's skill/option bits, as stored in the map.
#[derive(Debug, Clone, Copy, PartialEq, Eq, Structural)]
pub struct ThingFlags {
    pub bits: u16,
}

impl ThingFlags {
    /// Present on skills 1 and 2.
    pub fn easy() -> (f: ThingFlags)
        ensures
            f.bits == 1,
    {
        ThingFlags { bits: 1 }
    }

    /// Present on skill 3.
    pub fn normal() -> (f: ThingFlags)
        ensures
            f.bits == 2,
    {
        ThingFlags { bits: 2 }
    }

    /// Present on skills 4 and 5.
    pub fn hard() -> (f: ThingFlags)
        ensures
            f.bits == 4,
    {
        ThingFlags { bits: 4 }
    }

    /// Present on every skill: the default for newly placed things.
    pub fn all_skills() -> (f: ThingFlags)
        ensures
            f.bits == 7,
    {
        ThingFlags { bits: 7 }
    }

    /// Whether every bit of `other` is set here.
    pub open spec fn has(self, other: ThingFlags) -> bool {
        self.bits & other.bits == other.bits
    }

    /// Every flag of `other` is set here.
    pub fn contains(self, other: ThingFlags) -> (r: bool)
        ensures
            r == self.has(other),
    {
        self.bits & other.bits == other.bits
    }
}

/// Canvas thing filter by difficulty.
#[derive(Debug, Clone, Copy, PartialEq, Eq, Structural)]
pub enum SkillFilter {
    All,
    Easy,
    Normal,
    Hard,
}

impl Default for SkillFilter {
    fn default() -> (filter: Self)
        ensures
            filter == SkillFilter::All,
    {
        SkillFilter::All
    }
}

impl SkillFilter {
    /// Whether a thing with `options` shows under this filter.
    pub open spec fn spec_allows(self, options: ThingFlags) -> bool {
        match self {
            SkillFilter::All => true,
            SkillFilter::Easy => options.bits & 1u16 == 1u16,
            SkillFilter::Normal => options.bits & 2u16 == 2u16,
            SkillFilter::Hard => options.bits & 4u16 == 4u16,
        }
    }

    /// Whether a thing with these `options` is shown under this filter.
    pub fn allows(self, options: ThingFlags) -> (shown: bool)
        ensures
            shown == self.spec_allows(options),
    {
        let bit: ThingFlags = match self {
            SkillFilter::All => return true,
            SkillFilter::Easy => ThingFlags::easy(),
            SkillFilter::Normal => ThingFlags::normal(),
            SkillFilter::Hard => ThingFlags::hard(),
        };
        options.contains(bit)
    }
}

/// A sidedef texture slot.
#[derive(Debug, Clone, Copy, PartialEq, Eq, Structural)]
pub enum TexSlot {
    FrontTop,
    FrontMid,
    FrontBottom,
    BackTop,
    BackMid,
    BackBottom,
}

/// A sector flat slot.
#[derive(Debug, Clone, Copy, PartialEq, Eq, Structural)]
pub enum FlatSlot {
    Floor,
    Ceil,
}

} // verus!

//! Editor preference values and the pure rules applied to them.

use vstd::prelude::*;

verus! {

/// Most-recent-projects list length.
pub const RECENT_PROJECTS_MAX: usize = 8;

/// BSP build visualisation mode after export.
#[derive(Debug, Clone, Copy, PartialEq, Eq, Structural)]
pub enum BspAnimPref {
    Off,
    /// All events at once, held briefly then cleared.
    Instant,
    /// Events replayed over a fixed duration.
    Timed,
}

impl Default for BspAnimPref {
    fn default() -> (p: Self)
        ensures
            p == BspAnimPref::Timed,
    {
        BspAnimPref::Timed
    }
}

/// Map toolbar position within the Map tab.
#[derive(Debug, Clone, Copy, PartialEq, Eq, Structural)]
pub enum ToolbarPositionPref {
    Top,
    Left,
}

impl Default for ToolbarPositionPref {
    fn default() -> (p: Self)
        ensures
            p == ToolbarPositionPref::Top,
    {
        ToolbarPositionPref::Top
    }
}

/// Texture preview card display mode.
#[derive(Debug, Clone, Copy, PartialEq, Eq, Structural)]
pub enum PreviewMode {
    /// Follows the cursor, shown after a hover delay.
    HoverDelayed,
    /// Follows the cursor, shown only after a click selection.
    OnClick,
    /// Pinned to the map's bottom-left corner, updated instantly on hover.
    PinnedCorner,
}

impl Default for PreviewMode {
    fn default() -> (p: Self)
        ensures
            p == PreviewMode::HoverDelayed,
    {
        PreviewMode::HoverDelayed
    }
}

/// Light/dark appearance choice.
#[derive(Debug, Clone, Copy, PartialEq, Eq, Structural)]
pub enum ThemeMode {
    Auto,
    Light,
    Dark,
}

impl Default for ThemeMode {
    fn default() -> (p: Self)
        ensures
            p == ThemeMode::Auto,
    {
        ThemeMode::Auto
    }
}

/// Colour gradient for the sector colour-fill mode.
#[derive(Debug, Clone, Copy, PartialEq, Eq, Structural)]
pub enum SectorGradient {
    Plasma,
    Viridis,
    Inferno,
    Magma,
    Turbo,
    Cividis,
    Cool,
    Warm,
    Rainbow,
    Sinebow,
}

impl Default for SectorGradient {
    fn default() -> (g: Self)
        ensures
            g == SectorGradient::Plasma,
    {
        SectorGradient::Plasma
    }
}

impl SectorGradient {
    /// Every gradient, in menu order.
    pub const ALL: [SectorGradient; 10] = [
        SectorGradient::Plasma,
        SectorGradient::Viridis,
        SectorGradient::Inferno,
        SectorGradient::Magma,
        SectorGradient::Turbo,
        SectorGradient::Cividis,
        SectorGradient::Cool,
        SectorGradient::Warm,
        SectorGradient::Rainbow,
        SectorGradient::Sinebow,
    ];

    /// Menu label.
    pub fn label(self) -> (text: &'static str)
        ensures
            text@ == match self {
                SectorGradient::Plasma => "Plasma"@,
                SectorGradient::Viridis => "Viridis"@,
                SectorGradient::Inferno => "Inferno"@,
                SectorGradient::Magma => "Magma"@,
                SectorGradient::Turbo => "Turbo"@,
                SectorGradient::Cividis => "Cividis"@,
                SectorGradient::Cool => "Cool"@,
                SectorGradient::Warm => "Warm"@,
                SectorGradient::Rainbow => "Rainbow"@,
                SectorGradient::Sinebow => "Sinebow"@,
            },
    {
        match self {
            SectorGradient::Plasma => "Plasma",
            SectorGradient::Viridis => "Viridis",
            SectorGradient::Inferno => "Inferno",
            SectorGradient::Magma => "Magma",
            SectorGradient::Turbo => "Turbo",
            SectorGradient::Cividis => "Cividis",
            SectorGradient::Cool => "Cool",
            SectorGradient::Warm => "Warm",
            SectorGradient::Rainbow => "Rainbow",
            SectorGradient::Sinebow => "Sinebow",
        }
    }
}

/// The editor's pop-up windows, each with a remembered geometry.
#[derive(Debug, Clone, Copy, PartialEq, Eq, Structural)]
pub enum PopupWindow {
    MapList,
    Browser,
    Remap,
    Prefs,
    WallEdit,
    SectorEdit,
    ProjectSettings,
    BuildBsp,
    NewMap,
    Audit,
}

/// Remembered geometry of each pop-up window; `G` is the geometry (offset and size).
#[derive(Debug, Clone, Copy, PartialEq, Default)]
pub struct PopupWindows<G> {
    pub map_list: G,
    pub browser: G,
    pub remap: G,
    pub prefs: G,
    pub wall_edit: G,
    pub sector_edit: G,
    pub project_settings: G,
    pub build_bsp: G,
    pub new_map: G,
    pub audit: G,
}

impl<G> PopupWindows<G> {
    /// The geometry stored for `which`.
    pub open spec fn geom(self, which: PopupWindow) -> G {
        match which {
            PopupWindow::MapList => self.map_list,
            PopupWindow::Browser => self.browser,
            PopupWindow::Remap => self.remap,
            PopupWindow::Prefs => self.prefs,
            PopupWindow::WallEdit => self.wall_edit,
            PopupWindow::SectorEdit => self.sector_edit,
            PopupWindow::ProjectSettings => self.project_settings,
            PopupWindow::BuildBsp => self.build_bsp,
            PopupWindow::NewMap => self.new_map,
            PopupWindow::Audit => self.audit,
        }
    }

    /// These geometries with `which`'s replaced by `g`.
    pub open spec fn with_geom(self, which: PopupWindow, g: G) -> Self {
        match which {
            PopupWindow::MapList => PopupWindows { map_list: g, ..self },
            PopupWindow::Browser => PopupWindows { browser: g, ..self },
            PopupWindow::Remap => PopupWindows { remap: g, ..self },
            PopupWindow::Prefs => PopupWindows { prefs: g, ..self },
            PopupWindow::WallEdit => PopupWindows { wall_edit: g, ..self },
            PopupWindow::SectorEdit => PopupWindows { sector_edit: g, ..self },
            PopupWindow::ProjectSettings => PopupWindows { project_settings: g, ..self },
            PopupWindow::BuildBsp => PopupWindows { build_bsp: g, ..self },
            PopupWindow::NewMap => PopupWindows { new_map: g, ..self },
            PopupWindow::Audit => PopupWindows { audit: g, ..self },
        }
    }
}

impl<G: Copy> PopupWindows<G> {
    /// The remembered geometry of window `which`.
    pub fn get(&self, which: PopupWindow) -> (g: G)
        ensures
            g == self.geom(which),
    {
        match which {
            PopupWindow::MapList => self.map_list,
            PopupWindow::Browser => self.browser,
            PopupWindow::Remap => self.remap,
            PopupWindow::Prefs => self.prefs,
            PopupWindow::WallEdit => self.wall_edit,
            PopupWindow::SectorEdit => self.sector_edit,
            PopupWindow::ProjectSettings => self.project_settings,
            PopupWindow::BuildBsp => self.build_bsp,
            PopupWindow::NewMap => self.new_map,
            PopupWindow::Audit => self.audit,
        }
    }

    /// Remember `geom` for window `which`; the others keep theirs.
    pub fn set(&mut self, which: PopupWindow, geom: G)
        ensures
            *final(self) == old(self).with_geom(which, geom),
    {
        match which {
            PopupWindow::MapList => self.map_list = geom,
            PopupWindow::Browser => self.browser = geom,
            PopupWindow::Remap => self.remap = geom,
            PopupWindow::Prefs => self.prefs = geom,
            PopupWindow::WallEdit => self.wall_edit = geom,
            PopupWindow::SectorEdit => self.sector_edit = geom,
            PopupWindow::ProjectSettings => self.project_settings = geom,
            PopupWindow::BuildBsp => self.build_bsp = geom,
            PopupWindow::NewMap => self.new_map = geom,
            PopupWindow::Audit => self.audit = geom,
        }
    }
}

/// Reading a window's geometry gives back what was last stored for it; storing one window's
/// geometry leaves every other window's as it was.
pub proof fn lemma_popup_read_after_write<G>(
    windows: PopupWindows<G>,
    which: PopupWindow,
    geom: G,
    other: PopupWindow,
)
    ensures
        windows.with_geom(which, geom).geom(which) == geom,
        other != which ==> windows.with_geom(which, geom).geom(other) == windows.geom(other),
{
}

/// Whether the active appearance is dark: the theme mode decides, `Auto` follows the OS.
pub fn resolve_dark(theme_mode: ThemeMode, os_dark: bool) -> (dark: bool)
    ensures
        dark == match theme_mode {
            ThemeMode::Light => false,
            ThemeMode::Dark => true,
            ThemeMode::Auto => os_dark,
        },
{
    match theme_mode {
        ThemeMode::Light => false,
        ThemeMode::Dark => true,
        ThemeMode::Auto => os_dark,
    }
}

/// The text of each entry.
pub open spec fn texts(list: Seq<String>) -> Seq<Seq<char>> {
    list.map_values(|s: String| s@)
}

/// `list` without the entries equal to `path`, in order.
pub open spec fn without(list: Seq<Seq<char>>, path: Seq<char>) -> Seq<Seq<char>>
    decreases list.len(),
{
    if list.len() == 0 {
        Seq::empty()
    } else {
        let rest = without(list.drop_last(), path);
        if list.last() == path {
            rest
        } else {
            rest.push(list.last())
        }
    }
}

/// The recent-projects list after opening `path`: `path` first, then the earlier entries
/// other than `path` in their order, cut to [`RECENT_PROJECTS_MAX`].
pub open spec fn after_push_recent(list: Seq<Seq<char>>, path: Seq<char>) -> Seq<Seq<char>> {
    let full = seq![path] + without(list, path);
    if full.len() > RECENT_PROJECTS_MAX {
        full.subrange(0, RECENT_PROJECTS_MAX as int)
    } else {
        full
    }
}

/// Pushes `path` to the front of the recent-projects list, dropping earlier copies of it and
/// keeping at most [`RECENT_PROJECTS_MAX`] entries.
pub fn push_recent_project(recent: &mut Vec<String>, path: &str)
    ensures
        texts(final(recent)@) == after_push_recent(texts(old(recent)@), path@),
{
    let owned: String = path.to_owned();
    let mut old_list: Vec<String> = Vec::new();
    std::mem::swap(&mut old_list, recent);
    let ghost src = texts(old_list@);
    let mut kept: Vec<String> = Vec::new();
    kept.push(path.to_owned());
    let mut i: usize = 0;
    while i < old_list.len()
        invariant
            src == texts(old_list@),
            owned@ == path@,
            i <= old_list@.len(),
            texts(kept@) == seq![path@] + without(src.subrange(0, i as int), path@),
        decreases old_list@.len() - i,
    {
        let same: bool = old_list[i] == owned;
        proof {
            assert(src.subrange(0, i + 1).drop_last() =~= src.subrange(0, i as int));
            assert(src.subrange(0, i + 1).last() == old_list@[i as int]@);
        }
        if !same {
            let ghost before = texts(kept@);
            kept.push(old_list[i].clone());
            proof {
                assert(texts(kept@) =~= before.push(old_list@[i as int]@));
            }
        }
        i = i + 1;
    }
    proof {
        assert(src.subrange(0, src.len() as int) =~= src);
    }
    if kept.len() > RECENT_PROJECTS_MAX {
        kept.truncate(RECENT_PROJECTS_MAX);
        proof {
            assert(texts(kept@) =~= (seq![path@] + without(src, path@)).subrange(
                0,
                RECENT_PROJECTS_MAX as int,
            ));
        }
    }
    *recent = kept;
}

proof fn lemma_without_excludes(list: Seq<Seq<char>>, path: Seq<char>)
    ensures
        !without(list, path).contains(path),
        without(list, path).len() <= list.len(),
        forall|x: Seq<char>| without(list, path).contains(x) ==> list.contains(x),
        forall|x: Seq<char>| list.contains(x) && x != path ==> without(list, path).contains(x),
        (forall|i: int, j: int| 0 <= i < j < list.len() ==> list[i] != list[j]) ==> (forall|
            i: int,
            j: int,
        | 0 <= i < j < without(list, path).len() ==> without(list, path)[i] != without(
            list,
            path,
        )[j]),
    decreases list.len(),
{
    if list.len() > 0 {
        let init = list.drop_last();
        lemma_without_excludes(init, path);
        let rest = without(init, path);
        assert forall|x: Seq<char>| without(list, path).contains(x) implies list.contains(x) by {
            if rest.contains(x) {
                let k = choose|k: int| 0 <= k < rest.len() && rest[k] == x;
                assert(init.contains(x));
                let m = choose|m: int| 0 <= m < init.len() && init[m] == x;
                assert(list[m] == x);
            } else {
                assert(list[list.len() - 1] == x);
            }
        }
        assert forall|x: Seq<char>| list.contains(x) && x != path implies without(
            list,
            path,
        ).contains(x) by {
            let k = choose|k: int| 0 <= k < list.len() && list[k] == x;
            if k < list.len() - 1 {
                assert(init[k] == x);
                assert(init.contains(x));
                assert(rest.contains(x));
                let m = choose|m: int| 0 <= m < rest.len() && rest[m] == x;
                assert(without(list, path)[m] == x);
            } else {
                assert(without(list, path)[rest.len() as int] == x);
            }
        }
        if forall|i: int, j: int| 0 <= i < j < list.len() ==> list[i] != list[j] {
            assert forall|i: int, j: int|
                0 <= i < j < without(list, path).len() implies without(list, path)[i] != without(
                list,
                path,
            )[j] by {
                if j == rest.len() && list.last() != path {
                    let x = rest[i];
                    assert(rest[i] == x);
                    assert(rest.contains(x));
                    assert(init.contains(x));
                    let m = choose|m: int| 0 <= m < init.len() && init[m] == x;
                    assert(list[m] == x);
                    assert(list[list.len() - 1] == list.last());
                }
            }
        }
    }
}

/// After opening `path`, the recent-projects list starts with `path`, holds it once, keeps
/// at most [`RECENT_PROJECTS_MAX`] entries, lists only paths it held before or `path`, and,
/// if it held no repeats, holds none after.
pub proof fn lemma_push_recent_project(list: Seq<Seq<char>>, path: Seq<char>)
    ensures
        after_push_recent(list, path).len() >= 1,
        after_push_recent(list, path)[0] == path,
        after_push_recent(list, path).len() <= RECENT_PROJECTS_MAX,
        forall|i: int|
            1 <= i < after_push_recent(list, path).len() ==> #[trigger] after_push_recent(
                list,
                path,
            )[i] != path,
        forall|i: int|
            0 <= i < after_push_recent(list, path).len() ==> #[trigger] after_push_recent(
                list,
                path,
            )[i] == path || list.contains(after_push_recent(list, path)[i]),
        (forall|i: int, j: int| 0 <= i < j < list.len() ==> list[i] != list[j]) ==> (forall|
            i: int,
            j: int,
        | 0 <= i < j < after_push_recent(list, path).len() ==> after_push_recent(list, path)[i]
            != after_push_recent(list, path)[j]),
{
    lemma_without_excludes(list, path);
    let rest = without(list, path);
    let full = seq![path] + rest;
    let out = after_push_recent(list, path);
    assert forall|i: int| 1 <= i < out.len() implies #[trigger] out[i] != path by {
        assert(out[i] == rest[i - 1]);
    }
    assert forall|i: int| 0 <= i < out.len() implies #[trigger] out[i] == path || list.contains(
        out[i],
    ) by {
        if i > 0 {
            assert(out[i] == rest[i - 1]);
            assert(rest.contains(rest[i - 1]));
        }
    }
    if forall|i: int, j: int| 0 <= i < j < list.len() ==> list[i] != list[j] {
        assert forall|i: int, j: int| 0 <= i < j < out.len() implies out[i] != out[j] by {
            assert(out[j] == rest[j - 1]);
            if i > 0 {
                assert(out[i] == rest[i - 1]);
            }
        }
    }
}

} // verus!

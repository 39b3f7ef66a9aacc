//! Sector light animation for the canvas, following the game's sector light thinkers.
//!
//! The game draws its light timings from its random-number table; here every draw is a value
//! handed in by the caller (a "roll"), consumed in order, so each step is a pure function of
//! the lights and the rolls.

use vstd::prelude::*;

use crate::selection::SectorFill;

verus! {

pub const MAX_LIGHT: i32 = 255;
/// `GLOWSPEED`
pub const GLOW_SPEED: i32 = 8;
/// `STROBEBRIGHT`
pub const STROBE_BRIGHT: i32 = 5;
/// `FASTDARK`
pub const STROBE_FAST: i32 = 15;
/// `SLOWDARK`
pub const STROBE_SLOW: i32 = 35;

/// Vanilla sector light kind, from `special & 0x1F`.
#[derive(Debug, Clone, Copy, PartialEq, Eq, Structural)]
pub enum LightEffect {
    Flicker,
    StrobeFast,
    StrobeSlow,
    StrobeFastSync,
    StrobeSlowSync,
    Glow,
    FireFlicker,
}

/// The light effect of a sector special, by its low five bits.
pub open spec fn effect_of(special: i32) -> Option<LightEffect> {
    let low = special & 0x1f;
    if low == 1 {
        Some(LightEffect::Flicker)
    } else if low == 2 || low == 4 {
        Some(LightEffect::StrobeFast)
    } else if low == 3 {
        Some(LightEffect::StrobeSlow)
    } else if low == 13 {
        Some(LightEffect::StrobeFastSync)
    } else if low == 12 {
        Some(LightEffect::StrobeSlowSync)
    } else if low == 8 {
        Some(LightEffect::Glow)
    } else if low == 17 {
        Some(LightEffect::FireFlicker)
    } else {
        None
    }
}

impl LightEffect {
    /// The light effect a sector special spawns, if any.
    pub fn from_special(special: i32) -> (effect: Option<LightEffect>)
        ensures
            effect == effect_of(special),
    {
        let low: i32 = special & 0x1f;
        if low == 1 {
            Some(LightEffect::Flicker)
        } else if low == 2 || low == 4 {
            Some(LightEffect::StrobeFast)
        } else if low == 3 {
            Some(LightEffect::StrobeSlow)
        } else if low == 13 {
            Some(LightEffect::StrobeFastSync)
        } else if low == 12 {
            Some(LightEffect::StrobeSlowSync)
        } else if low == 8 {
            Some(LightEffect::Glow)
        } else if low == 17 {
            Some(LightEffect::FireFlicker)
        } else {
            None
        }
    }
}

/// What the light animation reads of a sector.
#[derive(Debug, Clone, Copy, PartialEq, Eq, Structural)]
pub struct LightSector {
    pub light_level: i32,
    pub special: i32,
}

/// The sectors on the two sides of a line, when present.
#[derive(Debug, Clone, Copy, PartialEq, Eq, Structural)]
pub struct LineSectors {
    pub front: Option<u32>,
    pub back: Option<u32>,
}

/// One animated sector light.
#[derive(Debug, Clone, Copy, PartialEq, Eq, Structural)]
pub struct SectorLight {
    pub sector: usize,
    pub current: i32,
    pub effect: LightEffect,
    pub max_light: i32,
    pub min_light: i32,
    pub count: i32,
    pub dark_time: i32,
    pub direction: i32,
}

/// Sectors `s` and `o` face each other across some line.
pub open spec fn adjacent(lines: Seq<LineSectors>, s: int, o: int) -> bool {
    exists|i: int|
        0 <= i < lines.len() && #[trigger] faces(lines[i], s, o)
}

/// Line `l` has sector `s` on one side and `o` on the other.
pub open spec fn faces(l: LineSectors, s: int, o: int) -> bool {
    ||| (l.front matches Some(f) && l.back matches Some(b) && f == s && b == o)
    ||| (l.front matches Some(f) && l.back matches Some(b) && b == s && f == o)
}

/// `m` is the darkest light level among sector `s` and the sectors facing it across the first
/// `n` lines (`P_FindMinSurroundingLight`, with the sector itself included).
pub open spec fn is_neighbor_min(sectors: Seq<LightSector>, lines: Seq<LineSectors>, s: int, m: i32) -> bool {
    &&& m <= sectors[s].light_level
    &&& forall|o: int|
        0 <= o < sectors.len() && #[trigger] adjacent(lines, s, o) ==> m <= sectors[o].light_level
    &&& (m == sectors[s].light_level || exists|o: int|
        0 <= o < sectors.len() && #[trigger] adjacent(lines, s, o) && m == sectors[o].light_level)
}

/// Darkest surrounding light level per sector.
pub fn sector_neighbor_min(sectors: &[LightSector], lines: &[LineSectors]) -> (mins: Vec<i32>)
    ensures
        mins@.len() == sectors@.len(),
        forall|s: int| 0 <= s < sectors@.len() ==> is_neighbor_min(sectors@, lines@, s, #[trigger] mins@[s]),
{
    let mut mins: Vec<i32> = Vec::new();
    let mut k: usize = 0;
    while k < sectors.len()
        invariant
            k <= sectors@.len(),
            mins@.len() == k,
            forall|s: int| 0 <= s < k ==> #[trigger] mins@[s] == sectors@[s].light_level,
        decreases sectors@.len() - k,
    {
        mins.push(sectors[k].light_level);
        k = k + 1;
    }
    let n: usize = sectors.len();
    let mut i: usize = 0;
    while i < lines.len()
        invariant
            n == sectors@.len(),
            i <= lines@.len(),
            mins@.len() == n,
            forall|s: int|
                0 <= s < n ==> is_neighbor_min(sectors@, lines@.subrange(0, i as int), s, #[trigger] mins@[s]),
        decreases lines@.len() - i,
    {
        let line: LineSectors = lines[i];
        let ghost pre = lines@.subrange(0, i as int);
        let ghost post = lines@.subrange(0, i + 1);
        let ghost before = mins@;
        proof {
            assert forall|s: int, o: int| adjacent(pre, s, o) implies adjacent(post, s, o) by {
                let j = choose|j: int| 0 <= j < pre.len() && #[trigger] faces(pre[j], s, o);
                assert(faces(post[j], s, o));
            }
            assert forall|s: int, o: int| adjacent(post, s, o) implies adjacent(pre, s, o) || faces(
                line,
                s,
                o,
            ) by {
                let j = choose|j: int| 0 <= j < post.len() && #[trigger] faces(post[j], s, o);
                if j < pre.len() {
                    assert(faces(pre[j], s, o));
                }
            }
        }
        match (line.front, line.back) {
            (Some(f), Some(b)) => {
                let fs: usize = f as usize;
                let bs: usize = b as usize;
                if fs < n && bs < n {
                    if sectors[bs].light_level < mins[fs] {
                        mins.set(fs, sectors[bs].light_level);
                    }
                    if sectors[fs].light_level < mins[bs] {
                        mins.set(bs, sectors[fs].light_level);
                    }
                }
                proof {
                    assert(faces(post[i as int], f as int, b as int));
                    assert(faces(post[i as int], b as int, f as int));
                    assert forall|s: int| 0 <= s < n implies is_neighbor_min(
                        sectors@,
                        post,
                        s,
                        #[trigger] mins@[s],
                    ) by {
                        assert(is_neighbor_min(sectors@, pre, s, before[s]));
                        if s == f as int && fs < n && bs < n {
                            assert(adjacent(post, s, b as int));
                        }
                        if s == b as int && fs < n && bs < n {
                            assert(adjacent(post, s, f as int));
                        }
                        if (mins@[s] != sectors@[s].light_level) {
                            if mins@[s] == before[s] {
                                let o = choose|o: int|
                                    0 <= o < sectors@.len() && #[trigger] adjacent(pre, s, o)
                                        && before[s] == sectors@[o].light_level;
                                assert(adjacent(post, s, o));
                            }
                        }
                    }
                }
            },
            _ => {
                proof {
                    assert forall|s: int| 0 <= s < n implies is_neighbor_min(
                        sectors@,
                        post,
                        s,
                        #[trigger] mins@[s],
                    ) by {
                        assert(is_neighbor_min(sectors@, pre, s, before[s]));
                        if (mins@[s] != sectors@[s].light_level) {
                            let o = choose|o: int|
                                0 <= o < sectors@.len() && #[trigger] adjacent(pre, s, o)
                                    && before[s] == sectors@[o].light_level;
                            assert(adjacent(post, s, o));
                        }
                    }
                }
            },
        }
        i = i + 1;
    }
    proof {
        assert(lines@.subrange(0, lines@.len() as int) =~= lines@);
    }
    mins
}

/// `P_SpawnStrobeFlash`: a strobe whose dark level equals its bright level drops to black.
pub open spec fn spec_strobe_min(min: i32, max: i32) -> i32 {
    if min == max {
        0
    } else {
        min
    }
}

/// Dark level of a strobe: the darkest neighbour, or 0 when that is as bright as the sector.
pub fn strobe_min(min: i32, max: i32) -> (r: i32)
    ensures
        r == spec_strobe_min(min, max),
{
    if min == max {
        0
    } else {
        min
    }
}

/// Whether spawning a light of this effect draws a roll.
pub open spec fn spawn_draws(effect: LightEffect) -> bool {
    effect == LightEffect::Flicker || effect == LightEffect::StrobeFast || effect
        == LightEffect::StrobeSlow
}

/// The thinker spawned for sector `sector` (`P_Spawn*`), from its light level, the darkest
/// surrounding level, and a roll (used only by the effects that draw one).
pub open spec fn spawned_light(sector: int, effect: LightEffect, level: i32, neighbor_min: i32, roll: i32) -> SectorLight {
    let strobe = spec_strobe_min(neighbor_min, level);
    let (min_light, count, dark_time, direction) = match effect {
        LightEffect::Flicker => (neighbor_min, ((roll & 64) + 1) as i32, 0i32, 0i32),
        LightEffect::StrobeFast => (strobe, ((roll & 7) + 1) as i32, STROBE_FAST, 0i32),
        LightEffect::StrobeSlow => (strobe, ((roll & 7) + 1) as i32, STROBE_SLOW, 0i32),
        LightEffect::StrobeFastSync => (strobe, 1i32, STROBE_FAST, 0i32),
        LightEffect::StrobeSlowSync => (strobe, 1i32, STROBE_SLOW, 0i32),
        LightEffect::Glow => (neighbor_min, 0i32, 0i32, -1i32),
        LightEffect::FireFlicker => ((neighbor_min + 16) as i32, 4i32, 0i32, 0i32),
    };
    SectorLight {
        sector: sector as usize,
        current: level,
        effect,
        max_light: level,
        min_light,
        count,
        dark_time,
        direction,
    }
}

/// Number of rolls drawn while spawning the lights of the first `n` sectors.
pub open spec fn spawn_rolls(sectors: Seq<LightSector>, n: int) -> int
    decreases n,
{
    if n <= 0 {
        0
    } else {
        spawn_rolls(sectors, n - 1) + match effect_of(sectors[n - 1].special) {
            Some(e) => if spawn_draws(e) { 1int } else { 0 },
            None => 0,
        }
    }
}

/// The lights spawned for the first `n` sectors, in sector order.
pub open spec fn spawned_lights(sectors: Seq<LightSector>, mins: Seq<i32>, rolls: Seq<i32>, n: int) -> Seq<
    SectorLight,
>
    decreases n,
{
    if n <= 0 {
        Seq::empty()
    } else {
        let rest = spawned_lights(sectors, mins, rolls, n - 1);
        match effect_of(sectors[n - 1].special) {
            Some(e) => rest.push(
                spawned_light(
                    n - 1,
                    e,
                    sectors[n - 1].light_level,
                    mins[n - 1],
                    rolls[spawn_rolls(sectors, n - 1)],
                ),
            ),
            None => rest,
        }
    }
}

/// A fire flicker's dark level is 16 above its surroundings; that must fit an `i32`.
pub open spec fn spawnable(sectors: Seq<LightSector>) -> bool {
    forall|s: int|
        0 <= s < sectors.len() && effect_of(#[trigger] sectors[s].special) == Some(
            LightEffect::FireFlicker,
        ) ==> sectors[s].light_level <= i32::MAX - 16
}

proof fn lemma_spawn_rolls_grow(sectors: Seq<LightSector>, a: int, b: int)
    requires
        0 <= a <= b,
    ensures
        0 <= spawn_rolls(sectors, a) <= spawn_rolls(sectors, b),
    decreases b - a,
{
    lemma_spawn_rolls_nonneg(sectors, a);
    if a < b {
        lemma_spawn_rolls_grow(sectors, a, b - 1);
    }
}

proof fn lemma_spawn_rolls_nonneg(sectors: Seq<LightSector>, n: int)
    ensures
        0 <= spawn_rolls(sectors, n),
    decreases n,
{
    if n > 0 {
        lemma_spawn_rolls_nonneg(sectors, n - 1);
    }
}

/// How many rolls [`build`] draws for these sectors.
pub fn spawn_rolls_needed(sectors: &[LightSector]) -> (n: usize)
    ensures
        n == spawn_rolls(sectors@, sectors@.len() as int),
{
    let mut n: usize = 0;
    let mut i: usize = 0;
    while i < sectors.len()
        invariant
            i <= sectors@.len(),
            n == spawn_rolls(sectors@, i as int),
            n <= i,
        decreases sectors@.len() - i,
    {
        match LightEffect::from_special(sectors[i].special) {
            Some(e) => {
                if e == LightEffect::Flicker || e == LightEffect::StrobeFast || e
                    == LightEffect::StrobeSlow {
                    n = n + 1;
                }
            },
            None => {},
        }
        i = i + 1;
    }
    n
}

/// Spawn the light thinkers, in sector order (`P_Spawn*`); `rolls` are the random draws, one
/// per flickering or unsynchronised strobing light, in that order.
pub fn build(sectors: &[LightSector], lines: &[LineSectors], rolls: &[i32]) -> (lights: Vec<SectorLight>)
    requires
        spawnable(sectors@),
        rolls@.len() >= spawn_rolls(sectors@, sectors@.len() as int),
    ensures
        exists|mins: Seq<i32>|
            {
                &&& mins.len() == sectors@.len()
                &&& forall|s: int|
                    0 <= s < sectors@.len() ==> is_neighbor_min(sectors@, lines@, s, #[trigger] mins[s])
                &&& lights@ == spawned_lights(sectors@, mins, rolls@, sectors@.len() as int)
            },
{
    let mins: Vec<i32> = sector_neighbor_min(sectors, lines);
    let mut lights: Vec<SectorLight> = Vec::new();
    let mut used: usize = 0;
    let mut s: usize = 0;
    while s < sectors.len()
        invariant
            spawnable(sectors@),
            rolls@.len() >= spawn_rolls(sectors@, sectors@.len() as int),
            mins@.len() == sectors@.len(),
            forall|k: int|
                0 <= k < sectors@.len() ==> is_neighbor_min(sectors@, lines@, k, #[trigger] mins@[k]),
            s <= sectors@.len(),
            used == spawn_rolls(sectors@, s as int),
            lights@ == spawned_lights(sectors@, mins@, rolls@, s as int),
        decreases sectors@.len() - s,
    {
        proof {
            lemma_spawn_rolls_grow(sectors@, s + 1, sectors@.len() as int);
        }
        let sector: LightSector = sectors[s];
        match LightEffect::from_special(sector.special) {
            Some(effect) => {
                let max_light: i32 = sector.light_level;
                let neighbor_min: i32 = mins[s];
                let strobe: i32 = strobe_min(neighbor_min, max_light);
                let draws: bool = effect == LightEffect::Flicker || effect == LightEffect::StrobeFast
                    || effect == LightEffect::StrobeSlow;
                let roll: i32 = if draws {
                    rolls[used]
                } else {
                    0
                };
                assert(0 <= roll & 64 <= 64 && 0 <= roll & 7 <= 7) by (bit_vector);
                let (min_light, count, dark_time, direction): (i32, i32, i32, i32) = match effect {
                    LightEffect::Flicker => (neighbor_min, (roll & 64) + 1, 0, 0),
                    LightEffect::StrobeFast => (strobe, (roll & 7) + 1, STROBE_FAST, 0),
                    LightEffect::StrobeSlow => (strobe, (roll & 7) + 1, STROBE_SLOW, 0),
                    LightEffect::StrobeFastSync => (strobe, 1, STROBE_FAST, 0),
                    LightEffect::StrobeSlowSync => (strobe, 1, STROBE_SLOW, 0),
                    LightEffect::Glow => (neighbor_min, 0, 0, -1),
                    LightEffect::FireFlicker => {
                        assert(effect_of(sectors@[s as int].special) == Some(LightEffect::FireFlicker));
                        assert(is_neighbor_min(sectors@, lines@, s as int, mins@[s as int]));
                        (neighbor_min + 16, 4, 0, 0)
                    },
                };
                lights.push(
                    SectorLight {
                        sector: s,
                        current: max_light,
                        effect,
                        max_light,
                        min_light,
                        count,
                        dark_time,
                        direction,
                    },
                );
                if draws {
                    used = used + 1;
                }
            },
            None => {},
        }
        s = s + 1;
    }
    lights
}

/// A light whose next steps stay inside `i32`: counting thinkers have a positive count
/// (strobes a positive dark time), a glow stays between its levels with room to step, and a
/// fire flicker's bright level leaves room for its largest dip.
pub open spec fn light_ok(l: SectorLight) -> bool {
    match l.effect {
        LightEffect::Glow => {
            &&& l.min_light <= l.current <= l.max_light
            &&& i32::MIN + GLOW_SPEED <= l.min_light
            &&& l.max_light <= i32::MAX - GLOW_SPEED
        },
        LightEffect::Flicker => l.count >= 1,
        LightEffect::FireFlicker => l.count >= 1 && l.max_light >= i32::MIN + 48,
        _ => l.count >= 1 && l.dark_time >= 1,
    }
}

/// Whether this tic of the light draws a roll.
pub open spec fn tic_draws(l: SectorLight) -> bool {
    (l.effect == LightEffect::Flicker || l.effect == LightEffect::FireFlicker) && l.count == 1
}

/// `x` clamped to `lo..=hi`.
pub open spec fn clamp(x: int, lo: int, hi: int) -> int {
    if x < lo {
        lo
    } else if x > hi {
        hi
    } else {
        x
    }
}

/// One tic of a light thinker (`P_LightFlash`, `P_StrobeFlash`, `P_GlowingLight`,
/// `P_FireFlicker`); `roll` is used only when [`tic_draws`].
pub open spec fn light_after_tic(l: SectorLight, roll: i32) -> SectorLight {
    match l.effect {
        LightEffect::Flicker => {
            if l.count - 1 != 0 {
                SectorLight { count: (l.count - 1) as i32, ..l }
            } else if l.current == l.max_light {
                SectorLight { current: l.min_light, count: ((roll & 7) + 1) as i32, ..l }
            } else {
                SectorLight { current: l.max_light, count: ((roll & 64) + 1) as i32, ..l }
            }
        },
        LightEffect::Glow => {
            if l.direction == -1 {
                if l.current - GLOW_SPEED <= l.min_light {
                    SectorLight { direction: 1i32, ..l }
                } else {
                    SectorLight { current: (l.current - GLOW_SPEED) as i32, ..l }
                }
            } else if l.direction == 1 {
                if l.current + GLOW_SPEED >= l.max_light {
                    SectorLight { direction: -1i32, ..l }
                } else {
                    SectorLight { current: (l.current + GLOW_SPEED) as i32, ..l }
                }
            } else {
                l
            }
        },
        LightEffect::FireFlicker => {
            if l.count - 1 != 0 {
                SectorLight { count: (l.count - 1) as i32, ..l }
            } else {
                let amount = (roll & 3) * 16;
                let bright = if l.current >= amount {
                    clamp(l.max_light - amount, 0, MAX_LIGHT as int)
                } else {
                    l.current as int
                };
                let lit = if bright < l.min_light {
                    l.min_light as int
                } else {
                    bright
                };
                SectorLight { current: lit as i32, count: 4, ..l }
            }
        },
        _ => {
            if l.count - 1 != 0 {
                SectorLight { count: (l.count - 1) as i32, ..l }
            } else if l.current == l.min_light {
                SectorLight { current: l.max_light, count: STROBE_BRIGHT, ..l }
            } else {
                SectorLight { current: l.min_light, count: l.dark_time, ..l }
            }
        },
    }
}

/// Advance one light by one tic.
pub fn tic_light(light: &mut SectorLight, roll: i32)
    requires
        light_ok(*old(light)),
    ensures
        *final(light) == light_after_tic(*old(light), roll),
        light_ok(*final(light)),
{
    assert(0 <= roll & 64 <= 64 && 0 <= roll & 7 <= 7 && 0 <= roll & 3 <= 3) by (bit_vector);
    match light.effect {
        LightEffect::Flicker => {
            light.count = light.count - 1;
            if light.count != 0 {
                return;
            }
            if light.current == light.max_light {
                light.current = light.min_light;
                light.count = (roll & 7) + 1;
            } else {
                light.current = light.max_light;
                light.count = (roll & 64) + 1;
            }
        },
        LightEffect::Glow => {
            if light.direction == -1 {
                light.current = light.current - GLOW_SPEED;
                if light.current <= light.min_light {
                    light.current = light.current + GLOW_SPEED;
                    light.direction = 1;
                }
            } else if light.direction == 1 {
                light.current = light.current + GLOW_SPEED;
                if light.current >= light.max_light {
                    light.current = light.current - GLOW_SPEED;
                    light.direction = -1;
                }
            }
        },
        LightEffect::FireFlicker => {
            light.count = light.count - 1;
            if light.count != 0 {
                return;
            }
            let amount: i32 = (roll & 3) * 16;
            if light.current >= amount {
                let dipped: i32 = light.max_light - amount;
                light.current = if dipped < 0 {
                    0
                } else if dipped > MAX_LIGHT {
                    MAX_LIGHT
                } else {
                    dipped
                };
            }
            if light.current < light.min_light {
                light.current = light.min_light;
            }
            light.count = 4;
        },
        _ => {
            light.count = light.count - 1;
            if light.count != 0 {
                return;
            }
            if light.current == light.min_light {
                light.current = light.max_light;
                light.count = STROBE_BRIGHT;
            } else {
                light.current = light.min_light;
                light.count = light.dark_time;
            }
        },
    }
}

/// Number of rolls drawn by one tic of the first `n` lights.
pub open spec fn tic_rolls(lights: Seq<SectorLight>, n: int) -> int
    decreases n,
{
    if n <= 0 {
        0
    } else {
        tic_rolls(lights, n - 1) + if tic_draws(lights[n - 1]) { 1int } else { 0 }
    }
}

/// Every light after one tic, each drawing from `rolls` in list order.
pub open spec fn lights_after_tic(lights: Seq<SectorLight>, rolls: Seq<i32>) -> Seq<SectorLight> {
    Seq::new(
        lights.len(),
        |i: int|
            light_after_tic(
                lights[i],
                if tic_draws(lights[i]) { rolls[tic_rolls(lights, i)] } else { 0i32 },
            ),
    )
}

proof fn lemma_tic_rolls_grow(lights: Seq<SectorLight>, a: int, b: int)
    requires
        0 <= a <= b,
    ensures
        0 <= tic_rolls(lights, a) <= tic_rolls(lights, b),
    decreases b,
{
    if b > 0 {
        if a < b {
            lemma_tic_rolls_grow(lights, a, b - 1);
        } else {
            lemma_tic_rolls_grow(lights, a - 1, b - 1);
        }
    }
}

/// How many rolls one [`tic`] of these lights draws.
pub fn tic_rolls_needed(lights: &[SectorLight]) -> (n: usize)
    ensures
        n == tic_rolls(lights@, lights@.len() as int),
{
    let mut n: usize = 0;
    let mut i: usize = 0;
    while i < lights.len()
        invariant
            i <= lights@.len(),
            n == tic_rolls(lights@, i as int),
            n <= i,
        decreases lights@.len() - i,
    {
        let l: SectorLight = lights[i];
        if (l.effect == LightEffect::Flicker || l.effect == LightEffect::FireFlicker) && l.count == 1 {
            n = n + 1;
        }
        i = i + 1;
    }
    n
}

/// Advance every light by one tic; the lights that draw take `rolls` in list order.
pub fn tic(lights: &mut Vec<SectorLight>, rolls: &[i32])
    requires
        forall|i: int| 0 <= i < old(lights)@.len() ==> light_ok(#[trigger] old(lights)@[i]),
        rolls@.len() >= tic_rolls(old(lights)@, old(lights)@.len() as int),
    ensures
        final(lights)@ == lights_after_tic(old(lights)@, rolls@),
        forall|i: int| 0 <= i < final(lights)@.len() ==> light_ok(#[trigger] final(lights)@[i]),
{
    let ghost start = lights@;
    let mut used: usize = 0;
    let mut i: usize = 0;
    while i < lights.len()
        invariant
            lights@.len() == start.len(),
            i <= start.len(),
            rolls@.len() >= tic_rolls(start, start.len() as int),
            used == tic_rolls(start, i as int),
            forall|k: int| 0 <= k < start.len() ==> light_ok(#[trigger] start[k]),
            forall|k: int| i <= k < start.len() ==> #[trigger] lights@[k] == start[k],
            forall|k: int|
                0 <= k < i ==> #[trigger] lights@[k] == lights_after_tic(start, rolls@)[k],
            forall|k: int| 0 <= k < i ==> light_ok(#[trigger] lights@[k]),
        decreases start.len() - i,
    {
        proof {
            lemma_tic_rolls_grow(start, i + 1, start.len() as int);
        }
        let mut l: SectorLight = lights[i];
        let draws: bool = (l.effect == LightEffect::Flicker || l.effect == LightEffect::FireFlicker)
            && l.count == 1;
        let roll: i32 = if draws {
            rolls[used]
        } else {
            0
        };
        tic_light(&mut l, roll);
        lights.set(i, l);
        if draws {
            used = used + 1;
        }
        i = i + 1;
    }
    proof {
        assert(lights@ =~= lights_after_tic(start, rolls@));
    }
}

/// The spawned lights are one per sector with a light special, in sector order: each names a
/// sector before `n` whose special gives its effect, starts at that sector's level, and every
/// such sector has one.
pub proof fn lemma_spawned_one_per_sector(sectors: Seq<LightSector>, mins: Seq<i32>, rolls: Seq<i32>, n: int)
    requires
        0 <= n <= sectors.len(),
        sectors.len() <= usize::MAX,
    ensures
        forall|k: int|
            0 <= k < spawned_lights(sectors, mins, rolls, n).len() ==> {
                let l = #[trigger] spawned_lights(sectors, mins, rolls, n)[k];
                &&& l.sector < n
                &&& effect_of(sectors[l.sector as int].special) == Some(l.effect)
                &&& l.current == sectors[l.sector as int].light_level
                &&& l.max_light == sectors[l.sector as int].light_level
            },
        forall|j: int, k: int|
            0 <= j < k < spawned_lights(sectors, mins, rolls, n).len() ==> #[trigger] spawned_lights(
                sectors,
                mins,
                rolls,
                n,
            )[j].sector < #[trigger] spawned_lights(sectors, mins, rolls, n)[k].sector,
        forall|s: int|
            0 <= s < n && #[trigger] effect_of(sectors[s].special) is Some ==> exists|k: int|
                0 <= k < spawned_lights(sectors, mins, rolls, n).len() && spawned_lights(
                    sectors,
                    mins,
                    rolls,
                    n,
                )[k].sector == s,
    decreases n,
{
    if n > 0 {
        lemma_spawned_one_per_sector(sectors, mins, rolls, n - 1);
        let rest = spawned_lights(sectors, mins, rolls, n - 1);
        let all = spawned_lights(sectors, mins, rolls, n);
        match effect_of(sectors[n - 1].special) {
            None => {
                assert(all == rest);
                assert forall|s: int|
                    0 <= s < n && #[trigger] effect_of(sectors[s].special) is Some implies exists|k: int|
                        0 <= k < all.len() && all[k].sector == s by {
                    assert(s < n - 1);
                }
            },
            Some(e) => {
                let l = spawned_light(
                    n - 1,
                    e,
                    sectors[n - 1].light_level,
                    mins[n - 1],
                    rolls[spawn_rolls(sectors, n - 1)],
                );
                assert(all == rest.push(l));
                assert(l.sector == n - 1 && l.effect == e && l.current == sectors[n - 1].light_level
                    && l.max_light == sectors[n - 1].light_level);
                assert forall|s: int|
                    0 <= s < n && #[trigger] effect_of(sectors[s].special) is Some implies exists|k: int|
                        0 <= k < all.len() && all[k].sector == s by {
                    if s < n - 1 {
                        let k = choose|k: int| 0 <= k < rest.len() && rest[k].sector == s;
                        assert(all[k] == rest[k]);
                    } else {
                        assert(all[rest.len() as int] == l);
                    }
                }
                assert forall|j: int, k: int| 0 <= j < k < all.len() implies #[trigger] all[j].sector
                    < #[trigger] all[k].sector by {
                    assert(all[j] == rest[j]);
                    if k < rest.len() {
                        assert(all[k] == rest[k]);
                    } else {
                        assert(all[k] == l);
                        assert(rest[j].sector < n - 1);
                    }
                }
                assert forall|k: int| 0 <= k < all.len() implies ({
                    let x = #[trigger] all[k];
                    &&& x.sector < n
                    &&& effect_of(sectors[x.sector as int].special) == Some(x.effect)
                    &&& x.current == sectors[x.sector as int].light_level
                    &&& x.max_light == sectors[x.sector as int].light_level
                }) by {
                    if k < rest.len() {
                        assert(all[k] == rest[k]);
                    } else {
                        assert(all[k] == l);
                    }
                }
            },
        }
    }
}

/// How a light starts (`P_Spawn*`): at its sector's level, which is also its bright level. A
/// flicker dims to the darkest neighbour and waits `(roll & 64) + 1` tics; a strobe dims to the
/// darkest neighbour (0 when no neighbour is darker), stays dark 15 tics (fast) or 35 (slow), and
/// waits `(roll & 7) + 1` tics first, or 1 when synchronised; a glow spans down to the darkest
/// neighbour, starting downwards; a fire flicker bottoms out 16 above the darkest neighbour
/// and waits 4 tics.
pub proof fn lemma_spawn_law(sector: int, effect: LightEffect, level: i32, neighbor_min: i32, roll: i32)
    requires
        0 <= sector <= usize::MAX,
        neighbor_min <= i32::MAX - 16,
    ensures
        spawned_light(sector, effect, level, neighbor_min, roll).sector == sector,
        spawned_light(sector, effect, level, neighbor_min, roll).effect == effect,
        spawned_light(sector, effect, level, neighbor_min, roll).current == level,
        spawned_light(sector, effect, level, neighbor_min, roll).max_light == level,
        effect == LightEffect::Flicker ==> {
            let l = spawned_light(sector, effect, level, neighbor_min, roll);
            &&& l.min_light == neighbor_min
            &&& l.count == (roll & 64) + 1
            &&& (l.count == 1 || l.count == 65)
            &&& l.dark_time == 0 && l.direction == 0
        },
        (effect == LightEffect::StrobeFast || effect == LightEffect::StrobeSlow
            || effect == LightEffect::StrobeFastSync || effect == LightEffect::StrobeSlowSync) ==> {
            let l = spawned_light(sector, effect, level, neighbor_min, roll);
            &&& l.min_light == (if neighbor_min == level { 0 } else { neighbor_min })
            &&& l.dark_time == (if effect == LightEffect::StrobeFast || effect
                == LightEffect::StrobeFastSync {
                15i32
            } else {
                35i32
            })
            &&& l.count == (if effect == LightEffect::StrobeFast || effect == LightEffect::StrobeSlow {
                (roll & 7) + 1
            } else {
                1
            })
            &&& 1 <= l.count <= 8
            &&& l.direction == 0
        },
        effect == LightEffect::Glow ==> {
            let l = spawned_light(sector, effect, level, neighbor_min, roll);
            &&& l.min_light == neighbor_min
            &&& l.direction == -1
            &&& l.count == 0 && l.dark_time == 0
        },
        effect == LightEffect::FireFlicker ==> {
            let l = spawned_light(sector, effect, level, neighbor_min, roll);
            &&& l.min_light == neighbor_min + 16
            &&& l.count == 4
            &&& l.dark_time == 0 && l.direction == 0
        },
{
    assert(0 <= roll & 7 <= 7 && (roll & 64 == 0 || roll & 64 == 64)) by (bit_vector);
}

proof fn lemma_all_draw(lights: Seq<SectorLight>, n: int)
    requires
        0 <= n <= lights.len(),
        forall|j: int| 0 <= j < lights.len() ==> #[trigger] tic_draws(lights[j]),
    ensures
        tic_rolls(lights, n) == n,
    decreases n,
{
    if n > 0 {
        lemma_all_draw(lights, n - 1);
        assert(tic_draws(lights[n - 1]));
    }
}

/// How a tic hands out the random draws: a light that does not draw this tic (see
/// [`tic_draws`]) comes out the same whatever roll it would be given, and when every light
/// draws, light `i` gets roll `i`, so the draws go to the lights in list order, one each.
pub proof fn lemma_tic_rolls_law(lights: Seq<SectorLight>, rolls: Seq<i32>)
    ensures
        lights_after_tic(lights, rolls).len() == lights.len(),
        forall|i: int, r: i32|
            0 <= i < lights.len() && !tic_draws(lights[i]) ==> lights_after_tic(lights, rolls)[i]
                == #[trigger] light_after_tic(lights[i], r),
        (forall|j: int| 0 <= j < lights.len() ==> #[trigger] tic_draws(lights[j])) ==> forall|i: int|
            0 <= i < lights.len() ==> #[trigger] lights_after_tic(lights, rolls)[i] == light_after_tic(
                lights[i],
                rolls[i],
            ),
{
    if forall|j: int| 0 <= j < lights.len() ==> #[trigger] tic_draws(lights[j]) {
        assert forall|i: int| 0 <= i < lights.len() implies #[trigger] lights_after_tic(lights, rolls)[i]
            == light_after_tic(lights[i], rolls[i]) by {
            lemma_all_draw(lights, i);
        }
    }
}

/// What one tic does to a light. Its sector, effect, levels and dark time never change. A
/// counting light (flicker, strobe, fire flicker) with more than one tic left only counts down.
/// When its count runs out:
/// - a strobe at its dark level turns bright for [`STROBE_BRIGHT`] tics; otherwise it turns
///   dark for its `dark_time`;
/// - a flicker at its bright level turns dark for `(roll & 7) + 1` tics (1 to 8); otherwise it
///   turns bright for `(roll & 64) + 1` tics (1 or 65);
/// - a fire flicker dims by `16 * (roll & 3)` below its bright level (clamped to 0..=255, only
///   when at least that bright), never below its dark level, and waits 4 tics.
/// A glowing light steps by [`GLOW_SPEED`] in its direction, and instead of reaching or passing
/// the end of its band it stays put and turns round.
pub proof fn lemma_tic_law(l: SectorLight, roll: i32)
    ensures
        light_after_tic(l, roll).sector == l.sector,
        light_after_tic(l, roll).effect == l.effect,
        light_after_tic(l, roll).max_light == l.max_light,
        light_after_tic(l, roll).min_light == l.min_light,
        light_after_tic(l, roll).dark_time == l.dark_time,
        l.effect != LightEffect::Glow ==> light_after_tic(l, roll).direction == l.direction,
        l.effect != LightEffect::Glow && l.count != 1 && l.count != i32::MIN ==> {
            &&& light_after_tic(l, roll).current == l.current
            &&& light_after_tic(l, roll).count == l.count - 1
        },
        l.effect != LightEffect::Glow && l.effect != LightEffect::Flicker && l.effect
            != LightEffect::FireFlicker && l.count == 1 ==> {
            if l.current == l.min_light {
                light_after_tic(l, roll).current == l.max_light && light_after_tic(l, roll).count
                    == STROBE_BRIGHT
            } else {
                light_after_tic(l, roll).current == l.min_light && light_after_tic(l, roll).count
                    == l.dark_time
            }
        },
        l.effect == LightEffect::Flicker && l.count == 1 ==> {
            if l.current == l.max_light {
                &&& light_after_tic(l, roll).current == l.min_light
                &&& light_after_tic(l, roll).count == (roll & 7) + 1
                &&& 1 <= light_after_tic(l, roll).count <= 8
            } else {
                &&& light_after_tic(l, roll).current == l.max_light
                &&& light_after_tic(l, roll).count == (roll & 64) + 1
                &&& (light_after_tic(l, roll).count == 1 || light_after_tic(l, roll).count == 65)
            }
        },
        l.effect == LightEffect::FireFlicker && l.count == 1 ==> {
            let amount = 16 * (roll & 3);
            let dimmed = if l.current >= amount {
                if l.max_light - amount < 0 {
                    0
                } else if l.max_light - amount > 255 {
                    255
                } else {
                    l.max_light - amount
                }
            } else {
                l.current as int
            };
            &&& light_after_tic(l, roll).count == 4
            &&& light_after_tic(l, roll).current >= l.min_light
            &&& light_after_tic(l, roll).current == (if dimmed < l.min_light {
                l.min_light as int
            } else {
                dimmed
            })
        },
        l.effect == LightEffect::Glow ==> {
            &&& light_after_tic(l, roll).count == l.count
            &&& (l.direction == -1 && l.current - GLOW_SPEED > l.min_light) ==> (light_after_tic(
                l,
                roll,
            ).current == l.current - GLOW_SPEED && light_after_tic(l, roll).direction == -1)
            &&& (l.direction == -1 && l.current - GLOW_SPEED <= l.min_light) ==> (light_after_tic(
                l,
                roll,
            ).current == l.current && light_after_tic(l, roll).direction == 1)
            &&& (l.direction == 1 && l.current + GLOW_SPEED < l.max_light) ==> (light_after_tic(
                l,
                roll,
            ).current == l.current + GLOW_SPEED && light_after_tic(l, roll).direction == 1)
            &&& (l.direction == 1 && l.current + GLOW_SPEED >= l.max_light) ==> (light_after_tic(
                l,
                roll,
            ).current == l.current && light_after_tic(l, roll).direction == -1)
            &&& (l.direction != 1 && l.direction != -1) ==> light_after_tic(l, roll) == l
        },
{
    assert(0 <= roll & 7 <= 7 && 0 <= roll & 3 <= 3 && (roll & 64 == 0 || roll & 64 == 64)) by (bit_vector);
}

/// A glowing light never leaves the band between its dark and bright levels.
pub proof fn lemma_glow_stays_in_band(l: SectorLight, roll: i32)
    requires
        light_ok(l),
        l.effect == LightEffect::Glow,
    ensures
        l.min_light <= light_after_tic(l, roll).current <= l.max_light,
        light_after_tic(l, roll).min_light == l.min_light,
        light_after_tic(l, roll).max_light == l.max_light,
{
}

/// Lights spawned from sectors whose levels leave room to animate can be animated: every one
/// is [`light_ok`].
pub proof fn lemma_spawned_lights_ok(sectors: Seq<LightSector>, lines: Seq<LineSectors>, mins: Seq<i32>, rolls: Seq<i32>, n: int)
    requires
        0 <= n <= sectors.len(),
        mins.len() == sectors.len(),
        forall|s: int| 0 <= s < sectors.len() ==> is_neighbor_min(sectors, lines, s, #[trigger] mins[s]),
        forall|s: int|
            0 <= s < sectors.len() ==> i32::MIN + 48 <= #[trigger] sectors[s].light_level
                <= i32::MAX - 16,
    ensures
        forall|k: int|
            0 <= k < spawned_lights(sectors, mins, rolls, n).len() ==> light_ok(
                #[trigger] spawned_lights(sectors, mins, rolls, n)[k],
            ),
    decreases n,
{
    if n > 0 {
        lemma_spawned_lights_ok(sectors, lines, mins, rolls, n - 1);
        let s = n - 1;
        assert(is_neighbor_min(sectors, lines, s, mins[s]));
        let roll = rolls[spawn_rolls(sectors, n - 1)];
        assert(0 <= roll & 64 <= 64 && 0 <= roll & 7 <= 7) by (bit_vector);
        let rest = spawned_lights(sectors, mins, rolls, n - 1);
        match effect_of(sectors[s].special) {
            Some(e) => {
                let l = spawned_light(s, e, sectors[s].light_level, mins[s], roll);
                assert(light_ok(l));
                assert forall|k: int| 0 <= k < rest.push(l).len() implies light_ok(
                    #[trigger] rest.push(l)[k],
                ) by {
                    if k < rest.len() {
                        assert(rest.push(l)[k] == rest[k]);
                    }
                }
            },
            None => {},
        }
    }
}

/// Whether the light animation runs: the preference is on, sectors are filled with textures,
/// no BSP animation is playing, and there is at least one animated light.
pub fn light_anim_active(
    pref_on: bool,
    fill: SectorFill,
    bsp_anim_playing: bool,
    lights: &[SectorLight],
) -> (active: bool)
    ensures
        active == (pref_on && fill == SectorFill::Texture && !bsp_anim_playing && lights@.len() > 0),
{
    pref_on && fill == SectorFill::Texture && !bsp_anim_playing && lights.len() > 0
}

/// Both lists animate the same sectors, in the same order.
pub open spec fn same_sectors(a: Seq<SectorLight>, b: Seq<SectorLight>) -> bool {
    a.len() == b.len() && forall|i: int| 0 <= i < a.len() ==> #[trigger] a[i].sector == b[i].sector
}

/// Take a freshly built light list unless it animates the same sectors as the running one,
/// which is then kept so that running phases carry on.
pub fn reconcile_lights(current: &mut Vec<SectorLight>, next: Vec<SectorLight>)
    ensures
        final(current)@ == (if same_sectors(next@, old(current)@) {
            old(current)@
        } else {
            next@
        }),
{
    let mut same: bool = next.len() == current.len();
    let mut i: usize = 0;
    while same && i < next.len()
        invariant
            same ==> next@.len() == current@.len(),
            i <= next@.len(),
            same ==> forall|j: int| 0 <= j < i ==> #[trigger] next@[j].sector == current@[j].sector,
            !same ==> !same_sectors(next@, current@),
        decreases next@.len() - i,
    {
        if next[i].sector != current[i].sector {
            same = false;
            proof {
                assert(next@[i as int].sector != current@[i as int].sector);
            }
        }
        i = i + 1;
    }
    if !same {
        *current = next;
    }
}

} // verus!

//! Play-testing the open map: the map slot named by a map marker, the checks made before a
//! launch, and the engine's command line.

use vstd::prelude::*;
use vstd::string::StringSliceAdditionalSpecFns;

use crate::remap::{decimal_text, digits_text};

verus! {

/// Skill passed to the engine on launch.
pub const LAUNCH_SKILL: &'static str = "3";

/// Episode/map numbers extracted from a map marker name.
#[derive(Debug, Clone, Copy, PartialEq, Eq, Structural)]
pub enum MapSlot {
    Episodic { e: u32, m: u32 },
    Commercial { m: u32 },
}

/// An ASCII decimal digit.
pub open spec fn is_digit(b: u8) -> bool {
    48 <= b <= 57
}

/// The value of an ASCII decimal digit.
pub open spec fn digit_value(b: u8) -> u32 {
    (b - 48) as u32
}

/// The number two ASCII digits spell; `None` unless both bytes are digits.
pub open spec fn two_byte_number(c0: u8, c1: u8) -> Option<u32> {
    if is_digit(c0) && is_digit(c1) {
        Some((10 * digit_value(c0) + digit_value(c1)) as u32)
    } else {
        None
    }
}

/// The slot named by a map marker: `E#M#` with single digits, or `MAP` and two digits.
pub open spec fn map_slot_of(name: Seq<u8>) -> Option<MapSlot> {
    if name.len() == 4 && name[0] == 69 && name[2] == 77 {
        if is_digit(name[1]) && is_digit(name[3]) {
            Some(MapSlot::Episodic { e: digit_value(name[1]), m: digit_value(name[3]) })
        } else {
            None
        }
    } else if name.len() == 5 && name[0] == 77 && name[1] == 65 && name[2] == 80 {
        match two_byte_number(name[3], name[4]) {
            Some(m) => Some(MapSlot::Commercial { m }),
            None => None,
        }
    } else {
        None
    }
}

/// What the map-name parser accepts: exactly the four-byte names `E<digit>M<digit>`, giving the
/// episode and map those digits spell, and the five-byte names `MAP<digit><digit>`, giving the
/// two-digit map number (so at most 99); every other name names no slot.
pub proof fn lemma_map_slot_law(name: Seq<u8>)
    ensures
        map_slot_of(name) matches Some(MapSlot::Episodic { e, m }) ==> {
            &&& name.len() == 4 && name[0] == 69 && name[2] == 77
            &&& 48 <= name[1] <= 57 && 48 <= name[3] <= 57
            &&& e == name[1] - 48 && m == name[3] - 48
        },
        map_slot_of(name) matches Some(MapSlot::Commercial { m }) ==> {
            &&& name.len() == 5 && name[0] == 77 && name[1] == 65 && name[2] == 80
            &&& 48 <= name[3] <= 57 && 48 <= name[4] <= 57
            &&& m == 10 * (name[3] - 48) + (name[4] - 48)
            &&& m <= 99
        },
        (name.len() == 4 && name[0] == 69 && name[2] == 77 && 48 <= name[1] <= 57 && 48 <= name[3] <= 57)
            ==> map_slot_of(name) is Some,
        (name.len() == 5 && name[0] == 77 && name[1] == 65 && name[2] == 80 && 48 <= name[3] <= 57 && 48
            <= name[4] <= 57) ==> map_slot_of(name) is Some,
{
}

/// The digit an ASCII byte spells, if any.
fn byte_digit(b: u8) -> (d: Option<u32>)
    ensures
        d == (if is_digit(b) { Some(digit_value(b)) } else { None::<u32> }),
{
    if 48 <= b && b <= 57 {
        Some((b - 48) as u32)
    } else {
        None
    }
}

/// Parses `E#M#` or `MAP##`; anything else is `None`.
pub fn parse_map_name(name: &str) -> (slot: Option<MapSlot>)
    ensures
        slot == map_slot_of(name.spec_bytes()),
{
    let b: &[u8] = name.as_bytes();
    if b.len() == 4 && b[0] == 69 && b[2] == 77 {
        let e: u32 = match byte_digit(b[1]) {
            Some(d) => d,
            None => return None,
        };
        let m: u32 = match byte_digit(b[3]) {
            Some(d) => d,
            None => return None,
        };
        return Some(MapSlot::Episodic { e, m });
    }
    if b.len() == 5 && b[0] == 77 && b[1] == 65 && b[2] == 80 {
        let hi: u32 = match byte_digit(b[3]) {
            Some(d) => d,
            None => return None,
        };
        let lo: u32 = match byte_digit(b[4]) {
            Some(d) => d,
            None => return None,
        };
        let m: u32 = 10 * hi + lo;
        return Some(MapSlot::Commercial { m });
    }
    None
}

/// Why a launch cannot be planned.
#[derive(Debug)]
pub enum LaunchError {
    /// No thing of the launch type is on the map.
    NoLaunchThing { kind: i32 },
    /// The map marker is neither `E#M#` nor `MAP##`.
    BadMapName { name: String },
}

/// A checked launch: where to start the engine and where to put the launch thing.
#[derive(Debug)]
pub struct LaunchPlan {
    pub slot: MapSlot,
    pub map_name: String,
    pub launch_kind: i32,
    pub snapped_click: [i32; 2],
}

/// Index of the first thing of `kind`.
pub open spec fn first_of_kind(kinds: Seq<i32>, kind: i32, at: int) -> bool {
    &&& 0 <= at < kinds.len()
    &&& kinds[at] == kind
    &&& forall|j: int| 0 <= j < at ==> kinds[j] != kind
}

/// Position of the first thing of `kind` among the map's thing kinds.
pub fn launch_thing_index(kinds: &[i32], kind: i32) -> (at: Option<usize>)
    ensures
        match at {
            Some(i) => first_of_kind(kinds@, kind, i as int),
            None => !kinds@.contains(kind),
        },
{
    let mut i: usize = 0;
    while i < kinds.len()
        invariant
            i <= kinds@.len(),
            forall|j: int| 0 <= j < i ==> kinds@[j] != kind,
        decreases kinds@.len() - i,
    {
        if kinds[i] == kind {
            return Some(i);
        }
        i = i + 1;
    }
    None
}

/// Validates the map name, then confirms a thing of the launch type exists.
pub fn plan_launch(kinds: &[i32], map_name: &str, launch_type: i32, snapped_click: [i32; 2]) -> (plan:
    Result<LaunchPlan, LaunchError>)
    ensures
        map_slot_of(map_name.spec_bytes()) is None ==> (plan matches Err(
            LaunchError::BadMapName { name },
        ) && name@ == map_name@),
        map_slot_of(map_name.spec_bytes()) is Some && !kinds@.contains(launch_type) ==> (plan matches Err(
            LaunchError::NoLaunchThing { kind },
        ) && kind == launch_type),
        map_slot_of(map_name.spec_bytes()) is Some && kinds@.contains(launch_type) ==> (plan matches Ok(
            p,
        ) && Some(p.slot) == map_slot_of(map_name.spec_bytes()) && p.map_name@ == map_name@
            && p.launch_kind == launch_type && p.snapped_click == snapped_click),
{
    let slot: MapSlot = match parse_map_name(map_name) {
        Some(s) => s,
        None => {
            return Err(LaunchError::BadMapName { name: map_name.to_owned() });
        },
    };
    match launch_thing_index(kinds, launch_type) {
        Some(i) => {
            assert(kinds@[i as int] == launch_type);
        },
        None => {
            return Err(LaunchError::NoLaunchThing { kind: launch_type });
        },
    }
    Ok(LaunchPlan { slot, map_name: map_name.to_owned(), launch_kind: launch_type, snapped_click })
}

/// The decimal text of `n` (as `u32::to_string` writes it).
fn number_text(n: u32) -> (s: String)
    ensures
        s@ == decimal_text(n as int),
{
    digits_text(n as u64)
}

/// The engine's arguments: IWAD, the exported PWAD, the launch skill, then the map slot as
/// `-e E -m M` or `-m M`.
pub fn engine_args(iwad: &str, wad_path: &str, slot: MapSlot) -> (args: Vec<String>)
    ensures
        args@.len() == (if slot is Episodic { 10int } else { 8int }),
        args@[0]@ == "-i"@,
        args@[1]@ == iwad@,
        args@[2]@ == "-p"@,
        args@[3]@ == wad_path@,
        args@[4]@ == "-s"@,
        args@[5]@ == LAUNCH_SKILL@,
        match slot {
            MapSlot::Episodic { e, m } => {
                &&& args@[6]@ == "-e"@
                &&& args@[7]@ == decimal_text(e as int)
                &&& args@[8]@ == "-m"@
                &&& args@[9]@ == decimal_text(m as int)
            },
            MapSlot::Commercial { m } => {
                &&& args@[6]@ == "-m"@
                &&& args@[7]@ == decimal_text(m as int)
            },
        },
{
    let mut args: Vec<String> = Vec::new();
    args.push("-i".to_owned());
    args.push(iwad.to_owned());
    args.push("-p".to_owned());
    args.push(wad_path.to_owned());
    args.push("-s".to_owned());
    args.push(LAUNCH_SKILL.to_owned());
    match slot {
        MapSlot::Episodic { e, m } => {
            args.push("-e".to_owned());
            args.push(number_text(e));
            args.push("-m".to_owned());
            args.push(number_text(m));
        },
        MapSlot::Commercial { m } => {
            args.push("-m".to_owned());
            args.push(number_text(m));
        },
    }
    args
}

/// Why a play-test launch does not start.
#[derive(Debug, Clone, Copy, PartialEq, Eq, Structural)]
pub enum LaunchBlocked {
    /// An export, build or launch job is still running.
    JobRunning,
    /// The engine started by the previous launch has not exited.
    PreviousLaunchRunning,
    /// No IWAD is known to pass to the engine.
    NoIwad,
    /// No map is open.
    NoMap,
}

/// The first reason, in this order, that keeps a launch from starting: a running job, a
/// still-running engine, no IWAD, no open map. `None`: go ahead.
pub fn launch_blocked(job_busy: bool, previous_running: bool, has_iwad: bool, has_map: bool) -> (blocked:
    Option<LaunchBlocked>)
    ensures
        blocked == (if job_busy {
            Some(LaunchBlocked::JobRunning)
        } else if previous_running {
            Some(LaunchBlocked::PreviousLaunchRunning)
        } else if !has_iwad {
            Some(LaunchBlocked::NoIwad)
        } else if !has_map {
            Some(LaunchBlocked::NoMap)
        } else {
            None
        }),
{
    if job_busy {
        Some(LaunchBlocked::JobRunning)
    } else if previous_running {
        Some(LaunchBlocked::PreviousLaunchRunning)
    } else if !has_iwad {
        Some(LaunchBlocked::NoIwad)
    } else if !has_map {
        Some(LaunchBlocked::NoMap)
    } else {
        None
    }
}

} // verus!

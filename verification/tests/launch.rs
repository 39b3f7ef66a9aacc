use doomed_editor::launch::{
    engine_args, launch_blocked, launch_thing_index, parse_map_name, plan_launch, LaunchBlocked, LaunchError, MapSlot,
};

#[test]
fn map_names_parse() {
    assert_eq!(parse_map_name("E1M1"), Some(MapSlot::Episodic { e: 1, m: 1 }));
    assert_eq!(parse_map_name("E4M9"), Some(MapSlot::Episodic { e: 4, m: 9 }));
    assert_eq!(parse_map_name("MAP01"), Some(MapSlot::Commercial { m: 1 }));
    assert_eq!(parse_map_name("MAP32"), Some(MapSlot::Commercial { m: 32 }));
    assert_eq!(parse_map_name("FOO"), None);
    assert_eq!(parse_map_name("EXMX"), None);
}

#[test]
fn map_name_edge_cases_need_two_digits() {
    assert_eq!(parse_map_name("MAP+7"), None);
    assert_eq!(parse_map_name("MAP+1"), None);
    assert_eq!(parse_map_name("MAP-7"), None);
    assert_eq!(parse_map_name("MAP 7"), None);
    assert_eq!(parse_map_name("MAP1"), None);
    assert_eq!(parse_map_name("E1M10"), None);
    assert_eq!(parse_map_name("e1m1"), None);
    assert_eq!(parse_map_name("MAPé"), None);
}

#[test]
fn plan_checks_name_then_thing() {
    match plan_launch(&[3001, 1], "E1M1", 1, [64, -32]) {
        Ok(plan) => {
            assert_eq!(plan.slot, MapSlot::Episodic { e: 1, m: 1 });
            assert_eq!(plan.map_name, "E1M1");
            assert_eq!(plan.launch_kind, 1);
            assert_eq!(plan.snapped_click, [64, -32]);
        }
        Err(e) => panic!("unexpected {e:?}"),
    }
    match plan_launch(&[3001], "E1M1", 1, [0, 0]) {
        Err(LaunchError::NoLaunchThing { kind }) => assert_eq!(kind, 1),
        other => panic!("unexpected {other:?}"),
    }
    match plan_launch(&[1], "START", 1, [0, 0]) {
        Err(LaunchError::BadMapName { name }) => assert_eq!(name, "START"),
        other => panic!("unexpected {other:?}"),
    }
}

#[test]
fn launch_thing_index_is_first_match() {
    assert_eq!(launch_thing_index(&[5, 1, 1], 1), Some(1));
    assert_eq!(launch_thing_index(&[5], 1), None);
}

#[test]
fn engine_args_by_slot() {
    let args = engine_args("doom.wad", "/tmp/x.wad", MapSlot::Episodic { e: 2, m: 7 });
    assert_eq!(args, ["-i", "doom.wad", "-p", "/tmp/x.wad", "-s", "3", "-e", "2", "-m", "7"]);
    let args = engine_args("doom2.wad", "l.wad", MapSlot::Commercial { m: 12 });
    assert_eq!(args, ["-i", "doom2.wad", "-p", "l.wad", "-s", "3", "-m", "12"]);
}

#[test]
fn launch_blocked_reasons_in_order() {
    assert_eq!(launch_blocked(true, true, false, false), Some(LaunchBlocked::JobRunning));
    assert_eq!(launch_blocked(false, true, false, false), Some(LaunchBlocked::PreviousLaunchRunning));
    assert_eq!(launch_blocked(false, false, false, true), Some(LaunchBlocked::NoIwad));
    assert_eq!(launch_blocked(false, false, true, false), Some(LaunchBlocked::NoMap));
    assert_eq!(launch_blocked(false, false, true, true), None);
}

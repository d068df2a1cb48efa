use std::collections::HashMap;
use tacview_stats::models::{GameState, PartialPlayerInfo, PlayerInfo, Position, WeaponCounts};
use tacview_stats::processing::{
    contains_any, increment_weapon_counter, is_zipped_recording, pilot_whitelist, LineAction,
    LineFault,
};

fn s(x: &str) -> String {
    x.to_string()
}

fn apply(st: &mut GameState, line: &str) -> Result<LineAction, LineFault> {
    st.process_line(line, &pilot_whitelist())
}

fn continues(r: Result<LineAction, LineFault>) {
    match r {
        Ok(LineAction::Continue) => {}
        Ok(LineAction::CheckLaunch(l)) => panic!("unexpected launch of {}", l.weapon),
        Err(f) => panic!("unexpected fault {f:?}"),
    }
}

fn fault(r: Result<LineAction, LineFault>) -> LineFault {
    match r {
        Err(f) => f,
        Ok(_) => panic!("expected a fault"),
    }
}

fn pos(st: &GameState, id: i32) -> (String, String, String) {
    let p = st.positions.get(&id).unwrap();
    (p.lat.clone(), p.long.clone(), p.alt.clone())
}

const OUR_PILOT: &str = "102,T=4.1|5.2|1000|0|0|0,Type=Air+FixedWing,Name=F-16C,Pilot=nima3333,Group=A";
const OTHER_PILOT: &str = "103,T=-1.5|2|300|0|0|0,Type=Air+FixedWing,Name=Su-27,Pilot=bob";

#[test]
fn whitelist_holds_the_one_name() {
    assert_eq!(pilot_whitelist(), vec![s("nima3333")]);
}

#[test]
fn contains_any_checks_substrings() {
    let list = vec![s("nima"), s("333")];
    assert!(contains_any(&s("[X] nima3333"), &list));
    assert!(contains_any(&s("x333"), &list));
    assert!(!contains_any(&s("bob"), &list));
    assert!(!contains_any(&s("nima"), &vec![]));
}

#[test]
fn new_state_starts_at_time_zero_with_nobody() {
    let st = GameState::new();
    assert_eq!(st.current_time, "0");
    assert!(st.players.is_empty() && st.positions.is_empty());
    assert!(st.partial_players.is_empty() && st.weapon_stats.is_empty());
}

#[test]
fn whitelisted_pilot_is_tracked_at_the_current_time() {
    let mut st = GameState::new();
    continues(apply(&mut st, "#12.5"));
    continues(apply(&mut st, OUR_PILOT));
    let p = st.players.get(&0x102).unwrap();
    assert_eq!((p.name.as_str(), p.vehicle.as_str()), ("nima3333", "F-16C"));
    assert_eq!(p.creation_time, "12.5");
    assert_eq!(p.deletion_time, None);
    assert_eq!(pos(&st, 0x102), (s("4.1"), s("5.2"), s("1000")));
    assert!(st.partial_players.is_empty());
}

#[test]
fn other_pilot_is_only_remembered() {
    let mut st = GameState::new();
    continues(apply(&mut st, OTHER_PILOT));
    assert!(st.players.is_empty());
    let p = st.partial_players.get(&0x103).unwrap();
    assert_eq!((p.name.as_str(), p.vehicle.as_str()), ("bob", "Su-27"));
}

#[test]
fn head_tracking_promotes_a_remembered_pilot_to_the_origin() {
    let mut st = GameState::new();
    continues(apply(&mut st, OTHER_PILOT));
    continues(apply(&mut st, "#3"));
    continues(apply(&mut st, "103,PilotHeadRoll=1.5"));
    let p = st.players.get(&0x103).unwrap();
    assert_eq!((p.name.as_str(), p.creation_time.as_str()), ("bob", "3"));
    assert_eq!(pos(&st, 0x103), (s("0"), s("0"), s("0")));
    continues(apply(&mut st, "#4"));
    continues(apply(&mut st, "103,PilotHeadRoll=1.5"));
    assert_eq!(st.players.get(&0x103).unwrap().creation_time, "3");
}

#[test]
fn head_tracking_for_an_unknown_object_is_a_fault() {
    let mut st = GameState::new();
    assert_eq!(fault(apply(&mut st, "5,PilotHeadPitch=1")), LineFault::UnknownPilot);
    assert!(st.players.is_empty());
}

#[test]
fn telemetry_keeps_the_fields_it_leaves_empty() {
    let mut st = GameState::new();
    continues(apply(&mut st, OUR_PILOT));
    continues(apply(&mut st, "102,T=|6.5|"));
    assert_eq!(pos(&st, 0x102), (s("4.1"), s("6.5"), s("1000")));
    continues(apply(&mut st, "102,T=7||12.25|1|2"));
    assert_eq!(pos(&st, 0x102), (s("7"), s("6.5"), s("12.25")));
}

#[test]
fn telemetry_for_other_objects_changes_nothing() {
    let mut st = GameState::new();
    continues(apply(&mut st, OUR_PILOT));
    continues(apply(&mut st, "0102,T=1|2|3"));
    continues(apply(&mut st, "104,T=1|2|3"));
    continues(apply(&mut st, "102,T=-1|2|3"));
    assert_eq!(pos(&st, 0x102), (s("4.1"), s("5.2"), s("1000")));
}

#[test]
fn bad_telemetry_coordinates_are_faults_that_change_nothing() {
    let mut st = GameState::new();
    continues(apply(&mut st, OUR_PILOT));
    assert_eq!(fault(apply(&mut st, "102,T=1.2.3|2|3")), LineFault::InvalidLatitude);
    assert_eq!(fault(apply(&mut st, "102,T=1|.|3")), LineFault::InvalidLongitude);
    assert_eq!(fault(apply(&mut st, "102,T=1|2|3..")), LineFault::InvalidAltitude);
    assert_eq!(pos(&st, 0x102), (s("4.1"), s("5.2"), s("1000")));
}

#[test]
fn telemetry_before_anybody_is_tracked_with_an_empty_id_is_a_fault() {
    let mut st = GameState::new();
    assert_eq!(fault(apply(&mut st, ",T=1|2|3")), LineFault::InvalidTrackedId);
}

#[test]
fn telemetry_for_a_negative_id_does_not_read_back() {
    let mut st = GameState::new();
    st.add_player(-1, s("n"), s("v"), Position::new(s("1"), s("2"), s("3")));
    assert_eq!(fault(apply(&mut st, "ffffffff,T=1|2|3")), LineFault::InvalidTrackedId);
    assert_eq!(pos(&st, -1), (s("1"), s("2"), s("3")));
}

#[test]
fn weapon_creation_asks_for_a_proximity_check() {
    let mut st = GameState::new();
    continues(apply(&mut st, "a01,T=4.1|5.2|900|0,Type=Weapon+Missile,Name=AIM-120C"));
    continues(apply(&mut st, "a01,T=x|5.2|900|0,Type=Weapon+Missile,Name=AIM-120C"));
    continues(apply(&mut st, OUR_PILOT));
    match apply(&mut st, "a01,T=4.1|5.2|900|0,Type=Weapon+Missile,Name=AIM-120C") {
        Ok(LineAction::CheckLaunch(l)) => {
            assert_eq!((l.weapon.as_str(), l.lat.as_str(), l.long.as_str()), ("AIM-120C", "4.1", "5.2"));
        }
        _ => panic!("expected a launch"),
    }
    assert_eq!(
        fault(apply(&mut st, "a01,T=4.1.1|5.2|900|0,Type=Weapon,Name=AIM-9")),
        LineFault::InvalidLatitude
    );
    assert_eq!(
        fault(apply(&mut st, "a01,T=4.1|5-2|900|0,Type=Weapon,Name=AIM-9")),
        LineFault::InvalidLongitude
    );
}

#[test]
fn pilot_line_faults() {
    let mut st = GameState::new();
    assert_eq!(
        fault(apply(&mut st, "fffffffff,T=1|2|3|4,Type=A,Name=B,Pilot=nima3333")),
        LineFault::InvalidId
    );
    assert_eq!(fault(apply(&mut st, "1,T=1-|2|3|4,Type=A,Name=B,Pilot=bob")), LineFault::InvalidLatitude);
    assert_eq!(fault(apply(&mut st, "1,T=1|--|3|4,Type=A,Name=B,Pilot=bob")), LineFault::InvalidLongitude);
    assert_eq!(fault(apply(&mut st, "1,T=1|2|.|4,Type=A,Name=B,Pilot=bob")), LineFault::InvalidAltitude);
    assert!(st.players.is_empty() && st.partial_players.is_empty());
    continues(apply(&mut st, "1,T=1|2|3,Type=A,Name=B,Pilot=nima3333"));
    assert!(st.players.is_empty());
}

#[test]
fn time_marks_must_be_numbers() {
    let mut st = GameState::new();
    continues(apply(&mut st, "#1e3"));
    assert_eq!(st.current_time, "1e3");
    assert_eq!(fault(apply(&mut st, "#abc")), LineFault::InvalidTime);
    assert_eq!(fault(apply(&mut st, "#")), LineFault::InvalidTime);
    assert_eq!(st.current_time, "1e3");
}

#[test]
fn removal_marks_a_tracked_pilot_and_ignores_the_rest() {
    let mut st = GameState::new();
    continues(apply(&mut st, OUR_PILOT));
    continues(apply(&mut st, "#40"));
    continues(apply(&mut st, "-zz"));
    continues(apply(&mut st, "-"));
    continues(apply(&mut st, "-105"));
    assert_eq!(st.players.get(&0x102).unwrap().deletion_time, None);
    continues(apply(&mut st, "-102"));
    assert_eq!(st.players.get(&0x102).unwrap().deletion_time, Some(s("40")));
}

#[test]
fn other_lines_change_nothing() {
    let mut st = GameState::new();
    continues(apply(&mut st, "FileType=text/acmi/tacview"));
    continues(apply(&mut st, "0,ReferenceTime=2024-01-01T00:00:00Z"));
    continues(apply(&mut st, ""));
    assert_eq!(st.current_time, "0");
    assert!(st.players.is_empty() && st.partial_players.is_empty());
}

#[test]
fn finish_closes_every_open_pilot_at_the_last_time() {
    let mut st = GameState::new();
    continues(apply(&mut st, OUR_PILOT));
    continues(apply(&mut st, OTHER_PILOT));
    continues(apply(&mut st, "103,PilotHeadYaw=2"));
    continues(apply(&mut st, "#7.5"));
    continues(apply(&mut st, "-102"));
    continues(apply(&mut st, "#9"));
    let result = st.finish(&vec![]);
    assert_eq!(result.players.len(), 2);
    assert_eq!(result.players.get(&0x102).unwrap().deletion_time, Some(s("7.5")));
    assert_eq!(result.players.get(&0x103).unwrap().deletion_time, Some(s("9")));
    assert!(result.weapon_stats.is_empty());
}

#[test]
fn weapon_counter_counts_each_launch() {
    let mut map: HashMap<i32, WeaponCounts> = HashMap::new();
    increment_weapon_counter(&mut map, 1, "AIM-9");
    increment_weapon_counter(&mut map, 1, "AIM-9");
    increment_weapon_counter(&mut map, 1, "GBU-12");
    increment_weapon_counter(&mut map, 2, "AIM-9");
    assert_eq!(map.get(&1).unwrap().get("AIM-9"), Some(2));
    assert_eq!(map.get(&1).unwrap().get("GBU-12"), Some(1));
    assert_eq!(map.get(&1).unwrap().get("Mk-82"), None);
    assert_eq!(map.get(&2).unwrap().get("AIM-9"), Some(1));
    assert_eq!(map.get(&1).unwrap().entries().len(), 2);
}

#[test]
fn weapon_counts_start_empty_and_increment() {
    let mut w = WeaponCounts::new();
    assert!(w.entries().is_empty());
    w.increment("a");
    w.increment("b");
    w.increment("a");
    let mut e: Vec<(String, i32)> = w.entries().clone();
    e.sort();
    assert_eq!(e, vec![(s("a"), 2), (s("b"), 1)]);
}

#[test]
fn models_hold_what_they_are_given() {
    let mut p = PlayerInfo::new(s("n"), s("F-16C"), s("1.5"));
    assert_eq!(p.deletion_time, None);
    assert_eq!(p.time_in_game, None);
    p.mark_deleted(s("9"));
    assert_eq!((p.name.as_str(), p.vehicle.as_str(), p.creation_time.as_str()), ("n", "F-16C", "1.5"));
    assert_eq!(p.deletion_time, Some(s("9")));
    let q = PartialPlayerInfo::new(s("bob"), s("Su-27"));
    assert_eq!((q.name.as_str(), q.vehicle.as_str()), ("bob", "Su-27"));
    let mut r = Position::new(s("1"), s("2"), s("3"));
    r.update(s("4"), s("5"), s("6"));
    assert_eq!((r.lat.as_str(), r.long.as_str(), r.alt.as_str()), ("4", "5", "6"));
    let mut st = GameState::new();
    st.add_world_player(7, s("x"), s("y"));
    assert_eq!(st.partial_players.get(&7).unwrap().name, "x");
}

#[test]
fn finish_treats_negative_leaving_times_as_unset() {
    let mut st = GameState::new();
    continues(apply(&mut st, OUR_PILOT));
    continues(apply(&mut st, OTHER_PILOT));
    continues(apply(&mut st, "103,PilotHeadYaw=2"));
    continues(apply(&mut st, "#-5"));
    continues(apply(&mut st, "-102"));
    continues(apply(&mut st, "-103"));
    continues(apply(&mut st, "#20"));
    assert_eq!(st.players.get(&0x102).unwrap().deletion_time, Some(s("-5")));
    let result = st.finish(&vec![0x102]);
    assert_eq!(result.players.get(&0x102).unwrap().deletion_time, Some(s("20")));
    assert_eq!(result.players.get(&0x103).unwrap().deletion_time, Some(s("-5")));
}

#[test]
fn launch_credit_goes_only_to_tracked_pilots_once() {
    let mut st = GameState::new();
    continues(apply(&mut st, OUR_PILOT));
    continues(apply(&mut st, OTHER_PILOT));
    st.credit_launch("AIM-120C", &vec![0x102, 0x103, 0x999, 0x102]);
    assert_eq!(st.weapon_stats.len(), 1);
    assert_eq!(st.weapon_stats.get(&0x102).unwrap().get("AIM-120C"), Some(1));
    st.credit_launch("AIM-120C", &vec![0x102]);
    st.credit_launch("AIM-9", &vec![]);
    assert_eq!(st.weapon_stats.get(&0x102).unwrap().get("AIM-120C"), Some(2));
    assert_eq!(st.weapon_stats.get(&0x102).unwrap().get("AIM-9"), None);
    let result = st.finish(&vec![]);
    assert!(result.weapon_stats.keys().all(|id| result.players.contains_key(id)));
}

#[test]
fn counts_do_not_depend_on_call_order() {
    let calls = [(1, "a"), (2, "a"), (1, "b"), (1, "a"), (2, "a"), (1, "a")];
    let mut forward: HashMap<i32, WeaponCounts> = HashMap::new();
    let mut backward: HashMap<i32, WeaponCounts> = HashMap::new();
    for (id, w) in calls {
        increment_weapon_counter(&mut forward, id, w);
    }
    for (id, w) in calls.iter().rev() {
        increment_weapon_counter(&mut backward, *id, w);
    }
    for (id, w) in [(1, "a"), (1, "b"), (2, "a"), (2, "b")] {
        let expected = calls.iter().filter(|c| **c == (id, w)).count() as i32;
        let f = forward.get(&id).and_then(|m| m.get(w)).unwrap_or(0);
        let b = backward.get(&id).and_then(|m| m.get(w)).unwrap_or(0);
        assert_eq!((f, b), (expected, expected), "{id} {w}");
    }
}

#[test]
fn whole_reading_gives_each_pilot_its_times() {
    let input = "#0\n10,T=1|2|3|4|5,Type=Air,Name=F-16,Pilot=nima3333\n#50\n11,T=4|5|6|7|8,Type=Air,Name=Su-27,Pilot=xnima3333\n#100\n-10\n#200\n";
    let mut st = GameState::new();
    for line in input.lines() {
        continues(apply(&mut st, line));
    }
    let result = st.finish(&vec![]);
    assert!(result.weapon_stats.is_empty());
    assert_eq!(result.players.len(), 2);
    let a = result.players.get(&16).unwrap();
    assert_eq!((a.name.as_str(), a.vehicle.as_str(), a.creation_time.as_str()), ("nima3333", "F-16", "0"));
    assert_eq!((a.deletion_time.clone(), a.time_in_game.clone()), (Some(s("100")), None));
    let b = result.players.get(&17).unwrap();
    assert_eq!((b.name.as_str(), b.vehicle.as_str(), b.creation_time.as_str()), ("xnima3333", "Su-27", "50"));
    assert_eq!((b.deletion_time.clone(), b.time_in_game.clone()), (Some(s("200")), None));
}

#[test]
fn zipped_recordings_are_named_by_their_suffix() {
    assert!(is_zipped_recording("C:/x/flight.zip.acmi"));
    assert!(is_zipped_recording(".zip.acmi"));
    assert!(!is_zipped_recording("flight.acmi"));
    assert!(!is_zipped_recording("flight.zip"));
    assert!(!is_zipped_recording("zip.acmi"));
}

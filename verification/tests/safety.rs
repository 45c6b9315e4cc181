use datssol_bot::config::Config;
use datssol_bot::model::memory::Memory;
use datssol_bot::model::params::params_fit_check;
use datssol_bot::model::state::{
    Beaver, Cell, Construction, GameState, MeteoForecast, Plantation, Pos, UpgradeTier, UpgradesState,
};
use datssol_bot::model::DerivedParams;
use datssol_bot::planner::tasks::Phase;
use datssol_bot::predict::damage::{lethal_fits_check, predict_hp_fits_check};
use datssol_bot::predict::limit::limit_fits_check;
use datssol_bot::predict::storm::{storm_fits_check, storms_fit_check};
use datssol_bot::predict::{analyze_limit, safe_to_start_new_build, LimitAnalysis};
use datssol_bot::tactics::beaver::beaver_fits_check;
use datssol_bot::tactics::building::{active_constructions, new_build_quota};
use datssol_bot::tactics::cell_value::features_fit_check;
use datssol_bot::tactics::main_safety::relocate_fits_check;
use datssol_bot::tactics::repair::repair_fits_check;
use datssol_bot::tactics::upgrades::upgrades_fit_check;
use datssol_bot::tactics::{
    can_reach_via_any_relay, choose_relay, plan_relocate_main, repair_needs,
};
use datssol_bot::model::store::PosMap;

fn plant(id: &str, x: i32, y: i32, hp: i32, is_main: bool) -> Plantation {
    Plantation {
        id: id.into(),
        pos: Pos::new(x, y),
        hp,
        is_main,
        is_isolated: false,
        immunity_until_turn: 0,
    }
}

fn state(plants: Vec<Plantation>) -> GameState {
    GameState {
        turn_no: 100,
        map_size: (100, 100),
        action_range: 2,
        plantations: plants,
        enemies: vec![],
        mountains: vec![],
        cells: vec![],
        construction: vec![],
        beavers: vec![],
        upgrades: UpgradesState::default(),
        meteo: vec![],
    }
}

#[test]
fn main_moves_off_a_cell_about_to_complete() {
    let mut s = state(vec![plant("m", 10, 11, 50, true), plant("n", 11, 11, 40, false)]);
    s.cells.push(Cell { pos: Pos::new(10, 11), terraformation_progress: 90, turns_until_degradation: None });
    let params = DerivedParams::from_state(&s);
    let cfg = Config::default_embedded();
    let memory = Memory::default();
    assert!(relocate_fits_check(&s, &params, &cfg));
    let r = plan_relocate_main(&s, &memory, &params, &cfg);
    assert_eq!(r, Some(vec![Pos::new(10, 11), Pos::new(11, 11)]));
}

#[test]
fn main_stays_without_threat_or_candidate() {
    let cfg = Config::default_embedded();
    let memory = Memory::default();
    // no threat
    let s = state(vec![plant("m", 10, 11, 50, true), plant("n", 11, 11, 40, false)]);
    let params = DerivedParams::from_state(&s);
    assert_eq!(plan_relocate_main(&s, &memory, &params, &cfg), None);
    // threat, but the only neighbour is too weak (below half the max hp)
    let mut s = state(vec![plant("m", 10, 11, 50, true), plant("n", 11, 11, 20, false)]);
    s.cells.push(Cell { pos: Pos::new(10, 11), terraformation_progress: 95, turns_until_degradation: None });
    let params = DerivedParams::from_state(&s);
    assert_eq!(plan_relocate_main(&s, &memory, &params, &cfg), None);
}

#[test]
fn main_moves_to_the_healthiest_side_neighbour() {
    let mut s = state(vec![
        plant("m", 10, 11, 10, true),
        plant("a", 9, 11, 30, false),
        plant("b", 10, 12, 45, false),
        plant("c", 11, 12, 50, false), // diagonal: not a candidate
    ]);
    s.beavers.push(Beaver { id: "bv".into(), pos: Pos::new(12, 11), hp: 100 });
    // the main's cell finishes in 20 turns; the candidates' cells are unknown
    s.cells.push(Cell { pos: Pos::new(10, 11), terraformation_progress: 0, turns_until_degradation: None });
    let params = DerivedParams::from_state(&s);
    let cfg = Config::default_embedded();
    let memory = Memory::default();
    // the lair takes the main to 10 - 15 < 0: a threat to its hp
    let r = plan_relocate_main(&s, &memory, &params, &cfg);
    assert_eq!(r, Some(vec![Pos::new(10, 11), Pos::new(10, 12)]));
}

#[test]
fn limit_analysis_counts_our_constructions() {
    let mut s = state(vec![plant("m", 10, 10, 50, true), plant("a", 11, 10, 50, false)]);
    s.construction.push(Construction { pos: Pos::new(12, 10), progress: 10 });
    s.construction.push(Construction { pos: Pos::new(30, 30), progress: 10 });
    let mut memory = Memory::default();
    memory.update(&s);
    memory.our_construction_ever.insert(Pos::new(12, 10));
    let params = DerivedParams::from_state(&s);
    assert!(limit_fits_check(&s, &memory, &params));
    let la = analyze_limit(&s, &memory, &params);
    assert_eq!(la.current_count, 2);
    assert_eq!(la.our_constructions, 1);
    assert_eq!(la.projected, 3);
    assert_eq!(la.limit, 30);
    assert_eq!(la.slack, 27);
    assert!(la.oldest_is_main);
    assert!(safe_to_start_new_build(&la));
    // the construction we started is kept while it survives the turn
    assert_eq!(active_constructions(&s, &memory, &params), vec![0]);
}

#[test]
fn build_quota_at_the_limit() {
    let at_limit = LimitAnalysis {
        current_count: 30,
        our_constructions: 0,
        projected: 30,
        limit: 30,
        slack: 0,
        oldest_is_main: true,
    };
    assert!(!safe_to_start_new_build(&at_limit));
    assert_eq!(new_build_quota(&at_limit, 4, 10), 0);
    let near = LimitAnalysis { projected: 28, slack: 2, ..at_limit };
    assert!(safe_to_start_new_build(&near));
    assert_eq!(new_build_quota(&near, 4, 10), 2);
    assert_eq!(new_build_quota(&near, 1, 10), 1);
    let other_oldest = LimitAnalysis { oldest_is_main: false, ..at_limit };
    assert!(safe_to_start_new_build(&other_oldest));
    assert_eq!(new_build_quota(&other_oldest, 4, 3), 3);
    let over = LimitAnalysis { projected: 31, slack: -1, oldest_is_main: false, ..at_limit };
    assert!(!safe_to_start_new_build(&over));
}

#[test]
fn repair_needs_critical_and_maintenance() {
    let mut s = state(vec![
        plant("low", 10, 10, 10, true),
        plant("mid", 11, 10, 30, false),
        plant("ok", 12, 10, 50, false),
    ]);
    s.plantations.push(Plantation { is_isolated: true, ..plant("iso", 40, 40, 5, false) });
    let params = DerivedParams::from_state(&s);
    assert!(repair_fits_check(&s, &params));
    let needs = repair_needs(&s, &params);
    assert_eq!(needs.len(), 2);
    assert_eq!(needs[0].target_id, "low");
    assert!(needs[0].critical);
    assert_eq!(needs[0].missing, 40);
    assert_eq!(needs[1].target_id, "mid");
    assert!(!needs[1].critical);
    assert_eq!(needs[1].missing, 20);
}

#[test]
fn relay_through_a_neighbour() {
    let s = state(vec![plant("a", 10, 10, 50, true), plant("r", 13, 10, 50, false)]);
    let params = DerivedParams::from_state(&s);
    let usage: PosMap<u32> = PosMap::new();
    // (15, 10) is out of a's action range but in r's
    let c = choose_relay(&s.plantations[0], Pos::new(15, 10), params.cs, &s, &params, &usage).unwrap();
    assert_eq!(c.relay_pos, Pos::new(13, 10));
    assert_eq!(c.expected_effect, params.cs);
    assert!(can_reach_via_any_relay(&s.plantations[0], Pos::new(15, 10), &s, &params));
    assert!(!can_reach_via_any_relay(&s.plantations[0], Pos::new(20, 10), &s, &params));
    let mut used = PosMap::new();
    used.insert(Pos::new(13, 10), 2u32);
    let c = choose_relay(&s.plantations[0], Pos::new(15, 10), params.cs, &s, &params, &used).unwrap();
    assert_eq!(c.expected_effect, params.cs - 2);
    used.insert(Pos::new(13, 10), 5u32);
    assert!(choose_relay(&s.plantations[0], Pos::new(15, 10), params.cs, &s, &params, &used).is_none());
}

#[test]
fn derived_params_from_tiers() {
    let mut s = state(vec![]);
    s.upgrades.tiers = vec![
        UpgradeTier { name: "max_hp".into(), current: 2, max: 5 },
        UpgradeTier { name: "decay_mitigation".into(), current: 6, max: 6 },
        UpgradeTier { name: "beaver_damage_mitigation".into(), current: 9, max: 9 },
    ];
    s.action_range = 0;
    assert!(params_fit_check(&s.upgrades.tiers));
    let p = DerivedParams::from_state(&s);
    assert_eq!(p.mhp, 70);
    assert_eq!(p.ds, 1);
    assert_eq!(p.beaver_dmg, 0);
    assert_eq!(p.earthquake_dmg, 10);
    assert_eq!(p.ar, 1);
    assert_eq!(p.limit, 30);
    assert_eq!(p.sr, 3);
    s.upgrades.tiers[0].current = i32::MAX;
    assert!(!params_fit_check(&s.upgrades.tiers));
}

#[test]
fn phases_by_turn() {
    let cfg = Config::default_embedded();
    assert_eq!(Phase::from_turn(0, &cfg), Phase::Early);
    assert_eq!(Phase::from_turn(49, &cfg), Phase::Early);
    assert_eq!(Phase::from_turn(50, &cfg), Phase::Growth);
    assert_eq!(Phase::from_turn(200, &cfg), Phase::Harvest);
    assert_eq!(Phase::from_turn(499, &cfg), Phase::Harvest);
    assert_eq!(Phase::from_turn(500, &cfg), Phase::Endgame);
}

fn storm(pos: Pos, next: Pos) -> MeteoForecast {
    MeteoForecast {
        kind: "sandstorm".into(),
        turns_until: None,
        id: Some("s".into()),
        forming: Some(false),
        position: Some(pos),
        next_position: Some(next),
        radius: Some(2),
    }
}

#[test]
fn range_checks_accept_game_values_and_refuse_overflow() {
    let mut s = state(vec![plant("m", 10, 10, 50, true)]);
    s.meteo.push(storm(Pos::new(10, 10), Pos::new(12, 10)));
    s.beavers.push(Beaver { id: "b".into(), pos: Pos::new(11, 11), hp: 100 });
    let params = DerivedParams::from_state(&s);
    let cfg = Config::default_embedded();
    let memory = Memory::default();
    assert!(storms_fit_check(&s.meteo, 5));
    assert!(features_fit_check(Pos::new(10, 10), &s));
    assert!(!features_fit_check(Pos::new(i32::MAX, 0), &s));
    assert!(predict_hp_fits_check(&s.plantations[0], &s, &params));
    assert!(lethal_fits_check(Pos::new(10, 10), &s, &params));
    assert!(beaver_fits_check(&s.beavers[0], &s, &params, &cfg));
    assert!(upgrades_fit_check(&s));
    assert!(limit_fits_check(&s, &memory, &params));
    // a storm racing across the whole coordinate range
    let fast = storm(Pos::new(0, 0), Pos::new(1_000_000_000, 0));
    assert!(storm_fits_check(&fast, 2));
    assert!(!storm_fits_check(&fast, 3));
    // forming storms are never extrapolated
    let forming = MeteoForecast { forming: Some(true), ..fast.clone() };
    assert!(storm_fits_check(&forming, 5));
    let mut bad_cfg = Config::default_embedded();
    bad_cfg.safety.main_critical_hp_fraction.den = 0;
    assert!(!relocate_fits_check(&s, &params, &bad_cfg));
    assert!(relocate_fits_check(&s, &params, &cfg));
}

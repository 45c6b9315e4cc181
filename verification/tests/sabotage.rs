use datssol_bot::config::Config;
use datssol_bot::model::memory::Memory;
use datssol_bot::model::state::{EnemyPlantation, GameState, Plantation, Pos, UpgradesState};
use datssol_bot::model::DerivedParams;
use datssol_bot::planner::tasks::Phase;
use datssol_bot::tactics::sabotage::{allowed, sabotage_effort};
use datssol_bot::tactics::sabotage_targets;

fn plant_main(x: i32, y: i32) -> Plantation {
    Plantation {
        id: "m".into(),
        pos: Pos::new(x, y),
        hp: 50,
        is_main: true,
        is_isolated: false,
        immunity_until_turn: 0,
    }
}

fn state_with_enemy(turn: u32, enemy: EnemyPlantation) -> GameState {
    GameState {
        turn_no: turn,
        map_size: (100, 100),
        action_range: 2,
        plantations: vec![plant_main(50, 50)],
        enemies: vec![enemy],
        mountains: vec![],
        cells: vec![],
        construction: vec![],
        beavers: vec![],
        upgrades: UpgradesState::default(),
        meteo: vec![],
    }
}

#[test]
fn early_phase_no_sabotage() {
    let e = EnemyPlantation {
        id: "e".into(),
        pos: Pos::new(51, 50),
        hp: 30,
    };
    let state = state_with_enemy(10, e);
    let mut memory = Memory::default();
    memory.update(&state); // mark enemy as seen
    let params = DerivedParams::from_state(&state);
    let cfg = Config::default_embedded();
    assert!(sabotage_targets(&state, &memory, &params, &cfg, Phase::Early).is_empty());
}

#[test]
fn harvest_phase_generates_task() {
    // An enemy below full hp was hit before: no immunity heuristic.
    let e = EnemyPlantation {
        id: "e".into(),
        pos: Pos::new(51, 50),
        hp: 30,
    };
    let state = state_with_enemy(300, e);
    let mut memory = Memory::default();
    memory.update(&state);
    memory.update(&state); // second observation: the enemy is no longer fresh
    let params = DerivedParams::from_state(&state);
    let cfg = Config::default_embedded();
    let tasks = sabotage_targets(&state, &memory, &params, &cfg, Phase::Harvest);
    assert_eq!(tasks.len(), 1, "should generate a sabotage task in Harvest");
}

#[test]
fn fresh_enemy_with_full_hp_skipped() {
    let e = EnemyPlantation {
        id: "e".into(),
        pos: Pos::new(51, 50),
        hp: 50,
    };
    let state = state_with_enemy(300, e);
    let memory = Memory::default(); // never seen
    let params = DerivedParams::from_state(&state);
    let cfg = Config::default_embedded();
    assert!(
        sabotage_targets(&state, &memory, &params, &cfg, Phase::Harvest).is_empty(),
        "fresh enemy at full HP must be skipped as possibly immune"
    );
}

#[test]
fn out_of_range_enemy_skipped() {
    let e = EnemyPlantation {
        id: "e".into(),
        pos: Pos::new(90, 90),
        hp: 10,
    };
    let state = state_with_enemy(300, e);
    let mut memory = Memory::default();
    memory.update(&state);
    memory.update(&state);
    let params = DerivedParams::from_state(&state);
    let cfg = Config::default_embedded();
    assert!(sabotage_targets(&state, &memory, &params, &cfg, Phase::Harvest).is_empty());
}

#[test]
fn sabotage_phases_follow_config() {
    let cfg = Config::default_embedded();
    assert!(!allowed(Phase::Early, &cfg));
    assert!(!allowed(Phase::Growth, &cfg));
    assert!(allowed(Phase::Harvest, &cfg));
    assert!(allowed(Phase::Endgame, &cfg));
}

#[test]
fn sabotage_target_index_points_at_the_enemy() {
    let mut state = state_with_enemy(
        300,
        EnemyPlantation { id: "far".into(), pos: Pos::new(90, 90), hp: 10 },
    );
    state.enemies.push(EnemyPlantation { id: "near".into(), pos: Pos::new(52, 51), hp: 20 });
    let mut memory = Memory::default();
    memory.update(&state);
    let params = DerivedParams::from_state(&state);
    let cfg = Config::default_embedded();
    let idx = sabotage_targets(&state, &memory, &params, &cfg, Phase::Endgame);
    assert_eq!(idx, vec![1]);
}

#[test]
fn sabotage_effort_rounds_up() {
    let state = state_with_enemy(300, EnemyPlantation { id: "e".into(), pos: Pos::new(51, 50), hp: 12 });
    let params = DerivedParams::from_state(&state);
    assert_eq!(params.se, 5);
    let e = |hp: i32| EnemyPlantation { id: "e".into(), pos: Pos::new(51, 50), hp };
    let f = sabotage_effort(&e(12), &params);
    assert!(!f.finishing);
    assert_eq!(f.commands, 3);
    let f = sabotage_effort(&e(5), &params);
    assert!(f.finishing);
    assert_eq!(f.commands, 1);
    let f = sabotage_effort(&e(10), &params);
    assert_eq!(f.commands, 2);
    // no hp left: still one command
    let f = sabotage_effort(&e(-3), &params);
    assert!(f.finishing);
    assert_eq!(f.commands, 1);
}

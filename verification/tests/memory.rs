use datssol_bot::model::state::{GameState, Plantation, Pos, UpgradesState};
use datssol_bot::model::Memory;
use datssol_bot::api::dto::PlantationDTO;
use datssol_bot::model::state::UpgradeTier;
use datssol_bot::model::DerivedParams;
use datssol_bot::planner::tasks::{Assignment, TaskKind};
use datssol_bot::planner::TurnPlan;

fn plant(id: &str, x: i32, y: i32, is_main: bool) -> Plantation {
    Plantation {
        id: id.into(),
        pos: Pos::new(x, y),
        hp: 50,
        is_main,
        is_isolated: false,
        immunity_until_turn: 0,
    }
}

fn empty_state(turn: u32, plantations: Vec<Plantation>) -> GameState {
    GameState {
        turn_no: turn,
        map_size: (100, 100),
        action_range: 2,
        plantations,
        enemies: vec![],
        mountains: vec![],
        cells: vec![],
        construction: vec![],
        beavers: vec![],
        upgrades: UpgradesState::default(),
        meteo: vec![],
    }
}

#[test]
fn respawn_clears_state_specific_memory() {
    let mut mem = Memory::default();
    // first update with 15 plantations
    let before_plants: Vec<_> = (0..15)
        .map(|i| plant(&format!("p{i}"), i, 0, i == 0))
        .collect();
    let before = empty_state(10, before_plants);
    mem.update(&before);
    assert_eq!(mem.birth_turn.len(), 15);
    assert_eq!(mem.mains_lost, 0);

    // now only a main (another id, another position): a respawn
    let after = empty_state(60, vec![plant("new_main", 50, 50, true)]);
    mem.handle_respawn_if_detected(&after);
    mem.update(&after);

    assert_eq!(mem.mains_lost, 1);
    // the new main's birth turn is 60 (filled in by update)
    assert_eq!(mem.birth_turn.len(), 1);
    assert_eq!(mem.birth_turn.get("new_main").copied(), Some(60));
    // the old state-specific memory is gone
    assert!(mem.our_construction_ever.is_empty());
    assert!(mem.last_seen_enemy.is_empty());
    assert!(mem.last_seen_beaver.is_empty());
}

#[test]
fn our_construction_ever_cleaned_when_cell_gone() {
    let mut mem = Memory::default();
    let p_main = plant("m", 0, 0, true);
    let mut state = empty_state(1, vec![p_main.clone()]);
    // record a started construction, as the main loop does
    let built_pos = Pos::new(0, 1);
    mem.our_construction_ever.insert(built_pos);

    // the construction is there: the cell stays
    state.construction = vec![datssol_bot::model::state::Construction {
        pos: built_pos,
        progress: 10,
    }];
    mem.update(&state);
    assert!(mem.is_our_construction(built_pos));

    // the construction is gone and no plantation stands there: forgotten
    state.construction.clear();
    mem.update(&state);
    assert!(!mem.is_our_construction(built_pos));
}

#[test]
fn respawn_across_empty_round_pause() {
    // Round 1 ends, the server sends plantations=[] for a few turns,
    // then round 2 starts with a new main (another id). The respawn is caught
    // despite the empty pause.
    let mut mem = Memory::default();

    // round 1: id=A
    let r1 = empty_state(50, vec![plant("A", 10, 10, true)]);
    mem.handle_respawn_if_detected(&r1);
    mem.update(&r1);
    assert_eq!(mem.last_main_id.as_deref(), Some("A"));

    // pause between rounds: plantations=[]
    for t in 60..=65 {
        let pause = empty_state(t, vec![]);
        mem.handle_respawn_if_detected(&pause);
        mem.update(&pause);
    }
    // last_main_id stays "A"
    assert_eq!(
        mem.last_main_id.as_deref(),
        Some("A"),
        "last_main_id must survive empty-plantations pause"
    );

    // round 2: a new main with id=B
    let r2 = empty_state(100, vec![plant("B", 50, 50, true)]);
    mem.handle_respawn_if_detected(&r2);
    assert_eq!(mem.mains_lost, 1, "must detect respawn after inter-round pause");
}

#[test]
fn respawn_detected_when_main_id_changes_even_with_one_plant() {
    // Always a single plantation (the main), but its id changed:
    // the old main died and a new one spawned. A respawn.
    let mut mem = Memory::default();

    // turn 1: id=A
    let s1 = empty_state(1, vec![plant("A", 10, 10, true)]);
    mem.handle_respawn_if_detected(&s1);
    assert_eq!(mem.mains_lost, 0, "first-time observation is not a respawn");
    mem.update(&s1);

    // turn 2: the same id=A, not a respawn
    let s2 = empty_state(2, vec![plant("A", 10, 10, true)]);
    mem.handle_respawn_if_detected(&s2);
    assert_eq!(mem.mains_lost, 0, "same main id on same pos is not a respawn");
    mem.update(&s2);

    // turn 20: another id=B elsewhere: A was destroyed, B spawned.
    let s3 = empty_state(20, vec![plant("B", 50, 50, true)]);
    mem.handle_respawn_if_detected(&s3);
    assert_eq!(mem.mains_lost, 1, "main id change must be detected as respawn");
}

#[test]
fn suspected_enemy_immunity_first_seen_only() {
    let mem = Memory::default();
    // never seen, 50 hp: assumed immune
    assert!(mem.suspected_enemy_immunity("enemy1", 50));
    // 49 hp: it was hit, so no immunity
    assert!(!mem.suspected_enemy_immunity("enemy1", 49));

    // once update has recorded the id, never again
    let mut mem = Memory::default();
    let mut state = empty_state(5, vec![plant("m", 0, 0, true)]);
    state.enemies = vec![datssol_bot::model::state::EnemyPlantation {
        id: "enemy1".into(),
        pos: Pos::new(5, 5),
        hp: 50,
    }];
    mem.update(&state);
    // seen before: not immune
    assert!(!mem.suspected_enemy_immunity("enemy1", 50));
}

#[test]
fn plantation_immunity_from_none_defaults_to_zero() {
    // a missing immunity turn becomes 0 (no immunity)
    let dto = PlantationDTO {
        id: "x".into(),
        position: [0, 0],
        hp: 50,
        is_main: true,
        is_isolated: false,
        immunity_until_turn: None,
    };
    let p = Plantation::from_dto(dto);
    assert_eq!(p.immunity_until_turn, 0);
}

#[test]
fn derived_params_cs_is_constant() {
    // repair_power raises RS but not CS
    let mut state = empty_state(1, vec![]);
    state.upgrades.tiers = vec![UpgradeTier {
        name: "repair_power".into(),
        current: 3,
        max: 3,
    }];
    let p = DerivedParams::from_state(&state);
    assert_eq!(p.cs, 5, "CS must remain 5 irrespective of repair_power");
    assert_eq!(p.rs, 8, "RS = 5 + repair_power");
}

#[test]
fn started_builds_are_remembered() {
    let mut memory = Memory::default();
    let asg = |kind: TaskKind, x: i32| Assignment {
        author_id: "m".into(),
        author_pos: Pos::new(0, 0),
        relay_pos: Pos::new(0, 0),
        target_pos: Pos::new(x, 0),
        kind,
        expected_effect: 5,
    };
    let plan = TurnPlan {
        assignments: vec![asg(TaskKind::Build, 1), asg(TaskKind::Repair { target_id: "x".into() }, 2)],
        upgrade: None,
        relocate_main: None,
    };
    memory.note_started_builds(&plan);
    assert!(memory.is_our_construction(Pos::new(1, 0)));
    assert!(!memory.is_our_construction(Pos::new(2, 0)));
    assert_eq!(memory.mains_lost, 0);
}

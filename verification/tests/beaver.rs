use datssol_bot::config::Config;
use datssol_bot::model::state::{Beaver, GameState, Plantation, Pos, UpgradesState};
use datssol_bot::model::DerivedParams;
use datssol_bot::tactics::plan_beaver_kill;
use datssol_bot::planner::tasks::Phase;
use datssol_bot::tactics::beaver::beavers_fit_check;
use datssol_bot::tactics::beaver_attacks;

fn plant(id: &str, x: i32, y: i32, hp: i32) -> Plantation {
    Plantation {
        id: id.into(),
        pos: Pos::new(x, y),
        hp,
        is_main: id == "m",
        is_isolated: false,
        immunity_until_turn: 0,
    }
}

fn state_with(plants: Vec<Plantation>, beaver: Beaver) -> GameState {
    GameState {
        turn_no: 200,
        map_size: (100, 100),
        action_range: 2,
        plantations: plants,
        enemies: vec![],
        mountains: vec![],
        cells: vec![],
        construction: vec![],
        beavers: vec![beaver],
        upgrades: UpgradesState::default(),
        meteo: vec![],
    }
}

#[test]
fn reward_is_20x_base_points() {
    // reward = 20 × cell_base_points: 30000 on the boosted cell (7,7).
    let beaver = Beaver {
        id: "b".into(),
        pos: Pos::new(7, 7),
        hp: 100,
    };
    // three attackers with 50 hp each: enough for the config, and they survive.
    // lair hp 1000, so that the survival check does not refuse the plan.
    let plants = vec![
        plant("m", 7, 5, 1000),
        plant("p1", 6, 6, 1000),
        plant("p2", 8, 6, 1000),
    ];
    let state = state_with(plants, beaver.clone());
    let cfg = Config::default_embedded();
    let params = DerivedParams::from_state(&state);
    let plan = plan_beaver_kill(&beaver, &state, &params, &cfg).expect("should plan");
    assert_eq!(plan.expected_reward as f64, 20.0 * 1500.0);
}

#[test]
fn reward_non_boosted_base_1000() {
    let beaver = Beaver {
        id: "b".into(),
        pos: Pos::new(10, 10),
        hp: 100,
    };
    let plants = vec![
        plant("m", 10, 8, 1000),
        plant("p1", 9, 9, 1000),
        plant("p2", 11, 9, 1000),
    ];
    let state = state_with(plants, beaver.clone());
    let cfg = Config::default_embedded();
    let params = DerivedParams::from_state(&state);
    let plan = plan_beaver_kill(&beaver, &state, &params, &cfg).expect("should plan");
    assert_eq!(plan.expected_reward as f64, 20.0 * 1000.0);
}

#[test]
fn survivability_blocks_weak_attackers() {
    // hp 10 against beaver_dmg 15: the attackers last 0 turns, while killing
    // the lair takes at least one: refused.
    let beaver = Beaver {
        id: "b".into(),
        pos: Pos::new(10, 10),
        hp: 100,
    };
    let plants = vec![
        plant("m", 10, 8, 10), // only 10 hp, dies in the lair's first strike
        plant("p1", 9, 9, 50),
        plant("p2", 11, 9, 50),
    ];
    let state = state_with(plants, beaver.clone());
    let cfg = Config::default_embedded();
    let params = DerivedParams::from_state(&state);
    assert!(plan_beaver_kill(&beaver, &state, &params, &cfg).is_none());
}

#[test]
fn too_few_attackers_skip() {
    // fewer attackers in range than the config's minimum: refused.
    let beaver = Beaver {
        id: "b".into(),
        pos: Pos::new(10, 10),
        hp: 100,
    };
    let plants = vec![plant("m", 10, 8, 50), plant("p1", 9, 9, 50)];
    let state = state_with(plants, beaver.clone());
    let cfg = Config::default_embedded();
    let params = DerivedParams::from_state(&state);
    assert!(plan_beaver_kill(&beaver, &state, &params, &cfg).is_none());
}

#[test]
fn weakest_attacker_decides_survival() {
    // pooled hp would last, but the 10-hp attacker dies in the first turn
    let beaver = Beaver {
        id: "b".into(),
        pos: Pos::new(10, 10),
        hp: 100,
    };
    let plants = vec![
        plant("m", 10, 8, 10),
        plant("p1", 9, 9, 1000),
        plant("p2", 11, 9, 1000),
    ];
    let mut state = state_with(plants, beaver.clone());
    state.turn_no = 200;
    let cfg = Config::default_embedded();
    let params = DerivedParams::from_state(&state);
    assert!(plan_beaver_kill(&beaver, &state, &params, &cfg).is_none());
}

#[test]
fn strong_attackers_get_a_plan() {
    let beaver = Beaver {
        id: "b".into(),
        pos: Pos::new(10, 10),
        hp: 100,
    };
    let plants = vec![
        plant("m", 10, 8, 1000),
        plant("p1", 9, 9, 1000),
        plant("p2", 11, 9, 1000),
    ];
    let mut state = state_with(plants, beaver.clone());
    state.turn_no = 200;
    let cfg = Config::default_embedded();
    let params = DerivedParams::from_state(&state);
    let plan = plan_beaver_kill(&beaver, &state, &params, &cfg).expect("should plan");
    // 3 attackers × 5 − 5 regeneration = 10 per turn
    assert_eq!(plan.turns_to_kill, 10);
    assert_eq!(plan.attacker_positions.len(), 3);
}

#[test]
fn beaver_attacks_one_per_attacker_outside_early_phase() {
    let beaver = Beaver {
        id: "b".into(),
        pos: Pos::new(10, 10),
        hp: 100,
    };
    let plants = vec![
        plant("m", 10, 8, 1000),
        plant("p1", 9, 9, 1000),
        plant("p2", 11, 9, 1000),
    ];
    let state = state_with(plants, beaver);
    let cfg = Config::default_embedded();
    let params = DerivedParams::from_state(&state);
    assert!(beavers_fit_check(&state, &params, &cfg));
    assert!(beaver_attacks(&state, &params, &cfg, Phase::Early).is_empty());
    let attacks = beaver_attacks(&state, &params, &cfg, Phase::Growth);
    assert_eq!(attacks.len(), 3);
    for a in &attacks {
        assert_eq!(a.beaver, 0);
        assert_eq!(a.turns_to_kill, 10);
        assert_eq!(a.expected_reward, 20_000);
    }
}

#[test]
fn attacker_below_zero_hp_blocks_the_plan() {
    // -15 / 15 = -1 turns of survival, fewer than the 10 turns to kill
    let beaver = Beaver {
        id: "b".into(),
        pos: Pos::new(10, 10),
        hp: 100,
    };
    let plants = vec![
        plant("m", 10, 8, -15),
        plant("p1", 9, 9, 1000),
        plant("p2", 11, 9, 1000),
    ];
    let state = state_with(plants, beaver.clone());
    let cfg = Config::default_embedded();
    let params = DerivedParams::from_state(&state);
    assert!(plan_beaver_kill(&beaver, &state, &params, &cfg).is_none());
}

use datssol_bot::model::memory::Memory;
use datssol_bot::model::state::{GameState, Plantation, Pos, UpgradesState};
use datssol_bot::model::DerivedParams;
use datssol_bot::config::Config;
use datssol_bot::planner::tasks::{TaskKind, TaskSpot};
use datssol_bot::planner::{assign_tasks, plan_turn_from_tasks, TurnPlan};
use datssol_bot::tactics::find_buildable_cells;
use datssol_bot::planner::fallback_action;

fn base_state(plants: Vec<Plantation>) -> GameState {
    GameState {
        turn_no: 1,
        map_size: (100, 100),
        action_range: 2,
        plantations: plants,
        enemies: vec![],
        mountains: vec![],
        cells: vec![],
        construction: vec![],
        beavers: vec![],
        upgrades: UpgradesState::default(),
        meteo: vec![],
    }
}

fn main_plant(x: i32, y: i32) -> Plantation {
    Plantation {
        id: "m".into(),
        pos: Pos::new(x, y),
        hp: 50,
        is_main: true,
        is_isolated: false,
        immunity_until_turn: 0,
    }
}

/// The plan of the turn with one build task per candidate cell, in the
/// order the candidates come.
fn plan_with_builds(state: &GameState, memory: &Memory, cfg: &Config) -> TurnPlan {
    let params = DerivedParams::from_state(state);
    let tasks: Vec<TaskSpot> = find_buildable_cells(state, memory, &params)
        .into_iter()
        .map(|c| TaskSpot { kind: TaskKind::Build, target: c })
        .collect();
    plan_turn_from_tasks(&tasks, state, memory, &params, cfg)
}

#[test]
fn single_main_produces_non_empty_plan() {
    // Even a lone main plantation must produce a command (build).
    let state = base_state(vec![main_plant(50, 50)]);
    let mut memory = Memory::default();
    memory.update(&state);
    let cfg = Config::default_embedded();
    let plan = plan_with_builds(&state, &memory, &cfg);
    assert!(!plan.is_empty(), "single main must not produce empty command");
    assert!(plan
        .assignments
        .iter()
        .any(|a| matches!(a.kind, TaskKind::Build)));
}

#[test]
fn plan_action_paths_have_three_coords() {
    let state = base_state(vec![main_plant(50, 50)]);
    let mut memory = Memory::default();
    memory.update(&state);
    let cfg = Config::default_embedded();
    let plan = plan_with_builds(&state, &memory, &cfg);
    let dto = plan.into_player_dto();
    for action in &dto.command {
        assert_eq!(
            action.path.len(),
            3,
            "every path must be [author, relay, target]"
        );
    }
}

#[test]
fn empty_task_list_falls_back_to_a_build() {
    let state = base_state(vec![main_plant(50, 50)]);
    let mut memory = Memory::default();
    memory.update(&state);
    let cfg = Config::default_embedded();
    let params = DerivedParams::from_state(&state);
    let plan = plan_turn_from_tasks(&[], &state, &memory, &params, &cfg);
    assert_eq!(plan.assignments.len(), 1);
    let a = &plan.assignments[0];
    assert!(matches!(a.kind, TaskKind::Build));
    // first free 4-neighbour: to the right
    assert_eq!(a.target_pos, Pos::new(51, 50));
    assert_eq!(a.author_pos, Pos::new(50, 50));
    assert_eq!(a.relay_pos, Pos::new(50, 50));
}

#[test]
fn one_author_takes_only_the_first_task() {
    let state = base_state(vec![main_plant(50, 50)]);
    let params = DerivedParams::from_state(&state);
    let tasks = vec![
        TaskSpot { kind: TaskKind::Build, target: Pos::new(51, 50) },
        TaskSpot { kind: TaskKind::Build, target: Pos::new(49, 50) },
    ];
    let asg = assign_tasks(&tasks, &state, &params);
    assert_eq!(asg.len(), 1);
    assert_eq!(asg[0].target_pos, Pos::new(51, 50));
    assert_eq!(asg[0].expected_effect, params.cs);
}

#[test]
fn relay_use_lowers_the_next_effect() {
    let mut second = main_plant(52, 50);
    second.id = "b".into();
    second.is_main = false;
    let state = base_state(vec![main_plant(50, 50), second]);
    let params = DerivedParams::from_state(&state);
    let tasks = vec![
        TaskSpot { kind: TaskKind::Build, target: Pos::new(51, 51) },
        TaskSpot { kind: TaskKind::Build, target: Pos::new(51, 49) },
    ];
    let asg = assign_tasks(&tasks, &state, &params);
    assert_eq!(asg.len(), 2);
    // the first task goes to the main plantation acting directly
    assert_eq!(asg[0].author_id, "m");
    assert_eq!(asg[0].relay_pos, Pos::new(50, 50));
    assert_eq!(asg[0].expected_effect, params.cs);
    // the second author's best relay is itself, still unused
    assert_eq!(asg[1].author_id, "b");
    assert_eq!(asg[1].relay_pos, Pos::new(52, 50));
    assert_eq!(asg[1].expected_effect, params.cs);
}

#[test]
fn build_candidates_never_isolated() {
    // An isolated plantation yields no build candidates.
    let mut state = base_state(vec![
        main_plant(50, 50),
        Plantation {
            id: "iso".into(),
            pos: Pos::new(70, 70),
            hp: 50,
            is_main: false,
            is_isolated: true,
            immunity_until_turn: 0,
        },
    ]);
    // the server reports it isolated
    state.plantations[1].is_isolated = true;

    let memory = Memory::default();
    let params = DerivedParams::from_state(&state);
    let cells = find_buildable_cells(&state, &memory, &params);
    for c in &cells {
        // No cell within AR of the isolated (70,70):
        // it counts neither as an author nor as connected for 4-adjacency.
        let close_to_iso = (c.x - 70).abs() <= 2 && (c.y - 70).abs() <= 2;
        assert!(
            !close_to_iso,
            "isolated plantation generated candidate at {c:?}"
        );
    }
    // Next to the main (50,50): the 4 side neighbours.
    let near_main: Vec<_> = cells
        .iter()
        .filter(|p| (p.x - 50).abs() + (p.y - 50).abs() == 1)
        .collect();
    assert_eq!(near_main.len(), 4);
}

#[test]
fn fallback_repairs_the_first_close_pair() {
    let mut b = main_plant(51, 50);
    b.id = "b".into();
    b.is_main = false;
    let state = base_state(vec![main_plant(50, 50), b]);
    let memory = Memory::default();
    let params = DerivedParams::from_state(&state);
    let a = fallback_action(&state, &memory, &params).unwrap();
    assert!(matches!(&a.kind, TaskKind::Repair { target_id } if target_id == "b"));
    assert_eq!(a.author_id, "m");
    assert_eq!(a.target_pos, Pos::new(51, 50));
    assert_eq!(a.expected_effect, params.rs);
}

#[test]
fn lone_main_acts_directly_at_full_effect() {
    // the lone main is its own relay, unused so far
    let state = base_state(vec![main_plant(50, 50)]);
    let params = DerivedParams::from_state(&state);
    let tasks = vec![TaskSpot { kind: TaskKind::Build, target: Pos::new(51, 50) }];
    let asg = assign_tasks(&tasks, &state, &params);
    assert_eq!(asg.len(), 1);
    assert_eq!(asg[0].expected_effect, params.cs);
}

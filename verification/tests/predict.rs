use datssol_bot::model::state::{
    Beaver, Construction, GameState, MeteoForecast, Plantation, Pos, UpgradesState,
};
use datssol_bot::model::DerivedParams;
use datssol_bot::predict::{
    predict_construction_damage, predict_hp_next_turn, will_complete_this_turn,
};
use datssol_bot::model::state::Cell;

fn plant(id: &str, x: i32, y: i32, hp: i32, immunity_until: u32) -> Plantation {
    Plantation {
        id: id.into(),
        pos: Pos::new(x, y),
        hp,
        is_main: false,
        is_isolated: false,
        immunity_until_turn: immunity_until,
    }
}

fn base_state(turn: u32, plants: Vec<Plantation>) -> GameState {
    GameState {
        turn_no: turn,
        map_size: (100, 100),
        action_range: 2,
        plantations: plants,
        enemies: vec![],
        mountains: vec![],
        cells: vec![],
        construction: vec![],
        beavers: vec![],
        upgrades: UpgradesState::default(),
        meteo: vec![],
    }
}

fn sandstorm(id: &str, center: Pos, next: Pos, r: i32) -> MeteoForecast {
    MeteoForecast {
        kind: "sandstorm".into(),
        turns_until: None,
        id: Some(id.into()),
        forming: Some(false),
        position: Some(center),
        next_position: Some(next),
        radius: Some(r),
    }
}

fn earthquake(turns_until: u32) -> MeteoForecast {
    MeteoForecast {
        kind: "earthquake".into(),
        turns_until: Some(turns_until),
        id: None,
        forming: None,
        position: None,
        next_position: None,
        radius: None,
    }
}

#[test]
fn predict_storm_alone_clamps_to_one() {
    // a storm alone, hp 3, storm_dmg 2: 1 hp left (not 0)
    let p = plant("p", 5, 5, 3, 0);
    let mut s = base_state(10, vec![p.clone()]);
    s.meteo = vec![sandstorm("s1", Pos::new(4, 5), Pos::new(5, 5), 2)];
    let params = DerivedParams::from_state(&s);
    assert_eq!(predict_hp_next_turn(&p, &s, &params), 1);
}

#[test]
fn predict_storm_plus_beaver_storm_does_not_save() {
    // storm and lair, hp 10, beaver_dmg 15: -5 (the storm does not save it)
    let p = plant("p", 5, 5, 10, 0);
    let mut s = base_state(10, vec![p.clone()]);
    s.meteo = vec![sandstorm("s1", Pos::new(4, 5), Pos::new(5, 5), 2)];
    s.beavers = vec![Beaver {
        id: "b".into(),
        pos: Pos::new(6, 5),
        hp: 100,
    }];
    let params = DerivedParams::from_state(&s);
    // lethal = 15 (lair): -5 is returned at once, the storm does not count
    assert_eq!(predict_hp_next_turn(&p, &s, &params), -5);
}

#[test]
fn predict_immunity_blocks_damage() {
    let p = plant("p", 5, 5, 50, 100); // immunity_until=100, turn=10
    let mut s = base_state(10, vec![p.clone()]);
    s.beavers = vec![Beaver {
        id: "b".into(),
        pos: Pos::new(5, 5),
        hp: 100,
    }];
    let params = DerivedParams::from_state(&s);
    assert_eq!(predict_hp_next_turn(&p, &s, &params), 50);
}

#[test]
fn predict_earthquake_plus_beaver_stacks() {
    // a lair 2 cells away and an earthquake now, no mitigation: 15+10=25 damage
    let p = plant("p", 5, 5, 50, 0);
    let mut s = base_state(10, vec![p.clone()]);
    s.beavers = vec![Beaver {
        id: "b".into(),
        pos: Pos::new(6, 5), // chebyshev 1, within 2
        hp: 100,
    }];
    s.meteo = vec![earthquake(0)];
    let params = DerivedParams::from_state(&s);
    assert_eq!(predict_hp_next_turn(&p, &s, &params), 50 - 15 - 10);
}

#[test]
fn predict_storm_forming_does_nothing() {
    let p = plant("p", 5, 5, 50, 0);
    let mut s = base_state(10, vec![p.clone()]);
    s.meteo = vec![MeteoForecast {
        kind: "sandstorm".into(),
        turns_until: Some(3),
        id: Some("s".into()),
        forming: Some(true),
        position: Some(Pos::new(5, 5)),
        next_position: None,
        radius: Some(2),
    }];
    let params = DerivedParams::from_state(&s);
    assert_eq!(predict_hp_next_turn(&p, &s, &params), 50);
}

#[test]
fn predict_construction_damage_beaver_plus_quake() {
    // a lair 2 cells away and an earthquake now, no mitigation: 15+10=25
    let c = Construction {
        pos: Pos::new(5, 5),
        progress: 10,
    };
    let mut s = base_state(10, vec![]);
    s.construction = vec![c.clone()];
    s.beavers = vec![Beaver {
        id: "b".into(),
        pos: Pos::new(6, 5),
        hp: 100,
    }];
    s.meteo = vec![earthquake(0)];
    let params = DerivedParams::from_state(&s);
    assert_eq!(predict_construction_damage(&c, &s, &params), 25);
}

#[test]
fn will_complete_this_turn_boundary() {
    let p = plant("p", 5, 5, 50, 0);
    let mut s = base_state(10, vec![p.clone()]);
    s.cells = vec![Cell {
        pos: Pos::new(5, 5),
        terraformation_progress: 96,
        turns_until_degradation: None,
    }];
    let params = DerivedParams::from_state(&s);
    // ts=5, 96+5=101 >= 100: completes
    assert!(will_complete_this_turn(&p, &s, &params));

    s.cells[0].terraformation_progress = 94;
    // 94+5=99 < 100: does not complete
    assert!(!will_complete_this_turn(&p, &s, &params));
}

#[test]
fn useful_authors_filters_completing_plantation() {
    let a = plant("a", 0, 0, 50, 0); // on a cell without a record: does not complete
    let b = plant("b", 1, 0, 50, 0); // on a cell at 96%: completes this turn
    let mut s = base_state(10, vec![a.clone(), b.clone()]);
    s.cells = vec![Cell {
        pos: Pos::new(1, 0),
        terraformation_progress: 96,
        turns_until_degradation: None,
    }];
    let params = DerivedParams::from_state(&s);
    let ids: Vec<_> = s.useful_authors(&params).into_iter().map(|p| p.id.clone()).collect();
    assert_eq!(ids, vec!["a"]);
}

#[test]
fn immunity_through_the_next_turn_is_inclusive() {
    // turn 10, immune through turn 11: the lair does nothing this turn
    let p = plant("p", 5, 5, 50, 11);
    let mut s = base_state(10, vec![p.clone()]);
    s.beavers = vec![Beaver { id: "b".into(), pos: Pos::new(6, 5), hp: 100 }];
    let params = DerivedParams::from_state(&s);
    assert_eq!(predict_hp_next_turn(&p, &s, &params), 50);
    // immune only through turn 10: the next turn is exposed
    let q = plant("q", 5, 5, 50, 10);
    let s2 = GameState { plantations: vec![q.clone()], ..s };
    assert_eq!(predict_hp_next_turn(&q, &s2, &params), 35);
}

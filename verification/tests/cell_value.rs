use datssol_bot::model::state::{
    Beaver, Construction, EnemyPlantation, GameState, MeteoForecast, Plantation, Pos, UpgradesState,
};
use datssol_bot::model::DerivedParams;
use datssol_bot::tactics::cell_features;

fn plant(id: &str, x: i32, y: i32, is_main: bool) -> Plantation {
    Plantation {
        id: id.into(),
        pos: Pos::new(x, y),
        hp: 50,
        is_main,
        is_isolated: false,
        immunity_until_turn: 0,
    }
}

fn state(plants: Vec<Plantation>) -> GameState {
    GameState {
        turn_no: 100,
        map_size: (100, 100),
        action_range: 2,
        plantations: plants,
        enemies: vec![],
        mountains: vec![],
        cells: vec![],
        construction: vec![],
        beavers: vec![],
        upgrades: UpgradesState::default(),
        meteo: vec![],
    }
}

#[test]
fn features_next_to_a_lone_main() {
    let mut s = state(vec![plant("m", 50, 50, true)]);
    s.beavers.push(Beaver { id: "b".into(), pos: Pos::new(53, 52), hp: 100 });
    s.beavers.push(Beaver { id: "far".into(), pos: Pos::new(54, 50), hp: 100 });
    s.enemies.push(EnemyPlantation { id: "e".into(), pos: Pos::new(53, 50), hp: 30 });
    let params = DerivedParams::from_state(&s);
    let f = cell_features(Pos::new(51, 50), &s, &params);
    assert!(!f.boosted);
    assert_eq!(f.beavers_near, 1);
    assert!(!f.storm_threat);
    assert_eq!(f.enemies_near, 1);
    // the only boosted cell of the 9x9 square is (49, 49)
    assert_eq!(f.boost_distances, vec![3]);
    assert_eq!(f.stable_neighbors, 1);
    assert_eq!(f.any_neighbors, 1);
    assert_eq!(f.dist_to_main, 1);
    assert_eq!(f.main_adj_escapes, Some(0));
}

#[test]
fn features_count_constructions_and_isolated_plantations() {
    let mut iso = plant("i", 51, 51, false);
    iso.is_isolated = true;
    let mut s = state(vec![plant("m", 50, 50, true), iso]);
    s.construction.push(Construction { pos: Pos::new(50, 52), progress: 10 });
    let params = DerivedParams::from_state(&s);
    let f = cell_features(Pos::new(50, 51), &s, &params);
    // neighbours: (51,51) isolated, (49,51) empty, (50,52) construction, (50,50) main
    assert_eq!(f.stable_neighbors, 2);
    assert_eq!(f.any_neighbors, 3);
    // other neighbours of the main: (51,50), (49,50), (50,49) are all empty
    assert_eq!(f.main_adj_escapes, Some(0));
    assert_eq!(f.dist_to_main, 1);
}

#[test]
fn features_far_from_main_and_boosted() {
    let s = state(vec![plant("m", 50, 50, true), plant("p", 48, 49, false)]);
    let params = DerivedParams::from_state(&s);
    let f = cell_features(Pos::new(49, 49), &s, &params);
    assert!(f.boosted);
    assert_eq!(f.main_adj_escapes, None);
    assert_eq!(f.dist_to_main, 1);
    // the cell itself is not counted; the square 45..=53 holds no other boosted cell
    assert!(f.boost_distances.is_empty());
}

#[test]
fn features_see_a_moving_storm() {
    let mut s = state(vec![plant("m", 50, 50, true)]);
    s.meteo.push(MeteoForecast {
        kind: "sandstorm".into(),
        turns_until: None,
        id: Some("s".into()),
        forming: Some(false),
        position: Some(Pos::new(40, 50)),
        next_position: Some(Pos::new(42, 50)),
        radius: Some(1),
    });
    let params = DerivedParams::from_state(&s);
    // centers 42, 44, 46, 48, 50 on the next five turns
    assert!(cell_features(Pos::new(48, 51), &s, &params).storm_threat);
    assert!(!cell_features(Pos::new(53, 50), &s, &params).storm_threat);
}

#[test]
fn features_without_main() {
    let s = state(vec![plant("p", 10, 10, false)]);
    let params = DerivedParams::from_state(&s);
    let f = cell_features(Pos::new(20, 20), &s, &params);
    assert_eq!(f.dist_to_main, 0);
    assert_eq!(f.main_adj_escapes, None);
    assert_eq!(f.stable_neighbors, 0);
}

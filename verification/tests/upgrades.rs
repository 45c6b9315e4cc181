use datssol_bot::config::Config;
use datssol_bot::model::state::{GameState, UpgradeTier, UpgradesState};
use datssol_bot::tactics::choose_upgrade;
use datssol_bot::tactics::upgrades::sequence_entry_blocked;

fn state_with_upgrades(points: i32, tiers: Vec<(&str, i32, i32)>) -> GameState {
    GameState {
        turn_no: 30,
        map_size: (100, 100),
        action_range: 2,
        plantations: vec![],
        enemies: vec![],
        mountains: vec![],
        cells: vec![],
        construction: vec![],
        beavers: vec![],
        upgrades: UpgradesState {
            points,
            interval_turns: 30,
            turns_until_points: 0,
            max_points: 15,
            tiers: tiers
                .into_iter()
                .map(|(n, cur, max)| UpgradeTier {
                    name: n.into(),
                    current: cur,
                    max,
                })
                .collect(),
        },
        meteo: vec![],
    }
}

#[test]
fn no_points_none() {
    let s = state_with_upgrades(0, vec![("repair_power", 0, 3)]);
    assert!(choose_upgrade(&s, &Config::default_embedded()).is_none());
}

#[test]
fn first_in_priority() {
    // first in the priority order: max_hp, with points and current < max
    let s = state_with_upgrades(
        1,
        vec![
            ("max_hp", 0, 5),
            ("settlement_limit", 0, 10),
            ("signal_range", 0, 10),
        ],
    );
    assert_eq!(
        choose_upgrade(&s, &Config::default_embedded()).as_deref(),
        Some("max_hp")
    );
}

#[test]
fn skip_maxed_and_take_next() {
    // max_hp maxed: the next entry of the sequence (settlement_limit)
    let s = state_with_upgrades(
        1,
        vec![
            ("max_hp", 5, 5),
            ("settlement_limit", 0, 10),
        ],
    );
    assert_eq!(
        choose_upgrade(&s, &Config::default_embedded()).as_deref(),
        Some("settlement_limit")
    );
}

#[test]
fn fallback_to_any_available_after_sequence_exhausted() {
    // everything in the sequence maxed: any open tier
    let s = state_with_upgrades(
        1,
        vec![
            ("repair_power", 3, 3),
            ("settlement_limit", 10, 10),
            ("vision_range", 5, 5),
            ("signal_range", 10, 10),
            ("decay_mitigation", 0, 3), // not in the sequence, but open
        ],
    );
    assert_eq!(
        choose_upgrade(&s, &Config::default_embedded()).as_deref(),
        Some("decay_mitigation")
    );
}

#[test]
fn all_maxed_none() {
    let s = state_with_upgrades(
        5,
        vec![("repair_power", 3, 3), ("settlement_limit", 10, 10)],
    );
    assert!(choose_upgrade(&s, &Config::default_embedded()).is_none());
}

#[test]
fn blocked_sequence_entry_is_reported() {
    let mut s = state_with_upgrades(1, vec![("max_hp", 5, 5), ("settlement_limit", 0, 10)]);
    let mut cfg = Config::default_embedded();
    cfg.upgrades.priority_order.sequence = vec!["settlement_limit".into(), "max_hp".into()];
    // five upgrades bought: past the end of the sequence
    assert_eq!(sequence_entry_blocked(&s, &cfg), None);
    cfg.upgrades.priority_order.sequence = vec!["a".into(), "b".into(), "c".into(), "d".into(), "e".into(), "max_hp".into()];
    assert_eq!(sequence_entry_blocked(&s, &cfg), Some("max_hp".to_string()));
    s.upgrades.points = 0;
    assert_eq!(sequence_entry_blocked(&s, &cfg), None);
}

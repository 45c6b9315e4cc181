use datssol_bot::api::client::{
    backoff_ms, command_outcome, header_seconds, rate_limit_wait_ms, retry_after_ms, CommandOutcome,
};
use datssol_bot::api::dto::PublicError;
use datssol_bot::api::dto::{
    ConstructionDTO, EnemyPlantationDTO, MeteoForecastDTO, PlantationDTO,
    PlantationUpgradeTierItemDTO, PlantationUpgradesState, PlayerResponse,
};
use datssol_bot::api::Server;
use datssol_bot::error::BotError;
use datssol_bot::model::state::{GameState, Pos};
use datssol_bot::planner::tasks::{kind_name, Assignment, TaskKind};
use datssol_bot::planner::TurnPlan;
use datssol_bot::text::parse_u64_trimmed;

fn empty_response(turn: Option<u32>) -> PlayerResponse {
    PlayerResponse {
        turn_no: turn,
        size: None,
        action_range: None,
        plantations: vec![],
        enemy: vec![],
        mountains: vec![],
        cells: vec![],
        construction: vec![],
        beavers: vec![],
        plantation_upgrades: None,
        meteo_forecasts: vec![],
    }
}

#[test]
fn server_selection_and_urls() {
    assert!(matches!(Server::from_env(Some("prod")), Server::Prod));
    assert!(matches!(Server::from_env(Some("test")), Server::Test));
    assert!(matches!(Server::from_env(Some("production")), Server::Test));
    assert!(matches!(Server::from_env(None), Server::Test));
    assert_eq!(Server::Prod.base_url(), "https://games.datsteam.dev");
    assert_eq!(Server::Test.base_url(), "https://games-test.datsteam.dev");
}

#[test]
fn parse_trims_and_reads_u64() {
    assert_eq!(parse_u64_trimmed("42"), Some(42));
    assert_eq!(parse_u64_trimmed("  7\t"), Some(7));
    assert_eq!(parse_u64_trimmed("+15"), Some(15));
    assert_eq!(parse_u64_trimmed("18446744073709551615"), Some(u64::MAX));
    assert_eq!(parse_u64_trimmed("18446744073709551616"), None);
    assert_eq!(parse_u64_trimmed(""), None);
    assert_eq!(parse_u64_trimmed("   "), None);
    assert_eq!(parse_u64_trimmed("+"), None);
    assert_eq!(parse_u64_trimmed("-1"), None);
    assert_eq!(parse_u64_trimmed("1 2"), None);
    assert_eq!(parse_u64_trimmed("12s"), None);
    // std agrees on all of these
    for s in ["42", "  7\t", "+15", "", "+", "-1", "1 2", "12s", "\u{3000}9\u{85}"] {
        assert_eq!(parse_u64_trimmed(s), s.trim().parse::<u64>().ok(), "{s:?}");
    }
}

#[test]
fn retry_after_prefers_retry_after_header() {
    assert_eq!(retry_after_ms(Some("2"), Some("5")), Some(2000));
    assert_eq!(retry_after_ms(Some("soon"), Some("5")), Some(5000));
    assert_eq!(retry_after_ms(None, Some("3599")), Some(3_599_000));
    // a unix timestamp in the reset header is ignored
    assert_eq!(retry_after_ms(None, Some("1713456000")), None);
    assert_eq!(retry_after_ms(None, Some("3600")), None);
    assert_eq!(retry_after_ms(None, None), None);
    assert_eq!(header_seconds(Some(" 12 ")), Some(12));
    assert_eq!(header_seconds(None), None);
}

#[test]
fn task_kind_names() {
    assert_eq!(kind_name(&TaskKind::Build), "build");
    assert_eq!(kind_name(&TaskKind::Repair { target_id: "a".into() }), "repair");
    assert_eq!(kind_name(&TaskKind::Sabotage { target_id: "a".into() }), "sabotage");
    assert_eq!(kind_name(&TaskKind::BeaverAttack { target_id: "a".into() }), "beaver_attack");
}

#[test]
fn from_api_refuses_a_response_without_turn() {
    match GameState::from_api(empty_response(None)) {
        Err(BotError::Config(_)) => {}
        other => panic!("unexpected {other:?}"),
    }
}

#[test]
fn from_api_fills_defaults_and_converts() {
    let mut resp = empty_response(Some(7));
    resp.plantations.push(PlantationDTO {
        id: "p".into(),
        position: [3, 4],
        hp: 40,
        is_main: true,
        is_isolated: false,
        immunity_until_turn: None,
    });
    resp.enemy.push(EnemyPlantationDTO { id: "e".into(), position: [9, 9], hp: 12 });
    resp.construction.push(ConstructionDTO { position: [3, 5], progress: 20 });
    resp.mountains.push([1, 1]);
    resp.meteo_forecasts.push(MeteoForecastDTO {
        kind: "sandstorm".into(),
        turns_until: None,
        id: Some("s".into()),
        forming: Some(false),
        position: Some([10, 10]),
        next_position: Some([11, 10]),
        radius: Some(3),
    });
    let s = GameState::from_api(resp).unwrap();
    assert_eq!(s.turn_no, 7);
    assert_eq!(s.map_size, (0, 0));
    assert_eq!(s.action_range, 2);
    assert_eq!(s.plantations[0].pos, Pos::new(3, 4));
    assert_eq!(s.plantations[0].immunity_until_turn, 0);
    assert_eq!(s.enemies[0].hp, 12);
    assert_eq!(s.construction[0].progress, 20);
    assert_eq!(s.mountains, vec![Pos::new(1, 1)]);
    assert_eq!(s.meteo[0].next_position, Some(Pos::new(11, 10)));
    assert_eq!(s.upgrades.points, 0);
    assert!(s.upgrades.tiers.is_empty());
}

#[test]
fn from_api_upgrade_defaults() {
    let mut resp = empty_response(Some(1));
    resp.size = Some([120, 80]);
    resp.action_range = Some(3);
    resp.plantation_upgrades = Some(PlantationUpgradesState {
        points: 2,
        interval_turns: None,
        turns_until_points: None,
        max_points: None,
        tiers: vec![PlantationUpgradeTierItemDTO { name: "max_hp".into(), current: 1, max: 5 }],
    });
    let s = GameState::from_api(resp).unwrap();
    assert_eq!(s.map_size, (120, 80));
    assert_eq!(s.action_range, 3);
    assert_eq!(s.upgrades.points, 2);
    assert_eq!(s.upgrades.interval_turns, 30);
    assert_eq!(s.upgrades.turns_until_points, 0);
    assert_eq!(s.upgrades.max_points, 15);
    assert_eq!(s.upgrades.tiers[0].name, "max_hp");
}

#[test]
fn player_dto_paths_and_fields() {
    let plan = TurnPlan {
        assignments: vec![Assignment {
            author_id: "a".into(),
            author_pos: Pos::new(1, 2),
            relay_pos: Pos::new(2, 2),
            target_pos: Pos::new(3, 3),
            kind: TaskKind::Build,
            expected_effect: 5,
        }],
        upgrade: None,
        relocate_main: Some(vec![Pos::new(1, 2), Pos::new(2, 2)]),
    };
    assert!(!plan.is_empty());
    let dto = plan.into_player_dto();
    assert_eq!(dto.command.len(), 1);
    assert_eq!(dto.command[0].path, vec![[1, 2], [2, 2], [3, 3]]);
    assert_eq!(dto.plantation_upgrade, "");
    assert_eq!(dto.relocate_main, vec![[1, 2], [2, 2]]);
}

#[test]
fn empty_plan_is_empty() {
    let plan = TurnPlan { assignments: vec![], upgrade: None, relocate_main: None };
    assert!(plan.is_empty());
    let with_upgrade = TurnPlan { assignments: vec![], upgrade: Some("max_hp".into()), relocate_main: None };
    assert!(!with_upgrade.is_empty());
    assert_eq!(with_upgrade.into_player_dto().plantation_upgrade, "max_hp");
}

#[test]
fn backoff_doubles_up_to_twelve_seconds() {
    assert_eq!(backoff_ms(0), 1500);
    assert_eq!(backoff_ms(1), 1500);
    assert_eq!(backoff_ms(2), 3000);
    assert_eq!(backoff_ms(3), 6000);
    assert_eq!(backoff_ms(4), 12000);
    assert_eq!(backoff_ms(100), 12000);
    assert_eq!(rate_limit_wait_ms(Some(700), 3), 700);
    assert_eq!(rate_limit_wait_ms(None, 3), 6000);
}

#[test]
fn command_replies() {
    let ok = PublicError { code: 0, errors: vec![] };
    let note = PublicError { code: 0, errors: vec!["command already submitted this turn".into()] };
    let err = PublicError { code: 3, errors: vec![] };
    assert_eq!(command_outcome(&ok), CommandOutcome::Accepted);
    assert_eq!(command_outcome(&note), CommandOutcome::Noted);
    assert_eq!(command_outcome(&err), CommandOutcome::Refused);
}

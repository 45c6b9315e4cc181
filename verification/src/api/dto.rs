use vstd::prelude::*;

verus! {

/// `GET /api/arena`, with the fields that the decisions read.
#[derive(Debug, Clone)]
pub struct PlayerResponse {
    pub turn_no: Option<u32>,
    pub size: Option<[i32; 2]>,
    pub action_range: Option<i32>,
    pub plantations: Vec<PlantationDTO>,
    pub enemy: Vec<EnemyPlantationDTO>,
    pub mountains: Vec<[i32; 2]>,
    pub cells: Vec<TerraformedCellDTO>,
    pub construction: Vec<ConstructionDTO>,
    pub beavers: Vec<PlayerBeaverDTO>,
    pub plantation_upgrades: Option<PlantationUpgradesState>,
    pub meteo_forecasts: Vec<MeteoForecastDTO>,
}

#[derive(Debug, Clone)]
pub struct PlantationDTO {
    pub id: String,
    pub position: [i32; 2],
    pub hp: i32,
    pub is_main: bool,
    pub is_isolated: bool,
    pub immunity_until_turn: Option<u32>,
}

/// An enemy plantation: only id, position and hp are reported.
#[derive(Debug, Clone)]
pub struct EnemyPlantationDTO {
    pub id: String,
    pub position: [i32; 2],
    pub hp: i32,
}

#[derive(Debug, Clone)]
pub struct ConstructionDTO {
    pub position: [i32; 2],
    pub progress: i32,
}

#[derive(Debug, Clone)]
pub struct PlayerBeaverDTO {
    pub id: String,
    pub position: [i32; 2],
    pub hp: i32,
}

#[derive(Debug, Clone)]
pub struct TerraformedCellDTO {
    pub position: [i32; 2],
    pub terraformation_progress: i32,
    pub turns_until_degradation: Option<i32>,
}

#[derive(Debug, Clone)]
pub struct MeteoForecastDTO {
    /// "earthquake" | "sandstorm" | ...
    pub kind: String,
    /// earthquake: turns until the quake (0 = this turn);
    /// sandstorm: present only while forming.
    pub turns_until: Option<u32>,
    /// sandstorm only: id, changes when a new storm spawns.
    pub id: Option<String>,
    /// sandstorm only: true while gathering, false while moving.
    pub forming: Option<bool>,
    /// sandstorm only: storm center.
    pub position: Option<[i32; 2]>,
    /// sandstorm only: next center (omitted if the disk would leave the map).
    pub next_position: Option<[i32; 2]>,
    /// sandstorm only: disk radius r (dx² + dy² ≤ r²).
    pub radius: Option<i32>,
}

#[derive(Debug, Clone)]
pub struct PlantationUpgradesState {
    pub points: i32,
    pub interval_turns: Option<u32>,
    pub turns_until_points: Option<u32>,
    pub max_points: Option<i32>,
    pub tiers: Vec<PlantationUpgradeTierItemDTO>,
}

#[derive(Debug, Clone)]
pub struct PlantationUpgradeTierItemDTO {
    pub name: String,
    pub current: i32,
    pub max: i32,
}

/// `POST /api/command` body.
#[derive(Debug, Clone)]
pub struct PlayerDTO {
    pub command: Vec<PlantationActionDTO>,
    pub plantation_upgrade: String,
    pub relocate_main: Vec<[i32; 2]>,
}

/// `[author, relay, target]`: exactly three coordinates.
#[derive(Debug, Clone)]
pub struct PlantationActionDTO {
    pub path: Vec<[i32; 2]>,
}

/// Reply to `POST /api/command`.
#[derive(Debug, Clone)]
pub struct PublicError {
    pub code: i32,
    pub errors: Vec<String>,
}

/// An entry of `GET /api/logs`.
#[derive(Debug, Clone)]
pub struct LogMessage {
    pub time: String,
    pub message: String,
}

} // verus!

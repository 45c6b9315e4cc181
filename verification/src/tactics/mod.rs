pub mod beaver;
pub mod building;
pub mod cell_value;
pub mod main_safety;
pub mod relay;
pub mod repair;
pub mod sabotage;
pub mod upgrades;

pub use beaver::{beaver_attacks, plan_beaver_kill, BeaverAttack, BeaverKillPlan};
pub use building::find_buildable_cells;
pub use cell_value::{cell_features, CellFeatures};
pub use main_safety::plan_relocate_main;
pub use relay::{can_reach_via_any_relay, choose_relay, RelayChoice};
pub use repair::{repair_needs, RepairNeed};
pub use sabotage::sabotage_targets;
pub use upgrades::choose_upgrade;

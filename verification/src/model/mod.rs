pub mod memory;
pub mod occupancy;
pub mod params;
pub mod select;
pub mod state;
pub mod store;

pub use memory::Memory;
pub use params::DerivedParams;
pub use state::{
    Beaver, Cell, Construction, EnemyPlantation, GameState, MeteoForecast, Plantation, Pos,
    UpgradeTier, UpgradesState,
};

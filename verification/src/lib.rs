//! Decision core of a turn-based terraforming bot: grid geometry, the
//! 4-connected plantation graph, turn-to-turn memory, damage and limit
//! forecasts, and the tactics that pick the commands of a turn.

pub mod api;
pub mod config;
pub mod error;
pub mod geom;
pub mod graph;
pub mod metrics;
pub mod model;
pub mod planner;
pub mod predict;
pub mod tactics;
pub mod text;

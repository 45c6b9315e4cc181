pub mod assign;
pub mod laws;
pub mod tasks;
pub mod turn;

pub use assign::assign_tasks;
pub use tasks::{Assignment, Phase, TaskKind, TaskSpot, TurnPlan};
pub use turn::{assign_tasks_mvp, fallback_action, plan_turn_from_tasks};

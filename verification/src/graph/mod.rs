pub mod chain;
pub mod reach;

pub use chain::ChainGraph;

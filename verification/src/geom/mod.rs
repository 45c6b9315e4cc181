pub mod dist;
pub mod grid;

pub use dist::{adjacent4, chebyshev, in_range, manhattan};
pub use grid::{cell_base_points, cell_per_turn_yield, in_bounds, is_boosted, is_in_disk, BOOST_MOD};

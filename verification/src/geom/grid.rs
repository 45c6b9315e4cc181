use vstd::prelude::*;

use crate::model::state::Pos;

verus! {

/// Cells whose both coordinates are multiples of this are boosted.
pub const BOOST_MOD: i32 = 7;

pub open spec fn spec_is_boosted(p: Pos) -> bool {
    p.x % 7 == 0 && p.y % 7 == 0
}

pub open spec fn spec_in_bounds(p: Pos, size: (i32, i32)) -> bool {
    p.x >= 0 && p.y >= 0 && p.x < size.0 && p.y < size.1
}

/// The Euclidean disk `dx² + dy² ≤ r²` of a sandstorm.
pub open spec fn spec_in_disk(p: Pos, center: Pos, radius: int) -> bool {
    (p.x - center.x) * (p.x - center.x) + (p.y - center.y) * (p.y - center.y) <= radius * radius
}

pub open spec fn spec_cell_base_points(p: Pos) -> int {
    if spec_is_boosted(p) {
        1500
    } else {
        1000
    }
}

pub open spec fn spec_cell_per_turn_yield(p: Pos, ts: int) -> int {
    if spec_is_boosted(p) {
        ts * 15
    } else {
        ts * 10
    }
}

pub fn is_boosted(p: Pos) -> (b: bool)
    ensures
        b == spec_is_boosted(p),
{
    let rx = p.x.checked_rem_euclid(BOOST_MOD);
    let ry = p.y.checked_rem_euclid(BOOST_MOD);
    match (rx, ry) {
        (Some(a), Some(b)) => a == 0 && b == 0,
        _ => false,
    }
}

pub fn in_bounds(p: Pos, size: (i32, i32)) -> (b: bool)
    ensures
        b == spec_in_bounds(p, size),
{
    p.x >= 0 && p.y >= 0 && p.x < size.0 && p.y < size.1
}

pub fn is_in_disk(p: Pos, center: Pos, radius: i32) -> (b: bool)
    ensures
        b == spec_in_disk(p, center, radius as int),
{
    let dx = p.x as i128 - center.x as i128;
    let dy = p.y as i128 - center.y as i128;
    let r = radius as i128;
    assert(0 <= dx * dx <= 0x1_0000_0000 * 0x1_0000_0000) by (nonlinear_arith)
        requires
            -0x1_0000_0000 <= dx <= 0x1_0000_0000,
    ;
    assert(0 <= dy * dy <= 0x1_0000_0000 * 0x1_0000_0000) by (nonlinear_arith)
        requires
            -0x1_0000_0000 <= dy <= 0x1_0000_0000,
    ;
    assert(0 <= r * r <= 0x1_0000_0000 * 0x1_0000_0000) by (nonlinear_arith)
        requires
            -0x1_0000_0000 <= r <= 0x1_0000_0000,
    ;
    dx * dx + dy * dy <= r * r
}

pub fn cell_base_points(p: Pos) -> (v: i32)
    ensures
        v == spec_cell_base_points(p),
{
    if is_boosted(p) {
        1500
    } else {
        1000
    }
}

/// Points per turn for a terraforming speed `ts`: 15 per percent on a boosted
/// cell, 10 on an ordinary one.
pub fn cell_per_turn_yield(p: Pos, ts: i32) -> (v: i32)
    requires
        i32::MIN <= spec_cell_per_turn_yield(p, ts as int) <= i32::MAX,
    ensures
        v == spec_cell_per_turn_yield(p, ts as int),
{
    if is_boosted(p) {
        ts * 15
    } else {
        ts * 10
    }
}

} // verus!

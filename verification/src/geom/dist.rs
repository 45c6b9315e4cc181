use vstd::prelude::*;

use crate::model::state::Pos;

verus! {

pub open spec fn abs_int(v: int) -> int {
    if v < 0 {
        -v
    } else {
        v
    }
}

/// `max(|dx|, |dy|)`: the metric of the action, signal and vision ranges.
pub open spec fn spec_chebyshev(a: Pos, b: Pos) -> int {
    let dx = abs_int(a.x - b.x);
    let dy = abs_int(a.y - b.y);
    if dx >= dy {
        dx
    } else {
        dy
    }
}

/// `|dx| + |dy|`.
pub open spec fn spec_manhattan(a: Pos, b: Pos) -> int {
    abs_int(a.x - b.x) + abs_int(a.y - b.y)
}

/// The Chebyshev distance computed without any risk of overflow.
pub fn chebyshev_wide(a: Pos, b: Pos) -> (d: i64)
    ensures
        d == spec_chebyshev(a, b),
        0 <= d <= 0x1_0000_0000,
{
    let dx0 = a.x as i64 - b.x as i64;
    let dy0 = a.y as i64 - b.y as i64;
    let dx = if dx0 < 0 { -dx0 } else { dx0 };
    let dy = if dy0 < 0 { -dy0 } else { dy0 };
    if dx >= dy { dx } else { dy }
}

/// The Manhattan distance computed without any risk of overflow.
pub fn manhattan_wide(a: Pos, b: Pos) -> (d: i64)
    ensures
        d == spec_manhattan(a, b),
        0 <= d <= 0x2_0000_0000,
{
    let dx0 = a.x as i64 - b.x as i64;
    let dy0 = a.y as i64 - b.y as i64;
    let dx = if dx0 < 0 { -dx0 } else { dx0 };
    let dy = if dy0 < 0 { -dy0 } else { dy0 };
    dx + dy
}

/// Chebyshev distance `max(|dx|, |dy|)`.
pub fn chebyshev(a: Pos, b: Pos) -> (d: i32)
    requires
        spec_chebyshev(a, b) <= i32::MAX,
    ensures
        d == spec_chebyshev(a, b),
{
    chebyshev_wide(a, b) as i32
}

/// Manhattan distance `|dx| + |dy|`.
pub fn manhattan(a: Pos, b: Pos) -> (d: i32)
    requires
        spec_manhattan(a, b) <= i32::MAX,
    ensures
        d == spec_manhattan(a, b),
{
    manhattan_wide(a, b) as i32
}

/// 4-connected adjacency: one step along an axis, never diagonal.
pub fn adjacent4(a: Pos, b: Pos) -> (r: bool)
    ensures
        r == (spec_manhattan(a, b) == 1),
{
    manhattan_wide(a, b) == 1
}

/// `b` lies in the square of half-side `r` around `a`.
pub fn in_range(a: Pos, b: Pos, r: i32) -> (res: bool)
    ensures
        res == (spec_chebyshev(a, b) <= r),
{
    chebyshev_wide(a, b) <= r as i64
}

/// x-offset of the `d`-th of the four axis directions: right, left, down, up.
pub open spec fn dir_dx(d: int) -> int {
    if d == 0 {
        1
    } else if d == 1 {
        -1
    } else {
        0
    }
}

/// y-offset of the `d`-th of the four axis directions.
pub open spec fn dir_dy(d: int) -> int {
    if d == 2 {
        1
    } else if d == 3 {
        -1
    } else {
        0
    }
}

/// The 4-neighbour of `p` in direction `d`, when both coordinates fit `i32`.
pub open spec fn spec_step(p: Pos, d: int) -> Option<Pos> {
    let x = p.x + dir_dx(d);
    let y = p.y + dir_dy(d);
    if i32::MIN <= x <= i32::MAX && i32::MIN <= y <= i32::MAX {
        Some(Pos { x: x as i32, y: y as i32 })
    } else {
        None
    }
}

pub fn step4(p: Pos, d: usize) -> (q: Option<Pos>)
    requires
        d < 4,
    ensures
        q == spec_step(p, d as int),
{
    let dx: i64 = if d == 0 { 1 } else if d == 1 { -1 } else { 0 };
    let dy: i64 = if d == 2 { 1 } else if d == 3 { -1 } else { 0 };
    let x = p.x as i64 + dx;
    let y = p.y as i64 + dy;
    if i32::MIN as i64 <= x && x <= i32::MAX as i64 && i32::MIN as i64 <= y && y <= i32::MAX as i64 {
        Some(Pos { x: x as i32, y: y as i32 })
    } else {
        None
    }
}

pub proof fn lemma_step_adjacent(p: Pos, d: int)
    requires
        0 <= d < 4,
        spec_step(p, d) is Some,
    ensures
        spec_manhattan(p, spec_step(p, d)->0) == 1,
        spec_step(p, d)->0 != p,
{
}

} // verus!

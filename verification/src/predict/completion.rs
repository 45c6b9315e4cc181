use vstd::prelude::*;

use crate::model::params::DerivedParams;
use crate::model::state::{GameState, Plantation};

verus! {

/// The cell under a plantation reaches 100% this turn, which makes the
/// plantation vanish. No record of the cell means 0%: it does not finish.
pub open spec fn spec_will_complete_this_turn(p: Plantation, state: GameState, params: DerivedParams) -> bool {
    match state.spec_cell_idx(p.pos) {
        Some(i) => state.cells@[i].terraformation_progress + params.ts >= 100,
        None => false,
    }
}

/// `ceil(a / b)` for `b > 0`.
pub open spec fn ceil_div(a: int, b: int) -> int {
    if a % b == 0 {
        a / b
    } else {
        a / b + 1
    }
}

/// Turns until the cell under `p` reaches 100% at speed `ts`; `u32::MAX` when
/// the cell is unknown or `ts ≤ 0`.
pub open spec fn spec_turns_until_complete(p: Plantation, state: GameState, params: DerivedParams) -> int {
    match state.spec_cell_idx(p.pos) {
        Some(i) => {
            let progress = state.cells@[i].terraformation_progress as int;
            let remaining = if 100 - progress >= 0 { 100 - progress } else { 0 };
            if params.ts <= 0 {
                u32::MAX as int
            } else {
                ceil_div(remaining, params.ts as int)
            }
        },
        None => u32::MAX as int,
    }
}

pub fn turns_until_complete(p: &Plantation, state: &GameState, params: &DerivedParams) -> (t: u32)
    ensures
        t == spec_turns_until_complete(*p, *state, *params),
{
    let cell = match state.cell_at(p.pos) {
        Some(c) => c,
        None => return u32::MAX,
    };
    let diff = 100i64 - cell.terraformation_progress as i64;
    let remaining: i64 = if diff >= 0 { diff } else { 0 };
    if params.ts <= 0 {
        return u32::MAX;
    }
    let ts = params.ts as i64;
    let q = remaining / ts;
    let r = remaining % ts;
    let t = if r == 0 { q } else { q + 1 };
    assert(t <= 0x1_0000_0000) by (nonlinear_arith)
        requires
            0 <= remaining <= 0x1_0000_0000,
            ts >= 1,
            q == remaining / ts,
            t == q || t == q + 1,
            r == remaining % ts,
            r != 0 ==> t == q + 1,
            r == 0 ==> t == q,
    ;
    t as u32
}

pub fn will_complete_this_turn(p: &Plantation, state: &GameState, params: &DerivedParams) -> (b: bool)
    ensures
        b == spec_will_complete_this_turn(*p, *state, *params),
{
    match state.cell_at(p.pos) {
        Some(c) => c.terraformation_progress as i64 + params.ts as i64 >= 100,
        None => false,
    }
}

} // verus!

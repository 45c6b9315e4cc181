use vstd::prelude::*;

use crate::model::memory::{lemma_oldest_upto, oldest_upto, Memory};
use crate::model::params::{fits_i32, DerivedParams};
use crate::model::select::count_upto;
use crate::model::state::{Construction, GameState};

verus! {

/// Where the settlement count stands against the limit.
#[derive(Debug, Clone, Copy)]
pub struct LimitAnalysis {
    pub current_count: i32,
    pub our_constructions: i32,
    pub projected: i32,
    pub limit: i32,
    /// `limit - projected`
    pub slack: i32,
    pub oldest_is_main: bool,
}

pub open spec fn ours_pred(memory: Memory) -> spec_fn(Construction) -> bool {
    |c: Construction| memory.our_construction_ever@.contains(c.pos)
}

pub open spec fn spec_our_constructions(state: GameState, memory: Memory) -> int {
    count_upto(state.construction@, ours_pred(memory), state.construction@.len() as int) as int
}

pub open spec fn spec_oldest_is_main(state: GameState, memory: Memory) -> bool {
    match oldest_upto(state.plantations@, memory.birth_turn@, state.plantations@.len() as int) {
        Some(b) => state.plantations@[b].is_main,
        None => false,
    }
}

pub open spec fn limit_fits(state: GameState, memory: Memory, params: DerivedParams) -> bool {
    let projected = state.plantations@.len() + spec_our_constructions(state, memory);
    &&& fits_i32(projected)
    &&& fits_i32(params.limit - projected)
}

/// Whether `analyze_limit` can count this state in `i32` (see `limit_fits`).
pub fn limit_fits_check(state: &GameState, memory: &Memory, params: &DerivedParams) -> (b: bool)
    ensures
        b == limit_fits(*state, *memory, *params),
{
    let cs = &state.construction;
    let mut ours: usize = 0;
    let mut i: usize = 0;
    while i < cs.len()
        invariant
            i <= cs@.len(),
            ours == count_upto(cs@, ours_pred(*memory), i as int),
            ours <= i,
        decreases cs.len() - i,
    {
        if memory.is_our_construction(cs[i].pos) {
            ours = ours + 1;
        }
        i = i + 1;
    }
    let projected = state.plantations.len() as i128 + ours as i128;
    let slack = params.limit as i128 - projected;
    projected <= i32::MAX as i128 && i32::MIN as i128 <= slack && slack <= i32::MAX as i128
}

pub fn analyze_limit(state: &GameState, memory: &Memory, params: &DerivedParams) -> (la: LimitAnalysis)
    requires
        limit_fits(*state, *memory, *params),
    ensures
        la.current_count == state.plantations@.len(),
        la.our_constructions == spec_our_constructions(*state, *memory),
        la.projected == la.current_count + la.our_constructions,
        la.limit == params.limit,
        la.slack == params.limit - la.projected,
        la.oldest_is_main == spec_oldest_is_main(*state, *memory),
{
    let cs = &state.construction;
    let mut ours: usize = 0;
    let mut i: usize = 0;
    while i < cs.len()
        invariant
            i <= cs@.len(),
            ours == count_upto(cs@, ours_pred(*memory), i as int),
            ours <= i,
        decreases cs.len() - i,
    {
        if memory.is_our_construction(cs[i].pos) {
            ours = ours + 1;
        }
        i = i + 1;
    }
    let current = state.plantations.len() as i32;
    let our_cons = ours as i32;
    let projected = current + our_cons;
    proof {
        lemma_oldest_upto(state.plantations@, memory.birth_turn@, state.plantations@.len() as int);
    }
    let oldest_is_main = match memory.oldest_plantation(state) {
        Some(p) => p.is_main,
        None => false,
    };
    LimitAnalysis {
        current_count: current,
        our_constructions: our_cons,
        projected,
        limit: params.limit,
        slack: params.limit - projected,
        oldest_is_main,
    }
}

/// Whether a new construction can start without risking the main plantation:
/// past the limit the oldest plantation vanishes, so at the limit a new build
/// is only safe when the oldest one is not the main.
pub fn safe_to_start_new_build(la: &LimitAnalysis) -> (b: bool)
    ensures
        b == (la.projected < la.limit || (la.projected == la.limit && !la.oldest_is_main)),
{
    if la.projected < la.limit {
        return true;
    }
    if la.projected == la.limit {
        return !la.oldest_is_main;
    }
    false
}

} // verus!

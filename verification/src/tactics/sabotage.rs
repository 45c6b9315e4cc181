use vstd::prelude::*;

use crate::config::Config;
use crate::model::memory::Memory;
use crate::model::params::DerivedParams;
use crate::model::state::{EnemyPlantation, GameState};
use crate::planner::tasks::Phase;
use crate::planner::turn::spec_useful;
use crate::predict::completion::ceil_div;
use crate::tactics::relay::{can_reach_via_any_relay, spec_can_reach};

verus! {

/// Phases in which sabotage is allowed: by configuration, always in the endgame.
pub open spec fn spec_allowed(phase: Phase, cfg: Config) -> bool {
    match phase {
        Phase::Early => cfg.sabotage.allowed_in_early,
        Phase::Growth => cfg.sabotage.allowed_in_growth,
        Phase::Harvest => cfg.sabotage.allowed_in_harvest,
        Phase::Endgame => true,
    }
}

pub fn allowed(phase: Phase, cfg: &Config) -> (b: bool)
    ensures
        b == spec_allowed(phase, *cfg),
{
    match phase {
        Phase::Early => cfg.sabotage.allowed_in_early,
        Phase::Growth => cfg.sabotage.allowed_in_growth,
        Phase::Harvest => cfg.sabotage.allowed_in_harvest,
        Phase::Endgame => true,
    }
}

/// Some useful author can act on `e`, directly or through a relay.
pub open spec fn enemy_reachable(e: EnemyPlantation, state: GameState, params: DerivedParams) -> bool {
    exists|k: int| 0 <= k < spec_useful(state, params).len()
        && spec_can_reach(#[trigger] spec_useful(state, params)[k], e.pos, state, params)
}

/// An enemy worth a sabotage task: not suspected of immunity, and reachable.
pub open spec fn sabotage_target(e: EnemyPlantation, state: GameState, memory: Memory, params: DerivedParams) -> bool {
    &&& !(!memory.enemy_first_seen@.dom().contains(e.id@) && e.hp >= 50)
    &&& enemy_reachable(e, state, params)
}

pub open spec fn targets_upto(es: Seq<EnemyPlantation>, state: GameState, memory: Memory, params: DerivedParams, n: int) -> Seq<usize>
    decreases n,
{
    if n <= 0 {
        Seq::empty()
    } else if sabotage_target(es[n - 1], state, memory, params) {
        targets_upto(es, state, memory, params, n - 1).push((n - 1) as usize)
    } else {
        targets_upto(es, state, memory, params, n - 1)
    }
}

/// Indices of the enemies to sabotage this turn, in order; none in a phase
/// where sabotage is not allowed. An enemy seen for the first time at full hp
/// is skipped as possibly immune.
pub fn sabotage_targets(state: &GameState, memory: &Memory, params: &DerivedParams, cfg: &Config, phase: Phase) -> (r: Vec<usize>)
    ensures
        !spec_allowed(phase, *cfg) ==> r@.len() == 0,
        spec_allowed(phase, *cfg) ==> r@ == targets_upto(state.enemies@, *state, *memory, *params, state.enemies@.len() as int),
{
    let mut out: Vec<usize> = Vec::new();
    if !allowed(phase, cfg) {
        return out;
    }
    let us = state.useful_authors(params);
    let ghost sus = spec_useful(*state, *params);
    let es = &state.enemies;
    let mut i: usize = 0;
    while i < es.len()
        invariant
            i <= es@.len(),
            es == state.enemies,
            us@.len() == sus.len(),
            sus == spec_useful(*state, *params),
            forall|k: int| 0 <= k < us@.len() ==> *us@[k] == sus[k],
            out@ == targets_upto(es@, *state, *memory, *params, i as int),
        decreases es.len() - i,
    {
        let e = &es[i];
        if !memory.suspected_enemy_immunity(e.id.as_str(), e.hp) {
            let mut reachable = false;
            let mut k: usize = 0;
            while k < us.len()
                invariant
                    k <= us@.len(),
                    us@.len() == sus.len(),
                    forall|q: int| 0 <= q < us@.len() ==> *us@[q] == sus[q],
                    reachable == exists|q: int| 0 <= q < k && spec_can_reach(#[trigger] sus[q], e.pos, *state, *params),
                decreases us.len() - k,
            {
                assert(*us@[k as int] == sus[k as int]);
                let ok = can_reach_via_any_relay(us[k], e.pos, state, params);
                if ok {
                    reachable = true;
                }
                k = k + 1;
            }
            if reachable {
                out.push(i);
            }
        }
        i = i + 1;
    }
    out
}

/// How a sabotage of one enemy plantation goes.
#[derive(Debug, Clone, Copy)]
pub struct SabotageEffort {
    /// One more command finishes it: its hp is at most the sabotage power.
    pub finishing: bool,
    /// Commands needed to bring it down, at least one.
    pub commands: i64,
}

pub open spec fn spec_sabotage_commands(hp: int, se: int) -> int {
    let c = ceil_div(hp, se);
    if c >= 1 { c } else { 1 }
}

/// Effort of sabotaging `e` at `se` hp per command (`se > 0`).
pub fn sabotage_effort(e: &EnemyPlantation, params: &DerivedParams) -> (r: SabotageEffort)
    requires
        params.se > 0,
    ensures
        r.finishing == (e.hp <= params.se),
        r.commands == spec_sabotage_commands(e.hp as int, params.se as int),
{
    let commands: i64 = if e.hp <= 0 {
        proof {
            assert(ceil_div(e.hp as int, params.se as int) <= 0) by (nonlinear_arith)
                requires
                    e.hp <= 0,
                    params.se > 0,
            ;
        }
        1
    } else {
        let hp = e.hp as i64;
        let se = params.se as i64;
        let q = hp / se;
        let c = if hp % se == 0 { q } else { q + 1 };
        proof {
            assert(q >= 0 && q <= hp) by (nonlinear_arith)
                requires
                    hp > 0,
                    se > 0,
                    q == hp / se,
            ;
        }
        if c >= 1 { c } else { 1 }
    };
    SabotageEffort { finishing: e.hp <= params.se, commands }
}

} // verus!

use vstd::prelude::*;

use crate::config::Config;
use crate::geom::dist::{adjacent4, spec_manhattan};
use crate::geom::grid::{is_boosted, spec_is_boosted};
use crate::model::memory::Memory;
use crate::model::params::DerivedParams;
use crate::model::select::lemma_first_where;
use crate::model::state::{main_pred, GameState, Plantation, Pos};
use crate::predict::completion::{spec_turns_until_complete, turns_until_complete};
use crate::predict::damage::{predict_hp_fits, predict_hp_fits_check, predict_hp_next_turn, spec_predict_hp};
use crate::predict::storm::{spec_storm_threat, storm_fits, storm_predictions, storms_fit_check, storm_threatens};
use crate::text::str_eq;

verus! {

/// `v / 2` rounded toward zero.
pub open spec fn half_toward_zero(v: int) -> int {
    if v >= 0 {
        v / 2
    } else {
        -((-v) / 2)
    }
}

/// The predicted hp of the main falls below the configured fraction of the
/// maximum hp.
pub open spec fn threat_hp(main: Plantation, state: GameState, params: DerivedParams, cfg: Config) -> bool {
    let f = cfg.safety.main_critical_hp_fraction;
    spec_predict_hp(main, state, params) * f.den < params.mhp * f.num
}

/// The main cell is about to be fully terraformed (the plantation on it
/// vanishes then).
pub open spec fn threat_completion(main: Plantation, state: GameState, params: DerivedParams, cfg: Config) -> bool {
    spec_turns_until_complete(main, state, params) <= cfg.safety.main_critical_completion_turns
}

/// A storm reaches the main within the next two turns.
pub open spec fn threat_storm(main: Plantation, state: GameState) -> bool {
    spec_storm_threat(main.pos, state.meteo@, 2)
}

/// A plantation that can take over the main role: another connected
/// plantation side-adjacent to the main, with at least half the maximum hp,
/// off boosted cells, whose own cell finishes later than the main's, and out
/// of the storms' way.
pub open spec fn relocate_candidate(p: Plantation, main: Plantation, state: GameState, params: DerivedParams) -> bool {
    &&& p.id@ != main.id@
    &&& !p.is_isolated
    &&& spec_manhattan(p.pos, main.pos) == 1
    &&& p.hp >= half_toward_zero(params.mhp as int)
    &&& !spec_is_boosted(p.pos)
    &&& spec_turns_until_complete(p, state, params) > spec_turns_until_complete(main, state, params)
    &&& !spec_storm_threat(p.pos, state.meteo@, 2)
}

/// The last candidate with the largest hp among `ps[0..n)`.
pub open spec fn healthiest_candidate(ps: Seq<Plantation>, main: Plantation, state: GameState, params: DerivedParams, n: int) -> Option<int>
    decreases n,
{
    if n <= 0 {
        None
    } else {
        let prev = healthiest_candidate(ps, main, state, params, n - 1);
        if !relocate_candidate(ps[n - 1], main, state, params) {
            prev
        } else {
            match prev {
                None => Some(n - 1),
                Some(b) => if ps[n - 1].hp >= ps[b].hp {
                    Some(n - 1)
                } else {
                    Some(b)
                },
            }
        }
    }
}

/// Relocation of the main plantation: when its hp, its cell's completion or a
/// storm threatens it, `[main, best]` with the healthiest candidate.
pub open spec fn spec_relocate(state: GameState, params: DerivedParams, cfg: Config) -> Option<(Pos, Pos)> {
    match state.spec_main_idx() {
        None => None,
        Some(mi) => {
            let main = state.plantations@[mi];
            if !(threat_hp(main, state, params, cfg) || threat_completion(main, state, params, cfg) || threat_storm(main, state)) {
                None
            } else {
                match healthiest_candidate(state.plantations@, main, state, params, state.plantations@.len() as int) {
                    Some(b) => Some((main.pos, state.plantations@[b].pos)),
                    None => None,
                }
            }
        },
    }
}

pub open spec fn relocate_fits(state: GameState, params: DerivedParams, cfg: Config) -> bool {
    &&& cfg.safety.main_critical_hp_fraction.den > 0
    &&& forall|j: int| 0 <= j < state.meteo@.len() ==> storm_fits(#[trigger] state.meteo@[j], 2)
    &&& state.spec_main_idx() matches Some(mi) ==> predict_hp_fits(state.plantations@[mi], state, params)
}

/// Whether `plan_relocate_main` can run on this state (see `relocate_fits`).
pub fn relocate_fits_check(state: &GameState, params: &DerivedParams, cfg: &Config) -> (b: bool)
    ensures
        b == relocate_fits(*state, *params, *cfg),
{
    if cfg.safety.main_critical_hp_fraction.den <= 0 {
        return false;
    }
    if !storms_fit_check(&state.meteo, 2) {
        return false;
    }
    match state.main() {
        Some(m) => predict_hp_fits_check(m, state, params),
        None => true,
    }
}

proof fn lemma_healthiest(ps: Seq<Plantation>, main: Plantation, state: GameState, params: DerivedParams, n: int)
    requires
        0 <= n <= ps.len(),
    ensures
        healthiest_candidate(ps, main, state, params, n) matches Some(b)
            ==> 0 <= b < n && relocate_candidate(ps[b], main, state, params),
    decreases n,
{
    if n > 0 {
        lemma_healthiest(ps, main, state, params, n - 1);
    }
}

pub fn plan_relocate_main(state: &GameState, _memory: &Memory, params: &DerivedParams, cfg: &Config) -> (r: Option<Vec<Pos>>)
    requires
        relocate_fits(*state, *params, *cfg),
    ensures
        match spec_relocate(*state, *params, *cfg) {
            Some((from, to)) => r matches Some(v) && v@ == seq![from, to],
            None => r is None,
        },
{
    proof {
        lemma_first_where(state.plantations@, main_pred(), state.plantations@.len() as int);
    }
    let main = match state.main() {
        Some(m) => m,
        None => return None,
    };
    let predicted_hp = predict_hp_next_turn(main, state, params);
    let frac = cfg.safety.main_critical_hp_fraction;
    let a = predicted_hp as i128;
    let b = frac.den as i128;
    let c = params.mhp as i128;
    let d = frac.num as i128;
    assert(-0x1_0000_0000_0000_0000_0000_0000 <= a * b <= 0x1_0000_0000_0000_0000_0000_0000) by (nonlinear_arith)
        requires
            -0x8000_0000 <= a <= 0x8000_0000,
            -0x8000_0000_0000_0000 <= b <= 0x8000_0000_0000_0000,
    ;
    assert(-0x1_0000_0000_0000_0000_0000_0000 <= c * d <= 0x1_0000_0000_0000_0000_0000_0000) by (nonlinear_arith)
        requires
            -0x8000_0000 <= c <= 0x8000_0000,
            -0x8000_0000_0000_0000 <= d <= 0x8000_0000_0000_0000,
    ;
    let hp_threat = a * b < c * d;
    let main_turns = turns_until_complete(main, state, params);
    let completion_threat = main_turns <= cfg.safety.main_critical_completion_turns;
    let preds = storm_predictions(&state.meteo, 2);
    assert(forall|cell: Pos| spec_storm_threatens_eq(cell, preds@, state.meteo@));
    let storm_threat = storm_threatens(main.pos, preds.as_slice());
    assert(spec_storm_threatens_eq(main.pos, preds@, state.meteo@));
    if !(hp_threat || completion_threat || storm_threat) {
        return None;
    }
    let half = if params.mhp >= 0 { params.mhp / 2 } else { -((-(params.mhp as i64)) / 2) as i32 };
    let ps = &state.plantations;
    let n = ps.len();
    let mut best: Option<usize> = None;
    let mut i: usize = 0;
    while i < n
        invariant
            n == ps@.len(),
            ps == state.plantations,
            i <= n,
            half == half_toward_zero(params.mhp as int),
            main_turns == spec_turns_until_complete(*main, *state, *params),
            forall|cell: Pos| spec_storm_threatens_eq(cell, preds@, state.meteo@),
            best == (match healthiest_candidate(ps@, *main, *state, *params, i as int) {
                Some(b) => Some(b as usize),
                None => None,
            }),
        decreases n - i,
    {
        proof {
            lemma_healthiest(ps@, *main, *state, *params, i as int);
        }
        let p = &ps[i];
        assert(spec_storm_threatens_eq(p.pos, preds@, state.meteo@));
        let ok = !str_eq(p.id.as_str(), main.id.as_str())
            && !p.is_isolated
            && adjacent4(p.pos, main.pos)
            && p.hp >= half
            && !is_boosted(p.pos)
            && turns_until_complete(p, state, params) > main_turns
            && !storm_threatens(p.pos, preds.as_slice());
        if ok {
            let take = match best {
                None => true,
                Some(b) => p.hp >= ps[b].hp,
            };
            if take {
                best = Some(i);
            }
        }
        i = i + 1;
    }
    proof {
        lemma_healthiest(ps@, *main, *state, *params, n as int);
    }
    match best {
        Some(b) => Some(vec![main.pos, ps[b].pos]),
        None => None,
    }
}

pub open spec fn spec_storm_threatens_eq(cell: Pos, preds: Seq<crate::predict::storm::StormPrediction>, ms: Seq<crate::model::state::MeteoForecast>) -> bool {
    crate::predict::storm::spec_storm_threatens(cell, preds) == spec_storm_threat(cell, ms, 2)
}

/// The main plantation only ever moves onto a connected side neighbour that
/// has at least half the maximum hp.
pub proof fn law_relocation_targets_a_side_neighbour(state: GameState, params: DerivedParams, cfg: Config)
    ensures
        spec_relocate(state, params, cfg) matches Some((from, to)) ==> {
            &&& spec_manhattan(from, to) == 1
            &&& exists|k: int| 0 <= k < state.plantations@.len() && {
                let p = #[trigger] state.plantations@[k];
                &&& p.pos == to
                &&& !p.is_isolated
                &&& p.hp >= half_toward_zero(params.mhp as int)
            }
        },
{
    match state.spec_main_idx() {
        None => {},
        Some(mi) => {
            let main = state.plantations@[mi];
            lemma_healthiest(state.plantations@, main, state, params, state.plantations@.len() as int);
            match healthiest_candidate(state.plantations@, main, state, params, state.plantations@.len() as int) {
                Some(b) => {
                    assert(state.plantations@[b].pos == state.plantations@[b].pos);
                },
                None => {},
            }
        },
    }
}

proof fn lemma_healthiest_is_max(ps: Seq<Plantation>, main: Plantation, state: GameState, params: DerivedParams, n: int)
    requires
        0 <= n <= ps.len(),
    ensures
        match healthiest_candidate(ps, main, state, params, n) {
            Some(b) => forall|j: int| 0 <= j < n && relocate_candidate(#[trigger] ps[j], main, state, params) ==> ps[j].hp <= ps[b].hp,
            None => forall|j: int| 0 <= j < n ==> !relocate_candidate(#[trigger] ps[j], main, state, params),
        },
    decreases n,
{
    if n > 0 {
        lemma_healthiest_is_max(ps, main, state, params, n - 1);
    }
}

/// The main plantation moves only when threatened (by its predicted hp,
/// its cell's completion or a storm), and then onto the healthiest
/// relocation candidate; it stays when no plantation qualifies.
pub proof fn law_relocation_picks_the_healthiest(state: GameState, params: DerivedParams, cfg: Config)
    ensures
        match state.spec_main_idx() {
            None => spec_relocate(state, params, cfg) is None,
            Some(mi) => {
                let main = state.plantations@[mi];
                let threat = threat_hp(main, state, params, cfg) || threat_completion(main, state, params, cfg)
                    || threat_storm(main, state);
                &&& !threat ==> spec_relocate(state, params, cfg) is None
                &&& threat ==> match spec_relocate(state, params, cfg) {
                    Some((from, to)) => from == main.pos && exists|k: int| 0 <= k < state.plantations@.len() && {
                        let q = #[trigger] state.plantations@[k];
                        &&& q.pos == to
                        &&& relocate_candidate(q, main, state, params)
                        &&& forall|j: int| 0 <= j < state.plantations@.len()
                            && relocate_candidate(#[trigger] state.plantations@[j], main, state, params)
                            ==> state.plantations@[j].hp <= q.hp
                    },
                    None => forall|j: int| 0 <= j < state.plantations@.len()
                        ==> !relocate_candidate(#[trigger] state.plantations@[j], main, state, params),
                }
            },
        },
{
    match state.spec_main_idx() {
        None => {},
        Some(mi) => {
            let ps = state.plantations@;
            let main = ps[mi];
            lemma_healthiest(ps, main, state, params, ps.len() as int);
            lemma_healthiest_is_max(ps, main, state, params, ps.len() as int);
            match healthiest_candidate(ps, main, state, params, ps.len() as int) {
                Some(b) => {
                    assert(ps[b] == ps[b]);
                },
                None => {},
            }
        },
    }
}

/// The plantation that takes over the main role is a connected side
/// neighbour of the main with another id, at least half the maximum hp, off
/// boosted cells, out of the storms' way for two turns, and on a cell that
/// finishes strictly later than the main's (else it would vanish first).
pub proof fn law_relocation_target_outlives_the_main(state: GameState, params: DerivedParams, cfg: Config)
    ensures
        spec_relocate(state, params, cfg) matches Some((from, to)) ==> exists|mi: int, k: int|
            0 <= mi < state.plantations@.len() && 0 <= k < state.plantations@.len() && {
                let main = #[trigger] state.plantations@[mi];
                let q = #[trigger] state.plantations@[k];
                &&& main.is_main
                &&& forall|j: int| 0 <= j < mi ==> !state.plantations@[j].is_main
                &&& from == main.pos
                &&& to == q.pos
                &&& q.id@ != main.id@
                &&& !q.is_isolated
                &&& (if q.pos.x >= main.pos.x { q.pos.x - main.pos.x } else { main.pos.x - q.pos.x })
                    + (if q.pos.y >= main.pos.y { q.pos.y - main.pos.y } else { main.pos.y - q.pos.y }) == 1
                &&& 2 * q.hp >= params.mhp - (if params.mhp >= 0 { params.mhp % 2 } else { 0 })
                &&& !(q.pos.x % 7 == 0 && q.pos.y % 7 == 0)
                &&& spec_turns_until_complete(q, state, params) > spec_turns_until_complete(main, state, params)
                &&& !spec_storm_threat(q.pos, state.meteo@, 2)
            },
{
    match state.spec_main_idx() {
        None => {},
        Some(mi) => {
            lemma_first_where(state.plantations@, main_pred(), state.plantations@.len() as int);
            let ps = state.plantations@;
            let main = ps[mi];
            assert(main_pred()(main));
            assert forall|j: int| 0 <= j < mi implies !state.plantations@[j].is_main by {
                assert(!main_pred()(ps[j]));
            }
            lemma_healthiest(ps, main, state, params, ps.len() as int);
            match healthiest_candidate(ps, main, state, params, ps.len() as int) {
                Some(b) => {
                    let q = ps[b];
                    assert(relocate_candidate(q, main, state, params));
                    assert(2 * q.hp >= params.mhp - (if params.mhp >= 0 { params.mhp % 2 } else { 0 })) by {
                        assert(q.hp >= half_toward_zero(params.mhp as int));
                    }
                    assert(ps[mi] == main && ps[b] == q);
                },
                None => {},
            }
        },
    }
}

} // verus!

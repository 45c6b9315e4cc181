use vstd::prelude::*;

use crate::model::params::{fits_i32, DerivedParams};
use crate::model::select::lemma_filter_upto;
use crate::model::state::{controllable_pred, GameState, Plantation, Pos};
use crate::planner::turn::spec_controllable;
use crate::predict::damage::{predict_hp_fits, predict_hp_fits_check, predict_hp_next_turn, predict_hp_wide, spec_predict_hp};

verus! {

/// A plantation that should be repaired this turn.
#[derive(Debug, Clone)]
pub struct RepairNeed {
    pub target_id: String,
    pub target: Pos,
    /// The predicted hp is at most a quarter of the maximum.
    pub critical: bool,
    /// Missing hp (at least 1): against the predicted hp when critical, the
    /// current hp otherwise.
    pub missing: i32,
}

/// `v / 4` rounded toward zero.
pub open spec fn quarter_toward_zero(v: int) -> int {
    if v >= 0 {
        v / 4
    } else {
        -((-v) / 4)
    }
}

pub open spec fn at_least_one(v: int) -> int {
    if v >= 1 {
        v
    } else {
        1
    }
}

/// The repair need of `p`: critical when the predicted hp is at most a
/// quarter of the maximum; planned when the current hp is below 70% of it.
pub open spec fn spec_need(p: Plantation, state: GameState, params: DerivedParams) -> Option<RepairNeed> {
    let ph = spec_predict_hp(p, state, params);
    if ph <= quarter_toward_zero(params.mhp as int) {
        Some(RepairNeed { target_id: p.id, target: p.pos, critical: true, missing: at_least_one(params.mhp - ph) as i32 })
    } else if 10 * p.hp < 7 * params.mhp {
        Some(RepairNeed { target_id: p.id, target: p.pos, critical: false, missing: at_least_one(params.mhp - p.hp) as i32 })
    } else {
        None
    }
}

pub open spec fn needs_upto(cs: Seq<Plantation>, state: GameState, params: DerivedParams, n: int) -> Seq<RepairNeed>
    decreases n,
{
    if n <= 0 {
        Seq::empty()
    } else {
        match spec_need(cs[n - 1], state, params) {
            Some(r) => needs_upto(cs, state, params, n - 1).push(r),
            None => needs_upto(cs, state, params, n - 1),
        }
    }
}

/// Every computation of the needs stays within `i32`.
pub open spec fn repair_fits(state: GameState, params: DerivedParams) -> bool {
    forall|k: int| 0 <= k < spec_controllable(state).len() ==> {
        let p = #[trigger] spec_controllable(state)[k];
        &&& predict_hp_fits(p, state, params)
        &&& fits_i32(params.mhp - spec_predict_hp(p, state, params))
        &&& fits_i32(params.mhp - p.hp)
    }
}

/// Whether `repair_needs` can run on this state (see `repair_fits`).
pub fn repair_fits_check(state: &GameState, params: &DerivedParams) -> (b: bool)
    ensures
        b == repair_fits(*state, *params),
{
    let cs = state.controllable();
    let ghost scs = spec_controllable(*state);
    let mut i: usize = 0;
    while i < cs.len()
        invariant
            i <= cs@.len(),
            cs@.len() == scs.len(),
            scs == spec_controllable(*state),
            forall|k: int| 0 <= k < cs@.len() ==> *cs@[k] == scs[k],
            forall|k: int| 0 <= k < i ==> {
                let p = #[trigger] scs[k];
                &&& predict_hp_fits(p, *state, *params)
                &&& fits_i32(params.mhp - spec_predict_hp(p, *state, *params))
                &&& fits_i32(params.mhp - p.hp)
            },
        decreases cs.len() - i,
    {
        let p = cs[i];
        assert(*p == scs[i as int]);
        if !predict_hp_fits_check(p, state, params) {
            return false;
        }
        let hp = predict_hp_wide(p, state, params);
        let m = params.mhp as i128;
        if !(i32::MIN as i128 <= m - hp && m - hp <= i32::MAX as i128) {
            return false;
        }
        let d = params.mhp as i64 - p.hp as i64;
        if !(i32::MIN as i64 <= d && d <= i32::MAX as i64) {
            return false;
        }
        i = i + 1;
    }
    true
}

/// Plantations to repair, in the order of the controllable ones. A
/// plantation cannot repair itself: authors are filtered at assignment.
pub fn repair_needs(state: &GameState, params: &DerivedParams) -> (r: Vec<RepairNeed>)
    requires
        repair_fits(*state, *params),
    ensures
        r@ == needs_upto(spec_controllable(*state), *state, *params, spec_controllable(*state).len() as int),
{
    let cs = state.controllable();
    let ghost scs = spec_controllable(*state);
    let quarter = if params.mhp >= 0 { params.mhp / 4 } else { -((-(params.mhp as i64)) / 4) as i32 };
    let n = cs.len();
    let mut out: Vec<RepairNeed> = Vec::new();
    let mut i: usize = 0;
    while i < n
        invariant
            n == cs@.len(),
            n == scs.len(),
            scs == spec_controllable(*state),
            forall|k: int| 0 <= k < n ==> *cs@[k] == scs[k],
            repair_fits(*state, *params),
            quarter == quarter_toward_zero(params.mhp as int),
            i <= n,
            out@ == needs_upto(scs, *state, *params, i as int),
        decreases n - i,
    {
        let p = cs[i];
        assert(*p == scs[i as int]);
        let ph = predict_hp_next_turn(p, state, params);
        if ph <= quarter {
            let m = params.mhp - ph;
            out.push(RepairNeed { target_id: p.id.clone(), target: p.pos, critical: true, missing: if m >= 1 { m } else { 1 } });
        } else if 10 * (p.hp as i64) < 7 * (params.mhp as i64) {
            let m = params.mhp - p.hp;
            out.push(RepairNeed { target_id: p.id.clone(), target: p.pos, critical: false, missing: if m >= 1 { m } else { 1 } });
        }
        i = i + 1;
    }
    out
}

proof fn lemma_needs_upto(cs: Seq<Plantation>, state: GameState, params: DerivedParams, n: int)
    requires
        0 <= n <= cs.len(),
    ensures
        forall|k: int| 0 <= k < needs_upto(cs, state, params, n).len() ==> exists|j: int|
            0 <= j < n && spec_need(cs[j], state, params) == Some(#[trigger] needs_upto(cs, state, params, n)[k]),
        forall|j: int| 0 <= j < n && (#[trigger] spec_need(cs[j], state, params)) is Some
            ==> needs_upto(cs, state, params, n).contains(spec_need(cs[j], state, params)->0),
    decreases n,
{
    if n > 0 {
        lemma_needs_upto(cs, state, params, n - 1);
        let prev = needs_upto(cs, state, params, n - 1);
        match spec_need(cs[n - 1], state, params) {
            Some(r) => {
                let cur = prev.push(r);
                assert forall|k: int| 0 <= k < cur.len() implies exists|j: int|
                    0 <= j < n && spec_need(cs[j], state, params) == Some(#[trigger] cur[k]) by {
                    if k < prev.len() {
                        assert(cur[k] == prev[k]);
                    } else {
                        assert(spec_need(cs[n - 1], state, params) == Some(cur[k]));
                    }
                }
                assert forall|j: int| 0 <= j < n && (#[trigger] spec_need(cs[j], state, params)) is Some
                    implies cur.contains(spec_need(cs[j], state, params)->0) by {
                    if j < n - 1 {
                        let k = choose|k: int| 0 <= k < prev.len() && prev[k] == spec_need(cs[j], state, params)->0;
                        assert(cur[k] == prev[k]);
                    } else {
                        assert(cur[prev.len() as int] == r);
                    }
                }
            },
            None => {},
        }
    }
}

/// Every connected plantation whose predicted hp is at most a quarter of the
/// maximum (critical), or whose hp is below 70% of it, gets a repair need,
/// and every need is the need of a connected plantation.
pub proof fn law_repair_needs_cover_the_weak(state: GameState, params: DerivedParams)
    ensures
        ({
            let ps = state.plantations@;
            let cs = spec_controllable(state);
            let needs = needs_upto(cs, state, params, cs.len() as int);
            &&& forall|j: int| 0 <= j < ps.len() && !(#[trigger] ps[j]).is_isolated
                && spec_need(ps[j], state, params) is Some
                ==> needs.contains(spec_need(ps[j], state, params)->0)
            &&& forall|k: int| 0 <= k < needs.len() ==> exists|j: int|
                0 <= j < ps.len() && !ps[j].is_isolated && spec_need(ps[j], state, params) == Some(#[trigger] needs[k])
        }),
{
    let ps = state.plantations@;
    let cs = spec_controllable(state);
    lemma_filter_upto(ps, controllable_pred(), ps.len() as int);
    lemma_needs_upto(cs, state, params, cs.len() as int);
    let needs = needs_upto(cs, state, params, cs.len() as int);
    assert forall|j: int| 0 <= j < ps.len() && !(#[trigger] ps[j]).is_isolated
        && spec_need(ps[j], state, params) is Some implies needs.contains(spec_need(ps[j], state, params)->0) by {
        assert(controllable_pred()(ps[j]));
        assert(cs.contains(ps[j]));
        let c = choose|c: int| 0 <= c < cs.len() && cs[c] == ps[j];
        assert(spec_need(cs[c], state, params) is Some);
    }
    assert forall|k: int| 0 <= k < needs.len() implies exists|j: int|
        0 <= j < ps.len() && !ps[j].is_isolated && spec_need(ps[j], state, params) == Some(#[trigger] needs[k]) by {
        let c = choose|c: int| 0 <= c < cs.len() && spec_need(cs[c], state, params) == Some(needs[k]);
        assert(controllable_pred()(cs[c]));
        let j = choose|j: int| 0 <= j < ps.len() && ps[j] == cs[c];
        assert(spec_need(ps[j], state, params) == Some(needs[k]));
    }
}

proof fn lemma_needs_in_order(cs: Seq<Plantation>, state: GameState, params: DerivedParams, n: int) -> (f: Seq<int>)
    requires
        0 <= n <= cs.len(),
    ensures
        f.len() == needs_upto(cs, state, params, n).len(),
        forall|a: int, b: int| 0 <= a < b < f.len() ==> f[a] < f[b],
        forall|k: int| 0 <= k < f.len() ==> 0 <= #[trigger] f[k] < n
            && spec_need(cs[f[k]], state, params) == Some(needs_upto(cs, state, params, n)[k]),
        forall|j: int| 0 <= j < n && (#[trigger] spec_need(cs[j], state, params)) is Some
            ==> exists|k: int| 0 <= k < f.len() && f[k] == j,
    decreases n,
{
    if n <= 0 {
        Seq::empty()
    } else {
        let f0 = lemma_needs_in_order(cs, state, params, n - 1);
        match spec_need(cs[n - 1], state, params) {
            Some(r) => {
                let f = f0.push(n - 1);
                assert forall|k: int| 0 <= k < f.len() implies 0 <= #[trigger] f[k] < n
                    && spec_need(cs[f[k]], state, params) == Some(needs_upto(cs, state, params, n)[k]) by {
                    if k < f0.len() {
                        assert(f[k] == f0[k]);
                    }
                }
                assert forall|j: int| 0 <= j < n && (#[trigger] spec_need(cs[j], state, params)) is Some
                    implies exists|k: int| 0 <= k < f.len() && f[k] == j by {
                    if j < n - 1 {
                        let k = choose|k: int| 0 <= k < f0.len() && f0[k] == j;
                        assert(f[k] == f0[k]);
                    } else {
                        assert(f[f0.len() as int] == j);
                    }
                }
                f
            },
            None => {
                assert forall|j: int| 0 <= j < n && (#[trigger] spec_need(cs[j], state, params)) is Some
                    implies exists|k: int| 0 <= k < f0.len() && f0[k] == j by {
                    assert(j < n - 1);
                }
                f0
            },
        }
    }
}

/// The repair needs come one per connected plantation that has a need, in
/// the order of the connected plantations, and no other.
pub proof fn law_repair_needs_in_order(state: GameState, params: DerivedParams)
    ensures
        ({
            let cs = spec_controllable(state);
            let needs = needs_upto(cs, state, params, cs.len() as int);
            exists|f: Seq<int>| {
                &&& f.len() == needs.len()
                &&& forall|a: int, b: int| 0 <= a < b < f.len() ==> f[a] < f[b]
                &&& forall|k: int| 0 <= k < f.len() ==> 0 <= #[trigger] f[k] < cs.len()
                    && spec_need(cs[f[k]], state, params) == Some(needs[k])
                &&& forall|j: int| 0 <= j < cs.len() && (#[trigger] spec_need(cs[j], state, params)) is Some
                    ==> exists|k: int| 0 <= k < f.len() && f[k] == j
            }
        }),
{
    let cs = spec_controllable(state);
    let f = lemma_needs_in_order(cs, state, params, cs.len() as int);
}

/// On the inputs `repair_needs` accepts (the missing hp fits `i32`): each
/// repair need belongs, in order, to a connected plantation `p`. It is
/// critical exactly when the forecast hp of `p` for the next turn is at most
/// a quarter of the maximum (`mhp / 4`, rounded toward zero), with
/// `max(1, mhp - forecast)` hp missing; otherwise `p` has less than 70% of the
/// maximum now, with `max(1, mhp - hp)` missing. Every connected plantation
/// meeting either condition has its need.
pub proof fn law_repair_needs_read_the_forecast(state: GameState, params: DerivedParams)
    requires
        repair_fits(state, params),
    ensures
        ({
            let cs = spec_controllable(state);
            let needs = needs_upto(cs, state, params, cs.len() as int);
            let quarter = if params.mhp >= 0 { params.mhp / 4 } else { -((-params.mhp) / 4) };
            exists|f: Seq<int>| {
                &&& f.len() == needs.len()
                &&& forall|a: int, b: int| 0 <= a < b < f.len() ==> f[a] < f[b]
                &&& forall|k: int| 0 <= k < f.len() ==> 0 <= #[trigger] f[k] < cs.len() && {
                    let p = cs[f[k]];
                    let r = needs[k];
                    let ph = spec_predict_hp(p, state, params);
                    &&& !p.is_isolated
                    &&& r.target_id == p.id
                    &&& r.target == p.pos
                    &&& r.critical == (ph <= quarter)
                    &&& r.critical ==> r.missing == (if params.mhp - ph >= 1 { params.mhp - ph } else { 1 })
                    &&& !r.critical ==> 10 * p.hp < 7 * params.mhp
                        && r.missing == (if params.mhp - p.hp >= 1 { params.mhp - p.hp } else { 1 })
                }
                &&& forall|j: int| 0 <= j < cs.len()
                    && (spec_predict_hp(#[trigger] cs[j], state, params) <= quarter || 10 * cs[j].hp < 7 * params.mhp)
                    ==> exists|k: int| 0 <= k < f.len() && f[k] == j
            }
        }),
{
    let cs = spec_controllable(state);
    let ps = state.plantations@;
    lemma_filter_upto(ps, controllable_pred(), ps.len() as int);
    let f = lemma_needs_in_order(cs, state, params, cs.len() as int);
    let needs = needs_upto(cs, state, params, cs.len() as int);
    let quarter = if params.mhp >= 0 { params.mhp / 4 } else { -((-params.mhp) / 4) };
    assert(quarter == quarter_toward_zero(params.mhp as int));
    assert forall|k: int| 0 <= k < f.len() implies 0 <= #[trigger] f[k] < cs.len() && {
        let p = cs[f[k]];
        let r = needs[k];
        let ph = spec_predict_hp(p, state, params);
        &&& !p.is_isolated
        &&& r.target_id == p.id
        &&& r.target == p.pos
        &&& r.critical == (ph <= quarter)
        &&& r.critical ==> r.missing == (if params.mhp - ph >= 1 { params.mhp - ph } else { 1 })
        &&& !r.critical ==> 10 * p.hp < 7 * params.mhp
            && r.missing == (if params.mhp - p.hp >= 1 { params.mhp - p.hp } else { 1 })
    } by {
        let p = cs[f[k]];
        assert(controllable_pred()(p));
        assert(spec_need(p, state, params) == Some(needs[k]));
        assert(p == spec_controllable(state)[f[k]]);
        assert(fits_i32(params.mhp - spec_predict_hp(p, state, params)));
        assert(fits_i32(params.mhp - p.hp));
    }
    assert forall|j: int| 0 <= j < cs.len()
        && (spec_predict_hp(#[trigger] cs[j], state, params) <= quarter_toward_zero(params.mhp as int) || 10 * cs[j].hp < 7 * params.mhp)
        implies exists|k: int| 0 <= k < f.len() && f[k] == j by {
        assert(spec_need(cs[j], state, params) is Some);
    }
}

} // verus!

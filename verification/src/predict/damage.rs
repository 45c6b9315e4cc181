use vstd::prelude::*;

use crate::geom::dist::{chebyshev_wide, spec_chebyshev};
use crate::geom::grid::{is_in_disk, spec_in_disk};
use crate::model::params::{fits_i32, params_fit, spec_params, DerivedParams};
use crate::model::select::{count_upto, first_where, lemma_count_none, lemma_count_push, lemma_first_where, lemma_first_where_stable};
use crate::model::state::{Beaver, Construction, GameState, MeteoForecast, Plantation, Pos};
use crate::text::str_eq;

verus! {

/// A beaver lair hits everything within Chebyshev distance 2.
pub open spec fn beaver_near_pred(pos: Pos) -> spec_fn(Beaver) -> bool {
    |b: Beaver| spec_chebyshev(pos, b.pos) <= 2
}

/// An earthquake that strikes this turn.
pub open spec fn quake_now_pred() -> spec_fn(MeteoForecast) -> bool {
    |m: MeteoForecast| m.kind@ == "earthquake"@ && m.turns_until == Some(0u32)
}

/// A moving sandstorm whose next disk covers `pos`.
pub open spec fn storm_hit_pred(pos: Pos) -> spec_fn(MeteoForecast) -> bool {
    |m: MeteoForecast| {
        &&& m.kind@ == "sandstorm"@
        &&& m.forming == Some(false)
        &&& m.next_position is Some
        &&& m.radius is Some
        &&& spec_in_disk(pos, m.next_position->0, m.radius->0 as int)
    }
}

/// Damage that can destroy: lairs in range and an earthquake this turn.
pub open spec fn spec_lethal(pos: Pos, state: GameState, params: DerivedParams) -> int {
    count_upto(state.beavers@, beaver_near_pred(pos), state.beavers@.len() as int) * params.beaver_dmg
        + count_upto(state.meteo@, quake_now_pred(), state.meteo@.len() as int) * params.earthquake_dmg
}

pub open spec fn spec_storm_hits(pos: Pos, state: GameState) -> bool {
    first_where(state.meteo@, storm_hit_pred(pos), state.meteo@.len() as int) is Some
}

/// Immunity runs through turn `immunity_until_turn` inclusive, so it covers
/// the next turn when that turn is at least `turn_no + 1`.
pub open spec fn spec_immune_next_turn(p: Plantation, state: GameState) -> bool {
    p.immunity_until_turn >= state.turn_no + 1
}

/// Hp of `p` at the end of the next damage phase. Immunity covering the next
/// turn keeps it. A sandstorm cannot destroy (it stops at 1 hp), but it does
/// not save a plantation that beavers or an earthquake already finish off.
pub open spec fn spec_predict_hp(p: Plantation, state: GameState, params: DerivedParams) -> int {
    if spec_immune_next_turn(p, state) {
        p.hp as int
    } else {
        let after = p.hp - spec_lethal(p.pos, state, params);
        if after <= 0 {
            after
        } else if spec_storm_hits(p.pos, state) {
            if after - params.storm_dmg >= 1 {
                after - params.storm_dmg
            } else {
                1
            }
        } else {
            after
        }
    }
}

/// The prediction fits `i32`.
pub open spec fn predict_hp_fits(p: Plantation, state: GameState, params: DerivedParams) -> bool {
    !spec_immune_next_turn(p, state) ==> {
        let after = p.hp - spec_lethal(p.pos, state, params);
        &&& fits_i32(after)
        &&& (after > 0 && spec_storm_hits(p.pos, state)) ==> fits_i32(after - params.storm_dmg)
    }
}

fn count_beavers_near(bs: &Vec<Beaver>, pos: Pos) -> (n: usize)
    ensures
        n == count_upto(bs@, beaver_near_pred(pos), bs@.len() as int),
{
    let mut cnt: usize = 0;
    let mut i: usize = 0;
    while i < bs.len()
        invariant
            i <= bs@.len(),
            cnt == count_upto(bs@, beaver_near_pred(pos), i as int),
            cnt <= i,
        decreases bs.len() - i,
    {
        if chebyshev_wide(pos, bs[i].pos) <= 2 {
            cnt = cnt + 1;
        }
        i = i + 1;
    }
    cnt
}

fn count_quakes_now(ms: &Vec<MeteoForecast>) -> (n: usize)
    ensures
        n == count_upto(ms@, quake_now_pred(), ms@.len() as int),
{
    let mut cnt: usize = 0;
    let mut i: usize = 0;
    while i < ms.len()
        invariant
            i <= ms@.len(),
            cnt == count_upto(ms@, quake_now_pred(), i as int),
            cnt <= i,
        decreases ms.len() - i,
    {
        let now = match ms[i].turns_until {
            Some(v) => v == 0,
            None => false,
        };
        if now && str_eq(ms[i].kind.as_str(), "earthquake") {
            cnt = cnt + 1;
        }
        i = i + 1;
    }
    cnt
}

pub fn lethal_damage(pos: Pos, state: &GameState, params: &DerivedParams) -> (d: i128)
    ensures
        d == spec_lethal(pos, *state, *params),
        -0x2_0000_0000_0000_0000_0000_0000 <= d <= 0x2_0000_0000_0000_0000_0000_0000,
{
    let nb = count_beavers_near(&state.beavers, pos) as i128;
    let nq = count_quakes_now(&state.meteo) as i128;
    let bd = params.beaver_dmg as i128;
    let ed = params.earthquake_dmg as i128;
    assert(-0x1_0000_0000_0000_0000_0000_0000 <= nb * bd <= 0x1_0000_0000_0000_0000_0000_0000) by (nonlinear_arith)
        requires
            0 <= nb <= 0x1_0000_0000_0000_0000,
            -0x8000_0000 <= bd <= 0x8000_0000,
    ;
    assert(-0x1_0000_0000_0000_0000_0000_0000 <= nq * ed <= 0x1_0000_0000_0000_0000_0000_0000) by (nonlinear_arith)
        requires
            0 <= nq <= 0x1_0000_0000_0000_0000,
            -0x8000_0000 <= ed <= 0x8000_0000,
    ;
    nb * bd + nq * ed
}

fn storm_hits(pos: Pos, ms: &Vec<MeteoForecast>) -> (b: bool)
    ensures
        b == (first_where(ms@, storm_hit_pred(pos), ms@.len() as int) is Some),
{
    let n = ms.len();
    let mut i: usize = 0;
    while i < n
        invariant
            n == ms@.len(),
            i <= n,
            first_where(ms@, storm_hit_pred(pos), i as int) is None,
        decreases n - i,
    {
        let m = &ms[i];
        let moving = match m.forming {
            Some(f) => !f,
            None => false,
        };
        if moving && str_eq(m.kind.as_str(), "sandstorm") {
            match (m.next_position, m.radius) {
                (Some(next), Some(r)) => {
                    if is_in_disk(pos, next, r) {
                        proof {
                            assert(first_where(ms@, storm_hit_pred(pos), i + 1) == Some(i as int));
                            lemma_first_where_stable(ms@, storm_hit_pred(pos), i + 1, n as int);
                        }
                        return true;
                    }
                },
                _ => {},
            }
        }
        i = i + 1;
    }
    false
}

/// The prediction of `spec_predict_hp` in a type wide enough for any input.
pub fn predict_hp_wide(p: &Plantation, state: &GameState, params: &DerivedParams) -> (hp: i128)
    ensures
        hp == spec_predict_hp(*p, *state, *params),
{
    if p.immunity_until_turn as u64 >= state.turn_no as u64 + 1 {
        return p.hp as i128;
    }
    let lethal = lethal_damage(p.pos, state, params);
    let after = p.hp as i128 - lethal;
    if after <= 0 {
        return after;
    }
    if storm_hits(p.pos, &state.meteo) {
        let hit = after - params.storm_dmg as i128;
        if hit >= 1 {
            hit
        } else {
            1
        }
    } else {
        after
    }
}

fn fits_i32_i128(v: i128) -> (b: bool)
    ensures
        b == fits_i32(v as int),
{
    i32::MIN as i128 <= v && v <= i32::MAX as i128
}

/// Whether the prediction for `p` stays within `i32` (see `predict_hp_fits`).
pub fn predict_hp_fits_check(p: &Plantation, state: &GameState, params: &DerivedParams) -> (b: bool)
    ensures
        b == predict_hp_fits(*p, *state, *params),
{
    if p.immunity_until_turn as u64 >= state.turn_no as u64 + 1 {
        return true;
    }
    let lethal = lethal_damage(p.pos, state, params);
    let after = p.hp as i128 - lethal;
    if !fits_i32_i128(after) {
        return false;
    }
    if after > 0 && storm_hits(p.pos, &state.meteo) {
        fits_i32_i128(after - params.storm_dmg as i128)
    } else {
        true
    }
}

/// Whether the damage to a construction on `pos` fits `i32`.
pub fn lethal_fits_check(pos: Pos, state: &GameState, params: &DerivedParams) -> (b: bool)
    ensures
        b == fits_i32(spec_lethal(pos, *state, *params)),
{
    fits_i32_i128(lethal_damage(pos, state, params))
}

/// Hp of `p` at the end of the next damage phase (see `spec_predict_hp`).
pub fn predict_hp_next_turn(p: &Plantation, state: &GameState, params: &DerivedParams) -> (hp: i32)
    requires
        predict_hp_fits(*p, *state, *params),
    ensures
        hp == spec_predict_hp(*p, *state, *params),
{
    if p.immunity_until_turn as u64 >= state.turn_no as u64 + 1 {
        return p.hp;
    }
    let lethal = lethal_damage(p.pos, state, params);
    let after = p.hp as i128 - lethal;
    if after <= 0 {
        return after as i32;
    }
    if storm_hits(p.pos, &state.meteo) {
        let hit = after - params.storm_dmg as i128;
        if hit >= 1 {
            hit as i32
        } else {
            1
        }
    } else {
        after as i32
    }
}

/// How much hp `p` loses in the next damage phase.
pub fn predicted_damage(p: &Plantation, state: &GameState, params: &DerivedParams) -> (d: i32)
    requires
        predict_hp_fits(*p, *state, *params),
        fits_i32(p.hp - spec_predict_hp(*p, *state, *params)),
    ensures
        d == p.hp - spec_predict_hp(*p, *state, *params),
{
    p.hp - predict_hp_next_turn(p, state, params)
}

/// Damage to a construction: beavers hit constructions too, an earthquake
/// hits all plantations and buildings; sandstorms are not counted.
pub fn predict_construction_damage(c: &Construction, state: &GameState, params: &DerivedParams) -> (d: i32)
    requires
        fits_i32(spec_lethal(c.pos, *state, *params)),
    ensures
        d == spec_lethal(c.pos, *state, *params),
{
    lethal_damage(c.pos, state, params) as i32
}

/// Storms alone never take a living plantation below 1 hp.
pub proof fn law_storm_alone_never_destroys(p: Plantation, state: GameState, params: DerivedParams)
    requires
        !spec_immune_next_turn(p, state),
        p.hp - spec_lethal(p.pos, state, params) > 0,
    ensures
        spec_predict_hp(p, state, params) >= 1,
{
}

/// Immunity that lasts past the next turn leaves the hp untouched.
pub proof fn law_immunity_blocks_damage(p: Plantation, state: GameState, params: DerivedParams)
    requires
        spec_immune_next_turn(p, state),
    ensures
        spec_predict_hp(p, state, params) == p.hp,
{
}

/// The forecast never heals: with the parameters derived from the state (as
/// `DerivedParams::from_state` derives them), the predicted hp is at most the
/// current hp.
pub proof fn law_prediction_never_heals(p: Plantation, state: GameState)
    requires
        params_fit(state.upgrades.tiers@),
    ensures
        spec_predict_hp(p, state, spec_params(state)) <= p.hp,
{
    let params = spec_params(state);
    let nb = count_upto(state.beavers@, beaver_near_pred(p.pos), state.beavers@.len() as int) as int;
    let nq = count_upto(state.meteo@, quake_now_pred(), state.meteo@.len() as int) as int;
    let bd = params.beaver_dmg as int;
    let ed = params.earthquake_dmg as int;
    assert(bd >= 0 && ed >= 0);
    assert(nb * bd >= 0 && nq * ed >= 0) by (nonlinear_arith)
        requires
            nb >= 0,
            nq >= 0,
            bd >= 0,
            ed >= 0,
    ;
    assert(spec_lethal(p.pos, state, params) >= 0);
}

/// A lair adds `beaver_dmg` to the lethal damage at `pos` when it stands
/// within Chebyshev distance 2 of it (`max(|dx|, |dy|) <= 2`), and nothing
/// when it stands farther: `state2` is `state` with one more lair `b`.
pub proof fn law_lair_hits_within_two(pos: Pos, state: GameState, state2: GameState, b: Beaver, params: DerivedParams)
    requires
        state2.beavers@ == state.beavers@.push(b),
        state2.meteo@ == state.meteo@,
    ensures
        spec_lethal(pos, state2, params) == spec_lethal(pos, state, params) + (
            if (if pos.x >= b.pos.x { pos.x - b.pos.x } else { b.pos.x - pos.x }) <= 2
                && (if pos.y >= b.pos.y { pos.y - b.pos.y } else { b.pos.y - pos.y }) <= 2 {
                params.beaver_dmg as int
            } else {
                0
            }
        ),
{
    let f = beaver_near_pred(pos);
    lemma_count_push(state.beavers@, b, f);
    let c = count_upto(state.beavers@, f, state.beavers@.len() as int) as int;
    let d = params.beaver_dmg as int;
    assert((c + 1) * d == c * d + d) by (nonlinear_arith);
}

/// No lair within Chebyshev distance 2 of `pos` and no earthquake striking
/// this turn: no lethal damage at `pos`.
pub proof fn law_no_lethal_source_no_damage(pos: Pos, state: GameState, params: DerivedParams)
    requires
        forall|i: int| 0 <= i < state.beavers@.len() ==> {
            let b = #[trigger] state.beavers@[i];
            (if pos.x >= b.pos.x { pos.x - b.pos.x } else { b.pos.x - pos.x }) > 2
                || (if pos.y >= b.pos.y { pos.y - b.pos.y } else { b.pos.y - pos.y }) > 2
        },
        forall|i: int| 0 <= i < state.meteo@.len() ==> {
            let m = #[trigger] state.meteo@[i];
            !(m.kind@ == "earthquake"@ && m.turns_until == Some(0u32))
        },
    ensures
        spec_lethal(pos, state, params) == 0,
{
    lemma_count_none(state.beavers@, beaver_near_pred(pos), state.beavers@.len() as int);
    lemma_count_none(state.meteo@, quake_now_pred(), state.meteo@.len() as int);
}

/// A plantation out of reach of every lair (Chebyshev distance above 2), with
/// no earthquake this turn and no moving sandstorm whose next disk covers it,
/// keeps its hp in the forecast.
pub proof fn law_out_of_reach_keeps_hp(p: Plantation, state: GameState, params: DerivedParams)
    requires
        forall|i: int| 0 <= i < state.beavers@.len() ==> {
            let b = #[trigger] state.beavers@[i];
            (if p.pos.x >= b.pos.x { p.pos.x - b.pos.x } else { b.pos.x - p.pos.x }) > 2
                || (if p.pos.y >= b.pos.y { p.pos.y - b.pos.y } else { b.pos.y - p.pos.y }) > 2
        },
        forall|i: int| 0 <= i < state.meteo@.len() ==> {
            let m = #[trigger] state.meteo@[i];
            &&& !(m.kind@ == "earthquake"@ && m.turns_until == Some(0u32))
            &&& !(m.kind@ == "sandstorm"@ && m.forming == Some(false) && m.next_position is Some && m.radius is Some
                && (p.pos.x - m.next_position->0.x) * (p.pos.x - m.next_position->0.x)
                    + (p.pos.y - m.next_position->0.y) * (p.pos.y - m.next_position->0.y)
                    <= (m.radius->0 as int) * (m.radius->0 as int))
        },
    ensures
        spec_predict_hp(p, state, params) == p.hp,
{
    law_no_lethal_source_no_damage(p.pos, state, params);
    lemma_first_where(state.meteo@, storm_hit_pred(p.pos), state.meteo@.len() as int);
    if spec_storm_hits(p.pos, state) {
        let i = first_where(state.meteo@, storm_hit_pred(p.pos), state.meteo@.len() as int)->0;
        assert(storm_hit_pred(p.pos)(state.meteo@[i]));
    }
}

} // verus!

use vstd::prelude::*;

use crate::config::Config;
use crate::geom::grid::{cell_base_points, spec_cell_base_points};
use crate::model::params::{fits_i32, DerivedParams};
use crate::model::select::filter_upto;
use crate::model::state::{Beaver, GameState, Plantation, Pos};
use crate::planner::tasks::Phase;
use crate::planner::turn::spec_useful;
use crate::predict::completion::ceil_div;
use crate::tactics::relay::{can_reach_via_any_relay, spec_can_reach};

verus! {

/// An attack on one beaver lair by all the plantations that can reach it.
#[derive(Debug, Clone)]
pub struct BeaverKillPlan {
    pub attacker_positions: Vec<Pos>,
    pub turns_to_kill: u32,
    pub expected_reward: i64,
    pub expected_damage_taken: i128,
}

pub open spec fn reaches_lair_pred(b: Beaver, state: GameState, params: DerivedParams) -> spec_fn(Plantation) -> bool {
    |p: Plantation| spec_can_reach(p, b.pos, state, params)
}

/// The useful authors that can act on the lair.
pub open spec fn spec_attackers(b: Beaver, state: GameState, params: DerivedParams) -> Seq<Plantation> {
    let us = spec_useful(state, params);
    filter_upto(us, reaches_lair_pred(b, state, params), us.len() as int)
}

/// The smallest hp among `ps[0..n)` (0 when `n <= 0`).
pub open spec fn hp_min(ps: Seq<Plantation>, n: int) -> int
    decreases n,
{
    if n <= 0 {
        0
    } else if n == 1 {
        ps[0].hp as int
    } else if ps[n - 1].hp < hp_min(ps, n - 1) {
        ps[n - 1].hp as int
    } else {
        hp_min(ps, n - 1)
    }
}

/// `a / b` rounded toward zero, for `b > 0`.
pub open spec fn trunc_div(a: int, b: int) -> int {
    if a >= 0 {
        a / b
    } else {
        -((-a) / b)
    }
}

/// Every lair loses `be` hp per attacker and turn and regenerates 5.
pub open spec fn net_damage(b: Beaver, state: GameState, params: DerivedParams) -> int {
    spec_attackers(b, state, params).len() * params.be - 5
}

pub open spec fn spec_turns_to_kill(b: Beaver, state: GameState, params: DerivedParams) -> int {
    if b.hp <= 0 {
        0
    } else {
        ceil_div(b.hp as int, net_damage(b, state, params))
    }
}

/// How many turns the weakest attacker lasts against the lair (the lair
/// hits every attacker each turn): the weakest hp divided by the lair's
/// damage, rounded toward zero (negative for an attacker already below 0).
pub open spec fn spec_turns_survive(b: Beaver, state: GameState, params: DerivedParams) -> int {
    let a = spec_attackers(b, state, params);
    let bd = if params.beaver_dmg >= 1 { params.beaver_dmg as int } else { 1 };
    trunc_div(hp_min(a, a.len() as int), bd)
}

/// The plan: enough attackers, a lair that dies, a weakest attacker that
/// survives the fight (`min_hp / beaver_dmg >= turns_to_kill`), and a reward (20 × the cell's base points) that pays for the turns
/// the attackers spend.
pub open spec fn spec_beaver_plan(b: Beaver, state: GameState, params: DerivedParams, cfg: Config) -> Option<(Seq<Pos>, int, int, int)> {
    let a = spec_attackers(b, state, params);
    let turns = spec_turns_to_kill(b, state, params);
    let reward = 20 * spec_cell_base_points(b.pos);
    let cost = cfg.beaver.opportunity_cost_per_turn;
    if a.len() < cfg.beaver.min_attackers {
        None
    } else if net_damage(b, state, params) <= 0 {
        None
    } else if spec_turns_survive(b, state, params) < turns {
        None
    } else if reward * cost.den < a.len() * cost.num * turns {
        None
    } else {
        Some((a.map_values(|p: Plantation| p.pos), turns, reward, a.len() * params.beaver_dmg * turns))
    }
}

/// No step of the plan leaves its machine type.
pub open spec fn beaver_fits(b: Beaver, state: GameState, params: DerivedParams, cfg: Config) -> bool {
    let a = spec_attackers(b, state, params);
    &&& a.len() <= i32::MAX
    &&& fits_i32(a.len() * params.be)
    &&& fits_i32(a.len() * params.be - 5)
    &&& cfg.beaver.opportunity_cost_per_turn.den > 0
}

fn attackers_of<'a>(b: &Beaver, state: &'a GameState, params: &'a DerivedParams) -> (r: Vec<&'a Plantation>)
    ensures
        r@.len() == spec_attackers(*b, *state, *params).len(),
        forall|k: int| 0 <= k < r@.len() ==> *r@[k] == spec_attackers(*b, *state, *params)[k],
{
    let us = state.useful_authors(params);
    let ghost sus = spec_useful(*state, *params);
    let ghost pred = reaches_lair_pred(*b, *state, *params);
    let mut attackers: Vec<&Plantation> = Vec::new();
    let mut i: usize = 0;
    while i < us.len()
        invariant
            i <= us@.len(),
            us@.len() == sus.len(),
            sus == spec_useful(*state, *params),
            pred == reaches_lair_pred(*b, *state, *params),
            forall|k: int| 0 <= k < us@.len() ==> *us@[k] == sus[k],
            attackers@.len() == filter_upto(sus, pred, i as int).len(),
            forall|k: int| 0 <= k < attackers@.len() ==> *attackers@[k] == filter_upto(sus, pred, i as int)[k],
        decreases us.len() - i,
    {
        assert(*us@[i as int] == sus[i as int]);
        if can_reach_via_any_relay(us[i], b.pos, state, params) {
            attackers.push(us[i]);
        }
        i = i + 1;
    }
    attackers
}

/// Whether `plan_beaver_kill` can plan against `b` within its machine types
/// (see `beaver_fits`).
pub fn beaver_fits_check(b: &Beaver, state: &GameState, params: &DerivedParams, cfg: &Config) -> (ok: bool)
    ensures
        ok == beaver_fits(*b, *state, *params, *cfg),
{
    let attackers = attackers_of(b, state, params);
    let ghost a = spec_attackers(*b, *state, *params);
    let n = attackers.len();
    if n > i32::MAX as usize {
        return false;
    }
    let c = n as i64;
    let be = params.be as i64;
    assert(-0x4000_0000_0000_0000 <= c * be <= 0x4000_0000_0000_0000) by (nonlinear_arith)
        requires
            0 <= c <= 0x7FFF_FFFF,
            -0x8000_0000 <= be <= 0x7FFF_FFFF,
    ;
    let lo = i32::MIN as i64;
    let hi = i32::MAX as i64;
    lo <= c * be && c * be <= hi
        && lo <= c * be - 5 && c * be - 5 <= hi
        && cfg.beaver.opportunity_cost_per_turn.den > 0
}

pub fn plan_beaver_kill(b: &Beaver, state: &GameState, params: &DerivedParams, cfg: &Config) -> (r: Option<BeaverKillPlan>)
    requires
        beaver_fits(*b, *state, *params, *cfg),
    ensures
        match spec_beaver_plan(*b, *state, *params, *cfg) {
            Some((positions, turns, reward, dmg)) => r matches Some(plan) && {
                &&& plan.attacker_positions@ == positions
                &&& plan.turns_to_kill == turns
                &&& plan.expected_reward == reward
                &&& plan.expected_damage_taken == dmg
            },
            None => r is None,
        },
{
    let attackers = attackers_of(b, state, params);
    let ghost a = spec_attackers(*b, *state, *params);
    let n = attackers.len();
    let count = n as i32;
    if count < cfg.beaver.min_attackers {
        return None;
    }
    let net_dps = count * params.be - 5;
    if net_dps <= 0 {
        return None;
    }
    let turns_to_kill: u32 = if b.hp <= 0 {
        0
    } else {
        let h = b.hp as i64;
        let nd = net_dps as i64;
        let q = h / nd;
        let t = if h % nd == 0 { q } else { q + 1 };
        assert(0 <= q <= h) by (nonlinear_arith)
            requires
                h >= 1,
                nd >= 1,
                q == h / nd,
        ;
        t as u32
    };
    let bd = if params.beaver_dmg >= 1 { params.beaver_dmg } else { 1 };
    assert(n >= 1) by {
        if n == 0 {
            assert(count == 0);
            assert(count * params.be == 0) by (nonlinear_arith)
                requires
                    count == 0,
            ;
        }
    }
    let mut min_hp: i32 = attackers[0].hp;
    let mut k: usize = 1;
    while k < n
        invariant
            1 <= k <= n,
            n == attackers@.len(),
            n == a.len(),
            forall|q: int| 0 <= q < n ==> *attackers@[q] == a[q],
            min_hp == hp_min(a, k as int),
        decreases n - k,
    {
        if attackers[k].hp < min_hp {
            min_hp = attackers[k].hp;
        }
        k = k + 1;
    }
    let q: i64 = if min_hp >= 0 { min_hp as i64 / bd as i64 } else { -((-(min_hp as i64)) / bd as i64) };
    if q < turns_to_kill as i64 {
        return None;
    }
    let reward = 20 * cell_base_points(b.pos) as i64;
    let cost = cfg.beaver.opportunity_cost_per_turn;
    let rw = reward as i128;
    let cd = cost.den as i128;
    assert(-0x1_0000_0000_0000_0000_0000_0000 <= rw * cd <= 0x1_0000_0000_0000_0000_0000_0000) by (nonlinear_arith)
        requires
            0 <= rw <= 30000,
            -0x8000_0000_0000_0000 <= cd <= 0x8000_0000_0000_0000,
    ;
    let lhs = rw * cd;
    let c = count as i128;
    let cn = cost.num as i128;
    let t = turns_to_kill as i128;
    assert(-0x8000_0000_0000_0000_0000_0000 <= c * cn <= 0x8000_0000_0000_0000_0000_0000) by (nonlinear_arith)
        requires
            0 <= c <= 0x8000_0000,
            -0x8000_0000_0000_0000 <= cn <= 0x8000_0000_0000_0000,
    ;
    assert(-0x7FFF_FFFF_8000_0000_0000_0000_0000_0000 <= (c * cn) * t <= 0x7FFF_FFFF_8000_0000_0000_0000_0000_0000) by (nonlinear_arith)
        requires
            -0x8000_0000_0000_0000_0000_0000 <= c * cn <= 0x8000_0000_0000_0000_0000_0000,
            0 <= t <= 0xFFFF_FFFF,
    ;
    if lhs < c * cn * t {
        return None;
    }
    let bdm = params.beaver_dmg as i128;
    assert(-0x1_0000_0000_0000_0000 <= c * bdm <= 0x1_0000_0000_0000_0000) by (nonlinear_arith)
        requires
            0 <= c <= 0x8000_0000,
            -0x8000_0000 <= bdm <= 0x8000_0000,
    ;
    assert(-0x1_0000_0000_0000_0000_0000_0000 <= (c * bdm) * t <= 0x1_0000_0000_0000_0000_0000_0000) by (nonlinear_arith)
        requires
            -0x1_0000_0000_0000_0000 <= c * bdm <= 0x1_0000_0000_0000_0000,
            0 <= t <= 0x1_0000_0000,
    ;
    let expected_damage_taken = c * bdm * t;
    let mut positions: Vec<Pos> = Vec::new();
    let mut k: usize = 0;
    while k < n
        invariant
            k <= n,
            n == attackers@.len(),
            n == a.len(),
            forall|q: int| 0 <= q < n ==> *attackers@[q] == a[q],
            positions@ == a.map_values(|p: Plantation| p.pos).subrange(0, k as int),
        decreases n - k,
    {
        positions.push(attackers[k].pos);
        proof {
            assert(positions@ =~= a.map_values(|p: Plantation| p.pos).subrange(0, k + 1));
        }
        k = k + 1;
    }
    assert(positions@ =~= a.map_values(|p: Plantation| p.pos));
    Some(BeaverKillPlan { attacker_positions: positions, turns_to_kill, expected_reward: reward, expected_damage_taken })
}

/// One attacker's part in the attack on a lair.
#[derive(Debug, Clone, Copy)]
pub struct BeaverAttack {
    /// Index of the lair in `state.beavers`.
    pub beaver: usize,
    pub turns_to_kill: u32,
    pub expected_reward: i64,
}

/// One attack per attacker of every lair with a plan, lair by lair, in
/// `beavers[0..n)`.
pub open spec fn attacks_upto(state: GameState, params: DerivedParams, cfg: Config, n: int) -> Seq<BeaverAttack>
    decreases n,
{
    if n <= 0 {
        Seq::empty()
    } else {
        let prev = attacks_upto(state, params, cfg, n - 1);
        match spec_beaver_plan(state.beavers@[n - 1], state, params, cfg) {
            Some((positions, turns, reward, dmg)) => prev + Seq::new(
                positions.len(),
                |k: int| BeaverAttack { beaver: (n - 1) as usize, turns_to_kill: turns as u32, expected_reward: reward as i64 },
            ),
            None => prev,
        }
    }
}

/// The lair attacks of a turn: none in the early phase, else one per
/// attacker of every lair that `plan_beaver_kill` plans.
pub open spec fn spec_beaver_attacks(state: GameState, params: DerivedParams, cfg: Config, phase: Phase) -> Seq<BeaverAttack> {
    if phase == Phase::Early {
        Seq::empty()
    } else {
        attacks_upto(state, params, cfg, state.beavers@.len() as int)
    }
}

/// Every lair of the state can be planned within machine types.
pub open spec fn beavers_fit(state: GameState, params: DerivedParams, cfg: Config) -> bool {
    forall|j: int| 0 <= j < state.beavers@.len() ==> beaver_fits(#[trigger] state.beavers@[j], state, params, cfg)
}

/// Whether `beaver_attacks` can run on this state (see `beavers_fit`).
pub fn beavers_fit_check(state: &GameState, params: &DerivedParams, cfg: &Config) -> (ok: bool)
    ensures
        ok == beavers_fit(*state, *params, *cfg),
{
    let mut j: usize = 0;
    while j < state.beavers.len()
        invariant
            j <= state.beavers@.len(),
            forall|q: int| 0 <= q < j ==> beaver_fits(#[trigger] state.beavers@[q], *state, *params, *cfg),
        decreases state.beavers.len() - j,
    {
        if !beaver_fits_check(&state.beavers[j], state, params, cfg) {
            return false;
        }
        j = j + 1;
    }
    true
}

/// The attacks on beaver lairs this turn (see `spec_beaver_attacks`).
pub fn beaver_attacks(state: &GameState, params: &DerivedParams, cfg: &Config, phase: Phase) -> (r: Vec<BeaverAttack>)
    requires
        beavers_fit(*state, *params, *cfg),
    ensures
        r@ == spec_beaver_attacks(*state, *params, *cfg, phase),
{
    let mut out: Vec<BeaverAttack> = Vec::new();
    if phase == Phase::Early {
        return out;
    }
    let mut j: usize = 0;
    while j < state.beavers.len()
        invariant
            j <= state.beavers@.len(),
            beavers_fit(*state, *params, *cfg),
            out@ == attacks_upto(*state, *params, *cfg, j as int),
        decreases state.beavers.len() - j,
    {
        let b = &state.beavers[j];
        assert(beaver_fits(state.beavers@[j as int], *state, *params, *cfg));
        match plan_beaver_kill(b, state, params, cfg) {
            Some(plan) => {
                let ghost before = out@;
                let ghost add = Seq::new(
                    plan.attacker_positions@.len(),
                    |k: int| BeaverAttack { beaver: j, turns_to_kill: plan.turns_to_kill, expected_reward: plan.expected_reward },
                );
                let mut k: usize = 0;
                while k < plan.attacker_positions.len()
                    invariant
                        k <= plan.attacker_positions@.len(),
                        out@ == before + add.subrange(0, k as int),
                        add.len() == plan.attacker_positions@.len(),
                        add == Seq::new(
                            plan.attacker_positions@.len(),
                            |q: int| BeaverAttack { beaver: j, turns_to_kill: plan.turns_to_kill, expected_reward: plan.expected_reward },
                        ),
                    decreases plan.attacker_positions.len() - k,
                {
                    out.push(BeaverAttack { beaver: j, turns_to_kill: plan.turns_to_kill, expected_reward: plan.expected_reward });
                    assert(add.subrange(0, k + 1) =~= add.subrange(0, k as int).push(add[k as int]));
                    k = k + 1;
                }
                assert(add.subrange(0, k as int) =~= add);
            },
            None => {},
        }
        j = j + 1;
    }
    out
}

proof fn lemma_attacks_upto(state: GameState, params: DerivedParams, cfg: Config, n: int)
    requires
        0 <= n <= state.beavers@.len(),
    ensures
        forall|k: int| 0 <= k < attacks_upto(state, params, cfg, n).len() ==> {
            let a = #[trigger] attacks_upto(state, params, cfg, n)[k];
            &&& 0 <= a.beaver < n
            &&& spec_beaver_plan(state.beavers@[a.beaver as int], state, params, cfg) matches Some((positions, turns, reward, dmg))
                && a.turns_to_kill == turns as u32 && a.expected_reward == reward as i64
        },
    decreases n,
{
    if n > 0 {
        lemma_attacks_upto(state, params, cfg, n - 1);
        let prev = attacks_upto(state, params, cfg, n - 1);
        match spec_beaver_plan(state.beavers@[n - 1], state, params, cfg) {
            Some((positions, turns, reward, dmg)) => {
                let add = Seq::new(
                    positions.len(),
                    |k: int| BeaverAttack { beaver: (n - 1) as usize, turns_to_kill: turns as u32, expected_reward: reward as i64 },
                );
                let cur = prev + add;
                assert(state.beavers@.len() == state.beavers.len());
                assert(((n - 1) as usize) as int == n - 1);
                assert forall|k: int| 0 <= k < cur.len() implies {
                    let a = #[trigger] cur[k];
                    &&& 0 <= a.beaver < n
                    &&& spec_beaver_plan(state.beavers@[a.beaver as int], state, params, cfg) matches Some((positions, turns, reward, dmg))
                        && a.turns_to_kill == turns as u32 && a.expected_reward == reward as i64
                } by {
                    if k < prev.len() {
                        assert(cur[k] == prev[k]);
                    } else {
                        assert(cur[k] == add[k - prev.len()]);
                    }
                }
            },
            None => {},
        }
    }
}

/// No lair is attacked in the early phase; otherwise every attack belongs to
/// a lair that `plan_beaver_kill` plans, with that plan's turns and reward.
pub proof fn law_attacks_follow_the_plans(state: GameState, params: DerivedParams, cfg: Config, phase: Phase)
    ensures
        phase == Phase::Early ==> spec_beaver_attacks(state, params, cfg, phase).len() == 0,
        forall|k: int| 0 <= k < spec_beaver_attacks(state, params, cfg, phase).len() ==> {
            let a = #[trigger] spec_beaver_attacks(state, params, cfg, phase)[k];
            &&& 0 <= a.beaver < state.beavers@.len()
            &&& spec_beaver_plan(state.beavers@[a.beaver as int], state, params, cfg) matches Some((positions, turns, reward, dmg))
                && a.turns_to_kill == turns as u32 && a.expected_reward == reward as i64
        },
{
    lemma_attacks_upto(state, params, cfg, state.beavers@.len() as int);
}

} // verus!

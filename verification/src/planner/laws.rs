use vstd::prelude::*;

use crate::geom::dist::{spec_chebyshev, spec_step};
use crate::model::memory::Memory;
use crate::model::params::DerivedParams;
use crate::model::select::{count_upto, lemma_filter_upto, lemma_first_where};
use crate::model::state::{controllable_pred, GameState, Plantation, Pos};
use crate::planner::assign::{assign_fits, author_pick, bump, lemma_pick, lemma_usage_bound, spec_assign_ranked};
use crate::planner::tasks::{spec_base_stat, Assignment, TaskKind, TaskSpot};
use crate::planner::turn::{first_build_cell, first_free_dir, first_repair_pair, free_cell, free_dir_pred, partner_pred, lemma_closest_author, spec_assign, spec_controllable, spec_fallback, spec_useful};
use crate::tactics::relay::{lemma_choose_relay_routed, routed, used_through};

verus! {

/// No author gets two commands in one turn, each target is within its
/// author's action range, and no plantation repairs itself.
pub open spec fn direct_commands_ok(asg: Seq<Assignment>, params: DerivedParams) -> bool {
    &&& forall|a: int, b: int| 0 <= a < b < asg.len() ==> asg[a].author_id@ != asg[b].author_id@
    &&& forall|a: int| 0 <= a < asg.len() ==> {
        &&& spec_chebyshev((#[trigger] asg[a]).author_pos, asg[a].target_pos) <= params.ar
        &&& asg[a].relay_pos == asg[a].author_pos
        &&& (asg[a].kind matches TaskKind::Repair { target_id } ==> asg[a].author_id@ != target_id@)
    }
}

proof fn lemma_assign_ok(ts: Seq<TaskSpot>, us: Seq<Plantation>, params: DerivedParams, n: int)
    requires
        0 <= n <= ts.len(),
    ensures
        direct_commands_ok(spec_assign(ts, us, params, n).0, params),
        forall|a: int| 0 <= a < spec_assign(ts, us, params, n).0.len()
            ==> spec_assign(ts, us, params, n).1.contains(#[trigger] spec_assign(ts, us, params, n).0[a].author_id@),
    decreases n,
{
    if n > 0 {
        lemma_assign_ok(ts, us, params, n - 1);
        let (asg, used) = spec_assign(ts, us, params, n - 1);
        lemma_closest_author(us, ts[n - 1], used, params, us.len() as int);
    }
}

/// The greedy assignment of a turn gives each plantation at most one
/// command, only on targets within its action range, and never makes a
/// plantation repair itself.
pub proof fn law_assignment_respects_the_rules(tasks: Seq<TaskSpot>, state: GameState, params: DerivedParams)
    ensures
        direct_commands_ok(spec_assign(tasks, spec_useful(state, params), params, tasks.len() as int).0, params),
{
    lemma_assign_ok(tasks, spec_useful(state, params), params, tasks.len() as int);
}

/// Every command of a ranked assignment has a distinct author and a relay
/// that carries it to its target.
pub open spec fn routed_commands_ok(asg: Seq<Assignment>, params: DerivedParams) -> bool {
    &&& forall|a: int, b: int| 0 <= a < b < asg.len() ==> asg[a].author_id@ != asg[b].author_id@
    &&& forall|a: int| 0 <= a < asg.len() ==> routed((#[trigger] asg[a]).author_pos, asg[a].relay_pos, asg[a].target_pos, params)
}

proof fn lemma_ranked_ok(ts: Seq<TaskSpot>, state: GameState, params: DerivedParams, n: int)
    requires
        0 <= n <= ts.len(),
    ensures
        routed_commands_ok(spec_assign_ranked(ts, state, params, n).0, params),
        forall|a: int| 0 <= a < spec_assign_ranked(ts, state, params, n).0.len()
            ==> spec_assign_ranked(ts, state, params, n).1.contains(#[trigger] spec_assign_ranked(ts, state, params, n).0[a].author_id@),
    decreases n,
{
    if n > 0 {
        lemma_ranked_ok(ts, state, params, n - 1);
        let (asg, used, usage) = spec_assign_ranked(ts, state, params, n - 1);
        let t = ts[n - 1];
        let cs = spec_controllable(state);
        let base = spec_base_stat(t.kind, params);
        lemma_pick(cs, t, base, state, params, used, usage, cs.len() as int);
        match author_pick(cs, t, base, state, params, used, usage, cs.len() as int) {
            Some((i, r, e)) => {
                lemma_choose_relay_routed(cs[i], t.target, base, state, params, usage);
            },
            None => {},
        }
    }
}

/// `f` maps commands to the tasks they carry out: strictly increasing task
/// indices, each command with its task's target and kind.
pub open spec fn carried_tasks(asg: Seq<Assignment>, ts: Seq<TaskSpot>, f: Seq<int>) -> bool {
    &&& f.len() == asg.len()
    &&& forall|a: int, b: int| 0 <= a < b < f.len() ==> f[a] < f[b]
    &&& forall|k: int| 0 <= k < f.len() ==> {
        &&& 0 <= #[trigger] f[k] < ts.len()
        &&& asg[k].target_pos == ts[f[k]].target
        &&& asg[k].kind == ts[f[k]].kind
    }
}

/// The author of `a` is a connected plantation of the state.
pub open spec fn author_connected(a: Assignment, state: GameState) -> bool {
    exists|j: int| 0 <= j < state.plantations@.len() && {
        let p = #[trigger] state.plantations@[j];
        &&& !p.is_isolated
        &&& p.id == a.author_id
        &&& p.pos == a.author_pos
    }
}

/// Every author is a connected plantation of the state.
pub open spec fn authors_connected(asg: Seq<Assignment>, state: GameState) -> bool {
    forall|k: int| 0 <= k < asg.len() ==> author_connected(#[trigger] asg[k], state)
}

proof fn lemma_ranked_sources(ts: Seq<TaskSpot>, state: GameState, params: DerivedParams, n: int) -> (f: Seq<int>)
    requires
        0 <= n <= ts.len(),
    ensures
        carried_tasks(spec_assign_ranked(ts, state, params, n).0, ts, f),
        forall|k: int| 0 <= k < f.len() ==> #[trigger] f[k] < n,
        authors_connected(spec_assign_ranked(ts, state, params, n).0, state),
    decreases n,
{
    if n <= 0 {
        Seq::empty()
    } else {
        let f0 = lemma_ranked_sources(ts, state, params, n - 1);
        let (asg, used, usage) = spec_assign_ranked(ts, state, params, n - 1);
        let t = ts[n - 1];
        let cs = spec_controllable(state);
        let base = spec_base_stat(t.kind, params);
        lemma_pick(cs, t, base, state, params, used, usage, cs.len() as int);
        match author_pick(cs, t, base, state, params, used, usage, cs.len() as int) {
            Some((i, r, e)) => {
                let ps = state.plantations@;
                lemma_filter_upto(ps, controllable_pred(), ps.len() as int);
                let asg2 = spec_assign_ranked(ts, state, params, n).0;
                let f = f0.push(n - 1);
                assert(asg2.len() == asg.len() + 1);
                assert forall|k: int| 0 <= k < f.len() implies {
                    &&& 0 <= #[trigger] f[k] < ts.len()
                    &&& asg2[k].target_pos == ts[f[k]].target
                    &&& asg2[k].kind == ts[f[k]].kind
                } by {
                    if k < f0.len() {
                        assert(f[k] == f0[k] && asg2[k] == asg[k]);
                    }
                }
                assert(controllable_pred()(cs[i]));
                let j0 = choose|j: int| 0 <= j < ps.len() && ps[j] == cs[i];
                assert forall|k: int| 0 <= k < asg2.len() implies author_connected(#[trigger] asg2[k], state) by {
                    if k < asg.len() {
                        assert(asg2[k] == asg[k]);
                    } else {
                        assert(ps[j0] == cs[i]);
                    }
                }
                f
            },
            None => f0,
        }
    }
}

/// The ranked commands carry out distinct tasks, in task order, each with its
/// task's target and kind, and each author is a connected plantation.
pub proof fn law_ranked_commands_carry_out_tasks(tasks: Seq<TaskSpot>, state: GameState, params: DerivedParams)
    ensures
        exists|f: Seq<int>| carried_tasks(spec_assign_ranked(tasks, state, params, tasks.len() as int).0, tasks, f),
        spec_assign_ranked(tasks, state, params, tasks.len() as int).0.len() <= tasks.len(),
        authors_connected(spec_assign_ranked(tasks, state, params, tasks.len() as int).0, state),
{
    let f = lemma_ranked_sources(tasks, state, params, tasks.len() as int);
    lemma_increasing_len(f, tasks.len() as int);
}

proof fn lemma_increasing_len(f: Seq<int>, n: int)
    requires
        0 <= n,
        forall|a: int, b: int| 0 <= a < b < f.len() ==> f[a] < f[b],
        forall|k: int| 0 <= k < f.len() ==> 0 <= #[trigger] f[k] < n,
    ensures
        f.len() <= n,
    decreases f.len(),
{
    if f.len() > 0 {
        let g = f.drop_last();
        assert(0 <= f[f.len() - 1] < n);
        assert(f.last() == f[f.len() - 1]);
        assert forall|a: int, b: int| 0 <= a < b < g.len() implies g[a] < g[b] by {
            assert(g[a] == f[a] && g[b] == f[b]);
        }
        assert forall|k: int| 0 <= k < g.len() implies 0 <= #[trigger] g[k] < f.last() by {
            assert(g[k] == f[k]);
        }
        lemma_increasing_len(g, f.last());
    }
}

/// Tasks assigned in rank order also give each plantation at most one
/// command, and each goes through a relay that reaches its target.
pub proof fn law_ranked_assignment_respects_the_rules(tasks: Seq<TaskSpot>, state: GameState, params: DerivedParams)
    ensures
        routed_commands_ok(spec_assign_ranked(tasks, state, params, tasks.len() as int).0, params),
{
    lemma_ranked_ok(tasks, state, params, tasks.len() as int);
}

pub open spec fn relay_pred(p: Pos) -> spec_fn(Assignment) -> bool {
    |a: Assignment| a.relay_pos == p
}

proof fn lemma_count_prefix(s1: Seq<Assignment>, s2: Seq<Assignment>, f: spec_fn(Assignment) -> bool, n: int)
    requires
        0 <= n <= s1.len(),
        n <= s2.len(),
        forall|i: int| 0 <= i < n ==> s1[i] == s2[i],
    ensures
        count_upto(s1, f, n) == count_upto(s2, f, n),
    decreases n,
{
    if n > 0 {
        lemma_count_prefix(s1, s2, f, n - 1);
    }
}

/// Each command's effect: the base stat of its kind, minus one per earlier
/// command of the turn routed through the same relay; and it is positive.
pub open spec fn effects_ok(asg: Seq<Assignment>, params: DerivedParams) -> bool {
    forall|k: int| 0 <= k < asg.len() ==> {
        &&& (#[trigger] asg[k]).expected_effect == spec_base_stat(asg[k].kind, params) - count_upto(asg, relay_pred(asg[k].relay_pos), k)
        &&& asg[k].expected_effect > 0
    }
}

proof fn lemma_ranked_effects(ts: Seq<TaskSpot>, state: GameState, params: DerivedParams, n: int)
    requires
        0 <= n <= ts.len(),
        assign_fits(ts, params),
    ensures
        effects_ok(spec_assign_ranked(ts, state, params, n).0, params),
        spec_assign_ranked(ts, state, params, n).0.len() <= n,
        forall|p: Pos| #![trigger relay_pred(p)] count_upto(spec_assign_ranked(ts, state, params, n).0, relay_pred(p), spec_assign_ranked(ts, state, params, n).0.len() as int)
            == (if spec_assign_ranked(ts, state, params, n).2.dom().contains(p) { spec_assign_ranked(ts, state, params, n).2[p] as int } else { 0 }),
    decreases n,
{
    if n > 0 {
        lemma_ranked_effects(ts, state, params, n - 1);
        lemma_usage_bound(ts, state, params, n - 1);
        let (asg, used, usage) = spec_assign_ranked(ts, state, params, n - 1);
        let t = ts[n - 1];
        let cs = spec_controllable(state);
        let base = spec_base_stat(t.kind, params);
        lemma_pick(cs, t, base, state, params, used, usage, cs.len() as int);
        match author_pick(cs, t, base, state, params, used, usage, cs.len() as int) {
            Some((i, r, e)) => {
                lemma_choose_relay_routed(cs[i], t.target, base, state, params, usage);
                let K = asg.len() as int;
                let na = Assignment {
                    author_id: cs[i].id,
                    author_pos: cs[i].pos,
                    relay_pos: r,
                    target_pos: t.target,
                    kind: t.kind,
                    expected_effect: e as i32,
                };
                let asg2 = asg.push(na);
                assert(spec_assign_ranked(ts, state, params, n).0 == asg2);
                assert(spec_assign_ranked(ts, state, params, n).2 == bump(usage, r));
                // the effect of the new command
                let cnt = count_upto(asg, relay_pred(r), K);
                assert(cnt == (if usage.dom().contains(r) { usage[r] as int } else { 0 }));
                assert(cnt <= n - 1);
                assert(used_through(usage, r) == cnt);
                assert(spec_base_stat(ts[n - 1].kind, params) - ts.len() >= i32::MIN);
                assert(e == base - cnt);
                assert(i32::MIN <= e <= i32::MAX);
                lemma_count_prefix(asg2, asg, relay_pred(r), K);
                assert forall|k: int| 0 <= k < asg2.len() implies {
                    &&& (#[trigger] asg2[k]).expected_effect == spec_base_stat(asg2[k].kind, params) - count_upto(asg2, relay_pred(asg2[k].relay_pos), k)
                    &&& asg2[k].expected_effect > 0
                } by {
                    if k < K {
                        assert(asg2[k] == asg[k]);
                        lemma_count_prefix(asg2, asg, relay_pred(asg[k].relay_pos), k);
                    }
                }
                assert forall|p: Pos| #![trigger relay_pred(p)] count_upto(asg2, relay_pred(p), asg2.len() as int)
                    == (if bump(usage, r).dom().contains(p) { bump(usage, r)[p] as int } else { 0 }) by {
                    lemma_count_prefix(asg2, asg, relay_pred(p), K);
                    if p == r {
                        assert(relay_pred(p)(asg2[K]));
                    } else {
                        assert(!relay_pred(p)(asg2[K]));
                    }
                }
            },
            None => {},
        }
    }
}

/// Ranked assignment charges relays as the game does: each command's effect
/// is its kind's base stat minus one for every earlier command of the turn
/// through the same relay, and no command is sent without a positive effect.
pub proof fn law_ranked_effects_pay_for_relay_use(tasks: Seq<TaskSpot>, state: GameState, params: DerivedParams)
    requires
        assign_fits(tasks, params),
    ensures
        effects_ok(spec_assign_ranked(tasks, state, params, tasks.len() as int).0, params),
{
    lemma_ranked_effects(tasks, state, params, tasks.len() as int);
}

proof fn lemma_free_dir_found(p: Plantation, state: GameState, memory: Memory, m: int, d: int)
    requires
        0 <= d < m,
        free_dir_pred(p, state, memory)(d),
    ensures
        first_free_dir(p, state, memory, m) is Some,
    decreases m,
{
    if m - 1 > d {
        lemma_free_dir_found(p, state, memory, m - 1, d);
    }
}

proof fn lemma_build_cell_found(cs: Seq<Plantation>, state: GameState, memory: Memory, n: int, k: int)
    requires
        0 <= k < n,
        first_free_dir(cs[k], state, memory, 4) is Some,
    ensures
        first_build_cell(cs, state, memory, n) is Some,
    decreases n,
{
    if n - 1 > k {
        lemma_build_cell_found(cs, state, memory, n - 1, k);
    }
}

/// A turn never ends without a command while one is possible: when a
/// connected plantation has a free 4-neighbour on the map, the fallback of
/// an otherwise empty plan exists.
pub proof fn law_free_neighbour_gives_a_fallback(state: GameState, memory: Memory, params: DerivedParams, i: int, d: int)
    requires
        0 <= i < state.plantations@.len(),
        !state.plantations@[i].is_isolated,
        0 <= d < 4,
        spec_step(state.plantations@[i].pos, d) matches Some(c) && free_cell(state, memory, c),
    ensures
        spec_fallback(state, memory, params) is Some,
{
    let ps = state.plantations@;
    let cs = spec_controllable(state);
    lemma_filter_upto(ps, controllable_pred(), ps.len() as int);
    assert(controllable_pred()(ps[i]));
    assert(cs.contains(ps[i]));
    let k = choose|k: int| 0 <= k < cs.len() && cs[k] == ps[i];
    assert(free_dir_pred(cs[k], state, memory)(d));
    lemma_free_dir_found(cs[k], state, memory, 4, d);
    lemma_build_cell_found(cs, state, memory, cs.len() as int, k);
    match first_repair_pair(cs, params, cs.len() as int) {
        Some(_) => {},
        None => {},
    }
}

proof fn lemma_repair_pair(cs: Seq<Plantation>, params: DerivedParams, n: int)
    requires
        0 <= n <= cs.len(),
    ensures
        match first_repair_pair(cs, params, n) {
            Some((i, j)) => 0 <= i < n && 0 <= j < cs.len() && partner_pred(cs[i], params)(cs[j]),
            None => forall|i: int, j: int| 0 <= i < n && 0 <= j < cs.len() ==> !partner_pred(#[trigger] cs[i], params)(#[trigger] cs[j]),
        },
    decreases n,
{
    if n > 0 {
        lemma_repair_pair(cs, params, n - 1);
        lemma_first_where(cs, partner_pred(cs[n - 1], params), cs.len() as int);
    }
}

proof fn lemma_free_dir(p: Plantation, state: GameState, memory: Memory, m: int)
    requires
        0 <= m <= 4,
    ensures
        match first_free_dir(p, state, memory, m) {
            Some(d) => 0 <= d < m && free_dir_pred(p, state, memory)(d),
            None => forall|d: int| 0 <= d < m ==> !#[trigger] free_dir_pred(p, state, memory)(d),
        },
    decreases m,
{
    if m > 0 {
        lemma_free_dir(p, state, memory, m - 1);
    }
}

proof fn lemma_build_cell(cs: Seq<Plantation>, state: GameState, memory: Memory, n: int)
    requires
        0 <= n <= cs.len(),
    ensures
        match first_build_cell(cs, state, memory, n) {
            Some((i, d)) => 0 <= i < n && 0 <= d < 4 && free_dir_pred(cs[i], state, memory)(d),
            None => forall|i: int, d: int| 0 <= i < n && 0 <= d < 4 ==> !#[trigger] free_dir_pred(cs[i], state, memory)(d),
        },
    decreases n,
{
    if n > 0 {
        lemma_build_cell(cs, state, memory, n - 1);
        lemma_free_dir(cs[n - 1], state, memory, 4);
    }
}

/// Two connected plantations with different ids within action range of each
/// other.
pub open spec fn close_pair(state: GameState, params: DerivedParams, i: int, j: int) -> bool {
    let ps = state.plantations@;
    &&& 0 <= i < ps.len() && 0 <= j < ps.len()
    &&& !ps[i].is_isolated && !ps[j].is_isolated
    &&& ps[i].id@ != ps[j].id@
    &&& spec_chebyshev(ps[i].pos, ps[j].pos) <= params.ar
}

/// A connected plantation `i` whose neighbour in direction `d` is free.
pub open spec fn free_side(state: GameState, memory: Memory, i: int, d: int) -> bool {
    let ps = state.plantations@;
    &&& 0 <= i < ps.len() && 0 <= d < 4
    &&& !ps[i].is_isolated
    &&& spec_step(ps[i].pos, d) matches Some(c) && free_cell(state, memory, c)
}

/// The fallback command of an empty plan: a repair between two close
/// connected plantations when there is such a pair; else a build on a free
/// side neighbour of a connected plantation; else nothing, exactly when
/// neither exists.
pub proof fn law_fallback_shape(state: GameState, memory: Memory, params: DerivedParams)
    ensures
        match spec_fallback(state, memory, params) {
            Some(a) => match a.kind {
                TaskKind::Repair { target_id } => exists|i: int, j: int| #[trigger] close_pair(state, params, i, j) && {
                    &&& a.author_id == state.plantations@[i].id
                    &&& a.author_pos == state.plantations@[i].pos
                    &&& a.relay_pos == a.author_pos
                    &&& a.target_pos == state.plantations@[j].pos
                    &&& target_id == state.plantations@[j].id
                    &&& a.expected_effect == params.rs
                },
                TaskKind::Build => {
                    &&& forall|i: int, j: int| !#[trigger] close_pair(state, params, i, j)
                    &&& exists|i: int, d: int| #[trigger] free_side(state, memory, i, d) && {
                        &&& a.author_id == state.plantations@[i].id
                        &&& a.author_pos == state.plantations@[i].pos
                        &&& a.relay_pos == a.author_pos
                        &&& spec_step(a.author_pos, d) == Some(a.target_pos)
                        &&& a.expected_effect == params.cs
                    }
                },
                _ => false,
            },
            None => {
                &&& forall|i: int, j: int| !#[trigger] close_pair(state, params, i, j)
                &&& forall|i: int, d: int| !#[trigger] free_side(state, memory, i, d)
            },
        },
{
    let ps = state.plantations@;
    let cs = spec_controllable(state);
    lemma_filter_upto(ps, controllable_pred(), ps.len() as int);
    lemma_repair_pair(cs, params, cs.len() as int);
    lemma_build_cell(cs, state, memory, cs.len() as int);
    // every connected plantation is listed among `cs`
    assert forall|i: int| 0 <= i < ps.len() && !ps[i].is_isolated implies #[trigger] cs.contains(ps[i]) by {
        assert(controllable_pred()(ps[i]));
    }
    match first_repair_pair(cs, params, cs.len() as int) {
        Some((i, j)) => {
            let pi = choose|x: int| 0 <= x < ps.len() && ps[x] == cs[i];
            let pj = choose|x: int| 0 <= x < ps.len() && ps[x] == cs[j];
            assert(controllable_pred()(cs[i]) && controllable_pred()(cs[j]));
            assert(close_pair(state, params, pi, pj));
        },
        None => {
            assert forall|i: int, j: int| !#[trigger] close_pair(state, params, i, j) by {
                if close_pair(state, params, i, j) {
                    assert(cs.contains(ps[i]) && cs.contains(ps[j]));
                    let ci = choose|x: int| 0 <= x < cs.len() && cs[x] == ps[i];
                    let cj = choose|x: int| 0 <= x < cs.len() && cs[x] == ps[j];
                    assert(partner_pred(cs[ci], params)(cs[cj]));
                }
            }
            match first_build_cell(cs, state, memory, cs.len() as int) {
                Some((i, d)) => {
                    let pi = choose|x: int| 0 <= x < ps.len() && ps[x] == cs[i];
                    assert(controllable_pred()(cs[i]));
                    assert(free_side(state, memory, pi, d));
                },
                None => {
                    assert forall|i: int, d: int| !#[trigger] free_side(state, memory, i, d) by {
                        if free_side(state, memory, i, d) {
                            assert(cs.contains(ps[i]));
                            let ci = choose|x: int| 0 <= x < cs.len() && cs[x] == ps[i];
                            assert(free_dir_pred(cs[ci], state, memory)(d));
                        }
                    }
                },
            }
        },
    }
}

} // verus!

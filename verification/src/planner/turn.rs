use vstd::prelude::*;

use crate::geom::dist::{chebyshev_wide, spec_chebyshev, spec_step, step4};
use crate::geom::grid::{in_bounds, spec_in_bounds};
use crate::model::memory::{has_construction_at, has_plantation_at, Memory};
use crate::model::occupancy::{beaver_at_pos, construction_at_pos, enemy_at_pos, has_beaver_at, has_enemy_at, plantation_at_pos, pos_listed};
use crate::model::params::DerivedParams;
use crate::model::select::{filter_upto, first_where, lemma_first_where_stable};
use crate::model::state::{controllable_pred, useful_pred, GameState, Plantation, Pos};
use crate::model::store::IdMap;
use crate::planner::tasks::{spec_base_stat, Assignment, TaskKind, TaskSpot};
use crate::config::Config;

use crate::planner::tasks::TurnPlan;
use crate::tactics::main_safety::{plan_relocate_main, relocate_fits, spec_relocate};
use crate::tactics::upgrades::{choose_upgrade, spec_choose_upgrade, upgrades_fit};
use crate::text::str_eq;

verus! {

/// `p` may take task `t`: not used yet this turn, the target in its action
/// range, and never repairing itself.
pub open spec fn author_fits(p: Plantation, t: TaskSpot, used: Set<Seq<char>>, params: DerivedParams) -> bool {
    &&& !used.contains(p.id@)
    &&& spec_chebyshev(p.pos, t.target) <= params.ar
    &&& (t.kind matches TaskKind::Repair { target_id } ==> p.id@ != target_id@)
}

/// The first of the closest fitting authors among `us[0..n)`.
pub open spec fn closest_author(us: Seq<Plantation>, t: TaskSpot, used: Set<Seq<char>>, params: DerivedParams, n: int) -> Option<int>
    decreases n,
{
    if n <= 0 {
        None
    } else {
        let prev = closest_author(us, t, used, params, n - 1);
        if !author_fits(us[n - 1], t, used, params) {
            prev
        } else {
            match prev {
                None => Some(n - 1),
                Some(b) => if spec_chebyshev(us[n - 1].pos, t.target) < spec_chebyshev(us[b].pos, t.target) {
                    Some(n - 1)
                } else {
                    Some(b)
                },
            }
        }
    }
}

/// The command of author `p` acting directly on task `t`.
pub open spec fn direct_assignment(p: Plantation, t: TaskSpot, params: DerivedParams) -> Assignment {
    Assignment {
        author_id: p.id,
        author_pos: p.pos,
        relay_pos: p.pos,
        target_pos: t.target,
        kind: t.kind,
        expected_effect: spec_base_stat(t.kind, params),
    }
}

/// Assignments for `ts[0..n)` in order, each task taking the closest author
/// still free; with the ids used so far.
pub open spec fn spec_assign(ts: Seq<TaskSpot>, us: Seq<Plantation>, params: DerivedParams, n: int) -> (Seq<Assignment>, Set<Seq<char>>)
    decreases n,
{
    if n <= 0 {
        (Seq::empty(), Set::empty())
    } else {
        let (asg, used) = spec_assign(ts, us, params, n - 1);
        match closest_author(us, ts[n - 1], used, params, us.len() as int) {
            Some(b) => (asg.push(direct_assignment(us[b], ts[n - 1], params)), used.insert(us[b].id@)),
            None => (asg, used),
        }
    }
}

pub open spec fn spec_useful(state: GameState, params: DerivedParams) -> Seq<Plantation> {
    filter_upto(state.plantations@, useful_pred(state, params), state.plantations@.len() as int)
}

pub proof fn lemma_closest_author(us: Seq<Plantation>, t: TaskSpot, used: Set<Seq<char>>, params: DerivedParams, n: int)
    requires
        0 <= n <= us.len(),
    ensures
        closest_author(us, t, used, params, n) matches Some(b) ==> 0 <= b < n && author_fits(us[b], t, used, params),
    decreases n,
{
    if n > 0 {
        lemma_closest_author(us, t, used, params, n - 1);
    }
}

/// One author per task, in task order: the closest useful plantation with the
/// target in its action range acts directly (it is its own relay).
pub fn assign_tasks_mvp(tasks: &[TaskSpot], state: &GameState, params: &DerivedParams) -> (r: Vec<Assignment>)
    ensures
        r@ == spec_assign(tasks@, spec_useful(*state, *params), *params, tasks@.len() as int).0,
{
    let us = state.useful_authors(params);
    let ghost sus = spec_useful(*state, *params);
    let mut used: IdMap<()> = IdMap::new();
    let mut out: Vec<Assignment> = Vec::new();
    let nt = tasks.len();
    let mut ti: usize = 0;
    while ti < nt
        invariant
            nt == tasks@.len(),
            ti <= nt,
            us@.len() == sus.len(),
            forall|k: int| 0 <= k < us@.len() ==> *us@[k] == sus[k],
            sus == spec_useful(*state, *params),
            out@ == spec_assign(tasks@, sus, *params, ti as int).0,
            used@.dom() == spec_assign(tasks@, sus, *params, ti as int).1,
        decreases nt - ti,
    {
        let t = &tasks[ti];
        let ghost used_set = used@.dom();
        let mut best: Option<usize> = None;
        let mut best_dist: i64 = 0;
        let mut i: usize = 0;
        while i < us.len()
            invariant
                i <= us@.len(),
                us@.len() == sus.len(),
                forall|k: int| 0 <= k < us@.len() ==> *us@[k] == sus[k],
                used@.dom() == used_set,
                *t == tasks@[ti as int],
                best == (match closest_author(sus, *t, used_set, *params, i as int) {
                    Some(b) => Some(b as usize),
                    None => None,
                }),
                best matches Some(b) ==> b < i && best_dist == spec_chebyshev(sus[b as int].pos, t.target),
            decreases us.len() - i,
        {
            proof {
                lemma_closest_author(sus, *t, used_set, *params, i as int);
            }
            let p = us[i];
            let d = chebyshev_wide(p.pos, t.target);
            let not_self = match &t.kind {
                TaskKind::Repair { target_id } => !str_eq(p.id.as_str(), target_id.as_str()),
                _ => true,
            };
            if !used.contains_key(p.id.as_str()) && d <= params.ar as i64 && not_self {
                let closer = match best {
                    None => true,
                    Some(_) => d < best_dist,
                };
                if closer {
                    best = Some(i);
                    best_dist = d;
                }
            }
            i = i + 1;
        }
        proof {
            lemma_closest_author(sus, *t, used_set, *params, us@.len() as int);
        }
        match best {
            Some(b) => {
                let p = us[b];
                used.insert(p.id.clone(), ());
                out.push(Assignment {
                    author_id: p.id.clone(),
                    author_pos: p.pos,
                    relay_pos: p.pos,
                    target_pos: t.target,
                    kind: t.kind.copied(),
                    expected_effect: t.kind.base_stat(params),
                });
                proof {
                    assert(used@.dom() =~= used_set.insert(sus[b as int].id@));
                }
            },
            None => {},
        }
        ti = ti + 1;
    }
    out
}

pub open spec fn partner_pred(p: Plantation, params: DerivedParams) -> spec_fn(Plantation) -> bool {
    |o: Plantation| o.id@ != p.id@ && spec_chebyshev(p.pos, o.pos) <= params.ar
}

/// First pair (author, other) in order with `other` another plantation in
/// the author's action range.
pub open spec fn first_repair_pair(cs: Seq<Plantation>, params: DerivedParams, n: int) -> Option<(int, int)>
    decreases n,
{
    if n <= 0 {
        None
    } else {
        match first_repair_pair(cs, params, n - 1) {
            Some(x) => Some(x),
            None => match first_where(cs, partner_pred(cs[n - 1], params), cs.len() as int) {
                Some(j) => Some((n - 1, j)),
                None => None,
            },
        }
    }
}

/// A cell where a fallback build can start: on the map and holding no
/// plantation, mountain (seen now or before), construction, beaver or enemy.
pub open spec fn free_cell(state: GameState, memory: Memory, c: Pos) -> bool {
    &&& spec_in_bounds(c, state.map_size)
    &&& !has_plantation_at(state.plantations@, c)
    &&& !state.mountains@.contains(c)
    &&& !memory.known_mountains@.contains(c)
    &&& !has_construction_at(state.construction@, c)
    &&& !has_beaver_at(state.beavers@, c)
    &&& !has_enemy_at(state.enemies@, c)
}

pub open spec fn free_dir_pred(p: Plantation, state: GameState, memory: Memory) -> spec_fn(int) -> bool {
    |d: int| spec_step(p.pos, d) matches Some(c) && free_cell(state, memory, c)
}

/// First direction `d < 4` whose neighbour of `p` is free.
pub open spec fn first_free_dir(p: Plantation, state: GameState, memory: Memory, d: int) -> Option<int>
    decreases d,
{
    if d <= 0 {
        None
    } else {
        match first_free_dir(p, state, memory, d - 1) {
            Some(e) => Some(e),
            None => if free_dir_pred(p, state, memory)(d - 1) {
                Some(d - 1)
            } else {
                None
            },
        }
    }
}

pub open spec fn first_build_cell(cs: Seq<Plantation>, state: GameState, memory: Memory, n: int) -> Option<(int, int)>
    decreases n,
{
    if n <= 0 {
        None
    } else {
        match first_build_cell(cs, state, memory, n - 1) {
            Some(x) => Some(x),
            None => match first_free_dir(cs[n - 1], state, memory, 4) {
                Some(d) => Some((n - 1, d)),
                None => None,
            },
        }
    }
}

pub open spec fn spec_controllable(state: GameState) -> Seq<Plantation> {
    filter_upto(state.plantations@, controllable_pred(), state.plantations@.len() as int)
}

/// The fallback of an empty plan: repair a neighbour in range if two
/// controllable plantations are close enough, else build on the first free
/// 4-neighbour, else nothing.
pub open spec fn spec_fallback(state: GameState, memory: Memory, params: DerivedParams) -> Option<Assignment> {
    let cs = spec_controllable(state);
    match first_repair_pair(cs, params, cs.len() as int) {
        Some((i, j)) => Some(Assignment {
            author_id: cs[i].id,
            author_pos: cs[i].pos,
            relay_pos: cs[i].pos,
            target_pos: cs[j].pos,
            kind: TaskKind::Repair { target_id: cs[j].id },
            expected_effect: params.rs,
        }),
        None => match first_build_cell(cs, state, memory, cs.len() as int) {
            Some((i, d)) => Some(Assignment {
                author_id: cs[i].id,
                author_pos: cs[i].pos,
                relay_pos: cs[i].pos,
                target_pos: spec_step(cs[i].pos, d)->0,
                kind: TaskKind::Build,
                expected_effect: params.cs,
            }),
            None => None,
        },
    }
}

fn is_free_cell(state: &GameState, memory: &Memory, c: Pos) -> (b: bool)
    ensures
        b == free_cell(*state, *memory, c),
{
    in_bounds(c, state.map_size)
        && !plantation_at_pos(&state.plantations, c)
        && !pos_listed(&state.mountains, c)
        && !memory.known_mountains.contains(&c)
        && !construction_at_pos(&state.construction, c)
        && !beaver_at_pos(&state.beavers, c)
        && !enemy_at_pos(&state.enemies, c)
}

pub fn fallback_action(state: &GameState, memory: &Memory, params: &DerivedParams) -> (r: Option<Assignment>)
    ensures
        r == spec_fallback(*state, *memory, *params),
{
    let cs = state.controllable();
    let ghost scs = spec_controllable(*state);
    let n = cs.len();
    // Repair a neighbour.
    let mut i: usize = 0;
    while i < n
        invariant
            n == cs@.len(),
            n == scs.len(),
            scs == spec_controllable(*state),
            forall|k: int| 0 <= k < n ==> *cs@[k] == scs[k],
            i <= n,
            first_repair_pair(scs, *params, i as int) is None,
        decreases n - i,
    {
        let p = cs[i];
        let mut j: usize = 0;
        while j < n
            invariant
                n == cs@.len(),
                n == scs.len(),
                scs == spec_controllable(*state),
                forall|k: int| 0 <= k < n ==> *cs@[k] == scs[k],
                i < n,
                *p == scs[i as int],
                j <= n,
                first_repair_pair(scs, *params, i as int) is None,
                first_where(scs, partner_pred(scs[i as int], *params), j as int) is None,
            decreases n - j,
        {
            let other = cs[j];
            if !str_eq(other.id.as_str(), p.id.as_str()) && chebyshev_wide(p.pos, other.pos) <= params.ar as i64 {
                proof {
                    assert(first_where(scs, partner_pred(scs[i as int], *params), j + 1) == Some(j as int));
                    lemma_first_where_stable(scs, partner_pred(scs[i as int], *params), j + 1, n as int);
                    assert(first_repair_pair(scs, *params, i + 1) == Some((i as int, j as int)));
                    lemma_first_repair_stable(scs, *params, i + 1, n as int);
                }
                return Some(Assignment {
                    author_id: p.id.clone(),
                    author_pos: p.pos,
                    relay_pos: p.pos,
                    target_pos: other.pos,
                    kind: TaskKind::Repair { target_id: other.id.clone() },
                    expected_effect: params.rs,
                });
            }
            j = j + 1;
        }
        i = i + 1;
    }
    // Build on a free 4-neighbour.
    let mut i: usize = 0;
    while i < n
        invariant
            n == cs@.len(),
            n == scs.len(),
            scs == spec_controllable(*state),
            forall|k: int| 0 <= k < n ==> *cs@[k] == scs[k],
            i <= n,
            first_repair_pair(scs, *params, n as int) is None,
            first_build_cell(scs, *state, *memory, i as int) is None,
        decreases n - i,
    {
        let p = cs[i];
        let mut d: usize = 0;
        while d < 4
            invariant
                n == scs.len(),
                scs == spec_controllable(*state),
                i < n,
                *p == scs[i as int],
                d <= 4,
                forall|k: int| 0 <= k < n ==> *cs@[k] == scs[k],
                n == cs@.len(),
                first_repair_pair(scs, *params, n as int) is None,
                first_build_cell(scs, *state, *memory, i as int) is None,
                first_free_dir(scs[i as int], *state, *memory, d as int) is None,
            decreases 4 - d,
        {
            match step4(p.pos, d) {
                Some(cell) => {
                    if is_free_cell(state, memory, cell) {
                        proof {
                            assert(first_free_dir(scs[i as int], *state, *memory, d + 1) == Some(d as int));
                            lemma_first_free_dir_stable(scs[i as int], *state, *memory, d + 1, 4);
                            assert(first_build_cell(scs, *state, *memory, i + 1) == Some((i as int, d as int)));
                            lemma_first_build_stable(scs, *state, *memory, i + 1, n as int);
                        }
                        return Some(Assignment {
                            author_id: p.id.clone(),
                            author_pos: p.pos,
                            relay_pos: p.pos,
                            target_pos: cell,
                            kind: TaskKind::Build,
                            expected_effect: params.cs,
                        });
                    }
                },
                None => {},
            }
            d = d + 1;
        }
        i = i + 1;
    }
    None
}

proof fn lemma_first_repair_stable(cs: Seq<Plantation>, params: DerivedParams, n: int, m: int)
    requires
        0 <= n <= m,
        first_repair_pair(cs, params, n) is Some,
    ensures
        first_repair_pair(cs, params, m) == first_repair_pair(cs, params, n),
    decreases m - n,
{
    if m > n {
        lemma_first_repair_stable(cs, params, n, m - 1);
    }
}

proof fn lemma_first_free_dir_stable(p: Plantation, state: GameState, memory: Memory, n: int, m: int)
    requires
        0 <= n <= m,
        first_free_dir(p, state, memory, n) is Some,
    ensures
        first_free_dir(p, state, memory, m) == first_free_dir(p, state, memory, n),
    decreases m - n,
{
    if m > n {
        lemma_first_free_dir_stable(p, state, memory, n, m - 1);
    }
}

proof fn lemma_first_build_stable(cs: Seq<Plantation>, state: GameState, memory: Memory, n: int, m: int)
    requires
        0 <= n <= m,
        first_build_cell(cs, state, memory, n) is Some,
    ensures
        first_build_cell(cs, state, memory, m) == first_build_cell(cs, state, memory, n),
    decreases m - n,
{
    if m > n {
        lemma_first_build_stable(cs, state, memory, n, m - 1);
    }
}

/// The plan of a turn once its tasks are ranked: assignments in task order,
/// the upgrade to buy, the relocation of the main plantation, and, when all
/// of these are empty, the fallback command (so that no turn goes by without
/// a command when one is possible).
pub fn plan_turn_from_tasks(tasks: &[TaskSpot], state: &GameState, memory: &Memory, params: &DerivedParams, cfg: &Config) -> (plan: TurnPlan)
    requires
        upgrades_fit(*state),
        relocate_fits(*state, *params, *cfg),
    ensures
        ({
            let asg = spec_assign(tasks@, spec_useful(*state, *params), *params, tasks@.len() as int).0;
            let up = spec_choose_upgrade(*state, *cfg);
            let reloc = spec_relocate(*state, *params, *cfg);
            &&& (match up {
                Some(name) => plan.upgrade matches Some(s) && s@ == name,
                None => plan.upgrade is None,
            })
            &&& (match reloc {
                Some((from, to)) => plan.relocate_main matches Some(v) && v@ == seq![from, to],
                None => plan.relocate_main is None,
            })
            &&& if asg.len() == 0 && up is None && reloc is None {
                match spec_fallback(*state, *memory, *params) {
                    Some(a) => plan.assignments@ == seq![a],
                    None => plan.assignments@.len() == 0,
                }
            } else {
                plan.assignments@ == asg
            }
        }),
{
    let mut assignments = assign_tasks_mvp(tasks, state, params);
    let upgrade = choose_upgrade(state, cfg);
    let relocate_main = plan_relocate_main(state, memory, params, cfg);
    if assignments.len() == 0 && upgrade.is_none() && relocate_main.is_none() {
        match fallback_action(state, memory, params) {
            Some(fb) => {
                assignments.push(fb);
                assert(assignments@ =~= seq![spec_fallback(*state, *memory, *params)->0]);
            },
            None => {},
        }
    }
    TurnPlan { assignments, upgrade, relocate_main }
}

} // verus!

use vstd::prelude::*;

use crate::model::params::DerivedParams;
use crate::model::state::{GameState, Plantation, Pos};
use crate::model::store::{IdMap, PosMap};
use crate::planner::tasks::{spec_base_stat, Assignment, TaskSpot};
use crate::planner::turn::spec_controllable;
use crate::tactics::relay::{choose_relay, spec_choose_relay, usage_fits, relay_effect};

verus! {

/// Best (author index, relay, effect) among `cs[0..n)` for task `t`: authors
/// not used yet, each with its best relay; a strictly better effect wins.
pub open spec fn author_pick(
    cs: Seq<Plantation>,
    t: TaskSpot,
    base: i32,
    state: GameState,
    params: DerivedParams,
    used: Set<Seq<char>>,
    usage: Map<Pos, u32>,
    n: int,
) -> Option<(int, Pos, int)>
    decreases n,
{
    if n <= 0 {
        None
    } else {
        let prev = author_pick(cs, t, base, state, params, used, usage, n - 1);
        let a = cs[n - 1];
        if used.contains(a.id@) {
            prev
        } else {
            match spec_choose_relay(a, t.target, base, state, params, usage) {
                None => prev,
                Some(c) => match prev {
                    None => Some((n - 1, c.0, c.1)),
                    Some(b) => if c.1 > b.2 {
                        Some((n - 1, c.0, c.1))
                    } else {
                        prev
                    },
                },
            }
        }
    }
}

/// One more command routed through `p`.
pub open spec fn bump(usage: Map<Pos, u32>, p: Pos) -> Map<Pos, u32> {
    usage.insert(p, ((if usage.dom().contains(p) { usage[p] as int } else { 0 }) + 1) as u32)
}

/// Assignments of `ts[0..n)` in order, with the author ids used and the
/// commands routed through each relay so far.
pub open spec fn spec_assign_ranked(ts: Seq<TaskSpot>, state: GameState, params: DerivedParams, n: int) -> (Seq<Assignment>, Set<Seq<char>>, Map<Pos, u32>)
    decreases n,
{
    if n <= 0 {
        (Seq::empty(), Set::empty(), Map::empty())
    } else {
        let (asg, used, usage) = spec_assign_ranked(ts, state, params, n - 1);
        let t = ts[n - 1];
        let cs = spec_controllable(state);
        match author_pick(cs, t, spec_base_stat(t.kind, params), state, params, used, usage, cs.len() as int) {
            Some((i, r, e)) => (
                asg.push(Assignment {
                    author_id: cs[i].id,
                    author_pos: cs[i].pos,
                    relay_pos: r,
                    target_pos: t.target,
                    kind: t.kind,
                    expected_effect: e as i32,
                }),
                used.insert(cs[i].id@),
                bump(usage, r),
            ),
            None => (asg, used, usage),
        }
    }
}

/// No effect computed while assigning `ts` leaves `i32`: each command through
/// a relay costs one point, and there are at most as many as tasks.
pub open spec fn assign_fits(ts: Seq<TaskSpot>, params: DerivedParams) -> bool {
    &&& ts.len() <= i32::MAX
    &&& forall|k: int| 0 <= k < ts.len() ==> spec_base_stat(#[trigger] ts[k].kind, params) - ts.len() >= i32::MIN
}

pub proof fn lemma_pick(
    cs: Seq<Plantation>,
    t: TaskSpot,
    base: i32,
    state: GameState,
    params: DerivedParams,
    used: Set<Seq<char>>,
    usage: Map<Pos, u32>,
    n: int,
)
    requires
        0 <= n <= cs.len(),
    ensures
        author_pick(cs, t, base, state, params, used, usage, n) matches Some(b) ==> {
            &&& 0 <= b.0 < n
            &&& !used.contains(cs[b.0].id@)
            &&& spec_choose_relay(cs[b.0], t.target, base, state, params, usage) == Some((b.1, b.2))
        },
    decreases n,
{
    if n > 0 {
        lemma_pick(cs, t, base, state, params, used, usage, n - 1);
    }
}

pub proof fn lemma_usage_bound(ts: Seq<TaskSpot>, state: GameState, params: DerivedParams, n: int)
    requires
        0 <= n <= ts.len(),
        ts.len() <= i32::MAX,
    ensures
        forall|p: Pos| #[trigger] spec_assign_ranked(ts, state, params, n).2.dom().contains(p)
            ==> spec_assign_ranked(ts, state, params, n).2[p] <= n,
    decreases n,
{
    if n > 0 {
        lemma_usage_bound(ts, state, params, n - 1);
        let (asg, used, usage) = spec_assign_ranked(ts, state, params, n - 1);
        let t = ts[n - 1];
        let cs = spec_controllable(state);
        match author_pick(cs, t, spec_base_stat(t.kind, params), state, params, used, usage, cs.len() as int) {
            Some((i, r, e)) => {
                let old_v: int = if usage.dom().contains(r) { usage[r] as int } else { 0 };
                assert(old_v <= n - 1);
                assert(bump(usage, r)[r] == old_v + 1);
            },
            None => {},
        }
    }
}

/// Assigns tasks given in rank order: each task takes, among the free
/// controllable plantations, the author whose best relay gives the strictly
/// greatest effect (the first such author on ties); every command routed
/// through a relay lowers the effect of the next ones through it by one.
pub fn assign_tasks(tasks: &[TaskSpot], state: &GameState, params: &DerivedParams) -> (r: Vec<Assignment>)
    requires
        assign_fits(tasks@, *params),
    ensures
        r@ == spec_assign_ranked(tasks@, *state, *params, tasks@.len() as int).0,
{
    let cs = state.controllable();
    let ghost scs = spec_controllable(*state);
    let mut used: IdMap<()> = IdMap::new();
    let mut usage: PosMap<u32> = PosMap::new();
    let mut out: Vec<Assignment> = Vec::new();
    let nt = tasks.len();
    let mut ti: usize = 0;
    while ti < nt
        invariant
            nt == tasks@.len(),
            ti <= nt,
            assign_fits(tasks@, *params),
            cs@.len() == scs.len(),
            forall|k: int| 0 <= k < cs@.len() ==> *cs@[k] == scs[k],
            scs == spec_controllable(*state),
            out@ == spec_assign_ranked(tasks@, *state, *params, ti as int).0,
            used@.dom() == spec_assign_ranked(tasks@, *state, *params, ti as int).1,
            usage@ == spec_assign_ranked(tasks@, *state, *params, ti as int).2,
        decreases nt - ti,
    {
        proof {
            lemma_usage_bound(tasks@, *state, *params, ti as int);
        }
        let t = &tasks[ti];
        let base = t.kind.base_stat(params);
        let ghost used_set = used@.dom();
        let ghost usage_map = usage@;
        assert(usage_fits(usage_map, base)) by {
            assert(spec_base_stat(tasks@[ti as int].kind, *params) - tasks@.len() >= i32::MIN);
            assert forall|p: Pos| #[trigger] usage_map.dom().contains(p) implies
                i32::MIN <= relay_effect(usage_map, p, base) <= i32::MAX by {
                assert(usage_map[p] <= ti);
            }
        }
        let mut best: Option<(usize, Pos, i32)> = None;
        let nc = cs.len();
        let mut i: usize = 0;
        while i < nc
            invariant
                nc == cs@.len(),
                i <= nc,
                cs@.len() == scs.len(),
                forall|k: int| 0 <= k < cs@.len() ==> *cs@[k] == scs[k],
                used@.dom() == used_set,
                usage@ == usage_map,
                usage_fits(usage_map, base),
                base == spec_base_stat(t.kind, *params),
                best == (match author_pick(scs, *t, base, *state, *params, used_set, usage_map, i as int) {
                    Some(b) => Some((b.0 as usize, b.1, b.2 as i32)),
                    None => None,
                }),
                best matches Some(b) ==> b.0 < i,
                author_pick(scs, *t, base, *state, *params, used_set, usage_map, i as int) matches Some(b)
                    ==> i32::MIN <= b.2 <= i32::MAX,
            decreases nc - i,
        {
            proof {
                lemma_pick(scs, *t, base, *state, *params, used_set, usage_map, i as int);
            }
            let a = cs[i];
            assert(*a == scs[i as int]);
            if !used.contains_key(a.id.as_str()) {
                match choose_relay(a, t.target, base, state, params, &usage) {
                    Some(c) => {
                        let better = match best {
                            None => true,
                            Some(b) => c.expected_effect > b.2,
                        };
                        if better {
                            best = Some((i, c.relay_pos, c.expected_effect));
                        }
                    },
                    None => {},
                }
            }
            i = i + 1;
        }
        proof {
            lemma_pick(scs, *t, base, *state, *params, used_set, usage_map, nc as int);
        }
        match best {
            Some((bi, rpos, eff)) => {
                let a = cs[bi];
                used.insert(a.id.clone(), ());
                let cur: u32 = match usage.get(rpos) {
                    Some(v) => *v,
                    None => 0,
                };
                usage.insert(rpos, cur + 1);
                out.push(Assignment {
                    author_id: a.id.clone(),
                    author_pos: a.pos,
                    relay_pos: rpos,
                    target_pos: t.target,
                    kind: t.kind.copied(),
                    expected_effect: eff,
                });
                proof {
                    assert(used@.dom() =~= used_set.insert(scs[bi as int].id@));
                    assert(usage@ =~= bump(usage_map, rpos));
                }
            },
            None => {},
        }
        ti = ti + 1;
    }
    out
}

} // verus!

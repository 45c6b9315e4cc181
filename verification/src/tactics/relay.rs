use vstd::prelude::*;

use crate::geom::dist::{chebyshev_wide, spec_chebyshev};
use crate::model::params::{fits_i32, DerivedParams};
use crate::model::select::{filter_upto, lemma_filter_upto};
use crate::model::state::{controllable_pred, useful_pred, GameState, Plantation, Pos};
use crate::model::store::PosMap;
use crate::text::str_eq;

verus! {

/// The relay that carries a command from its author to its target.
#[derive(Debug, Clone, Copy)]
pub struct RelayChoice {
    pub relay_pos: Pos,
    pub expected_effect: i32,
}

/// Commands already routed through the cell `pos` (the count, cast as `i32`).
pub open spec fn used_through(usage: Map<Pos, u32>, pos: Pos) -> i32 {
    if usage.dom().contains(pos) {
        usage[pos] as i32
    } else {
        0
    }
}

/// Effect of a command through `pos`: every command already routed through
/// the same relay costs one point.
pub open spec fn relay_effect(usage: Map<Pos, u32>, pos: Pos, base: i32) -> int {
    base - used_through(usage, pos)
}

/// No effect computation leaves `i32`.
pub open spec fn usage_fits(usage: Map<Pos, u32>, base: i32) -> bool {
    &&& fits_i32(base as int)
    &&& forall|p: Pos| #[trigger] usage.dom().contains(p) ==> fits_i32(relay_effect(usage, p, base))
}

/// The author relays its own command when the target is in action range.
pub open spec fn direct_choice(author: Plantation, target: Pos, base: i32, params: DerivedParams, usage: Map<Pos, u32>) -> Option<(Pos, int)> {
    if spec_chebyshev(author.pos, target) <= params.ar && relay_effect(usage, author.pos, base) > 0 {
        Some((author.pos, relay_effect(usage, author.pos, base)))
    } else {
        None
    }
}

/// `r` can carry the command: another plantation within signal range of the
/// author, with the target in its action range and a positive effect.
pub open spec fn relay_ok(author: Plantation, r: Plantation, target: Pos, base: i32, params: DerivedParams, usage: Map<Pos, u32>) -> bool {
    &&& r.id@ != author.id@
    &&& spec_chebyshev(author.pos, r.pos) <= params.sr
    &&& spec_chebyshev(r.pos, target) <= params.ar
    &&& relay_effect(usage, r.pos, base) > 0
}

/// Best choice among `rs[0..n)` starting from `init`: a strictly better
/// effect replaces the current choice.
pub open spec fn relay_fold(author: Plantation, target: Pos, base: i32, params: DerivedParams, usage: Map<Pos, u32>, rs: Seq<Plantation>, n: int, init: Option<(Pos, int)>) -> Option<(Pos, int)>
    decreases n,
{
    if n <= 0 {
        init
    } else {
        let prev = relay_fold(author, target, base, params, usage, rs, n - 1, init);
        let r = rs[n - 1];
        if !relay_ok(author, r, target, base, params, usage) {
            prev
        } else {
            let e = relay_effect(usage, r.pos, base);
            match prev {
                None => Some((r.pos, e)),
                Some(b) => if e > b.1 {
                    Some((r.pos, e))
                } else {
                    prev
                },
            }
        }
    }
}

pub open spec fn spec_choose_relay(author: Plantation, target: Pos, base: i32, state: GameState, params: DerivedParams, usage: Map<Pos, u32>) -> Option<(Pos, int)> {
    let rs = filter_upto(state.plantations@, controllable_pred(), state.plantations@.len() as int);
    relay_fold(author, target, base, params, usage, rs, rs.len() as int, direct_choice(author, target, base, params, usage))
}

/// A command from `a` through the relay on `r` reaches `t`: the relay is the
/// author or within its signal range, and `t` is within the relay's action
/// range.
pub open spec fn routed(a: Pos, r: Pos, t: Pos, params: DerivedParams) -> bool {
    &&& spec_chebyshev(r, t) <= params.ar
    &&& (r == a || spec_chebyshev(a, r) <= params.sr)
}

proof fn lemma_relay_fold_routed(
    author: Plantation,
    target: Pos,
    base: i32,
    params: DerivedParams,
    usage: Map<Pos, u32>,
    rs: Seq<Plantation>,
    n: int,
    init: Option<(Pos, int)>,
)
    requires
        0 <= n <= rs.len(),
        init matches Some(c) ==> routed(author.pos, c.0, target, params) && c.1 > 0 && c.1 == relay_effect(usage, c.0, base),
    ensures
        relay_fold(author, target, base, params, usage, rs, n, init) matches Some(c)
            ==> routed(author.pos, c.0, target, params) && c.1 > 0 && c.1 == relay_effect(usage, c.0, base),
    decreases n,
{
    if n > 0 {
        lemma_relay_fold_routed(author, target, base, params, usage, rs, n - 1, init);
    }
}

/// The relay chosen for a command reaches the target, with a positive effect:
/// the base stat minus the commands already routed through it.
pub proof fn lemma_choose_relay_routed(author: Plantation, target: Pos, base: i32, state: GameState, params: DerivedParams, usage: Map<Pos, u32>)
    ensures
        spec_choose_relay(author, target, base, state, params, usage) matches Some(c)
            ==> routed(author.pos, c.0, target, params) && c.1 > 0 && c.1 == relay_effect(usage, c.0, base),
{
    let rs = filter_upto(state.plantations@, controllable_pred(), state.plantations@.len() as int);
    lemma_filter_upto(state.plantations@, controllable_pred(), state.plantations@.len() as int);
    lemma_relay_fold_routed(author, target, base, params, usage, rs, rs.len() as int, direct_choice(author, target, base, params, usage));
}

fn used_at(usage: &PosMap<u32>, pos: Pos) -> (u: i32)
    ensures
        u == used_through(usage@, pos),
{
    match usage.get(pos) {
        Some(v) => *v as i32,
        None => 0,
    }
}

/// Best relay for a command from `author` to `target`: the author itself when
/// the target is in its action range, or another controllable plantation;
/// ties keep the earlier choice.
pub fn choose_relay(
    author: &Plantation,
    target: Pos,
    base_stat: i32,
    state: &GameState,
    params: &DerivedParams,
    relay_usage: &PosMap<u32>,
) -> (r: Option<RelayChoice>)
    requires
        usage_fits(relay_usage@, base_stat),
    ensures
        match spec_choose_relay(*author, target, base_stat, *state, *params, relay_usage@) {
            Some(c) => r matches Some(rc) && rc.relay_pos == c.0 && rc.expected_effect == c.1,
            None => r is None,
        },
{
    let ghost usage = relay_usage@;
    let mut best: Option<RelayChoice> = None;
    if chebyshev_wide(author.pos, target) <= params.ar as i64 {
        let used = used_at(relay_usage, author.pos);
        let eff = base_stat - used;
        if eff > 0 {
            best = Some(RelayChoice { relay_pos: author.pos, expected_effect: eff });
        }
    }
    let ghost init = direct_choice(*author, target, base_stat, *params, usage);
    let rs = state.controllable();
    let ghost srs = filter_upto(state.plantations@, controllable_pred(), state.plantations@.len() as int);
    let n = rs.len();
    let mut i: usize = 0;
    while i < n
        invariant
            n == rs@.len(),
            n == srs.len(),
            forall|k: int| 0 <= k < n ==> *rs@[k] == srs[k],
            i <= n,
            usage == relay_usage@,
            usage_fits(usage, base_stat),
            match relay_fold(*author, target, base_stat, *params, usage, srs, i as int, init) {
                Some(c) => best matches Some(rc) && rc.relay_pos == c.0 && rc.expected_effect == c.1,
                None => best is None,
            },
        decreases n - i,
    {
        let relay = rs[i];
        assert(*relay == srs[i as int]);
        if !str_eq(relay.id.as_str(), author.id.as_str())
            && chebyshev_wide(author.pos, relay.pos) <= params.sr as i64
            && chebyshev_wide(relay.pos, target) <= params.ar as i64 {
            let used = used_at(relay_usage, relay.pos);
            let eff = base_stat - used;
            if eff > 0 {
                let better = match best {
                    Some(b) => eff > b.expected_effect,
                    None => true,
                };
                if better {
                    best = Some(RelayChoice { relay_pos: relay.pos, expected_effect: eff });
                }
            }
        }
        i = i + 1;
    }
    best
}

/// `author` can act on `target`, directly or through a useful relay.
pub open spec fn spec_can_reach(author: Plantation, target: Pos, state: GameState, params: DerivedParams) -> bool {
    spec_chebyshev(author.pos, target) <= params.ar
        || exists|k: int| 0 <= k < state.plantations@.len() && {
            let r = #[trigger] state.plantations@[k];
            &&& useful_pred(state, params)(r)
            &&& r.id@ != author.id@
            &&& spec_chebyshev(author.pos, r.pos) <= params.sr
            &&& spec_chebyshev(r.pos, target) <= params.ar
        }
}

pub fn can_reach_via_any_relay(author: &Plantation, target: Pos, state: &GameState, params: &DerivedParams) -> (b: bool)
    ensures
        b == spec_can_reach(*author, target, *state, *params),
{
    if chebyshev_wide(author.pos, target) <= params.ar as i64 {
        return true;
    }
    let us = state.useful_authors(params);
    let ghost sus = filter_upto(state.plantations@, useful_pred(*state, *params), state.plantations@.len() as int);
    proof {
        lemma_filter_upto(state.plantations@, useful_pred(*state, *params), state.plantations@.len() as int);
    }
    let n = us.len();
    let mut i: usize = 0;
    while i < n
        invariant
            n == us@.len(),
            n == sus.len(),
            forall|k: int| 0 <= k < n ==> *us@[k] == sus[k],
            sus == filter_upto(state.plantations@, useful_pred(*state, *params), state.plantations@.len() as int),
            i <= n,
            forall|k: int| 0 <= k < i ==> !({
                let r = #[trigger] sus[k];
                &&& r.id@ != author.id@
                &&& spec_chebyshev(author.pos, r.pos) <= params.sr
                &&& spec_chebyshev(r.pos, target) <= params.ar
            }),
        decreases n - i,
    {
        let r = us[i];
        assert(*r == sus[i as int]);
        if !str_eq(r.id.as_str(), author.id.as_str())
            && chebyshev_wide(author.pos, r.pos) <= params.sr as i64
            && chebyshev_wide(r.pos, target) <= params.ar as i64 {
            proof {
                lemma_filter_upto(state.plantations@, useful_pred(*state, *params), state.plantations@.len() as int);
                assert(sus == filter_upto(state.plantations@, useful_pred(*state, *params), state.plantations@.len() as int));
                let j = choose|j: int| 0 <= j < state.plantations@.len() && state.plantations@[j] == #[trigger] sus[i as int];
                assert(useful_pred(*state, *params)(sus[i as int]));
                assert(state.plantations@[j] == *r);
            }
            return true;
        }
        i = i + 1;
    }
    proof {
        assert forall|k: int| 0 <= k < state.plantations@.len() implies !({
            let r = #[trigger] state.plantations@[k];
            &&& useful_pred(*state, *params)(r)
            &&& r.id@ != author.id@
            &&& spec_chebyshev(author.pos, r.pos) <= params.sr
            &&& spec_chebyshev(r.pos, target) <= params.ar
        }) by {
            let r = state.plantations@[k];
            if useful_pred(*state, *params)(r) {
                assert(sus.contains(r));
                let q = choose|q: int| 0 <= q < sus.len() && sus[q] == r;
                assert(sus[q] == r);
            }
        }
    }
    false
}

proof fn lemma_relay_fold_best(
    author: Plantation,
    target: Pos,
    base: i32,
    params: DerivedParams,
    usage: Map<Pos, u32>,
    rs: Seq<Plantation>,
    n: int,
    init: Option<(Pos, int)>,
)
    requires
        0 <= n <= rs.len(),
    ensures
        match relay_fold(author, target, base, params, usage, rs, n, init) {
            Some(c) => {
                &&& (init matches Some(i) ==> i.1 <= c.1)
                &&& forall|k: int| 0 <= k < n && relay_ok(author, #[trigger] rs[k], target, base, params, usage)
                    ==> relay_effect(usage, rs[k].pos, base) <= c.1
                &&& (init == Some(c) || exists|k: int| 0 <= k < n && relay_ok(author, #[trigger] rs[k], target, base, params, usage)
                    && rs[k].pos == c.0)
            },
            None => {
                &&& init is None
                &&& forall|k: int| 0 <= k < n ==> !relay_ok(author, #[trigger] rs[k], target, base, params, usage)
            },
        },
    decreases n,
{
    if n > 0 {
        lemma_relay_fold_best(author, target, base, params, usage, rs, n - 1, init);
    }
}

/// The chosen relay is one of the ways to route the command, and the best
/// one: no way to route it (the author
/// itself when the target is in its action range, or another connected
/// plantation within signal range that has the target in its action range)
/// gives a larger effect, each command already routed through a relay costing
/// one point; and there is no choice exactly when every way has no effect left.
pub proof fn law_chosen_relay_is_best(author: Plantation, target: Pos, base: i32, state: GameState, params: DerivedParams, usage: Map<Pos, u32>)
    ensures
        match spec_choose_relay(author, target, base, state, params, usage) {
            Some(c) => {
                &&& c.1 > 0
                &&& c.1 == relay_effect(usage, c.0, base)
                &&& ((c.0 == author.pos && spec_chebyshev(author.pos, target) <= params.ar)
                    || exists|j: int| 0 <= j < state.plantations@.len() && !(#[trigger] state.plantations@[j]).is_isolated
                        && relay_ok(author, state.plantations@[j], target, base, params, usage)
                        && state.plantations@[j].pos == c.0)
                &&& (spec_chebyshev(author.pos, target) <= params.ar ==> relay_effect(usage, author.pos, base) <= c.1)
                &&& forall|j: int| 0 <= j < state.plantations@.len() && !(#[trigger] state.plantations@[j]).is_isolated
                    && relay_ok(author, state.plantations@[j], target, base, params, usage)
                    ==> relay_effect(usage, state.plantations@[j].pos, base) <= c.1
            },
            None => {
                &&& !(spec_chebyshev(author.pos, target) <= params.ar && relay_effect(usage, author.pos, base) > 0)
                &&& forall|j: int| 0 <= j < state.plantations@.len() && !(#[trigger] state.plantations@[j]).is_isolated
                    ==> !relay_ok(author, state.plantations@[j], target, base, params, usage)
            },
        },
{
    let ps = state.plantations@;
    let rs = filter_upto(ps, controllable_pred(), ps.len() as int);
    lemma_filter_upto(ps, controllable_pred(), ps.len() as int);
    let init = direct_choice(author, target, base, params, usage);
    lemma_relay_fold_best(author, target, base, params, usage, rs, rs.len() as int, init);
    lemma_choose_relay_routed(author, target, base, state, params, usage);
    assert forall|j: int| 0 <= j < ps.len() && !(#[trigger] ps[j]).is_isolated implies rs.contains(ps[j]) by {
        assert(controllable_pred()(ps[j]));
    }
    match spec_choose_relay(author, target, base, state, params, usage) {
        Some(c) => {
            if init != Some(c) {
                let k = choose|k: int| 0 <= k < rs.len() && relay_ok(author, #[trigger] rs[k], target, base, params, usage)
                    && rs[k].pos == c.0;
                let j = choose|j: int| 0 <= j < ps.len() && ps[j] == rs[k];
                assert(controllable_pred()(rs[k]));
                assert(!ps[j].is_isolated && relay_ok(author, ps[j], target, base, params, usage) && ps[j].pos == c.0);
            }
        },
        None => {},
    }
}

} // verus!

use vstd::prelude::*;

use crate::config::Config;
use crate::model::select::{first_where, lemma_first_where, lemma_first_where_stable};
use crate::model::state::{GameState, UpgradeTier};
use crate::model::params::tier_name_pred;
use crate::text::str_eq;

verus! {

/// Upgrades bought so far: the sum of the current levels, each taken as a
/// `usize` (as the server reports levels, never negative in practice).
pub open spec fn bought_upto(tiers: Seq<UpgradeTier>, n: int) -> int
    decreases n,
{
    if n <= 0 {
        0
    } else {
        bought_upto(tiers, n - 1) + (tiers[n - 1].current as usize) as int
    }
}

pub open spec fn open_tier_pred() -> spec_fn(UpgradeTier) -> bool {
    |t: UpgradeTier| t.current < t.max
}

/// The upgrade to buy this turn: none without points; else the next entry of
/// the priority sequence (indexed by the number of upgrades bought) when its
/// tier exists and is below its maximum; else the first tier below its
/// maximum; else none.
pub open spec fn spec_choose_upgrade(state: GameState, cfg: Config) -> Option<Seq<char>> {
    let tiers = state.upgrades.tiers@;
    let seq = cfg.upgrades.priority_order.sequence@;
    let bought = bought_upto(tiers, tiers.len() as int);
    let fallback = match first_where(tiers, open_tier_pred(), tiers.len() as int) {
        Some(i) => Some(tiers[i].name@),
        None => None,
    };
    if state.upgrades.points <= 0 {
        None
    } else if 0 <= bought < seq.len() {
        let name = seq[bought]@;
        match first_where(tiers, tier_name_pred(name), tiers.len() as int) {
            Some(i) => if tiers[i].current < tiers[i].max {
                Some(name)
            } else {
                fallback
            },
            None => fallback,
        }
    } else {
        fallback
    }
}

/// Counting the bought upgrades (done only with points in hand) does not
/// overflow.
pub open spec fn upgrades_fit(state: GameState) -> bool {
    state.upgrades.points > 0 ==> forall|n: int| 0 <= n <= state.upgrades.tiers@.len()
        ==> #[trigger] bought_upto(state.upgrades.tiers@, n) <= usize::MAX
}

/// Whether `choose_upgrade` can count the bought upgrades (see `upgrades_fit`).
pub fn upgrades_fit_check(state: &GameState) -> (b: bool)
    ensures
        b == upgrades_fit(*state),
{
    if state.upgrades.points <= 0 {
        return true;
    }
    let tiers = &state.upgrades.tiers;
    let n = tiers.len();
    let mut total: u128 = 0;
    let mut i: usize = 0;
    while i < n
        invariant
            n == tiers@.len(),
            i <= n,
            tiers == state.upgrades.tiers,
            state.upgrades.points > 0,
            total == bought_upto(tiers@, i as int),
            forall|m: int| 0 <= m <= i ==> #[trigger] bought_upto(tiers@, m) <= usize::MAX,
        decreases n - i,
    {
        total = total + tiers[i].current as usize as u128;
        if total > usize::MAX as u128 {
            assert(bought_upto(tiers@, i + 1) > usize::MAX);
            return false;
        }
        i = i + 1;
    }
    true
}

pub fn choose_upgrade(state: &GameState, cfg: &Config) -> (r: Option<String>)
    requires
        upgrades_fit(*state),
    ensures
        match spec_choose_upgrade(*state, *cfg) {
            Some(name) => r matches Some(s) && s@ == name,
            None => r is None,
        },
{
    if state.upgrades.points <= 0 {
        return None;
    }
    let tiers = &state.upgrades.tiers;
    let n = tiers.len();
    let mut total: usize = 0;
    let mut i: usize = 0;
    while i < n
        invariant
            n == tiers@.len(),
            i <= n,
            upgrades_fit(*state),
            state.upgrades.points > 0,
            tiers == state.upgrades.tiers,
            total == bought_upto(tiers@, i as int),
        decreases n - i,
    {
        assert(bought_upto(tiers@, i + 1) <= usize::MAX);
        total = total + tiers[i].current as usize;
        i = i + 1;
    }
    let seq = &cfg.upgrades.priority_order.sequence;
    proof {
        lemma_first_where(tiers@, open_tier_pred(), n as int);
    }
    let fallback = match first_open(tiers) {
        Some(k) => Some(tiers[k].name.clone()),
        None => None,
    };
    if total < seq.len() {
        let name = &seq[total];
        proof {
            lemma_first_where(tiers@, tier_name_pred(name@), n as int);
        }
        match find_tier(tiers, name.as_str()) {
            Some(j) => {
                if tiers[j].current < tiers[j].max {
                    return Some(name.clone());
                }
                fallback
            },
            None => fallback,
        }
    } else {
        fallback
    }
}

/// The entry of the priority sequence due now (indexed by the upgrades
/// bought) exists but cannot be bought: its tier is missing or at maximum.
/// `choose_upgrade` then falls back to the first open tier.
pub open spec fn spec_sequence_entry_blocked(state: GameState, cfg: Config) -> Option<Seq<char>> {
    let tiers = state.upgrades.tiers@;
    let seq = cfg.upgrades.priority_order.sequence@;
    let bought = bought_upto(tiers, tiers.len() as int);
    if state.upgrades.points <= 0 || !(0 <= bought < seq.len()) {
        None
    } else {
        let name = seq[bought]@;
        match first_where(tiers, tier_name_pred(name), tiers.len() as int) {
            Some(i) => if tiers[i].current < tiers[i].max { None } else { Some(name) },
            None => Some(name),
        }
    }
}

/// The blocked sequence entry, if any (see `spec_sequence_entry_blocked`).
pub fn sequence_entry_blocked(state: &GameState, cfg: &Config) -> (r: Option<String>)
    requires
        upgrades_fit(*state),
    ensures
        match spec_sequence_entry_blocked(*state, *cfg) {
            Some(name) => r matches Some(s) && s@ == name,
            None => r is None,
        },
{
    if state.upgrades.points <= 0 {
        return None;
    }
    let tiers = &state.upgrades.tiers;
    let n = tiers.len();
    let mut total: usize = 0;
    let mut i: usize = 0;
    while i < n
        invariant
            n == tiers@.len(),
            i <= n,
            upgrades_fit(*state),
            state.upgrades.points > 0,
            tiers == state.upgrades.tiers,
            total == bought_upto(tiers@, i as int),
        decreases n - i,
    {
        assert(bought_upto(tiers@, i + 1) <= usize::MAX);
        total = total + tiers[i].current as usize;
        i = i + 1;
    }
    let seq = &cfg.upgrades.priority_order.sequence;
    if total < seq.len() {
        let name = &seq[total];
        proof {
            lemma_first_where(tiers@, tier_name_pred(name@), n as int);
        }
        match find_tier(tiers, name.as_str()) {
            Some(j) => {
                if tiers[j].current < tiers[j].max {
                    None
                } else {
                    Some(name.clone())
                }
            },
            None => Some(name.clone()),
        }
    } else {
        None
    }
}

fn find_tier(tiers: &Vec<UpgradeTier>, name: &str) -> (r: Option<usize>)
    ensures
        match first_where(tiers@, tier_name_pred(name@), tiers@.len() as int) {
            Some(i) => r == Some(i as usize),
            None => r is None,
        },
{
    let n = tiers.len();
    let mut j: usize = 0;
    while j < n
        invariant
            n == tiers@.len(),
            j <= n,
            first_where(tiers@, tier_name_pred(name@), j as int) is None,
        decreases n - j,
    {
        if str_eq(tiers[j].name.as_str(), name) {
            proof {
                assert(first_where(tiers@, tier_name_pred(name@), j + 1) == Some(j as int));
                lemma_first_where_stable(tiers@, tier_name_pred(name@), j + 1, n as int);
            }
            return Some(j);
        }
        j = j + 1;
    }
    None
}

fn first_open(tiers: &Vec<UpgradeTier>) -> (r: Option<usize>)
    ensures
        match first_where(tiers@, open_tier_pred(), tiers@.len() as int) {
            Some(i) => r == Some(i as usize),
            None => r is None,
        },
{
    let n = tiers.len();
    let mut k: usize = 0;
    while k < n
        invariant
            n == tiers@.len(),
            k <= n,
            first_where(tiers@, open_tier_pred(), k as int) is None,
        decreases n - k,
    {
        if tiers[k].current < tiers[k].max {
            proof {
                assert(first_where(tiers@, open_tier_pred(), k + 1) == Some(k as int));
                lemma_first_where_stable(tiers@, open_tier_pred(), k + 1, n as int);
            }
            return Some(k);
        }
        k = k + 1;
    }
    None
}

/// An upgrade is bought only with points in hand, and only for a tier that
/// exists and is below its maximum level.
pub proof fn law_upgrade_only_open_tiers(state: GameState, cfg: Config)
    ensures
        spec_choose_upgrade(state, cfg) matches Some(name) ==> {
            &&& state.upgrades.points > 0
            &&& exists|k: int| 0 <= k < state.upgrades.tiers@.len() && {
                let t = #[trigger] state.upgrades.tiers@[k];
                &&& t.name@ == name
                &&& t.current < t.max
            }
        },
{
    let tiers = state.upgrades.tiers@;
    lemma_first_where(tiers, open_tier_pred(), tiers.len() as int);
    let seq = cfg.upgrades.priority_order.sequence@;
    let bought = bought_upto(tiers, tiers.len() as int);
    if 0 <= bought < seq.len() {
        lemma_first_where(tiers, tier_name_pred(seq[bought]@), tiers.len() as int);
    }
    match first_where(tiers, open_tier_pred(), tiers.len() as int) {
        Some(i) => {
            assert(open_tier_pred()(tiers[i]));
        },
        None => {},
    }
}

/// The priority sequence is a step-by-step plan: with points in hand, when
/// the entry at index "upgrades bought so far" (the sum of the current
/// levels) names a tier whose first listing is below its maximum, that entry
/// is bought. Otherwise (the entry missing from the tiers, maxed, or past the
/// end of the sequence) the first tier below its maximum is bought, if any.
pub proof fn law_upgrade_follows_the_sequence(state: GameState, cfg: Config)
    ensures
        ({
            let tiers = state.upgrades.tiers@;
            let seq = cfg.upgrades.priority_order.sequence@;
            let bought = bought_upto(tiers, tiers.len() as int);
            let due_open = 0 <= bought < seq.len() && exists|k: int| 0 <= k < tiers.len() && {
                &&& (#[trigger] tiers[k]).name@ == seq[bought]@
                &&& tiers[k].current < tiers[k].max
                &&& forall|j: int| 0 <= j < k ==> tiers[j].name@ != seq[bought]@
            };
            &&& state.upgrades.points <= 0 ==> spec_choose_upgrade(state, cfg) is None
            &&& (state.upgrades.points > 0 && due_open) ==> spec_choose_upgrade(state, cfg) == Some(seq[bought]@)
            &&& (state.upgrades.points > 0 && !due_open) ==> (
                (spec_choose_upgrade(state, cfg) is None <==> forall|j: int| 0 <= j < tiers.len() ==> tiers[j].current >= tiers[j].max)
                && (spec_choose_upgrade(state, cfg) matches Some(name) ==> exists|k: int| 0 <= k < tiers.len() && {
                    &&& (#[trigger] tiers[k]).name@ == name
                    &&& tiers[k].current < tiers[k].max
                    &&& forall|j: int| 0 <= j < k ==> tiers[j].current >= tiers[j].max
                }))
        }),
{
    let tiers = state.upgrades.tiers@;
    let seq = cfg.upgrades.priority_order.sequence@;
    let bought = bought_upto(tiers, tiers.len() as int);
    lemma_first_where(tiers, open_tier_pred(), tiers.len() as int);
    if 0 <= bought < seq.len() {
        lemma_first_where(tiers, tier_name_pred(seq[bought]@), tiers.len() as int);
        match first_where(tiers, tier_name_pred(seq[bought]@), tiers.len() as int) {
            Some(i) => {
                assert(tier_name_pred(seq[bought]@)(tiers[i]));
                if exists|k: int| 0 <= k < tiers.len() && {
                    &&& (#[trigger] tiers[k]).name@ == seq[bought]@
                    &&& tiers[k].current < tiers[k].max
                    &&& forall|j: int| 0 <= j < k ==> tiers[j].name@ != seq[bought]@
                } {
                    let k = choose|k: int| 0 <= k < tiers.len() && {
                        &&& (#[trigger] tiers[k]).name@ == seq[bought]@
                        &&& tiers[k].current < tiers[k].max
                        &&& forall|j: int| 0 <= j < k ==> tiers[j].name@ != seq[bought]@
                    };
                    if i < k {
                        assert(tiers[i].name@ == seq[bought]@);
                    } else if k < i {
                        assert(tier_name_pred(seq[bought]@)(tiers[k]));
                    }
                    assert(i == k);
                }
            },
            None => {
                if exists|k: int| 0 <= k < tiers.len() && (#[trigger] tiers[k]).name@ == seq[bought]@ {
                    let k = choose|k: int| 0 <= k < tiers.len() && (#[trigger] tiers[k]).name@ == seq[bought]@;
                    assert(tier_name_pred(seq[bought]@)(tiers[k]));
                }
            },
        }
    }
    match first_where(tiers, open_tier_pred(), tiers.len() as int) {
        Some(i) => {
            assert(open_tier_pred()(tiers[i]));
            assert forall|j: int| 0 <= j < i implies tiers[j].current >= tiers[j].max by {
                assert(!open_tier_pred()(tiers[j]));
            }
        },
        None => {
            assert forall|j: int| 0 <= j < tiers.len() implies tiers[j].current >= tiers[j].max by {
                assert(!open_tier_pred()(tiers[j]));
            }
        },
    }
}

} // verus!

use vstd::prelude::*;

use crate::model::select::{first_where, lemma_first_where_stable};
use crate::model::state::{GameState, UpgradeTier};
use crate::text::str_eq;

verus! {

/// Parameters derived each turn from the upgrade tiers. No upgrade raises the
/// construction speed.
#[derive(Debug, Clone, Copy)]
pub struct DerivedParams {
    /// terraforming speed
    pub ts: i32,
    /// construction speed
    pub cs: i32,
    /// repair speed
    pub rs: i32,
    /// sabotage efficiency
    pub se: i32,
    /// beaver elimination
    pub be: i32,
    /// degradation speed
    pub ds: i32,
    pub mhp: i32,
    pub limit: i32,
    /// signal range
    pub sr: i32,
    /// vision range
    pub vr: i32,
    /// action range (from the server)
    pub ar: i32,
    pub earthquake_dmg: i32,
    pub beaver_dmg: i32,
    pub storm_dmg: i32,
}

pub open spec fn tier_name_pred(name: Seq<char>) -> spec_fn(UpgradeTier) -> bool {
    |t: UpgradeTier| t.name@ == name
}

/// Current level of the first tier with this name, 0 when absent.
pub open spec fn tier_level(tiers: Seq<UpgradeTier>, name: Seq<char>) -> int {
    match first_where(tiers, tier_name_pred(name), tiers.len() as int) {
        Some(i) => tiers[i].current as int,
        None => 0,
    }
}

pub open spec fn fits_i32(v: int) -> bool {
    i32::MIN <= v <= i32::MAX
}

pub open spec fn max_int(a: int, b: int) -> int {
    if a >= b {
        a
    } else {
        b
    }
}

/// The derivation leaves no intermediate value outside `i32`.
pub open spec fn params_fit(tiers: Seq<UpgradeTier>) -> bool {
    let repair = tier_level(tiers, "repair_power"@);
    let decay = tier_level(tiers, "decay_mitigation"@);
    let max_hp = tier_level(tiers, "max_hp"@);
    let settle = tier_level(tiers, "settlement_limit"@);
    let signal = tier_level(tiers, "signal_range"@);
    let vision = tier_level(tiers, "vision_range"@);
    let quake = tier_level(tiers, "earthquake_mitigation"@);
    let beaver = tier_level(tiers, "beaver_damage_mitigation"@);
    &&& fits_i32(5 + repair)
    &&& fits_i32(2 * decay) && fits_i32(10 - 2 * decay)
    &&& fits_i32(10 * max_hp) && fits_i32(50 + 10 * max_hp)
    &&& fits_i32(30 + settle)
    &&& fits_i32(3 + signal)
    &&& fits_i32(2 * vision) && fits_i32(3 + 2 * vision)
    &&& fits_i32(2 * quake) && fits_i32(10 - 2 * quake)
    &&& fits_i32(2 * beaver) && fits_i32(15 - 2 * beaver)
}

pub open spec fn spec_params(state: GameState) -> DerivedParams {
    let tiers = state.upgrades.tiers@;
    DerivedParams {
        ts: 5,
        cs: 5,
        rs: (5 + tier_level(tiers, "repair_power"@)) as i32,
        se: 5,
        be: 5,
        ds: max_int(10 - 2 * tier_level(tiers, "decay_mitigation"@), 1) as i32,
        mhp: (50 + 10 * tier_level(tiers, "max_hp"@)) as i32,
        limit: (30 + tier_level(tiers, "settlement_limit"@)) as i32,
        sr: (3 + tier_level(tiers, "signal_range"@)) as i32,
        vr: (3 + 2 * tier_level(tiers, "vision_range"@)) as i32,
        ar: max_int(state.action_range as int, 1) as i32,
        earthquake_dmg: max_int(10 - 2 * tier_level(tiers, "earthquake_mitigation"@), 0) as i32,
        beaver_dmg: max_int(15 - 2 * tier_level(tiers, "beaver_damage_mitigation"@), 0) as i32,
        storm_dmg: 2,
    }
}

fn tier_current(tiers: &Vec<UpgradeTier>, name: &str) -> (v: i64)
    ensures
        v == tier_level(tiers@, name@),
{
    let n = tiers.len();
    let mut i: usize = 0;
    while i < n
        invariant
            n == tiers@.len(),
            i <= n,
            first_where(tiers@, tier_name_pred(name@), i as int) is None,
        decreases n - i,
    {
        if str_eq(tiers[i].name.as_str(), name) {
            proof {
                assert(first_where(tiers@, tier_name_pred(name@), i + 1) == Some(i as int));
                lemma_first_where_stable(tiers@, tier_name_pred(name@), i + 1, n as int);
            }
            return tiers[i].current as i64;
        }
        i = i + 1;
    }
    0
}

fn fits_i32_wide(v: i64) -> (b: bool)
    ensures
        b == fits_i32(v as int),
{
    i32::MIN as i64 <= v && v <= i32::MAX as i64
}

/// Whether `from_state` can derive the parameters of these tiers without
/// leaving `i32`.
pub fn params_fit_check(tiers: &Vec<UpgradeTier>) -> (b: bool)
    ensures
        b == params_fit(tiers@),
{
    let repair = tier_current(tiers, "repair_power");
    let decay = tier_current(tiers, "decay_mitigation");
    let max_hp = tier_current(tiers, "max_hp");
    let settle = tier_current(tiers, "settlement_limit");
    let signal = tier_current(tiers, "signal_range");
    let vision = tier_current(tiers, "vision_range");
    let quake = tier_current(tiers, "earthquake_mitigation");
    let beaver = tier_current(tiers, "beaver_damage_mitigation");
    fits_i32_wide(5 + repair)
        && fits_i32_wide(2 * decay) && fits_i32_wide(10 - 2 * decay)
        && fits_i32_wide(10 * max_hp) && fits_i32_wide(50 + 10 * max_hp)
        && fits_i32_wide(30 + settle)
        && fits_i32_wide(3 + signal)
        && fits_i32_wide(2 * vision) && fits_i32_wide(3 + 2 * vision)
        && fits_i32_wide(2 * quake) && fits_i32_wide(10 - 2 * quake)
        && fits_i32_wide(2 * beaver) && fits_i32_wide(15 - 2 * beaver)
}

impl DerivedParams {
    pub fn from_state(state: &GameState) -> (p: Self)
        requires
            params_fit(state.upgrades.tiers@),
        ensures
            p == spec_params(*state),
    {
        let tiers = &state.upgrades.tiers;
        let repair = tier_current(tiers, "repair_power");
        let decay = tier_current(tiers, "decay_mitigation");
        let max_hp = tier_current(tiers, "max_hp");
        let settle = tier_current(tiers, "settlement_limit");
        let signal = tier_current(tiers, "signal_range");
        let vision = tier_current(tiers, "vision_range");
        let quake = tier_current(tiers, "earthquake_mitigation");
        let beaver = tier_current(tiers, "beaver_damage_mitigation");
        let ds = 10 - 2 * decay;
        let eq = 10 - 2 * quake;
        let bd = 15 - 2 * beaver;
        let ar = if state.action_range >= 1 { state.action_range } else { 1 };
        Self {
            ts: 5,
            cs: 5,
            rs: (5 + repair) as i32,
            se: 5,
            be: 5,
            ds: if ds >= 1 { ds as i32 } else { 1 },
            mhp: (50 + 10 * max_hp) as i32,
            limit: (30 + settle) as i32,
            sr: (3 + signal) as i32,
            vr: (3 + 2 * vision) as i32,
            ar,
            earthquake_dmg: if eq >= 0 { eq as i32 } else { 0 },
            beaver_dmg: if bd >= 0 { bd as i32 } else { 0 },
            storm_dmg: 2,
        }
    }
}

} // verus!

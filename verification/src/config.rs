use vstd::prelude::*;
use vstd::string::*;

verus! {

/// A configured fraction `num / den`, with `den > 0`.
#[derive(Debug, Clone, Copy, PartialEq, Eq, Structural)]
pub struct Ratio {
    pub num: i64,
    pub den: i64,
}

/// The strategy settings that the decisions read.
#[derive(Debug, Clone)]
pub struct Config {
    pub phases: PhasesCfg,
    pub upgrades: UpgradesCfg,
    pub beaver: BeaverCfg,
    pub sabotage: SabotageCfg,
    pub safety: SafetyCfg,
    pub logging: LoggingCfg,
}

/// Turns at which the early, growth and harvest phases end.
#[derive(Debug, Clone)]
pub struct PhasesCfg {
    pub early_end: u32,
    pub growth_end: u32,
    pub harvest_end: u32,
}

#[derive(Debug, Clone)]
pub struct UpgradesCfg {
    pub priority_order: PriorityOrderCfg,
}

/// The i-th upgrade bought should be `sequence[i]`.
#[derive(Debug, Clone)]
pub struct PriorityOrderCfg {
    pub sequence: Vec<String>,
}

#[derive(Debug, Clone)]
pub struct BeaverCfg {
    pub min_attackers: i32,
    pub safety_time_budget_frac: Ratio,
    /// Points an attacker could have earned per turn elsewhere.
    pub opportunity_cost_per_turn: Ratio,
}

#[derive(Debug, Clone)]
pub struct SabotageCfg {
    pub allowed_in_early: bool,
    pub allowed_in_growth: bool,
    pub allowed_in_harvest: bool,
    pub only_endgame_vs_leader: bool,
}

#[derive(Debug, Clone)]
pub struct SafetyCfg {
    /// The main cell finishing within this many turns is a threat.
    pub main_critical_completion_turns: u32,
    /// Predicted hp below this fraction of the maximum is a threat.
    pub main_critical_hp_fraction: Ratio,
    pub min_buffer_before_limit: i32,
}

#[derive(Debug, Clone)]
pub struct LoggingCfg {
    pub per_turn_json: bool,
}

/// The built-in upgrade plan.
pub open spec fn default_sequence() -> Seq<Seq<char>> {
    seq![
        "max_hp"@,
        "settlement_limit"@,
        "signal_range"@,
        "repair_power"@,
        "settlement_limit"@,
        "signal_range"@,
        "settlement_limit"@,
        "vision_range"@,
        "signal_range"@,
        "settlement_limit"@,
        "decay_mitigation"@,
        "beaver_damage_mitigation"@,
        "earthquake_mitigation"@
    ]
}

impl Config {
    /// The built-in strategy settings.
    pub fn default_embedded() -> (c: Self)
        ensures
            c.phases.early_end == 50,
            c.phases.growth_end == 200,
            c.phases.harvest_end == 500,
            c.upgrades.priority_order.sequence@.len() == default_sequence().len(),
            forall|i: int| 0 <= i < default_sequence().len() ==>
                (#[trigger] c.upgrades.priority_order.sequence@[i])@ == default_sequence()[i],
            c.beaver.min_attackers == 2,
            c.beaver.safety_time_budget_frac == (Ratio { num: 1, den: 2 }),
            c.beaver.opportunity_cost_per_turn == (Ratio { num: 50, den: 1 }),
            !c.sabotage.allowed_in_early,
            !c.sabotage.allowed_in_growth,
            c.sabotage.allowed_in_harvest,
            !c.sabotage.only_endgame_vs_leader,
            c.safety.main_critical_completion_turns == 2,
            c.safety.main_critical_hp_fraction == (Ratio { num: 3, den: 10 }),
            c.safety.min_buffer_before_limit == 1,
            c.logging.per_turn_json,
    {
        let mut sequence: Vec<String> = Vec::new();
        sequence.push(String::from_str("max_hp"));
        sequence.push(String::from_str("settlement_limit"));
        sequence.push(String::from_str("signal_range"));
        sequence.push(String::from_str("repair_power"));
        sequence.push(String::from_str("settlement_limit"));
        sequence.push(String::from_str("signal_range"));
        sequence.push(String::from_str("settlement_limit"));
        sequence.push(String::from_str("vision_range"));
        sequence.push(String::from_str("signal_range"));
        sequence.push(String::from_str("settlement_limit"));
        sequence.push(String::from_str("decay_mitigation"));
        sequence.push(String::from_str("beaver_damage_mitigation"));
        sequence.push(String::from_str("earthquake_mitigation"));
        Config {
            phases: PhasesCfg { early_end: 50, growth_end: 200, harvest_end: 500 },
            upgrades: UpgradesCfg { priority_order: PriorityOrderCfg { sequence } },
            beaver: BeaverCfg {
                min_attackers: 2,
                safety_time_budget_frac: Ratio { num: 1, den: 2 },
                opportunity_cost_per_turn: Ratio { num: 50, den: 1 },
            },
            sabotage: SabotageCfg {
                allowed_in_early: false,
                allowed_in_growth: false,
                allowed_in_harvest: true,
                only_endgame_vs_leader: false,
            },
            safety: SafetyCfg {
                main_critical_completion_turns: 2,
                main_critical_hp_fraction: Ratio { num: 3, den: 10 },
                min_buffer_before_limit: 1,
            },
            logging: LoggingCfg { per_turn_json: true },
        }
    }
}

} // verus!

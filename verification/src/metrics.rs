use vstd::prelude::*;
use vstd::string::*;

verus! {

/// Counters of a run.
#[derive(Debug)]
pub struct Metrics {
    pub turns_processed: u32,
    pub plans_computed: u32,
    pub plan_duration_ms: Vec<u64>,
    pub plantations_peak: i32,
    pub sabotages_done: u32,
    pub beavers_killed: u32,
    pub mains_lost: u32,
    pub relay_overuse_events: u32,
    pub empty_turns: u32,
    pub api_errors: u32,
}

impl Default for Metrics {
    fn default() -> (m: Self)
        ensures
            m.turns_processed == 0,
            m.plans_computed == 0,
            m.plan_duration_ms@.len() == 0,
            m.plantations_peak == 0,
            m.sabotages_done == 0,
            m.beavers_killed == 0,
            m.mains_lost == 0,
            m.relay_overuse_events == 0,
            m.empty_turns == 0,
            m.api_errors == 0,
    {
        Metrics {
            turns_processed: 0,
            plans_computed: 0,
            plan_duration_ms: Vec::new(),
            plantations_peak: 0,
            sabotages_done: 0,
            beavers_killed: 0,
            mains_lost: 0,
            relay_overuse_events: 0,
            empty_turns: 0,
            api_errors: 0,
        }
    }
}

pub open spec fn sum_upto(s: Seq<u64>, n: int) -> int
    decreases n,
{
    if n <= 0 {
        0
    } else {
        sum_upto(s, n - 1) + s[n - 1]
    }
}

pub open spec fn digit_char(d: int) -> char {
    if d == 0 {
        '0'
    } else if d == 1 {
        '1'
    } else if d == 2 {
        '2'
    } else if d == 3 {
        '3'
    } else if d == 4 {
        '4'
    } else if d == 5 {
        '5'
    } else if d == 6 {
        '6'
    } else if d == 7 {
        '7'
    } else if d == 8 {
        '8'
    } else {
        '9'
    }
}

/// Decimal digits of `v`, most significant first.
pub open spec fn decimal(v: nat) -> Seq<char>
    decreases v,
{
    if v < 10 {
        seq![digit_char(v as int)]
    } else {
        decimal(v / 10).push(digit_char((v % 10) as int))
    }
}

/// Decimal notation of an integer, with a leading `-` when negative.
pub open spec fn signed_decimal(v: int) -> Seq<char> {
    if v < 0 {
        seq!['-'] + decimal((-v) as nat)
    } else {
        decimal(v as nat)
    }
}

fn digit_str(d: u64) -> (s: &'static str)
    requires
        d < 10,
    ensures
        s@ == seq![digit_char(d as int)],
{
    proof {
        reveal_strlit("0");
        reveal_strlit("1");
        reveal_strlit("2");
        reveal_strlit("3");
        reveal_strlit("4");
        reveal_strlit("5");
        reveal_strlit("6");
        reveal_strlit("7");
        reveal_strlit("8");
        reveal_strlit("9");
    }
    if d == 0 {
        "0"
    } else if d == 1 {
        "1"
    } else if d == 2 {
        "2"
    } else if d == 3 {
        "3"
    } else if d == 4 {
        "4"
    } else if d == 5 {
        "5"
    } else if d == 6 {
        "6"
    } else if d == 7 {
        "7"
    } else if d == 8 {
        "8"
    } else {
        "9"
    }
}

/// Appends the decimal digits of `v`.
pub fn push_decimal(s: &mut String, v: u64)
    ensures
        final(s)@ == old(s)@ + decimal(v as nat),
    decreases v,
{
    if v >= 10 {
        push_decimal(s, v / 10);
    }
    s.append(digit_str(v % 10));
    proof {
        if v >= 10 {
            assert(final(s)@ =~= old(s)@ + decimal(v as nat));
        } else {
            assert(final(s)@ =~= old(s)@ + decimal(v as nat));
        }
    }
}

fn push_signed(s: &mut String, v: i32)
    ensures
        final(s)@ == old(s)@ + signed_decimal(v as int),
{
    if v < 0 {
        proof {
            reveal_strlit("-");
        }
        s.append("-");
        push_decimal(s, (-(v as i64)) as u64);
        assert(final(s)@ =~= old(s)@ + signed_decimal(v as int));
    } else {
        push_decimal(s, v as u64);
    }
}

impl Metrics {
    pub fn record_plan_duration(&mut self, ms: u64)
        ensures
            final(self).plan_duration_ms@ == old(self).plan_duration_ms@.push(ms),
            final(self).turns_processed == old(self).turns_processed,
            final(self).plantations_peak == old(self).plantations_peak,
            final(self).mains_lost == old(self).mains_lost,
            final(self).api_errors == old(self).api_errors,
            final(self).empty_turns == old(self).empty_turns,
    {
        self.plan_duration_ms.push(ms);
    }

    /// Integer mean of the recorded plan durations; 0 when none.
    pub open spec fn spec_avg(&self) -> int {
        let d = self.plan_duration_ms@;
        if d.len() == 0 {
            0
        } else {
            sum_upto(d, d.len() as int) / (d.len() as int)
        }
    }

    /// Whether the recorded plan durations add up within `u64`, as
    /// `avg_plan_ms` and `summary` need.
    pub fn total_fits(&self) -> (b: bool)
        ensures
            b == (sum_upto(self.plan_duration_ms@, self.plan_duration_ms@.len() as int) <= u64::MAX),
    {
        let d = &self.plan_duration_ms;
        let mut total: u128 = 0;
        let mut i: usize = 0;
        while i < d.len()
            invariant
                i <= d@.len(),
                total == sum_upto(d@, i as int),
                total <= i * 0xFFFF_FFFF_FFFF_FFFF,
            decreases d.len() - i,
        {
            assert(total + d@[i as int] <= (i + 1) * 0xFFFF_FFFF_FFFF_FFFF) by (nonlinear_arith)
                requires
                    total <= i * 0xFFFF_FFFF_FFFF_FFFF,
                    d@[i as int] <= 0xFFFF_FFFF_FFFF_FFFF,
            ;
            total = total + d[i] as u128;
            i = i + 1;
        }
        total <= u64::MAX as u128
    }

    pub fn avg_plan_ms(&self) -> (a: u64)
        requires
            sum_upto(self.plan_duration_ms@, self.plan_duration_ms@.len() as int) <= u64::MAX,
        ensures
            a == self.spec_avg(),
    {
        let d = &self.plan_duration_ms;
        if d.len() == 0 {
            return 0;
        }
        let mut total: u128 = 0;
        let mut i: usize = 0;
        while i < d.len()
            invariant
                i <= d@.len(),
                total == sum_upto(d@, i as int),
                total <= i * 0xFFFF_FFFF_FFFF_FFFF,
            decreases d.len() - i,
        {
            assert(total + d@[i as int] <= (i + 1) * 0xFFFF_FFFF_FFFF_FFFF) by (nonlinear_arith)
                requires
                    total <= i * 0xFFFF_FFFF_FFFF_FFFF,
                    d@[i as int] <= 0xFFFF_FFFF_FFFF_FFFF,
            ;
            total = total + d[i] as u128;
            i = i + 1;
        }
        (total / d.len() as u128) as u64
    }

    pub open spec fn spec_summary(&self) -> Seq<char> {
        "turns="@ + decimal(self.turns_processed as nat)
            + " avg_plan_ms="@ + decimal(self.spec_avg() as nat)
            + " peak_plantations="@ + signed_decimal(self.plantations_peak as int)
            + " mains_lost="@ + decimal(self.mains_lost as nat)
            + " api_errors="@ + decimal(self.api_errors as nat)
            + " empty_turns="@ + decimal(self.empty_turns as nat)
    }

    /// One line with the main counters.
    pub fn summary(&self) -> (s: String)
        requires
            sum_upto(self.plan_duration_ms@, self.plan_duration_ms@.len() as int) <= u64::MAX,
        ensures
            s@ == self.spec_summary(),
    {
        let mut s = String::new();
        s.append("turns=");
        push_decimal(&mut s, self.turns_processed as u64);
        s.append(" avg_plan_ms=");
        let avg = self.avg_plan_ms();
        push_decimal(&mut s, avg);
        s.append(" peak_plantations=");
        push_signed(&mut s, self.plantations_peak);
        s.append(" mains_lost=");
        push_decimal(&mut s, self.mains_lost as u64);
        s.append(" api_errors=");
        push_decimal(&mut s, self.api_errors as u64);
        s.append(" empty_turns=");
        push_decimal(&mut s, self.empty_turns as u64);
        assert(s@ =~= self.spec_summary());
        s
    }
}

} // verus!

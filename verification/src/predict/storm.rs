use vstd::prelude::*;

use crate::geom::grid::{is_in_disk, spec_in_disk};
use crate::model::params::fits_i32;
use crate::model::state::{MeteoForecast, Pos};
use crate::text::str_eq;

verus! {

/// Where a moving storm will be on the following turns.
#[derive(Debug, Clone)]
pub struct StormPrediction {
    pub id: String,
    /// Centers on turns 1, 2, … ahead.
    pub positions: Vec<Pos>,
    pub radius: i32,
}

/// A moving sandstorm with a full description.
pub open spec fn is_predictable(m: MeteoForecast) -> bool {
    &&& m.kind@ == "sandstorm"@
    &&& m.forming == Some(false)
    &&& m.position is Some
    &&& m.next_position is Some
    &&& m.radius is Some
}

/// Center after `t` steps of the linear extrapolation.
pub open spec fn spec_center(m: MeteoForecast, t: int) -> (int, int) {
    let pos = m.position->0;
    let next = m.next_position->0;
    (pos.x + (next.x - pos.x) * t, pos.y + (next.y - pos.y) * t)
}

/// The step offsets and the center after `t` steps fit `i32`.
pub open spec fn step_fits(m: MeteoForecast, t: int) -> bool {
    let pos = m.position->0;
    let next = m.next_position->0;
    &&& fits_i32((next.x - pos.x) * t)
    &&& fits_i32((next.y - pos.y) * t)
    &&& fits_i32(spec_center(m, t).0)
    &&& fits_i32(spec_center(m, t).1)
}

/// Every extrapolated coordinate fits `i32`.
pub open spec fn storm_fits(m: MeteoForecast, turns_ahead: u32) -> bool {
    is_predictable(m) ==> {
        let pos = m.position->0;
        let next = m.next_position->0;
        &&& fits_i32(next.x - pos.x)
        &&& fits_i32(next.y - pos.y)
        &&& forall|t: int| 1 <= t <= turns_ahead ==> #[trigger] step_fits(m, t)
    }
}

fn fits_i32_i64(v: i64) -> (b: bool)
    ensures
        b == fits_i32(v as int),
{
    i32::MIN as i64 <= v && v <= i32::MAX as i64
}

/// Whether `predict_storm(m, turns_ahead)` stays within `i32` (see
/// `storm_fits`).
pub fn storm_fits_check(m: &MeteoForecast, turns_ahead: u32) -> (b: bool)
    requires
        turns_ahead <= i32::MAX,
    ensures
        b == storm_fits(*m, turns_ahead),
{
    let predictable = str_eq(m.kind.as_str(), "sandstorm") && m.forming == Some(false)
        && m.position.is_some() && m.next_position.is_some() && m.radius.is_some();
    if !predictable {
        return true;
    }
    let pos = m.position.unwrap();
    let next = m.next_position.unwrap();
    let dx = next.x as i64 - pos.x as i64;
    let dy = next.y as i64 - pos.y as i64;
    if !(fits_i32_i64(dx) && fits_i32_i64(dy)) {
        return false;
    }
    let mut t: u32 = 1;
    while t <= turns_ahead
        invariant
            1 <= t <= turns_ahead as int + 1,
            turns_ahead <= i32::MAX,
            is_predictable(*m),
            pos == m.position->0,
            next == m.next_position->0,
            dx == next.x - pos.x,
            dy == next.y - pos.y,
            fits_i32(dx as int),
            fits_i32(dy as int),
            forall|u: int| 1 <= u < t ==> #[trigger] step_fits(*m, u),
        decreases turns_ahead as int + 1 - t,
    {
        let ti = t as i64;
        assert(-0x8000_0000_0000_0000 < dx * ti < 0x8000_0000_0000_0000) by (nonlinear_arith)
            requires
                -0x8000_0000 <= dx <= 0x7FFF_FFFF,
                1 <= ti <= 0x7FFF_FFFF,
        ;
        assert(-0x8000_0000_0000_0000 < dy * ti < 0x8000_0000_0000_0000) by (nonlinear_arith)
            requires
                -0x8000_0000 <= dy <= 0x7FFF_FFFF,
                1 <= ti <= 0x7FFF_FFFF,
        ;
        let mx = dx * ti;
        let my = dy * ti;
        assert(mx == (next.x - pos.x) * (t as int));
        assert(my == (next.y - pos.y) * (t as int));
        assert(spec_center(*m, t as int).0 == pos.x + mx);
        assert(spec_center(*m, t as int).1 == pos.y + my);
        if !(fits_i32_i64(mx) && fits_i32_i64(my) && fits_i32_i64(pos.x as i64 + mx) && fits_i32_i64(pos.y as i64 + my)) {
            assert(!step_fits(*m, t as int));
            return false;
        }
        assert(step_fits(*m, t as int));
        t = t + 1;
    }
    true
}

/// Whether `storm_predictions(ms, turns)` stays within `i32`.
pub fn storms_fit_check(ms: &Vec<MeteoForecast>, turns: u32) -> (b: bool)
    requires
        turns <= i32::MAX,
    ensures
        b == (forall|j: int| 0 <= j < ms@.len() ==> storm_fits(#[trigger] ms@[j], turns)),
{
    let mut i: usize = 0;
    while i < ms.len()
        invariant
            i <= ms@.len(),
            turns <= i32::MAX,
            forall|j: int| 0 <= j < i ==> storm_fits(#[trigger] ms@[j], turns),
        decreases ms.len() - i,
    {
        if !storm_fits_check(&ms[i], turns) {
            return false;
        }
        i = i + 1;
    }
    true
}

/// Linear extrapolation along `next - current`. `None` while the storm is
/// forming (it deals no damage yet) or when its description is incomplete.
pub fn predict_storm(m: &MeteoForecast, turns_ahead: u32) -> (r: Option<StormPrediction>)
    requires
        turns_ahead <= i32::MAX,
        storm_fits(*m, turns_ahead),
    ensures
        r is Some <==> is_predictable(*m),
        r matches Some(pred) ==> {
            &&& pred.id@ == (match m.id {
                Some(s) => s@,
                None => Seq::<char>::empty(),
            })
            &&& pred.radius == m.radius->0
            &&& pred.positions@.len() == turns_ahead
            &&& forall|k: int| 0 <= k < turns_ahead ==> {
                &&& (#[trigger] pred.positions@[k]).x == spec_center(*m, k + 1).0
                &&& pred.positions@[k].y == spec_center(*m, k + 1).1
            }
        },
{
    if !str_eq(m.kind.as_str(), "sandstorm") {
        return None;
    }
    match m.forming {
        Some(f) => {
            if f {
                return None;
            }
        },
        None => return None,
    }
    let pos = match m.position {
        Some(p) => p,
        None => return None,
    };
    let next = match m.next_position {
        Some(p) => p,
        None => return None,
    };
    let r = match m.radius {
        Some(v) => v,
        None => return None,
    };
    let dx = next.x - pos.x;
    let dy = next.y - pos.y;
    let mut positions: Vec<Pos> = Vec::new();
    let mut t: u32 = 1;
    while t <= turns_ahead
        invariant
            1 <= t <= turns_ahead + 1,
            turns_ahead <= i32::MAX,
            storm_fits(*m, turns_ahead),
            is_predictable(*m),
            pos == m.position->0,
            next == m.next_position->0,
            dx == next.x - pos.x,
            dy == next.y - pos.y,
            positions@.len() == t - 1,
            forall|k: int| 0 <= k < t - 1 ==> {
                &&& (#[trigger] positions@[k]).x == spec_center(*m, k + 1).0
                &&& positions@[k].y == spec_center(*m, k + 1).1
            },
        decreases turns_ahead + 1 - t,
    {
        let ti = t as i32;
        assert(step_fits(*m, t as int));
        let x = pos.x + dx * ti;
        let y = pos.y + dy * ti;
        positions.push(Pos::new(x, y));
        t = t + 1;
    }
    let id = match &m.id {
        Some(s) => s.clone(),
        None => String::new(),
    };
    Some(StormPrediction { id, positions, radius: r })
}

/// Some predicted disk covers `cell`.
pub open spec fn spec_storm_threatens(cell: Pos, preds: Seq<StormPrediction>) -> bool {
    exists|i: int, k: int|
        0 <= i < preds.len() && 0 <= k < preds[i].positions@.len()
            && spec_in_disk(cell, #[trigger] preds[i].positions@[k], preds[i].radius as int)
}

pub fn storm_threatens(cell: Pos, preds: &[StormPrediction]) -> (b: bool)
    ensures
        b == spec_storm_threatens(cell, preds@),
{
    let mut i: usize = 0;
    while i < preds.len()
        invariant
            i <= preds@.len(),
            forall|a: int, k: int|
                0 <= a < i && 0 <= k < preds@[a].positions@.len()
                    ==> !spec_in_disk(cell, #[trigger] preds@[a].positions@[k], preds@[a].radius as int),
        decreases preds.len() - i,
    {
        let p = &preds[i];
        let mut k: usize = 0;
        while k < p.positions.len()
            invariant
                i < preds@.len(),
                *p == preds@[i as int],
                k <= p.positions@.len(),
                forall|q: int| 0 <= q < k ==> !spec_in_disk(cell, #[trigger] p.positions@[q], p.radius as int),
            decreases p.positions.len() - k,
        {
            if is_in_disk(cell, p.positions[k], p.radius) {
                return true;
            }
            k = k + 1;
        }
        i = i + 1;
    }
    false
}

/// The center of storm `m` after `t` steps, as a cell.
pub open spec fn center_pos(m: MeteoForecast, t: int) -> Pos {
    Pos { x: spec_center(m, t).0 as i32, y: spec_center(m, t).1 as i32 }
}

/// Some storm among `ms[0..n)`, extrapolated over `turns` steps, covers `cell`.
pub open spec fn storm_threat_upto(cell: Pos, ms: Seq<MeteoForecast>, turns: u32, n: int) -> bool {
    exists|j: int, t: int|
        0 <= j < n && 1 <= t <= turns && is_predictable(ms[j])
            && spec_in_disk(cell, #[trigger] center_pos(ms[j], t), ms[j].radius->0 as int)
}

pub open spec fn spec_storm_threat(cell: Pos, ms: Seq<MeteoForecast>, turns: u32) -> bool {
    storm_threat_upto(cell, ms, turns, ms.len() as int)
}

/// Predictions of every moving storm, `turns` steps ahead.
pub fn storm_predictions(ms: &Vec<MeteoForecast>, turns: u32) -> (r: Vec<StormPrediction>)
    requires
        turns <= i32::MAX,
        forall|j: int| 0 <= j < ms@.len() ==> storm_fits(#[trigger] ms@[j], turns),
    ensures
        forall|cell: Pos| spec_storm_threatens(cell, r@) == #[trigger] spec_storm_threat(cell, ms@, turns),
{
    let mut out: Vec<StormPrediction> = Vec::new();
    let mut i: usize = 0;
    while i < ms.len()
        invariant
            i <= ms@.len(),
            turns <= i32::MAX,
            forall|j: int| 0 <= j < ms@.len() ==> storm_fits(#[trigger] ms@[j], turns),
            forall|cell: Pos| spec_storm_threatens(cell, out@) == #[trigger] storm_threat_upto(cell, ms@, turns, i as int),
        decreases ms.len() - i,
    {
        let ghost before = out@;
        let m = &ms[i];
        assert(storm_fits(*m, turns));
        match predict_storm(m, turns) {
            Some(pred) => {
                let ghost pr = pred;
                out.push(pred);
                proof {
                    assert forall|cell: Pos| spec_storm_threatens(cell, out@) == #[trigger] storm_threat_upto(cell, ms@, turns, i + 1) by {
                        if spec_storm_threatens(cell, out@) {
                            let (a, k) = choose|a: int, k: int|
                                0 <= a < out@.len() && 0 <= k < out@[a].positions@.len()
                                    && spec_in_disk(cell, #[trigger] out@[a].positions@[k], out@[a].radius as int);
                            if a < before.len() {
                                assert(before[a] == out@[a]);
                                assert(spec_storm_threatens(cell, before));
                                assert(storm_threat_upto(cell, ms@, turns, i as int));
                                let (j, t) = choose|j: int, t: int|
                                    0 <= j < i && 1 <= t <= turns && is_predictable(ms@[j])
                                        && spec_in_disk(cell, #[trigger] center_pos(ms@[j], t), ms@[j].radius->0 as int);
                                assert(spec_in_disk(cell, center_pos(ms@[j], t), ms@[j].radius->0 as int));
                            } else {
                                assert(out@[a] == pr);
                                assert(pr.positions@[k] == center_pos(ms@[i as int], k + 1));
                                assert(spec_in_disk(cell, center_pos(ms@[i as int], k + 1), ms@[i as int].radius->0 as int));
                            }
                        }
                        if storm_threat_upto(cell, ms@, turns, i + 1) {
                            let (j, t) = choose|j: int, t: int|
                                0 <= j < i + 1 && 1 <= t <= turns && is_predictable(ms@[j])
                                    && spec_in_disk(cell, #[trigger] center_pos(ms@[j], t), ms@[j].radius->0 as int);
                            if j < i {
                                assert(storm_threat_upto(cell, ms@, turns, i as int));
                                assert(spec_storm_threatens(cell, before));
                                let (a, k) = choose|a: int, k: int|
                                    0 <= a < before.len() && 0 <= k < before[a].positions@.len()
                                        && spec_in_disk(cell, #[trigger] before[a].positions@[k], before[a].radius as int);
                                assert(out@[a] == before[a]);
                                assert(spec_in_disk(cell, out@[a].positions@[k], out@[a].radius as int));
                            } else {
                                let a = before.len() as int;
                                assert(out@[a] == pr);
                                assert(pr.positions@[t - 1] == center_pos(ms@[i as int], t));
                                assert(spec_in_disk(cell, out@[a].positions@[t - 1], out@[a].radius as int));
                            }
                        }
                    }
                }
            },
            None => {
                proof {
                    assert forall|cell: Pos| spec_storm_threatens(cell, out@) == #[trigger] storm_threat_upto(cell, ms@, turns, i + 1) by {
                        if storm_threat_upto(cell, ms@, turns, i + 1) {
                            let (j, t) = choose|j: int, t: int|
                                0 <= j < i + 1 && 1 <= t <= turns && is_predictable(ms@[j])
                                    && spec_in_disk(cell, #[trigger] center_pos(ms@[j], t), ms@[j].radius->0 as int);
                            assert(j < i);
                            assert(storm_threat_upto(cell, ms@, turns, i as int));
                        }
                        if storm_threat_upto(cell, ms@, turns, i as int) {
                            let (j, t) = choose|j: int, t: int|
                                0 <= j < i && 1 <= t <= turns && is_predictable(ms@[j])
                                    && spec_in_disk(cell, #[trigger] center_pos(ms@[j], t), ms@[j].radius->0 as int);
                            assert(spec_in_disk(cell, center_pos(ms@[j], t), ms@[j].radius->0 as int));
                        }
                    }
                }
            },
        }
        i = i + 1;
    }
    out
}

} // verus!

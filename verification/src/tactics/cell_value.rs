use vstd::prelude::*;

use crate::geom::dist::{abs_int, chebyshev_wide, spec_chebyshev, spec_manhattan};
use crate::geom::grid::{is_boosted, spec_is_boosted};
use crate::model::memory::{has_construction_at, has_plantation_at};
use crate::model::occupancy::{construction_at_pos, plantation_at_pos};
use crate::model::params::DerivedParams;
use crate::model::select::{count_upto, first_where};
use crate::model::state::{plantation_pos_pred, Beaver, EnemyPlantation, GameState, Pos};
use crate::predict::storm::{spec_storm_threat, storm_fits, storm_predictions, storms_fit_check, storm_threatens};

verus! {

/// Turns ahead over which storms count as a risk for a cell.
pub const STORM_LOOKAHEAD: u32 = 5;

/// Radius (Chebyshev) within which a beaver is a risk for a cell.
pub const BEAVER_RISK_RANGE: i64 = 2;

/// Half side of the square searched for unclaimed boosted cells.
pub const BOOST_SEARCH: i64 = 4;

/// What the value of a cell for a new build is computed from: everything
/// about the cell and its surroundings that the weighting reads.
#[derive(Debug, Clone)]
pub struct CellFeatures {
    pub boosted: bool,
    /// Beavers within Chebyshev distance 2.
    pub beavers_near: usize,
    /// Some moving storm covers the cell within the next turns.
    pub storm_threat: bool,
    /// Enemy plantations within the action range.
    pub enemies_near: usize,
    /// Manhattan distance to every boosted cell of the 9x9 square around the
    /// cell that holds none of our plantations, row by row (`dx` outer).
    pub boost_distances: Vec<i64>,
    /// 4-neighbours holding a construction, or a plantation (the first one
    /// there) that is connected to the network.
    pub stable_neighbors: usize,
    /// 4-neighbours holding any plantation or construction of ours.
    pub any_neighbors: usize,
    /// Chebyshev distance to the main plantation (0 without one).
    pub dist_to_main: i64,
    /// When the cell is a 4-neighbour of the main plantation: how many other
    /// 4-neighbours of the main hold a plantation or a construction.
    pub main_adj_escapes: Option<usize>,
}

/// `p` moved by `(dx, dy)`.
pub open spec fn shift(p: Pos, dx: int, dy: int) -> Pos {
    Pos { x: (p.x + dx) as i32, y: (p.y + dy) as i32 }
}

/// The four axis neighbours: right, left, down, up.
pub open spec fn neighbours4(p: Pos) -> Seq<Pos> {
    seq![shift(p, 1, 0), shift(p, -1, 0), shift(p, 0, 1), shift(p, 0, -1)]
}

/// Every cell of the search square around `p` has coordinates in `i32`.
pub open spec fn cell_fits(p: Pos) -> bool {
    &&& i32::MIN + 5 <= p.x <= i32::MAX - 5
    &&& i32::MIN + 5 <= p.y <= i32::MAX - 5
}

pub open spec fn beaver_near(cell: Pos) -> spec_fn(Beaver) -> bool {
    |b: Beaver| spec_chebyshev(cell, b.pos) <= 2
}

pub open spec fn enemy_near(cell: Pos, ar: i32) -> spec_fn(EnemyPlantation) -> bool {
    |e: EnemyPlantation| spec_chebyshev(cell, e.pos) <= ar
}

/// The first plantation on `np` is connected, or a construction stands there.
pub open spec fn stable_at(state: GameState, np: Pos) -> bool {
    has_construction_at(state.construction@, np) || match first_where(state.plantations@, plantation_pos_pred(np), state.plantations@.len() as int) {
        Some(i) => !state.plantations@[i].is_isolated,
        None => false,
    }
}

pub open spec fn occupied_by_us(state: GameState, np: Pos) -> bool {
    has_plantation_at(state.plantations@, np) || has_construction_at(state.construction@, np)
}

/// Offsets of the search square in scan order: index `k` is
/// `(k / 9 - 4, k % 9 - 4)`.
pub open spec fn offset_dx(k: int) -> int {
    k / 9 - 4
}

pub open spec fn offset_dy(k: int) -> int {
    k % 9 - 4
}

/// An unclaimed boosted cell at offset `k` (the cell itself excluded).
pub open spec fn boost_at(cell: Pos, state: GameState, k: int) -> bool {
    let bp = shift(cell, offset_dx(k), offset_dy(k));
    &&& !(offset_dx(k) == 0 && offset_dy(k) == 0)
    &&& spec_is_boosted(bp)
    &&& !has_plantation_at(state.plantations@, bp)
}

/// Distances to the unclaimed boosted cells among the first `n` offsets.
pub open spec fn boost_distances_upto(cell: Pos, state: GameState, n: int) -> Seq<i64>
    decreases n,
{
    if n <= 0 {
        Seq::empty()
    } else if boost_at(cell, state, n - 1) {
        boost_distances_upto(cell, state, n - 1).push(
            spec_manhattan(cell, shift(cell, offset_dx(n - 1), offset_dy(n - 1))) as i64,
        )
    } else {
        boost_distances_upto(cell, state, n - 1)
    }
}

pub open spec fn occupied_pred(state: GameState) -> spec_fn(Pos) -> bool {
    |q: Pos| occupied_by_us(state, q)
}

pub open spec fn escape_pred(state: GameState, cell: Pos) -> spec_fn(Pos) -> bool {
    |q: Pos| q != cell && occupied_by_us(state, q)
}

/// Other 4-neighbours of the main plantation that hold one of ours.
pub open spec fn main_escapes(state: GameState, main: Pos, cell: Pos) -> nat {
    count_upto(neighbours4(main), escape_pred(state, cell), 4)
}

pub open spec fn spec_main_pos(state: GameState) -> Option<Pos> {
    match state.spec_main_idx() {
        Some(i) => Some(state.plantations@[i].pos),
        None => None,
    }
}

/// The features of `cell`, as `cell_features` computes them.
pub open spec fn features_match(f: CellFeatures, cell: Pos, state: GameState, params: DerivedParams) -> bool {
    &&& f.boosted == spec_is_boosted(cell)
    &&& f.beavers_near == count_upto(state.beavers@, beaver_near(cell), state.beavers@.len() as int)
    &&& f.storm_threat == spec_storm_threat(cell, state.meteo@, STORM_LOOKAHEAD)
    &&& f.enemies_near == count_upto(state.enemies@, enemy_near(cell, params.ar), state.enemies@.len() as int)
    &&& f.boost_distances@ == boost_distances_upto(cell, state, 81)
    &&& f.stable_neighbors == count_upto(neighbours4(cell), |q: Pos| stable_at(state, q), 4)
    &&& f.any_neighbors == count_upto(neighbours4(cell), occupied_pred(state), 4)
    &&& f.dist_to_main == (match spec_main_pos(state) {
        Some(m) => spec_chebyshev(cell, m),
        None => 0,
    })
    &&& f.main_adj_escapes == (match spec_main_pos(state) {
        Some(m) => if spec_manhattan(cell, m) == 1 {
            Some(main_escapes(state, m, cell) as usize)
        } else {
            None
        },
        None => None,
    })
}

/// The storms of the state can be extrapolated without leaving `i32`.
pub open spec fn storms_fit(state: GameState) -> bool {
    forall|j: int| 0 <= j < state.meteo@.len() ==> storm_fits(#[trigger] state.meteo@[j], STORM_LOOKAHEAD)
}

/// Whether `cell_features` can look around `cell` in this state (see
/// `cell_fits` and `storms_fit`).
pub fn features_fit_check(cell: Pos, state: &GameState) -> (b: bool)
    ensures
        b == (cell_fits(cell) && storms_fit(*state)),
{
    let lo = i32::MIN + 5;
    let hi = i32::MAX - 5;
    lo <= cell.x && cell.x <= hi && lo <= cell.y && cell.y <= hi && storms_fit_check(&state.meteo, STORM_LOOKAHEAD)
}

fn shift_exec(p: Pos, dx: i32, dy: i32) -> (q: Pos)
    requires
        i32::MIN <= p.x + dx <= i32::MAX,
        i32::MIN <= p.y + dy <= i32::MAX,
    ensures
        q == shift(p, dx as int, dy as int),
        q.x == p.x + dx,
        q.y == p.y + dy,
{
    Pos { x: p.x + dx, y: p.y + dy }
}

fn stable_at_exec(state: &GameState, np: Pos) -> (b: bool)
    ensures
        b == stable_at(*state, np),
{
    if construction_at_pos(&state.construction, np) {
        return true;
    }
    match state.plantation_at(np) {
        Some(pl) => !pl.is_isolated,
        None => false,
    }
}

fn occupied_exec(state: &GameState, np: Pos) -> (b: bool)
    ensures
        b == occupied_by_us(*state, np),
{
    plantation_at_pos(&state.plantations, np) || construction_at_pos(&state.construction, np)
}

fn neighbour_exec(p: Pos, d: usize) -> (q: Pos)
    requires
        d < 4,
        i32::MIN + 1 <= p.x <= i32::MAX - 1,
        i32::MIN + 1 <= p.y <= i32::MAX - 1,
    ensures
        q == neighbours4(p)[d as int],
{
    if d == 0 {
        shift_exec(p, 1, 0)
    } else if d == 1 {
        shift_exec(p, -1, 0)
    } else if d == 2 {
        shift_exec(p, 0, 1)
    } else {
        shift_exec(p, 0, -1)
    }
}

fn count_stable(state: &GameState, cell: Pos) -> (n: usize)
    requires
        cell_fits(cell),
    ensures
        n == count_upto(neighbours4(cell), |q: Pos| stable_at(*state, q), 4),
{
    let ghost f = |q: Pos| stable_at(*state, q);
    let mut n: usize = 0;
    let mut d: usize = 0;
    while d < 4
        invariant
            d <= 4,
            cell_fits(cell),
            f == (|q: Pos| stable_at(*state, q)),
            n == count_upto(neighbours4(cell), f, d as int),
            n <= d,
        decreases 4 - d,
    {
        let np = neighbour_exec(cell, d);
        if stable_at_exec(state, np) {
            n = n + 1;
        }
        d = d + 1;
    }
    n
}

fn count_occupied(state: &GameState, cell: Pos, skip: Option<Pos>) -> (n: usize)
    requires
        i32::MIN + 1 <= cell.x <= i32::MAX - 1,
        i32::MIN + 1 <= cell.y <= i32::MAX - 1,
    ensures
        n == (match skip {
            Some(c) => main_escapes(*state, cell, c),
            None => count_upto(neighbours4(cell), occupied_pred(*state), 4),
        }),
{
    let ghost f = match skip {
        Some(c) => escape_pred(*state, c),
        None => occupied_pred(*state),
    };
    let mut n: usize = 0;
    let mut d: usize = 0;
    while d < 4
        invariant
            d <= 4,
            i32::MIN + 1 <= cell.x <= i32::MAX - 1,
            i32::MIN + 1 <= cell.y <= i32::MAX - 1,
            f == (match skip {
                Some(c) => escape_pred(*state, c),
                None => occupied_pred(*state),
            }),
            n == count_upto(neighbours4(cell), f, d as int),
            n <= d,
        decreases 4 - d,
    {
        let np = neighbour_exec(cell, d);
        let skipped = match skip {
            Some(c) => np == c,
            None => false,
        };
        if !skipped && occupied_exec(state, np) {
            n = n + 1;
        }
        d = d + 1;
    }
    n
}

fn boost_distances(state: &GameState, cell: Pos) -> (r: Vec<i64>)
    requires
        cell_fits(cell),
    ensures
        r@ == boost_distances_upto(cell, *state, 81),
{
    let mut out: Vec<i64> = Vec::new();
    let mut k: i32 = 0;
    while k < 81
        invariant
            0 <= k <= 81,
            cell_fits(cell),
            out@ == boost_distances_upto(cell, *state, k as int),
        decreases 81 - k,
    {
        let dx = k / 9 - 4;
        let dy = k % 9 - 4;
        assert(dx == offset_dx(k as int) && dy == offset_dy(k as int));
        if !(dx == 0 && dy == 0) {
            let bp = shift_exec(cell, dx, dy);
            if is_boosted(bp) && !plantation_at_pos(&state.plantations, bp) {
                let adx: i64 = if dx < 0 { -(dx as i64) } else { dx as i64 };
                let ady: i64 = if dy < 0 { -(dy as i64) } else { dy as i64 };
                assert(spec_manhattan(cell, bp) == abs_int(dx as int) + abs_int(dy as int));
                out.push(adx + ady);
            }
        }
        k = k + 1;
    }
    out
}

/// The features of `cell` that its value for a new build is weighed from.
pub fn cell_features(cell: Pos, state: &GameState, params: &DerivedParams) -> (f: CellFeatures)
    requires
        cell_fits(cell),
        storms_fit(*state),
    ensures
        features_match(f, cell, *state, *params),
{
    let boosted = is_boosted(cell);

    let ghost bf = beaver_near(cell);
    let mut beavers_near: usize = 0;
    let mut i: usize = 0;
    while i < state.beavers.len()
        invariant
            i <= state.beavers@.len(),
            bf == beaver_near(cell),
            beavers_near == count_upto(state.beavers@, bf, i as int),
            beavers_near <= i,
        decreases state.beavers.len() - i,
    {
        if chebyshev_wide(cell, state.beavers[i].pos) <= BEAVER_RISK_RANGE {
            beavers_near = beavers_near + 1;
        }
        i = i + 1;
    }

    let preds = storm_predictions(&state.meteo, STORM_LOOKAHEAD);
    let storm_threat = storm_threatens(cell, preds.as_slice());

    let ghost ef = enemy_near(cell, params.ar);
    let mut enemies_near: usize = 0;
    let mut j: usize = 0;
    while j < state.enemies.len()
        invariant
            j <= state.enemies@.len(),
            ef == enemy_near(cell, params.ar),
            enemies_near == count_upto(state.enemies@, ef, j as int),
            enemies_near <= j,
        decreases state.enemies.len() - j,
    {
        if chebyshev_wide(cell, state.enemies[j].pos) <= params.ar as i64 {
            enemies_near = enemies_near + 1;
        }
        j = j + 1;
    }

    let boost_distances = boost_distances(state, cell);
    let stable_neighbors = count_stable(state, cell);
    let any_neighbors = count_occupied(state, cell, None);

    let (dist_to_main, main_adj_escapes) = match state.main() {
        Some(m) => {
            let d = chebyshev_wide(cell, m.pos);
            let adx: i64 = if cell.x < m.pos.x { m.pos.x as i64 - cell.x as i64 } else { cell.x as i64 - m.pos.x as i64 };
            let ady: i64 = if cell.y < m.pos.y { m.pos.y as i64 - cell.y as i64 } else { cell.y as i64 - m.pos.y as i64 };
            assert(adx + ady == spec_manhattan(cell, m.pos));
            if adx + ady == 1 {
                (d, Some(count_occupied(state, m.pos, Some(cell))))
            } else {
                (d, None)
            }
        },
        None => (0, None),
    };

    CellFeatures {
        boosted,
        beavers_near,
        storm_threat,
        enemies_near,
        boost_distances,
        stable_neighbors,
        any_neighbors,
        dist_to_main,
        main_adj_escapes,
    }
}

} // verus!

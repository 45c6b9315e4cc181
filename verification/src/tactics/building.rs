use vstd::prelude::*;

use crate::geom::dist::{spec_chebyshev, spec_step, step4};
use crate::geom::grid::{in_bounds, spec_in_bounds};
use crate::graph::chain::{spec_graph, ChainGraph};
use crate::graph::reach::reaches;
use crate::model::memory::{has_construction_at, has_plantation_at, Memory};
use crate::model::occupancy::{beaver_at_pos, construction_at_pos, enemy_at_pos, has_beaver_at, has_enemy_at, plantation_at_pos, pos_listed};
use crate::model::params::DerivedParams;
use crate::model::select::{last_where, lemma_last_where};
use crate::model::state::{main_pred, Cell, Construction, GameState, Plantation, Pos};
use crate::predict::damage::{lethal_damage, spec_lethal};
use crate::predict::limit::LimitAnalysis;
use crate::model::store::PosSet;
use crate::planner::turn::spec_useful;

verus! {

/// The cell stands on a plantation linked to the main one.
pub open spec fn connected_pos(state: GameState, p: Pos) -> bool {
    let ps = state.plantations@;
    let positions = ps.map_values(|q: Plantation| q.pos);
    match last_where(ps, main_pred(), ps.len() as int) {
        Some(m) => exists|u: int| 0 <= u < ps.len() && #[trigger] positions[u] == p && reaches(spec_graph(positions), m, u, -1),
        None => false,
    }
}

pub open spec fn terraformed_at(cells: Seq<Cell>, p: Pos) -> bool {
    exists|i: int| 0 <= i < cells.len() && (#[trigger] cells[i]).pos == p && cells[i].terraformation_progress >= 100
}

/// On the map, no mountain (now or before), nothing of ours, no enemy, beaver
/// or construction, and not fully terraformed (the server refuses those).
pub open spec fn build_cell_free(state: GameState, memory: Memory, c: Pos) -> bool {
    &&& spec_in_bounds(c, state.map_size)
    &&& !state.mountains@.contains(c)
    &&& !memory.known_mountains@.contains(c)
    &&& !has_plantation_at(state.plantations@, c)
    &&& !has_enemy_at(state.enemies@, c)
    &&& !has_beaver_at(state.beavers@, c)
    &&& !has_construction_at(state.construction@, c)
    &&& !terraformed_at(state.cells@, c)
}

/// A cell where a build may start: free, and side-adjacent to a connected
/// plantation (else the new plantation would be isolated at once).
pub open spec fn build_cell_ok(state: GameState, memory: Memory, c: Pos) -> bool {
    &&& build_cell_free(state, memory, c)
    &&& exists|d: int| 0 <= d < 4 && ((#[trigger] spec_step(c, d)) matches Some(n) && connected_pos(state, n))
}

/// `c` lies in the action range of author `a`, itself connected to the main.
pub open spec fn author_covers(a: Plantation, c: Pos, state: GameState, params: DerivedParams) -> bool {
    &&& connected_pos(state, a.pos)
    &&& c != a.pos
    &&& spec_chebyshev(a.pos, c) <= params.ar
}

/// The build candidates: cells in range of a useful connected author that
/// pass `build_cell_ok`.
pub open spec fn spec_buildable(state: GameState, memory: Memory, params: DerivedParams, c: Pos) -> bool {
    let us = spec_useful(state, params);
    &&& exists|k: int| 0 <= k < us.len() && author_covers(#[trigger] us[k], c, state, params)
    &&& build_cell_ok(state, memory, c)
}

fn connected_positions(state: &GameState) -> (r: Vec<Pos>)
    ensures
        forall|p: Pos| r@.contains(p) <==> #[trigger] connected_pos(*state, p),
{
    let graph = ChainGraph::build(state);
    let set = graph.connected_to_main();
    let n = graph.len();
    let ghost positions = state.plantations@.map_values(|q: Plantation| q.pos);
    let mut out: Vec<Pos> = Vec::new();
    let mut i: usize = 0;
    while i < n
        invariant
            n == graph.spec_positions().len(),
            graph.spec_positions() == positions,
            positions == state.plantations@.map_values(|q: Plantation| q.pos),
            graph.spec_main() == (match last_where(state.plantations@, main_pred(), state.plantations@.len() as int) {
                Some(j) => Some(j as usize),
                None => None,
            }),
            set@ == (match graph.spec_main() {
                Some(m) => Set::new(|u: usize| (u as int) < graph.spec_positions().len() && reaches(graph.spec_adj(), m as int, u as int, -1)),
                None => Set::empty(),
            }),
            i <= n,
            forall|p: Pos| out@.contains(p) <==> exists|u: int| 0 <= u < i && #[trigger] positions[u] == p && set@.contains(u as usize),
        decreases n - i,
    {
        let ghost before = out@;
        if set.contains(&i) {
            out.push(graph.pos_of(i));
        }
        proof {
            assert forall|p: Pos| out@.contains(p) <==> exists|u: int| 0 <= u < i + 1 && #[trigger] positions[u] == p && set@.contains(u as usize) by {
                if out@.contains(p) {
                    let k = choose|k: int| 0 <= k < out@.len() && out@[k] == p;
                    if k < before.len() {
                        assert(before[k] == p);
                        assert(before.contains(p));
                    } else {
                        assert(positions[i as int] == p);
                    }
                }
                if exists|u: int| 0 <= u < i + 1 && #[trigger] positions[u] == p && set@.contains(u as usize) {
                    let u = choose|u: int| 0 <= u < i + 1 && #[trigger] positions[u] == p && set@.contains(u as usize);
                    if u < i {
                        assert(before.contains(p));
                        let k = choose|k: int| 0 <= k < before.len() && before[k] == p;
                        assert(out@[k] == p);
                    } else {
                        assert(out@[out@.len() - 1] == p);
                    }
                }
            }
        }
        i = i + 1;
    }
    proof {
        lemma_last_where(state.plantations@, main_pred(), state.plantations@.len() as int);
        assert forall|p: Pos| out@.contains(p) <==> #[trigger] connected_pos(*state, p) by {
            if out@.contains(p) {
                let u = choose|u: int| 0 <= u < n && #[trigger] positions[u] == p && set@.contains(u as usize);
                assert(set@.contains(u as usize));
            }
            if connected_pos(*state, p) {
                let m = last_where(state.plantations@, main_pred(), state.plantations@.len() as int)->0;
                let u = choose|u: int| 0 <= u < state.plantations@.len() && #[trigger] positions[u] == p && reaches(spec_graph(positions), m, u, -1);
                assert(set@.contains(u as usize));
            }
        }
    }
    out
}

fn terraformed_cell(cells: &Vec<Cell>, p: Pos) -> (b: bool)
    ensures
        b == terraformed_at(cells@, p),
{
    let mut i: usize = 0;
    while i < cells.len()
        invariant
            i <= cells@.len(),
            forall|j: int| 0 <= j < i ==> !((#[trigger] cells@[j]).pos == p && cells@[j].terraformation_progress >= 100),
        decreases cells.len() - i,
    {
        if cells[i].pos == p && cells[i].terraformation_progress >= 100 {
            return true;
        }
        i = i + 1;
    }
    false
}

fn cell_ok(state: &GameState, memory: &Memory, conn: &Vec<Pos>, c: Pos) -> (b: bool)
    requires
        forall|p: Pos| conn@.contains(p) <==> #[trigger] connected_pos(*state, p),
    ensures
        b == build_cell_ok(*state, *memory, c),
{
    if !(in_bounds(c, state.map_size)
        && !pos_listed(&state.mountains, c)
        && !memory.known_mountains.contains(&c)
        && !plantation_at_pos(&state.plantations, c)
        && !enemy_at_pos(&state.enemies, c)
        && !beaver_at_pos(&state.beavers, c)
        && !construction_at_pos(&state.construction, c)
        && !terraformed_cell(&state.cells, c)) {
        return false;
    }
    let mut d: usize = 0;
    while d < 4
        invariant
            d <= 4,
            build_cell_free(*state, *memory, c),
            forall|p: Pos| conn@.contains(p) <==> #[trigger] connected_pos(*state, p),
            forall|e: int| 0 <= e < d ==> !((#[trigger] spec_step(c, e)) matches Some(n) && connected_pos(*state, n)),
        decreases 4 - d,
    {
        match step4(c, d) {
            Some(n) => {
                if pos_listed(conn, n) {
                    assert(connected_pos(*state, n));
                    return true;
                }
            },
            None => {},
        }
        d = d + 1;
    }
    false
}

/// Offsets of the square of half-side `ar` around `a`, with the order in which
/// they are scanned: column by column.
pub open spec fn scanned_before(a: Pos, c: Pos, dx: int, dy: int) -> bool {
    c.x - a.x < dx || (c.x - a.x == dx && c.y - a.y < dy)
}

fn collect_around(
    state: &GameState,
    memory: &Memory,
    conn: &Vec<Pos>,
    a: Pos,
    ar: i32,
    out: &mut PosSet,
)
    requires
        forall|p: Pos| conn@.contains(p) <==> #[trigger] connected_pos(*state, p),
    ensures
        forall|c: Pos| #[trigger] final(out)@.contains(c) <==> (old(out)@.contains(c) || (
            c != a && spec_chebyshev(a, c) <= ar && build_cell_ok(*state, *memory, c))),
{
    let ghost s0 = out@;
    let r = ar as i64;
    let mut dx: i64 = -r;
    while dx <= r
        invariant
            r == ar,
            -r <= dx,
            dx <= r + 1 || dx == -r,
            forall|p: Pos| conn@.contains(p) <==> #[trigger] connected_pos(*state, p),
            forall|c: Pos| #[trigger] out@.contains(c) <==> (s0.contains(c) || (
                c != a && spec_chebyshev(a, c) <= ar && build_cell_ok(*state, *memory, c) && c.x - a.x < dx)),
        decreases r + 1 - dx,
    {
        let mut dy: i64 = -r;
        while dy <= r
            invariant
                r == ar,
                -r <= dx <= r,
                -r <= dy <= r + 1,
                forall|p: Pos| conn@.contains(p) <==> #[trigger] connected_pos(*state, p),
                forall|c: Pos| #[trigger] out@.contains(c) <==> (s0.contains(c) || (
                    c != a && spec_chebyshev(a, c) <= ar && build_cell_ok(*state, *memory, c) && scanned_before(a, c, dx as int, dy as int))),
            decreases r + 1 - dy,
        {
            let x = a.x as i64 + dx;
            let y = a.y as i64 + dy;
            let ghost before = out@;
            if !(dx == 0 && dy == 0) && i32::MIN as i64 <= x && x <= i32::MAX as i64 && i32::MIN as i64 <= y && y <= i32::MAX as i64 {
                let c = Pos { x: x as i32, y: y as i32 };
                if cell_ok(state, memory, conn, c) {
                    out.insert(c);
                }
            }
            proof {
                assert forall|c: Pos| #[trigger] out@.contains(c) <==> (s0.contains(c) || (
                    c != a && spec_chebyshev(a, c) <= ar && build_cell_ok(*state, *memory, c) && scanned_before(a, c, dx as int, dy + 1))) by {
                    if c.x - a.x == dx && c.y - a.y == dy {
                        assert(c.x == x && c.y == y);
                    }
                }
            }
            dy = dy + 1;
        }
        proof {
            assert forall|c: Pos| #[trigger] out@.contains(c) <==> (s0.contains(c) || (
                c != a && spec_chebyshev(a, c) <= ar && build_cell_ok(*state, *memory, c) && c.x - a.x < dx + 1)) by {
                if c != a && spec_chebyshev(a, c) <= ar && c.x - a.x == dx {
                    assert(c.y - a.y <= r);
                }
            }
        }
        dx = dx + 1;
    }
    proof {
        assert forall|c: Pos| #[trigger] out@.contains(c) <==> (s0.contains(c) || (
            c != a && spec_chebyshev(a, c) <= ar && build_cell_ok(*state, *memory, c))) by {
            if c != a && spec_chebyshev(a, c) <= ar {
                assert(c.x - a.x <= r);
            }
        }
    }
}

/// Candidate cells for new builds (see `spec_buildable`), each once, in no
/// particular order.
pub fn find_buildable_cells(state: &GameState, memory: &Memory, params: &DerivedParams) -> (r: Vec<Pos>)
    ensures
        r@.no_duplicates(),
        forall|c: Pos| r@.contains(c) <==> #[trigger] spec_buildable(*state, *memory, *params, c),
{
    let conn = connected_positions(state);
    let us = state.useful_authors(params);
    let ghost sus = spec_useful(*state, *params);
    let mut out = PosSet::new();
    let n = us.len();
    let mut i: usize = 0;
    while i < n
        invariant
            n == us@.len(),
            n == sus.len(),
            sus == spec_useful(*state, *params),
            forall|k: int| 0 <= k < n ==> *us@[k] == sus[k],
            forall|p: Pos| conn@.contains(p) <==> #[trigger] connected_pos(*state, p),
            i <= n,
            forall|c: Pos| #[trigger] out@.contains(c) <==> (
                (exists|k: int| 0 <= k < i && author_covers(#[trigger] sus[k], c, *state, *params))
                && build_cell_ok(*state, *memory, c)),
        decreases n - i,
    {
        let a = us[i];
        assert(*a == sus[i as int]);
        let ghost before = out@;
        if pos_listed(&conn, a.pos) {
            collect_around(state, memory, &conn, a.pos, params.ar, &mut out);
        }
        proof {
            assert forall|c: Pos| #[trigger] out@.contains(c) <==> (
                (exists|k: int| 0 <= k < i + 1 && author_covers(#[trigger] sus[k], c, *state, *params))
                && build_cell_ok(*state, *memory, c)) by {
                if exists|k: int| 0 <= k < i + 1 && author_covers(#[trigger] sus[k], c, *state, *params) {
                    let k = choose|k: int| 0 <= k < i + 1 && author_covers(#[trigger] sus[k], c, *state, *params);
                    if k < i {
                        assert(exists|q: int| 0 <= q < i && author_covers(#[trigger] sus[q], c, *state, *params));
                    }
                }
                if before.contains(c) {
                    let k = choose|k: int| 0 <= k < i && author_covers(#[trigger] sus[k], c, *state, *params);
                    assert(0 <= k < i + 1);
                }
            }
        }
        i = i + 1;
    }
    let r = out.elements();
    proof {
        assert forall|c: Pos| r@.contains(c) <==> #[trigger] spec_buildable(*state, *memory, *params, c) by {
            if r@.contains(c) {
                let k = choose|k: int| 0 <= k < r@.len() && r@[k] == c;
                assert(out@.contains(r@[k]));
                assert(out@.contains(c));
            }
            if spec_buildable(*state, *memory, *params, c) {
                let k = choose|k: int| 0 <= k < sus.len() && author_covers(#[trigger] sus[k], c, *state, *params);
                assert(out@.contains(c));
            }
        }
    }
    r
}

/// One of our constructions that is worth finishing: it survives this turn
/// with our help (its progress plus one command exceeds the damage it takes).
pub open spec fn build_active(c: Construction, state: GameState, memory: Memory, params: DerivedParams) -> bool {
    memory.our_construction_ever@.contains(c.pos) && c.progress + params.cs > spec_lethal(c.pos, state, params)
}

pub open spec fn active_upto(cs: Seq<Construction>, state: GameState, memory: Memory, params: DerivedParams, n: int) -> Seq<usize>
    decreases n,
{
    if n <= 0 {
        Seq::empty()
    } else if build_active(cs[n - 1], state, memory, params) {
        active_upto(cs, state, memory, params, n - 1).push((n - 1) as usize)
    } else {
        active_upto(cs, state, memory, params, n - 1)
    }
}

/// Indices of our constructions to keep building, in order.
pub fn active_constructions(state: &GameState, memory: &Memory, params: &DerivedParams) -> (r: Vec<usize>)
    ensures
        r@ == active_upto(state.construction@, *state, *memory, *params, state.construction@.len() as int),
{
    let cs = &state.construction;
    let mut out: Vec<usize> = Vec::new();
    let mut i: usize = 0;
    while i < cs.len()
        invariant
            i <= cs@.len(),
            cs == state.construction,
            out@ == active_upto(cs@, *state, *memory, *params, i as int),
        decreases cs.len() - i,
    {
        let c = &cs[i];
        if memory.is_our_construction(c.pos) {
            let dmg = lethal_damage(c.pos, state, params);
            if c.progress as i128 + params.cs as i128 > dmg {
                out.push(i);
            }
        }
        i = i + 1;
    }
    out
}

pub open spec fn min_int(a: int, b: int) -> int {
    if a <= b {
        a
    } else {
        b
    }
}

/// How many new builds start: one per free author and candidate, and when
/// the oldest plantation is the main one, no more than the room left under
/// the settlement limit.
pub open spec fn spec_build_quota(la: LimitAnalysis, slots: int, available: int) -> int {
    let base = min_int(slots, available);
    if la.oldest_is_main {
        let room = la.limit - la.projected;
        min_int(base, if room >= 0 { room } else { 0 })
    } else {
        base
    }
}

pub fn new_build_quota(la: &LimitAnalysis, slots: usize, available: usize) -> (q: usize)
    ensures
        q == spec_build_quota(*la, slots as int, available as int),
{
    let base = if slots <= available { slots } else { available };
    if la.oldest_is_main {
        let room = la.limit as i64 - la.projected as i64;
        if room <= 0 {
            0
        } else if (room as u64) < base as u64 {
            room as usize
        } else {
            base
        }
    } else {
        base
    }
}

/// A build candidate is a cell on the map that the server accepts for a
/// build: no cell record at it is terraformed to 100% or more, no mountain
/// (seen now or before), no plantation of ours, enemy plantation, lair or
/// construction stands on it; it is in the action range of a connected,
/// useful author other than itself; and one of its side neighbours is a
/// plantation of ours.
pub proof fn law_build_candidates_are_buildable(state: GameState, memory: Memory, params: DerivedParams, c: Pos)
    requires
        spec_buildable(state, memory, params, c),
    ensures
        0 <= c.x < state.map_size.0 && 0 <= c.y < state.map_size.1,
        forall|i: int| 0 <= i < state.cells@.len() && (#[trigger] state.cells@[i]).pos == c
            ==> state.cells@[i].terraformation_progress < 100,
        !state.mountains@.contains(c),
        !memory.known_mountains@.contains(c),
        forall|i: int| 0 <= i < state.plantations@.len() ==> (#[trigger] state.plantations@[i]).pos != c,
        forall|i: int| 0 <= i < state.enemies@.len() ==> (#[trigger] state.enemies@[i]).pos != c,
        forall|i: int| 0 <= i < state.beavers@.len() ==> (#[trigger] state.beavers@[i]).pos != c,
        forall|i: int| 0 <= i < state.construction@.len() ==> (#[trigger] state.construction@[i]).pos != c,
        exists|k: int| 0 <= k < spec_useful(state, params).len() && {
            let a = #[trigger] spec_useful(state, params)[k];
            &&& a.pos != c
            &&& (if a.pos.x >= c.x { a.pos.x - c.x } else { c.x - a.pos.x }) <= params.ar
            &&& (if a.pos.y >= c.y { a.pos.y - c.y } else { c.y - a.pos.y }) <= params.ar
        },
        exists|j: int| 0 <= j < state.plantations@.len() && {
            let q = (#[trigger] state.plantations@[j]).pos;
            (if q.x >= c.x { q.x - c.x } else { c.x - q.x }) + (if q.y >= c.y { q.y - c.y } else { c.y - q.y }) == 1
        },
{
    assert forall|i: int| 0 <= i < state.cells@.len() && (#[trigger] state.cells@[i]).pos == c
        implies state.cells@[i].terraformation_progress < 100 by {
        if state.cells@[i].terraformation_progress >= 100 {
            assert(terraformed_at(state.cells@, c));
        }
    }
    assert forall|i: int| 0 <= i < state.plantations@.len() implies (#[trigger] state.plantations@[i]).pos != c by {
        if state.plantations@[i].pos == c {
            assert(has_plantation_at(state.plantations@, c));
        }
    }
    assert forall|i: int| 0 <= i < state.enemies@.len() implies (#[trigger] state.enemies@[i]).pos != c by {
        if state.enemies@[i].pos == c {
            assert(has_enemy_at(state.enemies@, c));
        }
    }
    assert forall|i: int| 0 <= i < state.beavers@.len() implies (#[trigger] state.beavers@[i]).pos != c by {
        if state.beavers@[i].pos == c {
            assert(has_beaver_at(state.beavers@, c));
        }
    }
    assert forall|i: int| 0 <= i < state.construction@.len() implies (#[trigger] state.construction@[i]).pos != c by {
        if state.construction@[i].pos == c {
            assert(has_construction_at(state.construction@, c));
        }
    }
    let d = choose|d: int| 0 <= d < 4 && ((#[trigger] spec_step(c, d)) matches Some(n) && connected_pos(state, n));
    let n = spec_step(c, d)->0;
    let ps = state.plantations@;
    let positions = ps.map_values(|q: Plantation| q.pos);
    let u = choose|u: int| 0 <= u < ps.len() && #[trigger] positions[u] == n
        && reaches(spec_graph(positions), last_where(ps, main_pred(), ps.len() as int)->0, u, -1);
    assert(ps[u].pos == n);
}

} // verus!

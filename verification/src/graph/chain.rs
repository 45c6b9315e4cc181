use vstd::prelude::*;
use std::collections::HashSet;

use crate::geom::dist::{spec_step, step4, lemma_step_adjacent};
use crate::graph::reach::{adj_in_range, adj_view, has_edge, lemma_reaches_self, lemma_reaches_step, reach_marks, reaches};
use crate::model::select::{last_where, lemma_last_where};
use crate::model::state::{main_pred, GameState, Plantation, Pos};

verus! {

broadcast use vstd::std_specs::hash::group_hash_axioms;

pub open spec fn pos_pred(p: Pos) -> spec_fn(Pos) -> bool {
    |q: Pos| q == p
}

/// The index that a position maps to: the last plantation standing there.
pub open spec fn spec_index_of(positions: Seq<Pos>, p: Pos) -> Option<int> {
    last_where(positions, pos_pred(p), positions.len() as int)
}

/// Indices of the plantations on the 4-neighbours of `p`, taken in the
/// directions right, left, down, up (the first `d` of them).
pub open spec fn neighbours_upto(positions: Seq<Pos>, p: Pos, d: int) -> Seq<usize>
    decreases d,
{
    if d <= 0 {
        Seq::empty()
    } else {
        let prev = neighbours_upto(positions, p, d - 1);
        match spec_step(p, d - 1) {
            Some(q) => match spec_index_of(positions, q) {
                Some(j) => prev.push(j as usize),
                None => prev,
            },
            None => prev,
        }
    }
}

/// The 4-connectivity graph of plantations standing on `positions`.
pub open spec fn spec_graph(positions: Seq<Pos>) -> Seq<Seq<usize>> {
    Seq::new(positions.len(), |i: int| neighbours_upto(positions, positions[i], 4))
}

/// Some 4-neighbour of `p` is occupied.
pub open spec fn spec_adjacent_to_any(positions: Seq<Pos>, p: Pos) -> bool {
    exists|d: int| 0 <= d < 4 && ((#[trigger] spec_step(p, d)) matches Some(q) && positions.contains(q))
}

/// Removing `v` separates two of its neighbours: `v` is a cut vertex.
pub open spec fn is_cut_vertex(g: Seq<Seq<usize>>, v: int) -> bool {
    exists|i: int, j: int|
        0 <= i < g[v].len() && 0 <= j < g[v].len() && !#[trigger] reaches(g, g[v][i] as int, g[v][j] as int, v)
}

/// Graph of our plantations under 4-connectivity: nodes are plantations,
/// edges join plantations on side-adjacent cells.
pub struct ChainGraph {
    nodes: Vec<String>,
    positions: Vec<Pos>,
    adj: Vec<Vec<usize>>,
    main_idx: Option<usize>,
}

proof fn lemma_neighbours(positions: Seq<Pos>, p: Pos, d: int)
    requires
        0 <= d <= 4,
        positions.len() <= usize::MAX,
    ensures
        forall|k: int| 0 <= k < neighbours_upto(positions, p, d).len() ==>
            (#[trigger] neighbours_upto(positions, p, d)[k]) < positions.len()
            && positions[neighbours_upto(positions, p, d)[k] as int] != p,
    decreases d,
{
    if d > 0 {
        lemma_neighbours(positions, p, d - 1);
        let prev = neighbours_upto(positions, p, d - 1);
        match spec_step(p, d - 1) {
            Some(q) => {
                lemma_step_adjacent(p, d - 1);
                lemma_last_where(positions, pos_pred(q), positions.len() as int);
                match spec_index_of(positions, q) {
                    Some(j) => {
                        assert(pos_pred(q)(positions[j]));
                        assert(positions[j] == q);
                        let cur = prev.push(j as usize);
                        assert(neighbours_upto(positions, p, d) == cur);
                        assert forall|k: int| 0 <= k < cur.len() implies (#[trigger] cur[k]) < positions.len()
                            && positions[cur[k] as int] != p by {
                            if k < prev.len() {
                                assert(cur[k] == prev[k]);
                            }
                        }
                    },
                    None => {},
                }
            },
            None => {},
        }
    }
}

proof fn lemma_graph_shape(positions: Seq<Pos>)
    requires
        positions.len() <= usize::MAX,
    ensures
        adj_in_range(spec_graph(positions)),
        forall|v: int, k: int| 0 <= v < positions.len() && 0 <= k < spec_graph(positions)[v].len()
            ==> (#[trigger] spec_graph(positions)[v][k]) as int != v,
{
    assert forall|v: int, k: int| 0 <= v < spec_graph(positions).len() && 0 <= k < spec_graph(positions)[v].len()
        implies (#[trigger] spec_graph(positions)[v][k]) < spec_graph(positions).len()
        && spec_graph(positions)[v][k] as int != v by {
        lemma_neighbours(positions, positions[v], 4);
        assert(spec_graph(positions)[v] == neighbours_upto(positions, positions[v], 4));
    }
}

fn last_index_of(positions: &Vec<Pos>, p: Pos) -> (r: Option<usize>)
    ensures
        r matches Some(j) ==> spec_index_of(positions@, p) == Some(j as int),
        r is None ==> spec_index_of(positions@, p) is None,
{
    let n = positions.len();
    let mut i: usize = n;
    while i > 0
        invariant
            n == positions@.len(),
            i <= n,
            spec_index_of(positions@, p) == last_where(positions@, pos_pred(p), i as int),
        decreases i,
    {
        if positions[i - 1] == p {
            return Some(i - 1);
        }
        i = i - 1;
    }
    None
}

fn neighbours_of(positions: &Vec<Pos>, p: Pos) -> (r: Vec<usize>)
    ensures
        r@ == neighbours_upto(positions@, p, 4),
{
    let mut out: Vec<usize> = Vec::new();
    let mut d: usize = 0;
    while d < 4
        invariant
            d <= 4,
            out@ == neighbours_upto(positions@, p, d as int),
        decreases 4 - d,
    {
        match step4(p, d) {
            Some(q) => match last_index_of(positions, q) {
                Some(j) => out.push(j),
                None => {},
            },
            None => {},
        }
        d = d + 1;
    }
    out
}

impl ChainGraph {
    #[verifier::type_invariant]
    spec fn inv(self) -> bool {
        &&& self.nodes@.len() == self.positions@.len()
        &&& adj_view(self.adj@) == spec_graph(self.positions@)
        &&& self.main_idx matches Some(m) ==> m < self.positions@.len()
    }

    pub closed spec fn spec_ids(self) -> Seq<Seq<char>> {
        self.nodes@.map_values(|s: String| s@)
    }

    pub closed spec fn spec_positions(self) -> Seq<Pos> {
        self.positions@
    }

    pub closed spec fn spec_main(self) -> Option<usize> {
        self.main_idx
    }

    /// The adjacency lists of the graph.
    pub open spec fn spec_adj(self) -> Seq<Seq<usize>> {
        spec_graph(self.spec_positions())
    }

    pub proof fn lemma_shape(self)
        requires
            self.spec_positions().len() <= usize::MAX,
        ensures
            adj_in_range(self.spec_adj()),
            self.spec_adj().len() == self.spec_positions().len(),
            forall|v: int, k: int| 0 <= v < self.spec_positions().len() && 0 <= k < self.spec_adj()[v].len()
                ==> (#[trigger] self.spec_adj()[v][k]) as int != v,
    {
        lemma_graph_shape(self.spec_positions());
    }

    pub fn build(state: &GameState) -> (g: Self)
        ensures
            g.spec_positions() == state.plantations@.map_values(|p: Plantation| p.pos),
            g.spec_ids() == state.plantations@.map_values(|p: Plantation| p.id@),
            g.spec_main() == (match last_where(state.plantations@, main_pred(), state.plantations@.len() as int) {
                Some(i) => Some(i as usize),
                None => None,
            }),
    {
        let ps = &state.plantations;
        let n = ps.len();
        let mut nodes: Vec<String> = Vec::new();
        let mut positions: Vec<Pos> = Vec::new();
        let mut main_idx: Option<usize> = None;
        let mut i: usize = 0;
        while i < n
            invariant
                n == ps@.len(),
                i <= n,
                nodes@.len() == i,
                positions@.len() == i,
                forall|k: int| 0 <= k < i ==> positions@[k] == ps@[k].pos,
                forall|k: int| 0 <= k < i ==> nodes@[k]@ == ps@[k].id@,
                main_idx == (match last_where(ps@, main_pred(), i as int) {
                    Some(j) => Some(j as usize),
                    None => None,
                }),
            decreases n - i,
        {
            nodes.push(ps[i].id.clone());
            positions.push(ps[i].pos);
            if ps[i].is_main {
                main_idx = Some(i);
            }
            i = i + 1;
        }
        let mut adj: Vec<Vec<usize>> = Vec::new();
        let mut i: usize = 0;
        while i < n
            invariant
                n == positions@.len(),
                i <= n,
                adj@.len() == i,
                forall|k: int| 0 <= k < i ==> adj@[k]@ == neighbours_upto(positions@, positions@[k], 4),
            decreases n - i,
        {
            adj.push(neighbours_of(&positions, positions[i]));
            i = i + 1;
        }
        assert(adj_view(adj@) =~= spec_graph(positions@));
        proof {
            lemma_last_where(ps@, main_pred(), n as int);
        }
        assert(positions@ =~= ps@.map_values(|p: Plantation| p.pos));
        assert(nodes@.map_values(|s: String| s@) =~= ps@.map_values(|p: Plantation| p.id@));
        Self { nodes, positions, adj, main_idx }
    }

    pub fn len(&self) -> (n: usize)
        ensures
            n == self.spec_positions().len(),
    {
        proof {
            use_type_invariant(self);
        }
        self.nodes.len()
    }

    pub fn is_empty(&self) -> (b: bool)
        ensures
            b == (self.spec_positions().len() == 0),
    {
        proof {
            use_type_invariant(self);
        }
        self.nodes.len() == 0
    }

    pub fn main_idx(&self) -> (m: Option<usize>)
        ensures
            m == self.spec_main(),
    {
        self.main_idx
    }

    pub fn pos_of(&self, idx: usize) -> (p: Pos)
        requires
            idx < self.spec_positions().len(),
        ensures
            p == self.spec_positions()[idx as int],
    {
        self.positions[idx]
    }

    pub fn id_of(&self, idx: usize) -> (s: &str)
        requires
            idx < self.spec_positions().len(),
        ensures
            s@ == self.spec_ids()[idx as int],
    {
        proof {
            use_type_invariant(self);
        }
        self.nodes[idx].as_str()
    }

    pub fn idx_of_pos(&self, p: Pos) -> (r: Option<usize>)
        ensures
            r matches Some(j) ==> spec_index_of(self.spec_positions(), p) == Some(j as int),
            r is None ==> spec_index_of(self.spec_positions(), p) is None,
    {
        last_index_of(&self.positions, p)
    }

    pub fn is_adjacent_to_any(&self, p: Pos) -> (b: bool)
        ensures
            b == spec_adjacent_to_any(self.spec_positions(), p),
    {
        let mut d: usize = 0;
        while d < 4
            invariant
                d <= 4,
                forall|e: int| 0 <= e < d ==> !((#[trigger] spec_step(p, e)) matches Some(q) && self.positions@.contains(q)),
            decreases 4 - d,
        {
            match step4(p, d) {
                Some(q) => {
                    match last_index_of(&self.positions, q) {
                        Some(j) => {
                            proof {
                                lemma_last_where(self.positions@, pos_pred(q), self.positions@.len() as int);
                                assert(self.positions@[j as int] == q);
                            }
                            return true;
                        },
                        None => {
                            proof {
                                lemma_last_where(self.positions@, pos_pred(q), self.positions@.len() as int);
                            }
                        },
                    }
                },
                None => {},
            }
            d = d + 1;
        }
        false
    }

    /// Plantations linked to the main one through chains of neighbours; empty
    /// when there is no main plantation.
    pub fn connected_to_main(&self) -> (r: HashSet<usize>)
        ensures
            r@ == (match self.spec_main() {
                Some(m) => Set::new(|u: usize| (u as int) < self.spec_positions().len() && reaches(self.spec_adj(), m as int, u as int, -1)),
                None => Set::empty(),
            }),
    {
        let n0 = self.positions.len();
        proof {
            use_type_invariant(self);
            lemma_graph_shape(self.positions@);
            assert(adj_view(self.adj@).len() == self.adj@.len());
        }
        let mut visited: HashSet<usize> = HashSet::new();
        let start = match self.main_idx {
            Some(m) => m,
            None => return visited,
        };
        let marks = reach_marks(&self.adj, start, None);
        let n = marks.len();
        let ghost target = Set::new(|u: usize| (u as int) < self.spec_positions().len() && reaches(self.spec_adj(), start as int, u as int, -1));
        let mut i: usize = 0;
        while i < n
            invariant
                n == marks@.len(),
                n == self.positions@.len(),
                n == self.adj@.len(),
                i <= n,
                forall|u: int| 0 <= u < n ==> (marks@[u] <==> reaches(self.spec_adj(), start as int, u, -1)),
                target == Set::new(|u: usize| (u as int) < self.spec_positions().len() && reaches(self.spec_adj(), start as int, u as int, -1)),
                forall|u: usize| #[trigger] visited@.contains(u) <==> (u < i && target.contains(u)),
            decreases n - i,
        {
            let ghost old_vis = visited@;
            if marks[i] {
                visited.insert(i);
            }
            proof {
                assert forall|u: usize| #[trigger] visited@.contains(u) <==> (u < i + 1 && target.contains(u)) by {
                    if u == i {
                        assert(target.contains(u) <==> marks@[u as int]);
                    } else {
                        assert(visited@.contains(u) == old_vis.contains(u));
                    }
                }
            }
            i = i + 1;

        }
        assert(visited@ =~= target);
        visited
    }

    /// Cut vertices: plantations whose loss separates two of their neighbours
    /// from each other.
    pub fn articulation_points(&self) -> (r: HashSet<usize>)
        ensures
            r@ == Set::new(|v: usize| (v as int) < self.spec_positions().len() && is_cut_vertex(self.spec_adj(), v as int)),
    {
        let n0 = self.positions.len();
        proof {
            use_type_invariant(self);
            lemma_graph_shape(self.positions@);
            assert(adj_view(self.adj@).len() == self.adj@.len());
        }
        let ghost g = self.spec_adj();
        let ghost target = Set::new(|v: usize| (v as int) < self.spec_positions().len() && is_cut_vertex(g, v as int));
        let n = self.adj.len();
        let mut ap: HashSet<usize> = HashSet::new();
        let mut v: usize = 0;
        while v < n
            invariant
                n == self.positions@.len(),
                g == self.spec_adj(),
                g == adj_view(self.adj@),
                adj_in_range(g),
                forall|w: int, k: int| 0 <= w < n && 0 <= k < g[w].len() ==> (#[trigger] g[w][k]) as int != w,
                v <= n,
                n == g.len(),
                n == self.adj@.len(),
                target == Set::new(|v: usize| (v as int) < self.spec_positions().len() && is_cut_vertex(g, v as int)),
                forall|u: usize| #[trigger] ap@.contains(u) <==> (u < v && target.contains(u)),
            decreases n - v,
        {
            let nb = &self.adj[v];
            assert(nb@ == g[v as int]);
            let mut cut = false;
            let mut i: usize = 0;
            while i < nb.len()
                invariant
                    n == self.positions@.len(),
                    g == adj_view(self.adj@),
                    adj_in_range(g),
                    forall|w: int, k: int| 0 <= w < n && 0 <= k < g[w].len() ==> (#[trigger] g[w][k]) as int != w,
                    v < n,
                    n == g.len(),
                    n == self.adj@.len(),
                    nb@ == g[v as int],
                    i <= nb@.len(),
                    cut == exists|a: int, b: int| 0 <= a < i && 0 <= b < nb@.len()
                        && !#[trigger] reaches(g, nb@[a] as int, nb@[b] as int, v as int),
                decreases nb.len() - i,
            {
                let marks = reach_marks(&self.adj, nb[i], Some(v));
                let mut j: usize = 0;
                let mut found = false;
                while j < nb.len()
                    invariant
                        g == adj_view(self.adj@),
                        nb@ == g[v as int],
                        i < nb@.len(),
                        j <= nb@.len(),
                        marks@.len() == n,
                        adj_in_range(g),
                        v < n,
                        n == g.len(),
                        forall|u: int| 0 <= u < n ==> (marks@[u] <==> reaches(g, nb@[i as int] as int, u, v as int)),
                        found == exists|b: int| 0 <= b < j && !#[trigger] reaches(g, nb@[i as int] as int, nb@[b] as int, v as int),
                    decreases nb.len() - j,
                {
                    if !marks[nb[j]] {
                        found = true;
                    }
                    j = j + 1;
                }
                if found {
                    cut = true;
                }
                i = i + 1;
            }
            let ghost old_ap = ap@;
            if cut {
                ap.insert(v);
            }
            proof {
                assert(cut == is_cut_vertex(g, v as int)) by {
                    if is_cut_vertex(g, v as int) {
                        let (a, b) = choose|a: int, b: int|
                            0 <= a < g[v as int].len() && 0 <= b < g[v as int].len() && !#[trigger] reaches(g, g[v as int][a] as int, g[v as int][b] as int, v as int);
                        assert(!reaches(g, nb@[a] as int, nb@[b] as int, v as int));
                    }
                }
                assert forall|u: usize| #[trigger] ap@.contains(u) <==> (u < v + 1 && target.contains(u)) by {
                    if u == v {
                        assert(target.contains(u) <==> is_cut_vertex(g, v as int));
                    } else {
                        assert(ap@.contains(u) == old_ap.contains(u));
                    }
                }
            }
            v = v + 1;
            proof {
                assert(cut == is_cut_vertex(g, (v - 1) as int)) by {
                    if is_cut_vertex(g, (v - 1) as int) {
                        let (a, b) = choose|a: int, b: int|
                            0 <= a < g[v - 1].len() && 0 <= b < g[v - 1].len() && !#[trigger] reaches(g, g[v - 1][a] as int, g[v - 1][b] as int, v - 1);
                        assert(!reaches(g, nb@[a] as int, nb@[b] as int, (v - 1) as int));
                    }
                }

            }
        }
        assert(ap@ =~= target);
        ap
    }
}

/// A plantation with at most one neighbour is never a cut vertex: losing a
/// leaf of the network disconnects nothing else.
pub proof fn law_leaf_is_not_a_cut_vertex(graph: ChainGraph, v: int)
    requires
        graph.spec_positions().len() <= usize::MAX,
        0 <= v < graph.spec_positions().len(),
        graph.spec_adj()[v].len() <= 1,
    ensures
        !is_cut_vertex(graph.spec_adj(), v),
{
    let g = graph.spec_adj();
    graph.lemma_shape();
    if g[v].len() == 1 {
        let a = g[v][0] as int;
        assert(a != v);
        lemma_reaches_self(g, a, v);
        assert forall|i: int, j: int| 0 <= i < g[v].len() && 0 <= j < g[v].len()
            implies #[trigger] reaches(g, g[v][i] as int, g[v][j] as int, v) by {
            assert(i == 0 && j == 0);
        }
    }
}

/// The part of the network linked to the main plantation is closed under
/// adjacency: a neighbour of a linked plantation is linked too.
pub proof fn law_neighbour_of_linked_is_linked(graph: ChainGraph, m: int, u: int, k: int)
    requires
        graph.spec_positions().len() <= usize::MAX,
        0 <= m < graph.spec_positions().len(),
        0 <= u < graph.spec_positions().len(),
        reaches(graph.spec_adj(), m, u, -1),
        0 <= k < graph.spec_adj()[u].len(),
    ensures
        reaches(graph.spec_adj(), m, graph.spec_adj()[u][k] as int, -1),
{
    let g = graph.spec_adj();
    graph.lemma_shape();
    let e = g[u][k] as int;
    assert(has_edge(g, u, e));
    lemma_reaches_step(g, m, u, e, -1);
}

} // verus!

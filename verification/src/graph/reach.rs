use vstd::prelude::*;

use crate::model::select::count_upto;

verus! {

/// Adjacency lists as a mathematical sequence of sequences.
pub open spec fn adj_view(adj: Seq<Vec<usize>>) -> Seq<Seq<usize>> {
    adj.map_values(|v: Vec<usize>| v@)
}

/// Every listed neighbour is a vertex of the graph.
pub open spec fn adj_in_range(g: Seq<Seq<usize>>) -> bool {
    forall|v: int, k: int| 0 <= v < g.len() && 0 <= k < g[v].len() ==> (#[trigger] g[v][k]) < g.len()
}

/// `g` has an edge from `v` to `e`.
pub open spec fn has_edge(g: Seq<Seq<usize>>, v: int, e: int) -> bool {
    exists|j: int| 0 <= j < g[v].len() && #[trigger] g[v][j] as int == e
}

/// `w` is a walk along the edges of `g` that never visits `avoid`.
pub open spec fn is_walk(g: Seq<Seq<usize>>, w: Seq<int>, avoid: int) -> bool {
    &&& w.len() >= 1
    &&& forall|k: int| 0 <= k < w.len() ==> 0 <= #[trigger] w[k] < g.len() && w[k] != avoid
    &&& forall|k: int| 0 <= k < w.len() - 1 ==> #[trigger] has_edge(g, w[k], w[k + 1])
}

/// `t` can be reached from `s` without passing through `avoid`
/// (`avoid` negative: no vertex is excluded).
pub open spec fn reaches(g: Seq<Seq<usize>>, s: int, t: int, avoid: int) -> bool {
    exists|w: Seq<int>| #[trigger] is_walk(g, w, avoid) && w[0] == s && w[w.len() - 1] == t
}

pub open spec fn avoid_int(avoid: Option<usize>) -> int {
    match avoid {
        Some(a) => a as int,
        None => -1,
    }
}

pub open spec fn true_pred() -> spec_fn(bool) -> bool {
    |b: bool| b
}

/// Every edge out of a marked vertex, except into `avoid`, ends at a marked vertex.
pub open spec fn closed_under(g: Seq<Seq<usize>>, seen: Seq<bool>, avoid: int) -> bool {
    forall|v: int, k: int|
        0 <= v < g.len() && 0 <= k < g[v].len() && seen[v] && g[v][k] != avoid ==> seen[#[trigger] g[v][k] as int]
}

pub proof fn lemma_reaches_self(g: Seq<Seq<usize>>, s: int, avoid: int)
    requires
        0 <= s < g.len(),
        s != avoid,
    ensures
        reaches(g, s, s, avoid),
{
    let w = seq![s];
    assert(is_walk(g, w, avoid));
}

pub proof fn lemma_reaches_step(g: Seq<Seq<usize>>, s: int, v: int, e: int, avoid: int)
    requires
        reaches(g, s, v, avoid),
        0 <= v < g.len(),
        has_edge(g, v, e),
        0 <= e < g.len(),
        e != avoid,
    ensures
        reaches(g, s, e, avoid),
{
    let w = choose|w: Seq<int>| #[trigger] is_walk(g, w, avoid) && w[0] == s && w[w.len() - 1] == v;
    let w2 = w.push(e);
    assert forall|k: int| 0 <= k < w2.len() - 1 implies #[trigger] has_edge(g, w2[k], w2[k + 1]) by {
        if k < w.len() - 1 {
            assert(w2[k] == w[k] && w2[k + 1] == w[k + 1]);
        } else {
            assert(w2[k] == v && w2[k + 1] == e);
        }
    }
    assert(is_walk(g, w2, avoid));
    assert(w2[0] == s && w2[w2.len() - 1] == e);
}

/// A marked set closed under the edges that contains the start contains the
/// end of every walk from the start.
pub proof fn lemma_closed_contains_walk_end(g: Seq<Seq<usize>>, seen: Seq<bool>, avoid: int, w: Seq<int>)
    requires
        seen.len() == g.len(),
        adj_in_range(g),
        closed_under(g, seen, avoid),
        is_walk(g, w, avoid),
        seen[w[0]],
    ensures
        seen[w[w.len() - 1]],
    decreases w.len(),
{
    if w.len() > 1 {
        let w0 = w.drop_last();
        assert(is_walk(g, w0, avoid)) by {
            assert forall|k: int| 0 <= k < w0.len() - 1 implies #[trigger] has_edge(g, w0[k], w0[k + 1]) by {
                assert(w0[k] == w[k] && w0[k + 1] == w[k + 1]);
                assert(has_edge(g, w[k], w[k + 1]));
            }
        }
        lemma_closed_contains_walk_end(g, seen, avoid, w0);
        let kk = w.len() - 2;
        let v = w[kk];
        let e = w[kk + 1];
        assert(w0[w0.len() - 1] == v);
        assert(has_edge(g, w[kk], w[kk + 1]));
        let k = choose|k: int| 0 <= k < g[v].len() && #[trigger] g[v][k] as int == e;
        assert(e != avoid);
        assert(g[v][k] != avoid);
        assert(seen[g[v][k] as int]);
        assert(w[w.len() - 1] == e);
    }
}

pub proof fn lemma_count_set_true(s: Seq<bool>, i: int, n: int)
    requires
        0 <= i < s.len(),
        0 <= n <= s.len(),
        !s[i],
    ensures
        n > i ==> count_upto(s.update(i, true), true_pred(), n) == count_upto(s, true_pred(), n) + 1,
        n <= i ==> count_upto(s.update(i, true), true_pred(), n) == count_upto(s, true_pred(), n),
    decreases n,
{
    if n > 0 {
        lemma_count_set_true(s, i, n - 1);
    }
}

pub proof fn lemma_count_le(s: Seq<bool>, n: int)
    requires
        0 <= n <= s.len(),
    ensures
        count_upto(s, true_pred(), n) <= n,
    decreases n,
{
    if n > 0 {
        lemma_count_le(s, n - 1);
    }
}

/// Marks the vertices reachable from `start` without passing through `avoid`,
/// by a depth-first search.
pub fn reach_marks(adj: &Vec<Vec<usize>>, start: usize, avoid: Option<usize>) -> (seen: Vec<bool>)
    requires
        adj_in_range(adj_view(adj@)),
        start < adj@.len(),
        avoid != Some(start),
    ensures
        seen@.len() == adj@.len(),
        forall|u: int| 0 <= u < adj@.len() ==> (seen@[u] <==> reaches(adj_view(adj@), start as int, u, avoid_int(avoid))),
{
    let ghost g = adj_view(adj@);
    let ghost a = avoid_int(avoid);
    let n = adj.len();
    let mut seen: Vec<bool> = Vec::new();
    let mut i: usize = 0;
    while i < n
        invariant
            i <= n,
            seen@.len() == i,
            forall|k: int| 0 <= k < i ==> !seen@[k],
        decreases n - i,
    {
        seen.push(false);
        i = i + 1;
    }
    proof {
        assert(count_upto(seen@, true_pred(), n as int) == 0) by {
            lemma_count_zero(seen@, n as int);
        }
        lemma_reaches_self(g, start as int, a);
    }
    let mut marked: usize = 0;
    let mut stack: Vec<usize> = Vec::new();
    stack.push(start);
    assert(stack@[0] == start);
    while stack.len() > 0
        invariant
            n == adj@.len(),
            g == adj_view(adj@),
            a == avoid_int(avoid),
            adj_in_range(g),
            start < n,
            a != start,
            seen@.len() == n,
            marked as int == count_upto(seen@, true_pred(), n as int),
            marked <= n,
            forall|k: int| 0 <= k < stack@.len() ==> (#[trigger] stack@[k]) < n && stack@[k] as int != a
                && reaches(g, start as int, stack@[k] as int, a),
            forall|u: int| 0 <= u < n && #[trigger] seen@[u] ==> reaches(g, start as int, u, a),
            forall|v: int, k: int|
                0 <= v < n && 0 <= k < g[v].len() && seen@[v] && g[v][k] != a
                    ==> seen@[#[trigger] g[v][k] as int] || stack@.contains(g[v][k]),
            seen@[start as int] || stack@.contains(start),
        decreases n - marked, stack.len(),
    {
        let ghost before = stack@;
        let v = stack.pop().unwrap();
        proof {
            assert(before == stack@.push(v));
            assert(before[before.len() - 1] == v);
        }
        if seen[v] {
            proof {
                assert forall|w: int, k: int|
                    0 <= w < n && 0 <= k < g[w].len() && seen@[w] && g[w][k] != a
                        implies seen@[#[trigger] g[w][k] as int] || stack@.contains(g[w][k]) by {
                    if !seen@[g[w][k] as int] {
                        let j = choose|j: int| 0 <= j < before.len() && before[j] == g[w][k];
                        if j < stack@.len() {
                            assert(stack@[j] == g[w][k]);
                        }
                    }
                }
                if !seen@[start as int] {
                    let j = choose|j: int| 0 <= j < before.len() && before[j] == start;
                    if j < stack@.len() {
                        assert(stack@[j] == start);
                    }
                }
                assert forall|k: int| 0 <= k < stack@.len() implies (#[trigger] stack@[k]) < n && stack@[k] as int != a
                    && reaches(g, start as int, stack@[k] as int, a) by {
                    assert(stack@[k] == before[k]);
                }
            }
            continue;
        }
        proof {
            assert(reaches(g, start as int, v as int, a));
            lemma_count_set_true(seen@, v as int, n as int);
            lemma_count_le(seen@.update(v as int, true), n as int);
        }
        seen.set(v, true);
        marked = marked + 1;
        let ghost popped = stack@;
        let nb = &adj[v];
        assert(nb@ == g[v as int]);
        let mut j: usize = 0;
        while j < nb.len()
            invariant
                n == adj@.len(),
                g == adj_view(adj@),
                a == avoid_int(avoid),
                adj_in_range(g),
                nb@ == g[v as int],
                v < n,
                seen@.len() == n,
                seen@[v as int],
                j <= nb@.len(),
                stack@.len() >= popped.len(),
                stack@.subrange(0, popped.len() as int) == popped,
                forall|k: int| 0 <= k < stack@.len() ==> (#[trigger] stack@[k]) < n && stack@[k] as int != a
                    && reaches(g, start as int, stack@[k] as int, a),
                reaches(g, start as int, v as int, a),
                forall|k: int| 0 <= k < j && nb@[k] as int != a ==> seen@[#[trigger] nb@[k] as int] || stack@.contains(nb@[k]),
            decreases nb.len() - j,
        {
            let u = nb[j];
            let skip = match avoid {
                Some(av) => u == av,
                None => false,
            };
            let ghost st0 = stack@;
            if !skip && !seen[u] {
                proof {
                    assert(g[v as int][j as int] == u);
                    assert(has_edge(g, v as int, u as int));
                    lemma_reaches_step(g, start as int, v as int, u as int, a);
                }
                stack.push(u);
                proof {
                    assert(stack@[stack@.len() - 1] == u);
                    assert(stack@.subrange(0, popped.len() as int) =~= st0.subrange(0, popped.len() as int));
                }
            }
            proof {
                assert forall|k: int| 0 <= k < j + 1 && nb@[k] as int != a implies seen@[#[trigger] nb@[k] as int] || stack@.contains(nb@[k]) by {
                    if k < j && !seen@[nb@[k] as int] {
                        let q = choose|q: int| 0 <= q < st0.len() && st0[q] == nb@[k];
                        assert(stack@[q] == st0[q]);
                    }
                    if k == j && !seen@[nb@[k] as int] {
                        assert(stack@[stack@.len() - 1] == u);
                    }
                }
            }
            j = j + 1;
        }
        proof {
            assert forall|w: int, k: int|
                0 <= w < n && 0 <= k < g[w].len() && seen@[w] && g[w][k] != a
                    implies seen@[#[trigger] g[w][k] as int] || stack@.contains(g[w][k]) by {
                if w == v as int {
                    assert(nb@[k] == g[w][k]);
                } else if !seen@[g[w][k] as int] {
                    let q = choose|q: int| 0 <= q < before.len() && before[q] == g[w][k];
                    if q < popped.len() {
                        assert(popped[q] == g[w][k]);
                        assert(stack@.subrange(0, popped.len() as int)[q] == g[w][k]);
                        assert(stack@[q] == g[w][k]);
                    } else {
                        assert(g[w][k] == v);
                    }
                }
            }
            if !seen@[start as int] {
                let q = choose|q: int| 0 <= q < before.len() && before[q] == start;
                if q < popped.len() {
                    assert(stack@.subrange(0, popped.len() as int)[q] == start);
                    assert(stack@[q] == start);
                }
            }
        }
    }
    proof {
        assert(closed_under(g, seen@, a)) by {
            assert forall|v: int, k: int|
                0 <= v < g.len() && 0 <= k < g[v].len() && seen@[v] && g[v][k] != a implies seen@[#[trigger] g[v][k] as int] by {
                if !seen@[g[v][k] as int] {
                    assert(stack@.contains(g[v][k]));
                }
            }
        }
        assert forall|u: int| 0 <= u < n implies (seen@[u] <==> reaches(g, start as int, u, a)) by {
            if reaches(g, start as int, u, a) {
                let w = choose|w: Seq<int>| #[trigger] is_walk(g, w, a) && w[0] == start as int && w[w.len() - 1] == u;
                lemma_closed_contains_walk_end(g, seen@, a, w);
            }
        }
    }
    seen
}

pub proof fn lemma_count_zero(s: Seq<bool>, n: int)
    requires
        0 <= n <= s.len(),
        forall|k: int| 0 <= k < n ==> !s[k],
    ensures
        count_upto(s, true_pred(), n) == 0,
    decreases n,
{
    if n > 0 {
        lemma_count_zero(s, n - 1);
    }
}

} // verus!

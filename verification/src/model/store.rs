use vstd::prelude::*;

use crate::model::state::Pos;
use crate::text::str_eq;

verus! {

/// A map from string ids to values: each id occurs once.
#[derive(Debug)]
pub struct IdMap<V> {
    entries: Vec<(String, V)>,
}

/// The entries `e` have pairwise distinct keys.
pub open spec fn distinct_ids<V>(e: Seq<(String, V)>) -> bool {
    forall|i: int, j: int| 0 <= i < e.len() && 0 <= j < e.len() && i != j ==> (#[trigger] e[i].0)@ != (#[trigger] e[j].0)@
}

pub open spec fn id_index<V>(e: Seq<(String, V)>, k: Seq<char>) -> int {
    choose|i: int| 0 <= i < e.len() && (#[trigger] e[i].0)@ == k
}

pub open spec fn id_map_of<V>(e: Seq<(String, V)>) -> Map<Seq<char>, V> {
    Map::new(
        |k: Seq<char>| exists|i: int| 0 <= i < e.len() && (#[trigger] e[i].0)@ == k,
        |k: Seq<char>| e[id_index(e, k)].1,
    )
}

proof fn lemma_id_index<V>(e: Seq<(String, V)>, i: int)
    requires
        distinct_ids(e),
        0 <= i < e.len(),
    ensures
        id_index(e, e[i].0@) == i,
        id_map_of(e).dom().contains(e[i].0@),
        id_map_of(e)[e[i].0@] == e[i].1,
{
    let j = id_index(e, e[i].0@);
    assert(0 <= j < e.len() && e[j].0@ == e[i].0@);
}

impl<V> View for IdMap<V> {
    type V = Map<Seq<char>, V>;

    closed spec fn view(&self) -> Map<Seq<char>, V> {
        id_map_of(self.entries@)
    }
}

impl<V> IdMap<V> {
    #[verifier::type_invariant]
    spec fn inv(self) -> bool {
        distinct_ids(self.entries@)
    }

    pub fn new() -> (m: Self)
        ensures
            m@ == Map::<Seq<char>, V>::empty(),
    {
        let m = IdMap { entries: Vec::new() };
        assert(m@ =~= Map::<Seq<char>, V>::empty());
        m
    }

    pub fn len(&self) -> (n: usize)
        ensures
            n == self@.len(),
    {
        proof {
            use_type_invariant(self);
            self.lemma_len();
        }
        self.entries.len()
    }

    pub fn is_empty(&self) -> (b: bool)
        ensures
            b == (self@.len() == 0),
            b == (self@ == Map::<Seq<char>, V>::empty()),
    {
        proof {
            use_type_invariant(self);
            self.lemma_len();
            if self.entries@.len() > 0 {
                lemma_id_index(self.entries@, 0);
            } else {
                assert(self@ =~= Map::<Seq<char>, V>::empty());
            }
        }
        self.entries.len() == 0
    }

    proof fn lemma_len(&self)
        requires
            distinct_ids(self.entries@),
        ensures
            self@.dom().finite(),
            self@.len() == self.entries@.len(),
        decreases self.entries@.len(),
    {
        lemma_id_map_len(self.entries@);
    }

    fn find(&self, id: &str) -> (r: Option<usize>)
        ensures
            r is None <==> !self@.dom().contains(id@),
            r matches Some(i) ==> i < self.entries@.len() && self.entries@[i as int].0@ == id@
                && self@[id@] == self.entries@[i as int].1,
    {
        proof {
            use_type_invariant(self);
        }
        let n = self.entries.len();
        let mut i: usize = 0;
        while i < n
            invariant
                n == self.entries@.len(),
                i <= n,
                distinct_ids(self.entries@),
                forall|j: int| 0 <= j < i ==> (#[trigger] self.entries@[j].0)@ != id@,
            decreases n - i,
        {
            if str_eq(self.entries[i].0.as_str(), id) {
                proof {
                    lemma_id_index(self.entries@, i as int);
                }
                return Some(i);
            }
            i = i + 1;
        }
        None
    }

    pub fn contains_key(&self, id: &str) -> (b: bool)
        ensures
            b == self@.dom().contains(id@),
    {
        self.find(id).is_some()
    }

    pub fn get(&self, id: &str) -> (r: Option<&V>)
        ensures
            r is Some <==> self@.dom().contains(id@),
            r matches Some(v) ==> *v == self@[id@],
    {
        match self.find(id) {
            Some(i) => Some(&self.entries[i].1),
            None => None,
        }
    }

    /// Inserts or replaces the value of `id`.
    pub fn insert(&mut self, id: String, v: V)
        ensures
            final(self)@ == old(self)@.insert(id@, v),
    {
        proof {
            use_type_invariant(&*self);
        }
        let ghost e0 = self.entries@;
        let ghost k = id@;
        match self.find(id.as_str()) {
            Some(i) => {
                let mut entries = Vec::new();
                std::mem::swap(&mut entries, &mut self.entries);
                entries.set(i, (id, v));
                let ghost e1 = entries@;
                proof {
                    assert(e1 == e0.update(i as int, (e1[i as int].0, v)));
                    assert(distinct_ids(e1)) by {
                        assert forall|a: int, b: int| 0 <= a < e1.len() && 0 <= b < e1.len() && a != b implies (#[trigger] e1[a].0)@ != (#[trigger] e1[b].0)@ by {
                            if a != i && b != i {
                                assert(e1[a] == e0[a] && e1[b] == e0[b]);
                            } else if a == i {
                                assert(e1[b] == e0[b]);
                            } else {
                                assert(e1[a] == e0[a]);
                            }
                        }
                    }
                    assert forall|key: Seq<char>| #[trigger] id_map_of(e1).dom().contains(key) <==> id_map_of(e0).insert(k, v).dom().contains(key) by {
                        if id_map_of(e1).dom().contains(key) {
                            let j = choose|j: int| 0 <= j < e1.len() && (#[trigger] e1[j].0)@ == key;
                            if j != i {
                                assert(e0[j] == e1[j]);
                            }
                        }
                        if id_map_of(e0).dom().contains(key) {
                            let j = choose|j: int| 0 <= j < e0.len() && (#[trigger] e0[j].0)@ == key;
                            if j != i {
                                assert(e0[j] == e1[j]);
                            } else {
                                assert(e1[i as int].0@ == k);
                            }
                        }
                        if key == k {
                            assert(e1[i as int].0@ == k);
                        }
                    }
                    assert forall|key: Seq<char>| #[trigger] id_map_of(e1).dom().contains(key) implies id_map_of(e1)[key] == id_map_of(e0).insert(k, v)[key] by {
                        let j = choose|j: int| 0 <= j < e1.len() && (#[trigger] e1[j].0)@ == key;
                        lemma_id_index(e1, j);
                        if j != i {
                            assert(e0[j] == e1[j]);
                            lemma_id_index(e0, j);
                        }
                    }
                    assert(id_map_of(e1) =~= id_map_of(e0).insert(k, v));
                }
                self.entries = entries;
            },
            None => {
                let mut entries = Vec::new();
                std::mem::swap(&mut entries, &mut self.entries);
                entries.push((id, v));
                let ghost e1 = entries@;
                proof {
                    let last = e0.len() as int;
                    assert(e1[last].0@ == k);
                    assert(distinct_ids(e1)) by {
                        assert forall|a: int, b: int| 0 <= a < e1.len() && 0 <= b < e1.len() && a != b implies (#[trigger] e1[a].0)@ != (#[trigger] e1[b].0)@ by {
                            if a < last && b < last {
                                assert(e1[a] == e0[a] && e1[b] == e0[b]);
                            } else if a == last {
                                assert(e1[b] == e0[b]);
                                assert(id_map_of(e0).dom().contains(e0[b].0@)) by { lemma_id_index(e0, b); }
                            } else {
                                assert(e1[a] == e0[a]);
                                assert(id_map_of(e0).dom().contains(e0[a].0@)) by { lemma_id_index(e0, a); }
                            }
                        }
                    }
                    assert forall|key: Seq<char>| #[trigger] id_map_of(e1).dom().contains(key) <==> id_map_of(e0).insert(k, v).dom().contains(key) by {
                        if id_map_of(e1).dom().contains(key) {
                            let j = choose|j: int| 0 <= j < e1.len() && (#[trigger] e1[j].0)@ == key;
                            if j < last {
                                assert(e0[j] == e1[j]);
                            }
                        }
                        if id_map_of(e0).dom().contains(key) {
                            let j = choose|j: int| 0 <= j < e0.len() && (#[trigger] e0[j].0)@ == key;
                            assert(e0[j] == e1[j]);
                        }
                    }
                    assert forall|key: Seq<char>| #[trigger] id_map_of(e1).dom().contains(key) implies id_map_of(e1)[key] == id_map_of(e0).insert(k, v)[key] by {
                        let j = choose|j: int| 0 <= j < e1.len() && (#[trigger] e1[j].0)@ == key;
                        lemma_id_index(e1, j);
                        if j < last {
                            assert(e0[j] == e1[j]);
                            lemma_id_index(e0, j);
                        }
                    }
                    assert(id_map_of(e1) =~= id_map_of(e0).insert(k, v));
                }
                self.entries = entries;
            },
        }
    }

    pub fn clear(&mut self)
        ensures
            final(self)@ == Map::<Seq<char>, V>::empty(),
    {
        self.entries = Vec::new();
        assert(self@ =~= Map::<Seq<char>, V>::empty());
    }

    /// Keeps only the ids that occur in `keep`.
    pub fn retain_listed(&mut self, keep: &Vec<String>)
        ensures
            final(self)@ == Map::new(
                |k: Seq<char>| old(self)@.dom().contains(k) && exists|i: int| 0 <= i < keep@.len() && (#[trigger] keep@[i])@ == k,
                |k: Seq<char>| old(self)@[k],
            ),
    {
        let ghost m0 = self@;
        let ks = self.keys();
        let n = ks.len();
        let mut i: usize = 0;
        while i < n
            invariant
                n == ks@.len(),
                i <= n,
                forall|j: int| 0 <= j < ks@.len() ==> m0.dom().contains(#[trigger] ks@[j]@),
                forall|k: Seq<char>| #[trigger] m0.dom().contains(k) ==> exists|j: int| 0 <= j < ks@.len() && ks@[j]@ == k,
                forall|k: Seq<char>| #[trigger] self@.dom().contains(k) ==> m0.dom().contains(k) && self@[k] == m0[k],
                forall|k: Seq<char>| #[trigger] m0.dom().contains(k) ==> (self@.dom().contains(k) <==> (
                    (exists|j: int| 0 <= j < keep@.len() && (#[trigger] keep@[j])@ == k)
                    || !(exists|j: int| 0 <= j < i && (#[trigger] ks@[j])@ == k))),
            decreases n - i,
        {
            let mut found = false;
            let mut j: usize = 0;
            while j < keep.len()
                invariant
                    j <= keep@.len(),
                    i < n,
                    n == ks@.len(),
                    found == exists|q: int| 0 <= q < j && (#[trigger] keep@[q])@ == ks@[i as int]@,
                decreases keep.len() - j,
            {
                if str_eq(keep[j].as_str(), ks[i].as_str()) {
                    found = true;
                }
                j = j + 1;
            }
            if !found {
                let _ = self.remove(ks[i].as_str());
            }
            proof {
                assert forall|k: Seq<char>| #[trigger] m0.dom().contains(k) implies (self@.dom().contains(k) <==> (
                    (exists|q: int| 0 <= q < keep@.len() && (#[trigger] keep@[q])@ == k)
                    || !(exists|q: int| 0 <= q < i + 1 && (#[trigger] ks@[q])@ == k))) by {
                    if k == ks@[i as int]@ {
                        assert(ks@[i as int]@ == k);
                    } else {
                        if exists|q: int| 0 <= q < i + 1 && (#[trigger] ks@[q])@ == k {
                            let q = choose|q: int| 0 <= q < i + 1 && (#[trigger] ks@[q])@ == k;
                            assert(q < i);
                        }
                    }
                }
            }
            i = i + 1;
        }
        proof {
            assert forall|k: Seq<char>| #[trigger] m0.dom().contains(k) implies exists|q: int| 0 <= q < n && (#[trigger] ks@[q])@ == k by {
                let q = choose|q: int| 0 <= q < ks@.len() && ks@[q]@ == k;
                assert(ks@[q]@ == k);
            }
        }
        assert(self@ =~= Map::new(
            |k: Seq<char>| m0.dom().contains(k) && exists|i: int| 0 <= i < keep@.len() && (#[trigger] keep@[i])@ == k,
            |k: Seq<char>| m0[k],
        ));
    }

    /// The ids, each once.
    pub fn keys(&self) -> (r: Vec<String>)
        ensures
            r@.len() == self@.len(),
            forall|i: int| 0 <= i < r@.len() ==> self@.dom().contains(#[trigger] r@[i]@),
            forall|k: Seq<char>| #[trigger] self@.dom().contains(k) ==> exists|i: int| 0 <= i < r@.len() && r@[i]@ == k,
    {
        proof {
            use_type_invariant(self);
            self.lemma_len();
        }
        let n = self.entries.len();
        let mut out: Vec<String> = Vec::new();
        let mut i: usize = 0;
        while i < n
            invariant
                n == self.entries@.len(),
                i <= n,
                distinct_ids(self.entries@),
                out@.len() == i,
                forall|j: int| 0 <= j < i ==> (#[trigger] out@[j])@ == self.entries@[j].0@,
            decreases n - i,
        {
            out.push(self.entries[i].0.clone());
            i = i + 1;
        }
        proof {
            assert forall|j: int| 0 <= j < out@.len() implies self@.dom().contains(#[trigger] out@[j]@) by {
                lemma_id_index(self.entries@, j);
            }
            assert forall|k: Seq<char>| #[trigger] self@.dom().contains(k) implies exists|j: int| 0 <= j < out@.len() && out@[j]@ == k by {
                let j = choose|j: int| 0 <= j < self.entries@.len() && (#[trigger] self.entries@[j].0)@ == k;
                assert(out@[j]@ == k);
            }
        }
        out
    }

    /// Removes `id` if present.
    pub fn remove(&mut self, id: &str) -> (r: Option<V>)
        ensures
            r == (if old(self)@.dom().contains(id@) { Some(old(self)@[id@]) } else { None }),
            final(self)@ == old(self)@.remove(id@),
    {
        proof {
            use_type_invariant(&*self);
        }
        let ghost e0 = self.entries@;
        let ghost k = id@;
        match self.find(id) {
            Some(i) => {
                let mut entries = Vec::new();
                std::mem::swap(&mut entries, &mut self.entries);
                let removed = entries.remove(i);
                let ghost e1 = entries@;
                proof {
                    assert(e1 == e0.remove(i as int));
                    assert forall|a: int| 0 <= a < e1.len() implies #[trigger] e1[a] == (if a < i { e0[a] } else { e0[a + 1] }) by {}
                    assert(distinct_ids(e1)) by {
                        assert forall|a: int, b: int| 0 <= a < e1.len() && 0 <= b < e1.len() && a != b implies (#[trigger] e1[a].0)@ != (#[trigger] e1[b].0)@ by {
                            let a0 = if a < i { a } else { a + 1 };
                            let b0 = if b < i { b } else { b + 1 };
                            assert(e1[a] == e0[a0] && e1[b] == e0[b0]);
                        }
                    }
                    assert forall|key: Seq<char>| #[trigger] id_map_of(e1).dom().contains(key) <==> id_map_of(e0).remove(k).dom().contains(key) by {
                        if id_map_of(e1).dom().contains(key) {
                            let j = choose|j: int| 0 <= j < e1.len() && (#[trigger] e1[j].0)@ == key;
                            let j0 = if j < i { j } else { j + 1 };
                            assert(e1[j] == e0[j0]);
                            assert(e0[j0].0@ != e0[i as int].0@);
                        }
                        if id_map_of(e0).remove(k).dom().contains(key) {
                            let j = choose|j: int| 0 <= j < e0.len() && (#[trigger] e0[j].0)@ == key;
                            assert(j != i);
                            let j1 = if j < i { j } else { j - 1 };
                            assert(e1[j1] == e0[j]);
                        }
                    }
                    assert forall|key: Seq<char>| #[trigger] id_map_of(e1).dom().contains(key) implies id_map_of(e1)[key] == id_map_of(e0).remove(k)[key] by {
                        let j = choose|j: int| 0 <= j < e1.len() && (#[trigger] e1[j].0)@ == key;
                        lemma_id_index(e1, j);
                        let j0 = if j < i { j } else { j + 1 };
                        assert(e1[j] == e0[j0]);
                        lemma_id_index(e0, j0);
                    }
                    assert(id_map_of(e1) =~= id_map_of(e0).remove(k));
                }
                self.entries = entries;
                Some(removed.1)
            },
            None => {
                assert(self@ =~= old(self)@.remove(k));
                None
            },
        }
    }
}

proof fn lemma_id_map_len<V>(e: Seq<(String, V)>)
    requires
        distinct_ids(e),
    ensures
        id_map_of(e).dom().finite(),
        id_map_of(e).len() == e.len(),
    decreases e.len(),
{
    if e.len() == 0 {
        assert(id_map_of(e).dom() =~= Set::<Seq<char>>::empty());
    } else {
        let e0 = e.drop_last();
        let last = e.len() - 1;
        assert(distinct_ids(e0)) by {
            assert forall|a: int, b: int| 0 <= a < e0.len() && 0 <= b < e0.len() && a != b implies (#[trigger] e0[a].0)@ != (#[trigger] e0[b].0)@ by {
                assert(e0[a] == e[a] && e0[b] == e[b]);
            }
        }
        lemma_id_map_len(e0);
        assert(id_map_of(e).dom() =~= id_map_of(e0).dom().insert(e[last].0@)) by {
            assert forall|key: Seq<char>| #[trigger] id_map_of(e).dom().contains(key) <==> id_map_of(e0).dom().insert(e[last].0@).contains(key) by {
                if id_map_of(e).dom().contains(key) {
                    let j = choose|j: int| 0 <= j < e.len() && (#[trigger] e[j].0)@ == key;
                    if j < last {
                        assert(e0[j] == e[j]);
                    }
                }
                if id_map_of(e0).dom().contains(key) {
                    let j = choose|j: int| 0 <= j < e0.len() && (#[trigger] e0[j].0)@ == key;
                    assert(e0[j] == e[j]);
                }
            }
        }
        if id_map_of(e0).dom().contains(e[last].0@) {
            let j = choose|j: int| 0 <= j < e0.len() && (#[trigger] e0[j].0)@ == e[last].0@;
            assert(e0[j] == e[j]);
        }
    }
}

/// A map from cells to values: each cell occurs once.
#[derive(Debug)]
pub struct PosMap<V> {
    entries: Vec<(Pos, V)>,
}

/// The entries `e` have pairwise distinct cells.
pub open spec fn distinct_pos<V>(e: Seq<(Pos, V)>) -> bool {
    forall|i: int, j: int| 0 <= i < e.len() && 0 <= j < e.len() && i != j ==> #[trigger] e[i].0 != #[trigger] e[j].0
}

pub open spec fn pos_index<V>(e: Seq<(Pos, V)>, k: Pos) -> int {
    choose|i: int| 0 <= i < e.len() && (#[trigger] e[i].0) == k
}

pub open spec fn pos_map_of<V>(e: Seq<(Pos, V)>) -> Map<Pos, V> {
    Map::new(
        |k: Pos| exists|i: int| 0 <= i < e.len() && (#[trigger] e[i].0) == k,
        |k: Pos| e[pos_index(e, k)].1,
    )
}

proof fn lemma_pos_index<V>(e: Seq<(Pos, V)>, i: int)
    requires
        distinct_pos(e),
        0 <= i < e.len(),
    ensures
        pos_index(e, e[i].0) == i,
        pos_map_of(e).dom().contains(e[i].0),
        pos_map_of(e)[e[i].0] == e[i].1,
{
    let j = pos_index(e, e[i].0);
    assert(0 <= j < e.len() && e[j].0 == e[i].0);
}

impl<V> View for PosMap<V> {
    type V = Map<Pos, V>;

    closed spec fn view(&self) -> Map<Pos, V> {
        pos_map_of(self.entries@)
    }
}

impl<V> PosMap<V> {
    #[verifier::type_invariant]
    spec fn inv(self) -> bool {
        distinct_pos(self.entries@)
    }

    pub fn new() -> (m: Self)
        ensures
            m@ == Map::<Pos, V>::empty(),
    {
        let m = PosMap { entries: Vec::new() };
        assert(m@ =~= Map::<Pos, V>::empty());
        m
    }

    pub fn len(&self) -> (n: usize)
        ensures
            n == self@.len(),
    {
        proof {
            use_type_invariant(self);
            self.lemma_len();
        }
        self.entries.len()
    }

    pub fn is_empty(&self) -> (b: bool)
        ensures
            b == (self@.len() == 0),
            b == (self@ == Map::<Pos, V>::empty()),
    {
        proof {
            use_type_invariant(self);
            self.lemma_len();
            if self.entries@.len() > 0 {
                lemma_pos_index(self.entries@, 0);
            } else {
                assert(self@ =~= Map::<Pos, V>::empty());
            }
        }
        self.entries.len() == 0
    }

    proof fn lemma_len(&self)
        requires
            distinct_pos(self.entries@),
        ensures
            self@.dom().finite(),
            self@.len() == self.entries@.len(),
        decreases self.entries@.len(),
    {
        lemma_pos_map_len(self.entries@);
    }

    fn find(&self, id: Pos) -> (r: Option<usize>)
        ensures
            r is None <==> !self@.dom().contains(id),
            r matches Some(i) ==> i < self.entries@.len() && self.entries@[i as int].0 == id
                && self@[id] == self.entries@[i as int].1,
    {
        proof {
            use_type_invariant(self);
        }
        let n = self.entries.len();
        let mut i: usize = 0;
        while i < n
            invariant
                n == self.entries@.len(),
                i <= n,
                distinct_pos(self.entries@),
                forall|j: int| 0 <= j < i ==> (#[trigger] self.entries@[j].0) != id,
            decreases n - i,
        {
            if self.entries[i].0 == id {
                proof {
                    lemma_pos_index(self.entries@, i as int);
                }
                return Some(i);
            }
            i = i + 1;
        }
        None
    }

    pub fn contains_key(&self, id: Pos) -> (b: bool)
        ensures
            b == self@.dom().contains(id),
    {
        self.find(id).is_some()
    }

    pub fn get(&self, id: Pos) -> (r: Option<&V>)
        ensures
            r is Some <==> self@.dom().contains(id),
            r matches Some(v) ==> *v == self@[id],
    {
        match self.find(id) {
            Some(i) => Some(&self.entries[i].1),
            None => None,
        }
    }

    /// Inserts or replaces the value of `id`.
    pub fn insert(&mut self, id: Pos, v: V)
        ensures
            final(self)@ == old(self)@.insert(id, v),
    {
        proof {
            use_type_invariant(&*self);
        }
        let ghost e0 = self.entries@;
        let ghost k = id;
        match self.find(id) {
            Some(i) => {
                let mut entries = Vec::new();
                std::mem::swap(&mut entries, &mut self.entries);
                entries.set(i, (id, v));
                let ghost e1 = entries@;
                proof {
                    assert(e1 == e0.update(i as int, (e1[i as int].0, v)));
                    assert(distinct_pos(e1)) by {
                        assert forall|a: int, b: int| 0 <= a < e1.len() && 0 <= b < e1.len() && a != b implies (#[trigger] e1[a].0) != (#[trigger] e1[b].0) by {
                            if a != i && b != i {
                                assert(e1[a] == e0[a] && e1[b] == e0[b]);
                            } else if a == i {
                                assert(e1[b] == e0[b]);
                            } else {
                                assert(e1[a] == e0[a]);
                            }
                        }
                    }
                    assert forall|key: Pos| #[trigger] pos_map_of(e1).dom().contains(key) <==> pos_map_of(e0).insert(k, v).dom().contains(key) by {
                        if pos_map_of(e1).dom().contains(key) {
                            let j = choose|j: int| 0 <= j < e1.len() && (#[trigger] e1[j].0) == key;
                            if j != i {
                                assert(e0[j] == e1[j]);
                            }
                        }
                        if pos_map_of(e0).dom().contains(key) {
                            let j = choose|j: int| 0 <= j < e0.len() && (#[trigger] e0[j].0) == key;
                            if j != i {
                                assert(e0[j] == e1[j]);
                            } else {
                                assert(e1[i as int].0 == k);
                            }
                        }
                        if key == k {
                            assert(e1[i as int].0 == k);
                        }
                    }
                    assert forall|key: Pos| #[trigger] pos_map_of(e1).dom().contains(key) implies pos_map_of(e1)[key] == pos_map_of(e0).insert(k, v)[key] by {
                        let j = choose|j: int| 0 <= j < e1.len() && (#[trigger] e1[j].0) == key;
                        lemma_pos_index(e1, j);
                        if j != i {
                            assert(e0[j] == e1[j]);
                            lemma_pos_index(e0, j);
                        }
                    }
                    assert(pos_map_of(e1) =~= pos_map_of(e0).insert(k, v));
                }
                self.entries = entries;
            },
            None => {
                let mut entries = Vec::new();
                std::mem::swap(&mut entries, &mut self.entries);
                entries.push((id, v));
                let ghost e1 = entries@;
                proof {
                    let last = e0.len() as int;
                    assert(e1[last].0 == k);
                    assert(distinct_pos(e1)) by {
                        assert forall|a: int, b: int| 0 <= a < e1.len() && 0 <= b < e1.len() && a != b implies (#[trigger] e1[a].0) != (#[trigger] e1[b].0) by {
                            if a < last && b < last {
                                assert(e1[a] == e0[a] && e1[b] == e0[b]);
                            } else if a == last {
                                assert(e1[b] == e0[b]);
                                assert(pos_map_of(e0).dom().contains(e0[b].0)) by { lemma_pos_index(e0, b); }
                            } else {
                                assert(e1[a] == e0[a]);
                                assert(pos_map_of(e0).dom().contains(e0[a].0)) by { lemma_pos_index(e0, a); }
                            }
                        }
                    }
                    assert forall|key: Pos| #[trigger] pos_map_of(e1).dom().contains(key) <==> pos_map_of(e0).insert(k, v).dom().contains(key) by {
                        if pos_map_of(e1).dom().contains(key) {
                            let j = choose|j: int| 0 <= j < e1.len() && (#[trigger] e1[j].0) == key;
                            if j < last {
                                assert(e0[j] == e1[j]);
                            }
                        }
                        if pos_map_of(e0).dom().contains(key) {
                            let j = choose|j: int| 0 <= j < e0.len() && (#[trigger] e0[j].0) == key;
                            assert(e0[j] == e1[j]);
                        }
                    }
                    assert forall|key: Pos| #[trigger] pos_map_of(e1).dom().contains(key) implies pos_map_of(e1)[key] == pos_map_of(e0).insert(k, v)[key] by {
                        let j = choose|j: int| 0 <= j < e1.len() && (#[trigger] e1[j].0) == key;
                        lemma_pos_index(e1, j);
                        if j < last {
                            assert(e0[j] == e1[j]);
                            lemma_pos_index(e0, j);
                        }
                    }
                    assert(pos_map_of(e1) =~= pos_map_of(e0).insert(k, v));
                }
                self.entries = entries;
            },
        }
    }

    pub fn clear(&mut self)
        ensures
            final(self)@ == Map::<Pos, V>::empty(),
    {
        self.entries = Vec::new();
        assert(self@ =~= Map::<Pos, V>::empty());
    }

    /// The cells, each once.
    pub fn keys(&self) -> (r: Vec<Pos>)
        ensures
            r@.no_duplicates(),
            r@.len() == self@.len(),
            forall|i: int| 0 <= i < r@.len() ==> self@.dom().contains(#[trigger] r@[i]),
            forall|k: Pos| #[trigger] self@.dom().contains(k) ==> exists|i: int| 0 <= i < r@.len() && r@[i] == k,
    {
        proof {
            use_type_invariant(self);
            self.lemma_len();
        }
        let n = self.entries.len();
        let mut out: Vec<Pos> = Vec::new();
        let mut i: usize = 0;
        while i < n
            invariant
                n == self.entries@.len(),
                i <= n,
                distinct_pos(self.entries@),
                out@.len() == i,
                forall|j: int| 0 <= j < i ==> (#[trigger] out@[j]) == self.entries@[j].0,
            decreases n - i,
        {
            out.push(self.entries[i].0);
            i = i + 1;
        }
        proof {
            assert forall|j: int| 0 <= j < out@.len() implies self@.dom().contains(#[trigger] out@[j]) by {
                lemma_pos_index(self.entries@, j);
            }
            assert forall|k: Pos| #[trigger] self@.dom().contains(k) implies exists|j: int| 0 <= j < out@.len() && out@[j] == k by {
                let j = choose|j: int| 0 <= j < self.entries@.len() && (#[trigger] self.entries@[j].0) == k;
                assert(out@[j] == k);
            }
        }
        proof {
            assert forall|a: int, b: int| 0 <= a < out@.len() && 0 <= b < out@.len() && a != b implies out@[a] != out@[b] by {
                assert(out@[a] == self.entries@[a].0 && out@[b] == self.entries@[b].0);
            }
        }
        out
    }

    /// Removes `id` if present.
    pub fn remove(&mut self, id: Pos) -> (r: Option<V>)
        ensures
            r == (if old(self)@.dom().contains(id) { Some(old(self)@[id]) } else { None }),
            final(self)@ == old(self)@.remove(id),
    {
        proof {
            use_type_invariant(&*self);
        }
        let ghost e0 = self.entries@;
        let ghost k = id;
        match self.find(id) {
            Some(i) => {
                let mut entries = Vec::new();
                std::mem::swap(&mut entries, &mut self.entries);
                let removed = entries.remove(i);
                let ghost e1 = entries@;
                proof {
                    assert(e1 == e0.remove(i as int));
                    assert forall|a: int| 0 <= a < e1.len() implies #[trigger] e1[a] == (if a < i { e0[a] } else { e0[a + 1] }) by {}
                    assert(distinct_pos(e1)) by {
                        assert forall|a: int, b: int| 0 <= a < e1.len() && 0 <= b < e1.len() && a != b implies (#[trigger] e1[a].0) != (#[trigger] e1[b].0) by {
                            let a0 = if a < i { a } else { a + 1 };
                            let b0 = if b < i { b } else { b + 1 };
                            assert(e1[a] == e0[a0] && e1[b] == e0[b0]);
                        }
                    }
                    assert forall|key: Pos| #[trigger] pos_map_of(e1).dom().contains(key) <==> pos_map_of(e0).remove(k).dom().contains(key) by {
                        if pos_map_of(e1).dom().contains(key) {
                            let j = choose|j: int| 0 <= j < e1.len() && (#[trigger] e1[j].0) == key;
                            let j0 = if j < i { j } else { j + 1 };
                            assert(e1[j] == e0[j0]);
                            assert(e0[j0].0 != e0[i as int].0);
                        }
                        if pos_map_of(e0).remove(k).dom().contains(key) {
                            let j = choose|j: int| 0 <= j < e0.len() && (#[trigger] e0[j].0) == key;
                            assert(j != i);
                            let j1 = if j < i { j } else { j - 1 };
                            assert(e1[j1] == e0[j]);
                        }
                    }
                    assert forall|key: Pos| #[trigger] pos_map_of(e1).dom().contains(key) implies pos_map_of(e1)[key] == pos_map_of(e0).remove(k)[key] by {
                        let j = choose|j: int| 0 <= j < e1.len() && (#[trigger] e1[j].0) == key;
                        lemma_pos_index(e1, j);
                        let j0 = if j < i { j } else { j + 1 };
                        assert(e1[j] == e0[j0]);
                        lemma_pos_index(e0, j0);
                    }
                    assert(pos_map_of(e1) =~= pos_map_of(e0).remove(k));
                }
                self.entries = entries;
                Some(removed.1)
            },
            None => {
                assert(self@ =~= old(self)@.remove(k));
                None
            },
        }
    }
}

proof fn lemma_pos_map_len<V>(e: Seq<(Pos, V)>)
    requires
        distinct_pos(e),
    ensures
        pos_map_of(e).dom().finite(),
        pos_map_of(e).len() == e.len(),
    decreases e.len(),
{
    if e.len() == 0 {
        assert(pos_map_of(e).dom() =~= Set::<Pos>::empty());
    } else {
        let e0 = e.drop_last();
        let last = e.len() - 1;
        assert(distinct_pos(e0)) by {
            assert forall|a: int, b: int| 0 <= a < e0.len() && 0 <= b < e0.len() && a != b implies (#[trigger] e0[a].0) != (#[trigger] e0[b].0) by {
                assert(e0[a] == e[a] && e0[b] == e[b]);
            }
        }
        lemma_pos_map_len(e0);
        assert(pos_map_of(e).dom() =~= pos_map_of(e0).dom().insert(e[last].0)) by {
            assert forall|key: Pos| #[trigger] pos_map_of(e).dom().contains(key) <==> pos_map_of(e0).dom().insert(e[last].0).contains(key) by {
                if pos_map_of(e).dom().contains(key) {
                    let j = choose|j: int| 0 <= j < e.len() && (#[trigger] e[j].0) == key;
                    if j < last {
                        assert(e0[j] == e[j]);
                    }
                }
                if pos_map_of(e0).dom().contains(key) {
                    let j = choose|j: int| 0 <= j < e0.len() && (#[trigger] e0[j].0) == key;
                    assert(e0[j] == e[j]);
                }
            }
        }
        if pos_map_of(e0).dom().contains(e[last].0) {
            let j = choose|j: int| 0 <= j < e0.len() && (#[trigger] e0[j].0) == e[last].0;
            assert(e0[j] == e[j]);
        }
    }
}


/// A set of cells.
#[derive(Debug)]
pub struct PosSet {
    cells: PosMap<()>,
}

impl View for PosSet {
    type V = Set<Pos>;

    closed spec fn view(&self) -> Set<Pos> {
        self.cells@.dom()
    }
}

impl PosSet {
    pub fn new() -> (s: Self)
        ensures
            s@ == Set::<Pos>::empty(),
    {
        PosSet { cells: PosMap::new() }
    }

    pub fn len(&self) -> (n: usize)
        ensures
            n == self@.len(),
    {
        self.cells.len()
    }

    pub fn is_empty(&self) -> (b: bool)
        ensures
            b == (self@ == Set::<Pos>::empty()),
    {
        let b = self.cells.is_empty();
        proof {
            if !b {
                assert(self.cells@ != Map::<Pos, ()>::empty());
                assert(exists|k: Pos| self.cells@.dom().contains(k)) by {
                    if !exists|k: Pos| self.cells@.dom().contains(k) {
                        assert(self.cells@ =~= Map::<Pos, ()>::empty());
                    }
                }
                let k = choose|k: Pos| self.cells@.dom().contains(k);
                assert(!Set::<Pos>::empty().contains(k));
            } else {
                assert(self@ =~= Set::<Pos>::empty());
            }
        }
        b
    }

    pub fn contains(&self, p: &Pos) -> (b: bool)
        ensures
            b == self@.contains(*p),
    {
        self.cells.contains_key(*p)
    }

    pub fn insert(&mut self, p: Pos)
        ensures
            final(self)@ == old(self)@.insert(p),
    {
        self.cells.insert(p, ());
        assert(self@ =~= old(self)@.insert(p));
    }

    pub fn remove(&mut self, p: Pos)
        ensures
            final(self)@ == old(self)@.remove(p),
    {
        let _ = self.cells.remove(p);
        assert(self@ =~= old(self)@.remove(p));
    }

    pub fn clear(&mut self)
        ensures
            final(self)@ == Set::<Pos>::empty(),
    {
        self.cells.clear();
        assert(self@ =~= Set::<Pos>::empty());
    }

    /// The cells, each once.
    pub fn elements(&self) -> (r: Vec<Pos>)
        ensures
            r@.no_duplicates(),
            r@.len() == self@.len(),
            forall|i: int| 0 <= i < r@.len() ==> self@.contains(#[trigger] r@[i]),
            forall|k: Pos| #[trigger] self@.contains(k) ==> r@.contains(k),
    {
        let r = self.cells.keys();
        proof {
            assert forall|k: Pos| #[trigger] self@.contains(k) implies r@.contains(k) by {
                assert(self.cells@.dom().contains(k));
                let i = choose|i: int| 0 <= i < r@.len() && r@[i] == k;
            }
        }
        r
    }
}

} // verus!

use vstd::prelude::*;

verus! {

/// Index of the first element among `s[0..n)` satisfying `f`.
pub open spec fn first_where<T>(s: Seq<T>, f: spec_fn(T) -> bool, n: int) -> Option<int>
    decreases n,
{
    if n <= 0 {
        None
    } else {
        match first_where(s, f, n - 1) {
            Some(i) => Some(i),
            None => if f(s[n - 1]) {
                Some(n - 1)
            } else {
                None
            },
        }
    }
}

/// The elements of `s[0..n)` satisfying `f`, in order.
pub open spec fn filter_upto<T>(s: Seq<T>, f: spec_fn(T) -> bool, n: int) -> Seq<T>
    decreases n,
{
    if n <= 0 {
        Seq::empty()
    } else if f(s[n - 1]) {
        filter_upto(s, f, n - 1).push(s[n - 1])
    } else {
        filter_upto(s, f, n - 1)
    }
}

/// Number of elements of `s[0..n)` satisfying `f`.
pub open spec fn count_upto<T>(s: Seq<T>, f: spec_fn(T) -> bool, n: int) -> nat
    decreases n,
{
    if n <= 0 {
        0
    } else if f(s[n - 1]) {
        count_upto(s, f, n - 1) + 1
    } else {
        count_upto(s, f, n - 1)
    }
}

pub proof fn lemma_first_where<T>(s: Seq<T>, f: spec_fn(T) -> bool, n: int)
    requires
        0 <= n <= s.len(),
    ensures
        first_where(s, f, n) is None <==> (forall|j: int| 0 <= j < n ==> !f(s[j])),
        first_where(s, f, n) matches Some(i) ==> 0 <= i < n && f(s[i]) && (forall|j: int|
            0 <= j < i ==> !f(s[j])),
    decreases n,
{
    if n > 0 {
        lemma_first_where(s, f, n - 1);
    }
}

pub proof fn lemma_first_where_stable<T>(s: Seq<T>, f: spec_fn(T) -> bool, n: int, m: int)
    requires
        0 <= n <= m <= s.len(),
        first_where(s, f, n) is Some,
    ensures
        first_where(s, f, m) == first_where(s, f, n),
    decreases m - n,
{
    if m > n {
        lemma_first_where_stable(s, f, n, m - 1);
    }
}

pub proof fn lemma_filter_upto<T>(s: Seq<T>, f: spec_fn(T) -> bool, n: int)
    requires
        0 <= n <= s.len(),
    ensures
        filter_upto(s, f, n).len() == count_upto(s, f, n),
        filter_upto(s, f, n).len() <= n,
        forall|k: int| 0 <= k < filter_upto(s, f, n).len() ==> f(#[trigger] filter_upto(s, f, n)[k]),
        forall|j: int| 0 <= j < n && f(s[j]) ==> filter_upto(s, f, n).contains(s[j]),
        forall|k: int| 0 <= k < filter_upto(s, f, n).len() ==> exists|j: int| 0 <= j < n && s[j] == #[trigger] filter_upto(s, f, n)[k],
    decreases n,
{
    if n > 0 {
        lemma_filter_upto(s, f, n - 1);
        let prev = filter_upto(s, f, n - 1);
        assert forall|j: int| 0 <= j < n && f(s[j]) implies filter_upto(s, f, n).contains(s[j]) by {
            if j < n - 1 {
                let k = choose|k: int| 0 <= k < prev.len() && prev[k] == s[j];
                if f(s[n - 1]) {
                    assert(filter_upto(s, f, n)[k] == s[j]);
                }
            } else {
                assert(filter_upto(s, f, n)[prev.len() as int] == s[j]);
            }
        }
        assert forall|k: int| 0 <= k < filter_upto(s, f, n).len() implies exists|j: int| 0 <= j < n && s[j] == #[trigger] filter_upto(s, f, n)[k] by {
            if k < prev.len() {
                assert(prev[k] == filter_upto(s, f, n)[k]);
            } else {
                assert(s[n - 1] == filter_upto(s, f, n)[k]);
            }
        }
    }
}

/// Index of the last element among `s[0..n)` satisfying `f`.
pub open spec fn last_where<T>(s: Seq<T>, f: spec_fn(T) -> bool, n: int) -> Option<int>
    decreases n,
{
    if n <= 0 {
        None
    } else if f(s[n - 1]) {
        Some(n - 1)
    } else {
        last_where(s, f, n - 1)
    }
}

pub proof fn lemma_last_where<T>(s: Seq<T>, f: spec_fn(T) -> bool, n: int)
    requires
        0 <= n <= s.len(),
    ensures
        last_where(s, f, n) is None <==> (forall|j: int| 0 <= j < n ==> !f(s[j])),
        last_where(s, f, n) matches Some(i) ==> 0 <= i < n && f(s[i]) && (forall|j: int|
            i < j < n ==> !f(s[j])),
    decreases n,
{
    if n > 0 {
        lemma_last_where(s, f, n - 1);
    }
}

/// Counting over a prefix ignores what follows it.
pub proof fn lemma_count_prefix<T>(s1: Seq<T>, s2: Seq<T>, f: spec_fn(T) -> bool, n: int)
    requires
        0 <= n <= s1.len(),
        n <= s2.len(),
        forall|i: int| 0 <= i < n ==> s1[i] == s2[i],
    ensures
        count_upto(s1, f, n) == count_upto(s2, f, n),
    decreases n,
{
    if n > 0 {
        lemma_count_prefix(s1, s2, f, n - 1);
    }
}

/// No element satisfying `f` means a count of 0.
pub proof fn lemma_count_none<T>(s: Seq<T>, f: spec_fn(T) -> bool, n: int)
    requires
        0 <= n <= s.len(),
        forall|i: int| 0 <= i < n ==> !f(#[trigger] s[i]),
    ensures
        count_upto(s, f, n) == 0,
    decreases n,
{
    if n > 0 {
        lemma_count_none(s, f, n - 1);
    }
}

/// Appending an element adds one to the count exactly when it satisfies `f`.
pub proof fn lemma_count_push<T>(s: Seq<T>, x: T, f: spec_fn(T) -> bool)
    ensures
        count_upto(s.push(x), f, s.len() + 1int) == count_upto(s, f, s.len() as int) + (if f(x) { 1int } else { 0int }),
{
    lemma_count_prefix(s.push(x), s, f, s.len() as int);
}

} // verus!

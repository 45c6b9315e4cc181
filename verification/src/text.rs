use vstd::prelude::*;
use vstd::string::*;

use crate::model::select::{first_where, last_where, lemma_first_where, lemma_last_where};

verus! {

/// Character-wise equality of two string slices.
pub fn str_eq(a: &str, b: &str) -> (r: bool)
    ensures
        r == (a@ == b@),
{
    let n = a.unicode_len();
    let m = b.unicode_len();
    if n != m {
        return false;
    }
    let mut i: usize = 0;
    while i < n
        invariant
            n == a@.len(),
            m == b@.len(),
            n == m,
            i <= n,
            forall|k: int| 0 <= k < i ==> a@[k] == b@[k],
        decreases n - i,
    {
        if a.get_char(i) != b.get_char(i) {
            return false;
        }
        i = i + 1;
    }
    assert(a@ =~= b@);
    true
}

/// Equality of two owned strings.
pub fn string_eq(a: &String, b: &String) -> (r: bool)
    ensures
        r == (a@ == b@),
{
    str_eq(a.as_str(), b.as_str())
}

/// Unicode White_Space, the characters that `str::trim` removes.
pub open spec fn is_ws(c: char) -> bool {
    ||| ('\u{9}' <= c && c <= '\u{d}')
    ||| c == ' '
    ||| c == '\u{85}'
    ||| c == '\u{a0}'
    ||| c == '\u{1680}'
    ||| ('\u{2000}' <= c && c <= '\u{200a}')
    ||| c == '\u{2028}'
    ||| c == '\u{2029}'
    ||| c == '\u{202f}'
    ||| c == '\u{205f}'
    ||| c == '\u{3000}'
}

pub open spec fn non_ws() -> spec_fn(char) -> bool {
    |c: char| !is_ws(c)
}

/// `s` without its leading and trailing white space.
pub open spec fn spec_trim(s: Seq<char>) -> Seq<char> {
    match first_where(s, non_ws(), s.len() as int) {
        None => Seq::empty(),
        Some(lo) => match last_where(s, non_ws(), s.len() as int) {
            Some(hi) => s.subrange(lo, hi + 1),
            None => Seq::empty(),
        },
    }
}

fn is_ws_exec(c: char) -> (b: bool)
    ensures
        b == is_ws(c),
{
    ('\u{9}' <= c && c <= '\u{d}') || c == ' ' || c == '\u{85}' || c == '\u{a0}' || c == '\u{1680}'
        || ('\u{2000}' <= c && c <= '\u{200a}') || c == '\u{2028}' || c == '\u{2029}'
        || c == '\u{202f}' || c == '\u{205f}' || c == '\u{3000}'
}

pub open spec fn is_digit(c: char) -> bool {
    '0' <= c && c <= '9'
}

/// Value of a string of decimal digits.
pub open spec fn digits_value(d: Seq<char>) -> int
    decreases d.len(),
{
    if d.len() == 0 {
        0
    } else {
        digits_value(d.drop_last()) * 10 + (d.last() as int - '0' as int)
    }
}

/// `u64::from_str`: an optional `+`, then one or more decimal digits, with a
/// value that fits `u64`.
pub open spec fn spec_parse_u64(t: Seq<char>) -> Option<u64> {
    let d = unsigned_digits(t);
    if d.len() == 0 || !all_digits(d) || digits_value(d) > u64::MAX {
        None
    } else {
        Some(digits_value(d) as u64)
    }
}

/// `t` without a leading `+`.
pub open spec fn unsigned_digits(t: Seq<char>) -> Seq<char> {
    if t.len() > 0 && t[0] == '+' {
        t.drop_first()
    } else {
        t
    }
}

pub open spec fn all_digits(d: Seq<char>) -> bool {
    forall|k: int| 0 <= k < d.len() ==> is_digit(#[trigger] d[k])
}

proof fn lemma_digits_value_grows(d: Seq<char>, i: int)
    requires
        0 <= i <= d.len(),
        forall|k: int| 0 <= k < d.len() ==> is_digit(#[trigger] d[k]),
    ensures
        digits_value(d.subrange(0, i)) <= digits_value(d),
        digits_value(d.subrange(0, i)) >= 0,
    decreases d.len() - i,
{
    if i < d.len() {
        lemma_digits_value_grows(d, i + 1);
        let p = d.subrange(0, i + 1);
        assert(p.drop_last() =~= d.subrange(0, i));
        lemma_digits_nonneg(d.subrange(0, i));
    } else {
        assert(d.subrange(0, i) =~= d);
        lemma_digits_nonneg(d);
    }
}

proof fn lemma_digits_nonneg(d: Seq<char>)
    requires
        forall|k: int| 0 <= k < d.len() ==> is_digit(#[trigger] d[k]),
    ensures
        digits_value(d) >= 0,
    decreases d.len(),
{
    if d.len() > 0 {
        lemma_digits_nonneg(d.drop_last());
    }
}

/// `s.trim().parse::<u64>().ok()`.
pub fn parse_u64_trimmed(s: &str) -> (r: Option<u64>)
    ensures
        r == spec_parse_u64(spec_trim(s@)),
{
    let n = s.unicode_len();
    proof {
        lemma_first_where(s@, non_ws(), n as int);
        lemma_last_where(s@, non_ws(), n as int);
    }
    let mut lo: usize = 0;
    while lo < n && is_ws_exec(s.get_char(lo))
        invariant
            n == s@.len(),
            lo <= n,
            forall|k: int| 0 <= k < lo ==> is_ws(#[trigger] s@[k]),
        decreases n - lo,
    {
        lo = lo + 1;
    }
    if lo == n {
        proof {
            assert(forall|k: int| 0 <= k < n ==> !non_ws()(#[trigger] s@[k]));
        }
        return None;
    }
    assert(first_where(s@, non_ws(), n as int) == Some(lo as int));
    let mut hi: usize = n;
    while hi > lo + 1 && is_ws_exec(s.get_char(hi - 1))
        invariant
            n == s@.len(),
            lo < hi <= n,
            !is_ws(s@[lo as int]),
            forall|k: int| hi <= k < n ==> is_ws(#[trigger] s@[k]),
        decreases hi,
    {
        hi = hi - 1;
    }
    assert(last_where(s@, non_ws(), n as int) == Some(hi - 1));
    let ghost t = s@.subrange(lo as int, hi as int);
    assert(spec_trim(s@) == t);
    // optional sign
    let mut start = lo;
    if s.get_char(lo) == '+' {
        start = lo + 1;
    }
    let ghost d = unsigned_digits(t);
    assert(t.len() > 0 && t[0] == s@[lo as int]);
    assert(d =~= s@.subrange(start as int, hi as int));
    if start == hi {
        assert(d.len() == 0);
        return None;
    }
    let mut acc: u64 = 0;
    let mut i: usize = start;
    while i < hi
        invariant
            n == s@.len(),
            lo <= start < hi <= n,
            start <= i <= hi,
            d == s@.subrange(start as int, hi as int),
            spec_trim(s@) == t,
            d == unsigned_digits(t),
            forall|k: int| start <= k < i ==> is_digit(#[trigger] s@[k]),
            acc == digits_value(s@.subrange(start as int, i as int)),
        decreases hi - i,
    {
        let c = s.get_char(i);
        if !('0' <= c && c <= '9') {
            assert(!is_digit(d[i - start]));
            assert(!all_digits(d));
            return None;
        }
        let v = (c as u32 - '0' as u32) as u64;
        proof {
            let p = s@.subrange(start as int, i + 1);
            assert(p.drop_last() =~= s@.subrange(start as int, i as int));
        }
        if acc > (u64::MAX - v) / 10 {
            // the value only grows with more digits; a non-digit fails too
            proof {
                assert(digits_value(s@.subrange(start as int, i + 1)) > u64::MAX) by (nonlinear_arith)
                    requires
                        digits_value(s@.subrange(start as int, i + 1)) == acc * 10 + v,
                        acc > (u64::MAX - v) / 10,
                        0 <= v <= 9,
                ;
                if all_digits(d) {
                    lemma_digits_value_grows(d, i + 1 - start);
                    assert(d.subrange(0, i + 1 - start) =~= s@.subrange(start as int, i + 1));
                    assert(digits_value(d) > u64::MAX);
                }
            }
            return None;
        }
        acc = acc * 10 + v;
        i = i + 1;
    }
    proof {
        assert(s@.subrange(start as int, i as int) =~= d);
        assert forall|k: int| 0 <= k < d.len() implies is_digit(#[trigger] d[k]) by {
            assert(d[k] == s@[start + k]);
        }
        assert(all_digits(d));
    }
    Some(acc)
}

} // verus!

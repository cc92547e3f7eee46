//! Sorted, duplicate-free sequences of record keys.

use crate::text::{
    lemma_str_lt_asymmetric, lemma_str_lt_irreflexive, lemma_str_lt_total,
    lemma_str_lt_transitive, str_lt, string_lt,
};
use vstd::prelude::*;

verus! {

/// Strictly increasing in string order (hence free of duplicates).
pub open spec fn strictly_sorted(s: Seq<Seq<char>>) -> bool {
    forall|i: int, j: int| 0 <= i < j < s.len() ==> str_lt(#[trigger] s[i], #[trigger] s[j])
}

/// The distinct elements of `s` in string order.
pub open spec fn sorted_distinct(s: Seq<Seq<char>>) -> Seq<Seq<char>> {
    choose|r: Seq<Seq<char>>| strictly_sorted(r) && r.to_set() == s.to_set()
}

proof fn lemma_sorted_head_least(r: Seq<Seq<char>>, x: Seq<char>)
    requires
        strictly_sorted(r),
        r.len() > 0,
        r.contains(x),
    ensures
        x == r[0] || str_lt(r[0], x),
{
}

pub proof fn lemma_push_to_set<A>(s: Seq<A>, x: A)
    ensures
        s.push(x).to_set() == s.to_set().insert(x),
{
    assert forall|y: A| s.push(x).to_set().contains(y) implies s.to_set().insert(x).contains(y) by {
        let m = choose|m: int| 0 <= m < s.push(x).len() && s.push(x)[m] == y;
        if m < s.len() {
            assert(s[m] == y);
        }
    }
    assert forall|y: A| s.to_set().insert(x).contains(y) implies s.push(x).to_set().contains(y) by {
        if y == x {
            assert(s.push(x)[s.len() as int] == y);
        } else {
            let m = choose|m: int| 0 <= m < s.len() && s[m] == y;
            assert(s.push(x)[m] == y);
        }
    }
    assert(s.push(x).to_set() =~= s.to_set().insert(x));
}

/// Two strictly sorted sequences with the same elements are equal.
pub proof fn lemma_sorted_unique(a: Seq<Seq<char>>, b: Seq<Seq<char>>)
    requires
        strictly_sorted(a),
        strictly_sorted(b),
        a.to_set() == b.to_set(),
    ensures
        a == b,
    decreases a.len(),
{
    if a.len() == 0 {
        if b.len() > 0 {
            assert(b.to_set().contains(b[0]));
        }
        assert(a =~= b);
    } else {
        assert(a.to_set().contains(a[0]));
        assert(b.len() > 0);
        assert(b.to_set().contains(b[0]));
        assert(b.contains(a[0]));
        assert(a.contains(b[0]));
        lemma_sorted_head_least(a, b[0]);
        lemma_sorted_head_least(b, a[0]);
        if a[0] != b[0] {
            lemma_str_lt_asymmetric(a[0], b[0]);
        }
        let a1 = a.drop_first();
        let b1 = b.drop_first();
        assert forall|x: Seq<char>| a1.to_set().contains(x) implies b1.to_set().contains(x) by {
            let k = choose|k: int| 0 <= k < a1.len() && a1[k] == x;
            assert(a[k + 1] == x);
            assert(str_lt(a[0], x));
            lemma_str_lt_irreflexive(x);
            assert(b.to_set().contains(x));
            let m = choose|m: int| 0 <= m < b.len() && b[m] == x;
            assert(m != 0);
            assert(b1[m - 1] == x);
        }
        assert forall|x: Seq<char>| b1.to_set().contains(x) implies a1.to_set().contains(x) by {
            let k = choose|k: int| 0 <= k < b1.len() && b1[k] == x;
            assert(b[k + 1] == x);
            assert(str_lt(b[0], x));
            lemma_str_lt_irreflexive(x);
            assert(a.to_set().contains(x));
            let m = choose|m: int| 0 <= m < a.len() && a[m] == x;
            assert(m != 0);
            assert(a1[m - 1] == x);
        }
        assert(a1.to_set() =~= b1.to_set());
        lemma_sorted_unique(a1, b1);
        assert(a =~= seq![a[0]] + a1);
        assert(b =~= seq![b[0]] + b1);
    }
}

pub proof fn lemma_sorted_distinct_is(s: Seq<Seq<char>>, r: Seq<Seq<char>>)
    requires
        strictly_sorted(r),
        r.to_set() == s.to_set(),
    ensures
        sorted_distinct(s) == r,
{
    let c = sorted_distinct(s);
    assert(strictly_sorted(c) && c.to_set() == s.to_set());
    lemma_sorted_unique(c, r);
}

/// The distinct strings of `keys` in string order.
pub fn sort_distinct(keys: Vec<String>) -> (r: Vec<String>)
    ensures
        r@.map_values(|s: String| s@) == sorted_distinct(keys@.map_values(|s: String| s@)),
        strictly_sorted(r@.map_values(|s: String| s@)),
        r@.map_values(|s: String| s@).to_set() == keys@.map_values(|s: String| s@).to_set(),
{
    let ghost ks = keys@.map_values(|s: String| s@);
    let mut out: Vec<String> = Vec::new();
    let mut i: usize = 0;
    let n = keys.len();
    let mut keys = keys;
    while i < n
        invariant
            n == keys.len(),
            i <= n,
            ks == keys@.map_values(|s: String| s@),
            strictly_sorted(out@.map_values(|s: String| s@)),
            out@.map_values(|s: String| s@).to_set() == ks.subrange(0, i as int).to_set(),
        decreases n - i,
    {
        let k = keys[i].clone();
        let ghost os = out@.map_values(|s: String| s@);
        // Find the first element not below `k`.
        let mut j: usize = 0;
        while j < out.len() && string_lt(&out[j], &k)
            invariant
                j <= out.len(),
                os == out@.map_values(|s: String| s@),
                forall|m: int| 0 <= m < j ==> str_lt(#[trigger] os[m], k@),
            decreases out.len() - j,
        {
            j = j + 1;
        }
        assert(ks[i as int] == k@);
        assert(ks.subrange(0, i + 1) =~= ks.subrange(0, i as int).push(k@));
        proof {
            lemma_push_to_set(ks.subrange(0, i as int), k@);
        }
        if j < out.len() && out[j] == k {
            assert(os.to_set() =~= ks.subrange(0, i + 1).to_set()) by {
                assert(os[j as int] == k@);
                assert(ks.subrange(0, i + 1).to_set() =~= ks.subrange(0, i as int).to_set().insert(k@));
            }
        } else {
            proof {
                if j < out.len() {
                    lemma_str_lt_total(os[j as int], k@);
                }
            }
            out.insert(j, k);
            let ghost ns = out@.map_values(|s: String| s@);
            assert(ns =~= os.insert(j as int, k@));
            assert forall|a: int, b: int| 0 <= a < b < ns.len() implies str_lt(#[trigger] ns[a], #[trigger] ns[b]) by {
                if b < j {
                } else if a < j && b == j {
                } else if a < j && b > j {
                    if j < os.len() {
                        lemma_str_lt_transitive(os[a], k@, os[j as int]);
                        if b - 1 > j {
                            lemma_str_lt_transitive(os[a], os[j as int], os[b - 1]);
                        }
                    }
                } else if a == j {
                    if b - 1 > j {
                        lemma_str_lt_transitive(k@, os[j as int], os[b - 1]);
                    }
                } else {
                }
            }
            assert(ns.to_set() =~= os.to_set().insert(k@)) by {
                assert forall|x: Seq<char>| ns.to_set().contains(x) implies os.to_set().insert(k@).contains(x) by {
                    let m = choose|m: int| 0 <= m < ns.len() && ns[m] == x;
                    if m < j {
                        assert(os[m] == x);
                    } else if m > j {
                        assert(os[m - 1] == x);
                    }
                }
                assert forall|x: Seq<char>| os.to_set().insert(k@).contains(x) implies ns.to_set().contains(x) by {
                    if x == k@ {
                        assert(ns[j as int] == x);
                    } else {
                        let m = choose|m: int| 0 <= m < os.len() && os[m] == x;
                        if m < j {
                            assert(ns[m] == x);
                        } else {
                            assert(ns[m + 1] == x);
                        }
                    }
                }
            }
            assert(ks.subrange(0, i + 1).to_set() =~= ks.subrange(0, i as int).to_set().insert(k@));
        }
        i = i + 1;
    }
    proof {
        assert(ks.subrange(0, n as int) =~= ks);
        lemma_sorted_distinct_is(ks, out@.map_values(|s: String| s@));
    }
    out
}

} // verus!

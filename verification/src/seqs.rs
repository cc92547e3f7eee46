//! Searches over sequences: the first and the last element that satisfies a predicate.

use vstd::prelude::*;

verus! {

/// The index of the last element of `s` that satisfies `p`.
pub open spec fn last_where<A>(s: Seq<A>, p: spec_fn(A) -> bool) -> Option<int>
    decreases s.len(),
{
    if s.len() == 0 {
        None
    } else if p(s.last()) {
        Some(s.len() - 1)
    } else {
        last_where(s.drop_last(), p)
    }
}

/// The index of the first element of `s` that satisfies `p`.
pub open spec fn first_where<A>(s: Seq<A>, p: spec_fn(A) -> bool) -> Option<int>
    decreases s.len(),
{
    if s.len() == 0 {
        None
    } else if p(s[0]) {
        Some(0)
    } else {
        match first_where(s.drop_first(), p) {
            Some(i) => Some(i + 1),
            None => None,
        }
    }
}

/// `last_where` is the greatest index that satisfies `p`.
pub proof fn lemma_last_where<A>(s: Seq<A>, p: spec_fn(A) -> bool, i: int)
    requires
        -1 <= i < s.len(),
        forall|k: int| i < k < s.len() ==> !p(#[trigger] s[k]),
        i >= 0 ==> p(s[i]),
    ensures
        last_where(s, p) == (if i >= 0 { Some(i) } else { None::<int> }),
    decreases s.len(),
{
    if s.len() > 0 && i < s.len() - 1 {
        let t = s.drop_last();
        assert forall|k: int| i < k < t.len() implies !p(#[trigger] t[k]) by {
            assert(t[k] == s[k]);
        }
        assert(!p(s[s.len() - 1]));
        lemma_last_where(t, p, i);
    }
}

/// `first_where` is the least index that satisfies `p`.
pub proof fn lemma_first_where<A>(s: Seq<A>, p: spec_fn(A) -> bool, i: int)
    requires
        0 <= i <= s.len(),
        forall|k: int| 0 <= k < i ==> !p(#[trigger] s[k]),
        i < s.len() ==> p(s[i]),
    ensures
        first_where(s, p) == (if i < s.len() { Some(i) } else { None::<int> }),
    decreases s.len(),
{
    if s.len() > 0 && i > 0 {
        let t = s.drop_first();
        assert forall|k: int| 0 <= k < i - 1 implies !p(#[trigger] t[k]) by {
            assert(t[k] == s[k + 1]);
        }
        assert(!p(s[0]));
        lemma_first_where(t, p, i - 1);
    }
}

/// Whatever `first_where` gives satisfies `p`, and nothing before it does.
pub proof fn lemma_first_where_props<A>(s: Seq<A>, p: spec_fn(A) -> bool)
    ensures
        match first_where(s, p) {
            Some(i) => 0 <= i < s.len() && p(s[i]) && forall|k: int| 0 <= k < i ==> !p(#[trigger] s[k]),
            None => forall|k: int| 0 <= k < s.len() ==> !p(#[trigger] s[k]),
        },
    decreases s.len(),
{
    if s.len() > 0 {
        let t = s.drop_first();
        lemma_first_where_props(t, p);
        if !p(s[0]) {
            match first_where(t, p) {
                Some(i) => {
                    assert forall|k: int| 0 <= k < i + 1 implies !p(#[trigger] s[k]) by {
                        if k > 0 {
                            assert(s[k] == t[k - 1]);
                        }
                    }
                },
                None => {
                    assert forall|k: int| 0 <= k < s.len() implies !p(#[trigger] s[k]) by {
                        if k > 0 {
                            assert(s[k] == t[k - 1]);
                        }
                    }
                },
            }
        }
    }
}

/// Whatever `last_where` gives satisfies `p`, and nothing after it does.
pub proof fn lemma_last_where_props<A>(s: Seq<A>, p: spec_fn(A) -> bool)
    ensures
        match last_where(s, p) {
            Some(i) => 0 <= i < s.len() && p(s[i]) && forall|k: int| i < k < s.len() ==> !p(#[trigger] s[k]),
            None => forall|k: int| 0 <= k < s.len() ==> !p(#[trigger] s[k]),
        },
    decreases s.len(),
{
    if s.len() > 0 {
        let t = s.drop_last();
        lemma_last_where_props(t, p);
        if !p(s.last()) {
            match last_where(t, p) {
                Some(i) => {
                    assert forall|k: int| i < k < s.len() implies !p(#[trigger] s[k]) by {
                        if k < s.len() - 1 {
                            assert(s[k] == t[k]);
                        }
                    }
                },
                None => {
                    assert forall|k: int| 0 <= k < s.len() implies !p(#[trigger] s[k]) by {
                        if k < s.len() - 1 {
                            assert(s[k] == t[k]);
                        }
                    }
                },
            }
        }
    }
}

/// One more step of a filter built by pushing.
pub proof fn lemma_filter_step<A>(s: Seq<A>, p: spec_fn(A) -> bool, i: int)
    requires
        0 <= i < s.len(),
    ensures
        s.subrange(0, i + 1).filter(p) == (if p(s[i]) {
            s.subrange(0, i).filter(p).push(s[i])
        } else {
            s.subrange(0, i).filter(p)
        }),
{
    let a = s.subrange(0, i + 1);
    assert(a.drop_last() =~= s.subrange(0, i));
    assert(a.last() == s[i]);
    reveal_with_fuel(Seq::filter, 1);
}

/// The first match in a concatenation: in the first part if there is one there.
pub proof fn lemma_first_where_concat<A>(a: Seq<A>, b: Seq<A>, p: spec_fn(A) -> bool)
    ensures
        first_where(a + b, p) == match first_where(a, p) {
            Some(i) => Some(i),
            None => match first_where(b, p) {
                Some(j) => Some(a.len() + j),
                None => None::<int>,
            },
        },
{
    lemma_first_where_props(a, p);
    lemma_first_where_props(b, p);
    let c = a + b;
    match first_where(a, p) {
        Some(i) => {
            assert(c[i] == a[i]);
            assert forall|k: int| 0 <= k < i implies !p(#[trigger] c[k]) by {
                assert(c[k] == a[k]);
            }
            lemma_first_where(c, p, i);
        },
        None => match first_where(b, p) {
            Some(j) => {
                assert(c[a.len() + j] == b[j]);
                assert forall|k: int| 0 <= k < a.len() + j implies !p(#[trigger] c[k]) by {
                    if k < a.len() {
                        assert(c[k] == a[k]);
                    } else {
                        assert(c[k] == b[k - a.len()]);
                    }
                }
                lemma_first_where(c, p, a.len() + j);
            },
            None => {
                assert forall|k: int| 0 <= k < c.len() implies !p(#[trigger] c[k]) by {
                    if k < a.len() {
                        assert(c[k] == a[k]);
                    } else {
                        assert(c[k] == b[k - a.len()]);
                    }
                }
                lemma_first_where(c, p, c.len() as int);
            },
        },
    }
}

} // verus!

//! Sorted, duplicate-free lists of names: the ordered sets of group names
//! that rule compilation and listener bookkeeping iterate over.
use vstd::prelude::*;

use crate::text::{lemma_lex_total, lemma_lex_transitive, lex_lt, string_lt};

verus! {

/// The character views of a list of strings.
pub open spec fn names(v: Seq<String>) -> Seq<Seq<char>> {
    Seq::new(v.len(), |i: int| v[i]@)
}

/// Strictly increasing in code point order (hence free of duplicates).
pub open spec fn strictly_sorted(s: Seq<Seq<char>>) -> bool {
    forall|i: int, j: int| 0 <= i < j < s.len() ==> lex_lt(#[trigger] s[i], #[trigger] s[j])
}

/// The index of the first string in `v` equal to `x`.
pub fn position_of(v: &Vec<String>, x: &String) -> (r: Option<usize>)
    ensures
        match r {
            Some(k) => k < v.len() && v@[k as int]@ == x@ && forall|j: int|
                0 <= j < k ==> (#[trigger] v@[j])@ != x@,
            None => forall|j: int| 0 <= j < v.len() ==> (#[trigger] v@[j])@ != x@,
        },
{
    let mut i: usize = 0;
    while i < v.len()
        invariant
            i <= v.len(),
            forall|j: int| 0 <= j < i ==> (#[trigger] v@[j])@ != x@,
        decreases v.len() - i,
    {
        if v[i] == *x {
            return Some(i);
        }
        i = i + 1;
    }
    None
}

pub proof fn lemma_names_contains(v: Seq<String>, x: Seq<char>)
    ensures
        names(v).contains(x) <==> exists|j: int| 0 <= j < v.len() && (#[trigger] v[j])@ == x,
{
    if names(v).contains(x) {
        let j = choose|j: int| 0 <= j < names(v).len() && names(v)[j] == x;
        assert(v[j]@ == x);
    }
    if exists|j: int| 0 <= j < v.len() && (#[trigger] v[j])@ == x {
        let j = choose|j: int| 0 <= j < v.len() && (#[trigger] v[j])@ == x;
        assert(names(v)[j] == x);
    }
}

/// Adds `x` to a strictly sorted list unless an equal string is present,
/// keeping the list strictly sorted (a `BTreeSet` insertion).
pub fn insert_sorted(v: &mut Vec<String>, x: &String)
    requires
        strictly_sorted(names(old(v)@)),
    ensures
        strictly_sorted(names(final(v)@)),
        forall|g: Seq<char>|
            #![trigger names(final(v)@).contains(g)]
            names(final(v)@).contains(g) <==> (names(old(v)@).contains(g) || g == x@),
{
    let ghost old_v = v@;
    let mut p: usize = 0;
    while p < v.len() && string_lt(&v[p], x)
        invariant
            v@ == old_v,
            p <= v.len(),
            forall|j: int| 0 <= j < p ==> lex_lt((#[trigger] v@[j])@, x@),
        decreases v.len() - p,
    {
        p = p + 1;
    }
    if p < v.len() && v[p] == *x {
        proof {
            assert(names(old_v)[p as int] == x@);
        }
        return;
    }
    proof {
        if p < v.len() {
            lemma_lex_total(v@[p as int]@, x@);
        }
    }
    let ghost before = v@;
    v.insert(p, x.clone());
    proof {
        let n = names(v@);
        let m = names(before);
        assert forall|i: int, j: int| 0 <= i < j < n.len() implies lex_lt(#[trigger] n[i], #[trigger] n[j]) by {
            if j < p {
                assert(n[i] == m[i] && n[j] == m[j]);
            } else if j == p {
                assert(n[j] == x@);
                assert(n[i] == m[i]);
            } else if i == p {
                assert(n[i] == x@);
                assert(n[j] == m[j - 1]);
                if j - 1 > p {
                    assert(lex_lt(m[p as int], m[j - 1]));
                    lemma_lex_transitive(x@, m[p as int], m[j - 1]);
                }
            } else if i < p {
                assert(n[i] == m[i] && n[j] == m[j - 1]);
                if i < j - 1 {
                } else {
                }
                assert(lex_lt(m[i], m[j - 1]) || i == j - 1);
            } else {
                assert(n[i] == m[i - 1] && n[j] == m[j - 1]);
            }
        }
        assert forall|g: Seq<char>| #![trigger names(v@).contains(g)]
            names(v@).contains(g) <==> (names(before).contains(g) || g == x@) by {
            if names(v@).contains(g) {
                let k = choose|k: int| 0 <= k < n.len() && n[k] == g;
                if k < p {
                    assert(m[k] == g);
                } else if k > p {
                    assert(m[k - 1] == g);
                }
            }
            if names(before).contains(g) {
                let k = choose|k: int| 0 <= k < m.len() && m[k] == g;
                if k < p {
                    assert(n[k] == g);
                } else {
                    assert(n[k + 1] == g);
                }
            }
            if g == x@ {
                assert(n[p as int] == g);
            }
        }
    }
}

} // verus!

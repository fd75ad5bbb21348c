//! Strictly sorted sequences of strings: insertion that keeps a sequence
//! sorted and duplicate-free, the way an ordered set collects its
//! elements.

use vstd::prelude::*;

use crate::text::{chars_eq, chars_lt, chars_of, lemma_lex_irreflexive, lemma_lex_total, lemma_lex_transitive, lex_lt, str_eq, str_lt, views};

verus! {

/// Every element precedes every later one.
pub open spec fn strictly_sorted(s: Seq<Seq<char>>) -> bool {
    forall|i: int, j: int| 0 <= i < j < s.len() ==> lex_lt(#[trigger] s[i], #[trigger] s[j])
}

/// `x` put into the sorted `s` at its place, unless already there.
pub open spec fn insert_sorted(s: Seq<Seq<char>>, x: Seq<char>) -> Seq<Seq<char>>
    decreases s.len(),
{
    if s.len() == 0 {
        seq![x]
    } else if s[0] == x {
        s
    } else if lex_lt(x, s[0]) {
        seq![x] + s
    } else {
        seq![s[0]] + insert_sorted(s.drop_first(), x)
    }
}

/// The elements of `s`, sorted, each once.
pub open spec fn sorted_set(s: Seq<Seq<char>>) -> Seq<Seq<char>>
    decreases s.len(),
{
    if s.len() == 0 {
        seq![]
    } else {
        insert_sorted(sorted_set(s.drop_last()), s.last())
    }
}

proof fn lemma_insert_sorted(s: Seq<Seq<char>>, x: Seq<char>)
    requires
        strictly_sorted(s),
    ensures
        strictly_sorted(insert_sorted(s, x)),
        forall|y: Seq<char>| #[trigger] insert_sorted(s, x).contains(y) <==> (s.contains(y) || y == x),
    decreases s.len(),
{
    let r = insert_sorted(s, x);
    if s.len() == 0 {
        assert forall|y: Seq<char>| r.contains(y) <==> (s.contains(y) || y == x) by {
            if r.contains(y) {
                assert(r[0] == x);
            }
            if y == x {
                assert(r[0] == y);
            }
        }
    } else if s[0] == x {
    } else if lex_lt(x, s[0]) {
        assert forall|i: int, j: int| 0 <= i < j < r.len() implies lex_lt(#[trigger] r[i], #[trigger] r[j]) by {
            if i == 0 {
                if j > 1 {
                    lemma_lex_transitive(x, s[0], s[j - 1]);
                }
            } else {
                assert(r[i] == s[i - 1] && r[j] == s[j - 1]);
            }
        }
        assert forall|y: Seq<char>| r.contains(y) <==> (s.contains(y) || y == x) by {
            if r.contains(y) {
                let w = choose|w: int| 0 <= w < r.len() && r[w] == y;
                if w > 0 {
                    assert(s[w - 1] == y);
                }
            }
            if s.contains(y) {
                let w = choose|w: int| 0 <= w < s.len() && s[w] == y;
                assert(r[w + 1] == y);
            }
            if y == x {
                assert(r[0] == y);
            }
        }
    } else {
        let t = s.drop_first();
        assert(strictly_sorted(t)) by {
            assert forall|i: int, j: int| 0 <= i < j < t.len() implies lex_lt(#[trigger] t[i], #[trigger] t[j]) by {
                assert(t[i] == s[i + 1] && t[j] == s[j + 1]);
            }
        }
        lemma_insert_sorted(t, x);
        let u = insert_sorted(t, x);
        assert(u.contains(x));
        lemma_lex_total(x, s[0]);
        assert forall|k: int| 0 <= k < u.len() implies lex_lt(s[0], #[trigger] u[k]) by {
            if u[k] == x {
            } else {
                assert(u.contains(u[k]));
                assert(t.contains(u[k]));
                let w = choose|w: int| 0 <= w < t.len() && t[w] == u[k];
                assert(s[w + 1] == u[k]);
            }
        }
        assert forall|i: int, j: int| 0 <= i < j < r.len() implies lex_lt(#[trigger] r[i], #[trigger] r[j]) by {
            if i == 0 {
                assert(r[j] == u[j - 1]);
            } else {
                assert(r[i] == u[i - 1] && r[j] == u[j - 1]);
            }
        }
        assert forall|y: Seq<char>| r.contains(y) <==> (s.contains(y) || y == x) by {
            if r.contains(y) {
                let w = choose|w: int| 0 <= w < r.len() && r[w] == y;
                if w > 0 {
                    assert(u[w - 1] == y);
                    assert(u.contains(y));
                    if t.contains(y) {
                        let v = choose|v: int| 0 <= v < t.len() && t[v] == y;
                        assert(s[v + 1] == y);
                    }
                } else {
                    assert(s[0] == y);
                }
            }
            if s.contains(y) && y != x {
                let w = choose|w: int| 0 <= w < s.len() && s[w] == y;
                if w > 0 {
                    assert(t[w - 1] == y);
                    assert(t.contains(y));
                    assert(u.contains(y));
                    let v = choose|v: int| 0 <= v < u.len() && u[v] == y;
                    assert(r[v + 1] == y);
                } else {
                    assert(r[0] == y);
                }
            }
            if y == x {
                assert(u.contains(y));
                let v = choose|v: int| 0 <= v < u.len() && u[v] == y;
                assert(r[v + 1] == y);
            }
        }
    }
}

/// `sorted_set(s)` is strictly sorted and holds exactly the elements of
/// `s`.
pub proof fn lemma_sorted_set(s: Seq<Seq<char>>)
    ensures
        strictly_sorted(sorted_set(s)),
        forall|y: Seq<char>| #[trigger] sorted_set(s).contains(y) <==> s.contains(y),
    decreases s.len(),
{
    if s.len() > 0 {
        lemma_sorted_set(s.drop_last());
        lemma_insert_sorted(sorted_set(s.drop_last()), s.last());
        assert forall|y: Seq<char>| sorted_set(s).contains(y) <==> s.contains(y) by {
            if s.drop_last().contains(y) {
                let w = choose|w: int| 0 <= w < s.drop_last().len() && s.drop_last()[w] == y;
                assert(s[w] == y);
            }
            if s.contains(y) && y != s.last() {
                let w = choose|w: int| 0 <= w < s.len() && s[w] == y;
                assert(s.drop_last()[w] == y);
            }
        }
    }
}

proof fn lemma_insert_split(s: Seq<Seq<char>>, x: Seq<char>, p: int)
    requires
        0 <= p <= s.len(),
        forall|k: int| 0 <= k < p ==> lex_lt(#[trigger] s[k], x),
        p < s.len() ==> !lex_lt(s[p], x),
    ensures
        insert_sorted(s, x) == s.take(p) + (if p < s.len() && s[p] == x {
            seq![]
        } else {
            seq![x]
        }) + s.skip(p),
    decreases p,
{
    if p == 0 {
        if s.len() > 0 && s[0] != x {
            lemma_lex_total(x, s[0]);
        }
        assert(s.take(0) =~= Seq::<Seq<char>>::empty());
        assert(s.skip(0) =~= s);
        if s.len() > 0 && s[0] == x {
            assert(Seq::<Seq<char>>::empty() + Seq::<Seq<char>>::empty() + s =~= s);
        } else {
            assert(Seq::<Seq<char>>::empty() + seq![x] + s =~= seq![x] + s);
        }
    } else {
        lemma_lex_irreflexive(x);
        lemma_lex_total(s[0], x);
        let t = s.drop_first();
        assert forall|k: int| 0 <= k < p - 1 implies lex_lt(#[trigger] t[k], x) by {
            assert(t[k] == s[k + 1]);
        }
        lemma_insert_split(t, x, p - 1);
        let mid = if p < s.len() && s[p] == x {
            Seq::<Seq<char>>::empty()
        } else {
            seq![x]
        };
        assert(seq![s[0]] + (t.take(p - 1) + mid + t.skip(p - 1)) =~= s.take(p) + mid + s.skip(p));
    }
}

/// Put `x` into the sorted, duplicate-free `v` at its place, unless
/// already there.
pub fn insert_sorted_exec(v: &mut Vec<String>, x: String)
    requires
        strictly_sorted(views(old(v)@)),
    ensures
        views(final(v)@) == insert_sorted(views(old(v)@), x@),
{
    let ghost s = views(v@);
    let xc = chars_of(x.as_str());
    let mut p: usize = 0;
    while p < v.len() && str_lt(v[p].as_str(), x.as_str())
        invariant
            s == views(v@),
            p <= v@.len(),
            forall|k: int| 0 <= k < p ==> lex_lt(#[trigger] s[k], x@),
        decreases v.len() - p,
    {
        assert(s[p as int] == v@[p as int]@);
        p += 1;
    }
    if p < v.len() {
        assert(s[p as int] == v@[p as int]@);
    }
    proof {
        lemma_insert_split(s, x@, p as int);
    }
    if p < v.len() && str_eq(v[p].as_str(), x.as_str()) {
        assert(s.take(p as int) + Seq::<Seq<char>>::empty() + s.skip(p as int) =~= s);
        return;
    }
    let ghost xv = x@;
    v.insert(p, x);
    assert(views(v@) =~= s.take(p as int) + seq![xv] + s.skip(p as int));
}

} // verus!

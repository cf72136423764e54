//! The order of `String`s (code point by code point, which is the byte order of
//! their UTF-8), and sorting with duplicates removed.

use vstd::prelude::*;

use crate::text::vviews;

verus! {

/// `a < b` in the lexicographic order of code points.
pub open spec fn lex_lt(a: Seq<char>, b: Seq<char>) -> bool
    decreases a.len(),
{
    if a.len() == 0 {
        b.len() > 0
    } else if b.len() == 0 {
        false
    } else if a[0] != b[0] {
        (a[0] as int) < (b[0] as int)
    } else {
        lex_lt(a.drop_first(), b.drop_first())
    }
}

/// No text is below itself.
pub proof fn lemma_lex_irreflexive(a: Seq<char>)
    ensures
        !lex_lt(a, a),
    decreases a.len(),
{
    if a.len() > 0 {
        lemma_lex_irreflexive(a.drop_first());
    }
}

/// The order is transitive.
pub proof fn lemma_lex_transitive(a: Seq<char>, b: Seq<char>, c: Seq<char>)
    requires
        lex_lt(a, b),
        lex_lt(b, c),
    ensures
        lex_lt(a, c),
    decreases a.len(),
{
    if a.len() > 0 && b.len() > 0 && c.len() > 0 && a[0] == b[0] && b[0] == c[0] {
        lemma_lex_transitive(a.drop_first(), b.drop_first(), c.drop_first());
    }
}

/// Two different texts are ordered one way or the other, and not both.
pub proof fn lemma_lex_total(a: Seq<char>, b: Seq<char>)
    ensures
        a != b ==> (lex_lt(a, b) || lex_lt(b, a)),
        !(lex_lt(a, b) && lex_lt(b, a)),
    decreases a.len(),
{
    if a.len() > 0 && b.len() > 0 {
        if a[0] == b[0] {
            lemma_lex_total(a.drop_first(), b.drop_first());
            if a.drop_first() == b.drop_first() {
                assert(a =~= seq![a[0]] + a.drop_first());
                assert(b =~= seq![b[0]] + b.drop_first());
            }
        } else {
            assert((a[0] as int) != (b[0] as int));
        }
    } else if a.len() == 0 && b.len() == 0 {
        assert(a =~= b);
    }
}

/// `a < b` for character slices.
pub fn lex_less(a: &[char], b: &[char]) -> (r: bool)
    ensures
        r == lex_lt(a@, b@),
{
    let mut i: usize = 0;
    assert(a@.skip(0) =~= a@);
    assert(b@.skip(0) =~= b@);
    while i < a.len() && i < b.len() && a[i] == b[i]
        invariant
            i <= a@.len(),
            i <= b@.len(),
            lex_lt(a@, b@) == lex_lt(a@.skip(i as int), b@.skip(i as int)),
        decreases a.len() - i,
    {
        assert(a@.skip(i as int).drop_first() =~= a@.skip(i + 1));
        assert(b@.skip(i as int).drop_first() =~= b@.skip(i + 1));
        i += 1;
    }
    if i == a.len() {
        i < b.len()
    } else if i == b.len() {
        false
    } else {
        assert(a@.skip(i as int)[0] == a@[i as int]);
        assert(b@.skip(i as int)[0] == b@[i as int]);
        a[i] < b[i]
    }
}

/// Strictly increasing: sorted, with no element twice.
pub open spec fn strictly_sorted(s: Seq<Seq<char>>) -> bool {
    forall|i: int, j: int| 0 <= i < j < s.len() ==> lex_lt(s[i], s[j])
}

/// `keys` is the sorted list of the distinct texts in `items`.
pub open spec fn sorted_distinct_of(keys: Seq<Seq<char>>, items: Seq<Seq<char>>) -> bool {
    strictly_sorted(keys) && keys.to_set() == items.to_set()
}

/// A strictly sorted list is determined by its elements: sorting with
/// duplicates removed has exactly one result.
pub proof fn lemma_sorted_distinct_unique(a: Seq<Seq<char>>, b: Seq<Seq<char>>)
    requires
        strictly_sorted(a),
        strictly_sorted(b),
        a.to_set() == b.to_set(),
    ensures
        a == b,
    decreases a.len(),
{
    if a.len() == 0 {
        if b.len() > 0 {
            assert(b.to_set().contains(b[0]));
        }
        assert(a =~= b);
    } else if b.len() == 0 {
        assert(a.to_set().contains(a[0]));
    } else {
        assert(a.to_set().contains(a[0]));
        assert(b.to_set().contains(b[0]));
        let i = choose|i: int| 0 <= i < b.len() && b[i] == a[0];
        let j = choose|j: int| 0 <= j < a.len() && a[j] == b[0];
        if i > 0 {
            lemma_lex_total(b[0], b[i]);
            if j > 0 {
                lemma_lex_total(a[0], a[j]);
            } else {
                lemma_lex_irreflexive(b[0]);
            }
        }
        assert(a[0] == b[0]) by {
            if a[0] != b[0] {
                if i > 0 && j > 0 {
                    lemma_lex_total(a[0], b[0]);
                } else if i == 0 {
                } else {
                }
            }
        }
        let ta = a.drop_first();
        let tb = b.drop_first();
        assert forall|x: Seq<char>| ta.to_set().contains(x) implies tb.to_set().contains(x) by {
            let k = choose|k: int| 0 <= k < ta.len() && ta[k] == x;
            assert(a[k + 1] == x);
            assert(a.to_set().contains(x));
            let m = choose|m: int| 0 <= m < b.len() && b[m] == x;
            lemma_lex_irreflexive(x);
            if m == 0 {
                assert(lex_lt(a[0], a[k + 1]));
            }
            assert(tb[m - 1] == x);
        }
        assert forall|x: Seq<char>| tb.to_set().contains(x) implies ta.to_set().contains(x) by {
            let k = choose|k: int| 0 <= k < tb.len() && tb[k] == x;
            assert(b[k + 1] == x);
            assert(b.to_set().contains(x));
            let m = choose|m: int| 0 <= m < a.len() && a[m] == x;
            lemma_lex_irreflexive(x);
            if m == 0 {
                assert(lex_lt(b[0], b[k + 1]));
            }
            assert(ta[m - 1] == x);
        }
        assert(ta.to_set() =~= tb.to_set());
        lemma_sorted_distinct_unique(ta, tb);
        assert(a =~= seq![a[0]] + ta);
        assert(b =~= seq![b[0]] + tb);
    }
}


/// The characters of `a` and `b` agree.
pub fn chars_eq(a: &[char], b: &[char]) -> (r: bool)
    ensures
        r == (a@ == b@),
{
    if a.len() != b.len() {
        return false;
    }
    let mut i: usize = 0;
    while i < a.len()
        invariant
            a@.len() == b@.len(),
            i <= a@.len(),
            forall|j: int| 0 <= j < i ==> a@[j] == b@[j],
        decreases a.len() - i,
    {
        if a[i] != b[i] {
            return false;
        }
        i += 1;
    }
    assert(a@ =~= b@);
    true
}

/// Inserting `x` at `p` into a strictly sorted list keeps it strictly sorted
/// when everything before `p` is below `x` and everything from `p` on is above.
proof fn lemma_insert_sorted(s: Seq<Seq<char>>, p: int, x: Seq<char>)
    requires
        strictly_sorted(s),
        0 <= p <= s.len(),
        forall|i: int| 0 <= i < p ==> lex_lt(s[i], x),
        p < s.len() ==> lex_lt(x, s[p]),
    ensures
        strictly_sorted(s.insert(p, x)),
{
    let t = s.insert(p, x);
    assert forall|i: int, j: int| 0 <= i < j < t.len() implies lex_lt(t[i], t[j]) by {
        if i < p && j == p {
        } else if i == p && j > p {
            if j - 1 > p {
                lemma_lex_transitive(x, s[p], s[j - 1]);
            }
        } else if i < p && j > p {
        } else if i > p {
            assert(lex_lt(s[i - 1], s[j - 1]));
        } else {
            assert(lex_lt(s[i], s[j]));
        }
    }
}

/// Sorts texts and removes duplicates.
pub fn sorted_distinct(items: &Vec<Vec<char>>) -> (keys: Vec<Vec<char>>)
    ensures
        sorted_distinct_of(vviews(keys@), vviews(items@)),
{
    let mut keys: Vec<Vec<char>> = Vec::new();
    let mut k: usize = 0;
    assert(vviews(items@).take(0).to_set() =~= Set::<Seq<char>>::empty());
    assert(vviews(keys@).to_set() =~= Set::<Seq<char>>::empty());
    while k < items.len()
        invariant
            k <= items@.len(),
            strictly_sorted(vviews(keys@)),
            vviews(keys@).to_set() == vviews(items@).take(k as int).to_set(),
        decreases items.len() - k,
    {
        let x = &items[k];
        let ghost kv = vviews(keys@);
        let ghost xv = x@;
        let mut p: usize = 0;
        while p < keys.len() && lex_less(keys[p].as_slice(), x.as_slice())
            invariant
                p <= keys@.len(),
                kv == vviews(keys@),
                xv == x@,
                forall|i: int| 0 <= i < p ==> lex_lt(kv[i], xv),
            decreases keys.len() - p,
        {
            p += 1;
        }
        assert(vviews(items@).take(k + 1) =~= vviews(items@).take(k as int).push(xv));
        proof {
            vviews(items@).take(k as int).lemma_push_to_set_commute(xv);
        }
        if p < keys.len() && chars_eq(keys[p].as_slice(), x.as_slice()) {
            assert(kv[p as int] == xv);
            assert(vviews(keys@).to_set() =~= vviews(items@).take(k + 1).to_set()) by {
                assert(kv.to_set().contains(xv));
            }
        } else {
            proof {
                if p < kv.len() {
                    lemma_lex_total(kv[p as int], xv);
                }
                lemma_insert_sorted(kv, p as int, xv);
            }
            let copy = crate::text::slice_prefix(x.as_slice(), x.len());
            assert(x@.take(x@.len() as int) =~= x@);
            keys.insert(p, copy);
            assert(vviews(keys@) =~= kv.insert(p as int, xv));
            assert(vviews(keys@).to_set() =~= vviews(items@).take(k + 1).to_set()) by {
                assert forall|y: Seq<char>| #[trigger] kv.insert(p as int, xv).to_set().contains(y)
                    implies kv.to_set().insert(xv).contains(y) by {
                    let i = choose|i: int| 0 <= i < kv.len() + 1 && kv.insert(p as int, xv)[i] == y;
                    if i < p {
                        assert(kv[i] == y);
                    } else if i > p {
                        assert(kv[i - 1] == y);
                    }
                }
                assert forall|y: Seq<char>| #[trigger] kv.to_set().insert(xv).contains(y)
                    implies kv.insert(p as int, xv).to_set().contains(y) by {
                    if y == xv {
                        assert(kv.insert(p as int, xv)[p as int] == y);
                    } else {
                        let i = choose|i: int| 0 <= i < kv.len() && kv[i] == y;
                        if i < p {
                            assert(kv.insert(p as int, xv)[i] == y);
                        } else {
                            assert(kv.insert(p as int, xv)[i + 1] == y);
                        }
                    }
                }
            }
        }
        k += 1;
    }
    assert(vviews(items@).take(items@.len() as int) =~= vviews(items@));
    keys
}

} // verus!

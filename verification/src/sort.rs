//! Stable insertion order: what a stable sort by a strict "sorts before" relation gives.
use vstd::prelude::*;

verus! {

/// `s` (already in order) with `x` inserted after every entry that `x` does not sort before.
pub open spec fn sorted_insert<A>(s: Seq<A>, x: A, lt: spec_fn(A, A) -> bool) -> Seq<A>
    decreases s.len(),
{
    if s.len() == 0 {
        seq![x]
    } else if lt(x, s.last()) {
        sorted_insert(s.drop_last(), x, lt).push(s.last())
    } else {
        s.push(x)
    }
}

/// `s` stably sorted by `lt`: entries that neither sorts before keep their order.
pub open spec fn stable_sorted<A>(s: Seq<A>, lt: spec_fn(A, A) -> bool) -> Seq<A>
    decreases s.len(),
{
    if s.len() == 0 {
        Seq::empty()
    } else {
        sorted_insert(stable_sorted(s.drop_last(), lt), s.last(), lt)
    }
}

/// Inserting `x` where the scan from the end stops at `j` is `s.insert(j, x)`.
pub proof fn lemma_sorted_insert_at<A>(s: Seq<A>, x: A, lt: spec_fn(A, A) -> bool, j: int)
    requires
        0 <= j <= s.len(),
        forall|k: int| j <= k < s.len() ==> lt(x, #[trigger] s[k]),
        j == 0 || !lt(x, s[j - 1]),
    ensures
        sorted_insert(s, x, lt) == s.insert(j, x),
    decreases s.len(),
{
    if s.len() == 0 {
        assert(s.insert(0, x) == seq![x]);
    } else if j == s.len() {
        assert(s.insert(j, x) == s.push(x));
    } else {
        assert(lt(x, s[s.len() - 1]));
        lemma_sorted_insert_at(s.drop_last(), x, lt, j);
        assert(s.drop_last().insert(j, x).push(s.last()) == s.insert(j, x));
    }
}

/// Mapping commutes with stable sorting when the relations agree through the map.
pub proof fn lemma_sorted_insert_map<A, B>(
    s: Seq<B>,
    x: B,
    f: spec_fn(B) -> A,
    lta: spec_fn(A, A) -> bool,
    ltb: spec_fn(B, B) -> bool,
    dom: spec_fn(B) -> bool,
)
    requires
        forall|p: B, q: B| dom(p) && dom(q) ==> #[trigger] ltb(p, q) == lta(f(p), f(q)),
        forall|k: int| 0 <= k < s.len() ==> dom(#[trigger] s[k]),
        dom(x),
    ensures
        sorted_insert(s, x, ltb).map_values(f) == sorted_insert(s.map_values(f), f(x), lta),
    decreases s.len(),
{
    if s.len() == 0 {
        assert(seq![x].map_values(f) == seq![f(x)]);
    } else {
        assert(s.map_values(f).last() == f(s.last()));
        assert(s.map_values(f).drop_last() == s.drop_last().map_values(f));
        assert(ltb(x, s.last()) == lta(f(x), f(s.last())));
        if ltb(x, s.last()) {
            lemma_sorted_insert_map(s.drop_last(), x, f, lta, ltb, dom);
            assert(sorted_insert(s.drop_last(), x, ltb).push(s.last()).map_values(f)
                == sorted_insert(s.drop_last(), x, ltb).map_values(f).push(f(s.last())));
        } else {
            assert(s.push(x).map_values(f) == s.map_values(f).push(f(x)));
        }
    }
}

/// Stable sorting commutes with a map through which the relations agree.
pub proof fn lemma_stable_sorted_map<A, B>(
    s: Seq<B>,
    f: spec_fn(B) -> A,
    lta: spec_fn(A, A) -> bool,
    ltb: spec_fn(B, B) -> bool,
    dom: spec_fn(B) -> bool,
)
    requires
        forall|p: B, q: B| dom(p) && dom(q) ==> #[trigger] ltb(p, q) == lta(f(p), f(q)),
        forall|k: int| 0 <= k < s.len() ==> dom(#[trigger] s[k]),
    ensures
        stable_sorted(s, ltb).map_values(f) == stable_sorted(s.map_values(f), lta),
    decreases s.len(),
{
    if s.len() > 0 {
        let t = s.drop_last();
        assert forall|k: int| 0 <= k < t.len() implies dom(#[trigger] t[k]) by {
            assert(t[k] == s[k]);
        }
        lemma_stable_sorted_map(t, f, lta, ltb, dom);
        assert(s.map_values(f).drop_last() == s.drop_last().map_values(f));
        assert(s.map_values(f).last() == f(s.last()));
        lemma_stable_sorted_elems(t, ltb);
        let u = stable_sorted(t, ltb);
        assert forall|k: int| 0 <= k < u.len() implies dom(#[trigger] u[k]) by {
            assert(u.contains(u[k]));
            assert(t.contains(u[k]));
            let m = choose|m: int| 0 <= m < t.len() && t[m] == u[k];
            assert(dom(t[m]));
        }
        lemma_sorted_insert_map(u, s.last(), f, lta, ltb, dom);
    }
}

/// Inserting in order puts `x` at some position of `s`.
pub proof fn lemma_sorted_insert_is_insert<A>(s: Seq<A>, x: A, lt: spec_fn(A, A) -> bool)
    ensures
        exists|j: int| 0 <= j <= s.len() && sorted_insert(s, x, lt) == s.insert(j, x),
    decreases s.len(),
{
    if s.len() == 0 {
        assert(sorted_insert(s, x, lt) == s.insert(0, x));
    } else if lt(x, s.last()) {
        lemma_sorted_insert_is_insert(s.drop_last(), x, lt);
        let j = choose|j: int| 0 <= j <= s.drop_last().len() && sorted_insert(s.drop_last(), x, lt) == s.drop_last().insert(j, x);
        assert(s.drop_last().insert(j, x).push(s.last()) == s.insert(j, x));
    } else {
        assert(sorted_insert(s, x, lt) == s.insert(s.len() as int, x));
    }
}

/// A stable sort keeps the entries: same length, same entries, and no repeats when there were none.
pub proof fn lemma_stable_sorted_elems<A>(s: Seq<A>, lt: spec_fn(A, A) -> bool)
    ensures
        stable_sorted(s, lt).len() == s.len(),
        forall|e: A| #[trigger] stable_sorted(s, lt).contains(e) <==> s.contains(e),
        s.no_duplicates() ==> stable_sorted(s, lt).no_duplicates(),
    decreases s.len(),
{
    if s.len() > 0 {
        let t = s.drop_last();
        let x = s.last();
        lemma_stable_sorted_elems(t, lt);
        let u = stable_sorted(t, lt);
        lemma_sorted_insert_is_insert(u, x, lt);
        let j = choose|j: int| 0 <= j <= u.len() && sorted_insert(u, x, lt) == u.insert(j, x);
        let r = u.insert(j, x);
        assert forall|e: A| #[trigger] r.contains(e) <==> s.contains(e) by {
            if r.contains(e) {
                let k = choose|k: int| 0 <= k < r.len() && r[k] == e;
                if k < j {
                    assert(u[k] == e);
                    assert(u.contains(e));
                    let m = choose|m: int| 0 <= m < t.len() && t[m] == e;
                    assert(s[m] == e);
                } else if k == j {
                    assert(s[s.len() - 1] == e);
                } else {
                    assert(u[k - 1] == e);
                    assert(u.contains(e));
                    let m = choose|m: int| 0 <= m < t.len() && t[m] == e;
                    assert(s[m] == e);
                }
            }
            if s.contains(e) {
                let k = choose|k: int| 0 <= k < s.len() && s[k] == e;
                if k == s.len() - 1 {
                    assert(r[j] == e);
                } else {
                    assert(t[k] == e);
                    assert(t.contains(e));
                    assert(u.contains(e));
                    let m = choose|m: int| 0 <= m < u.len() && u[m] == e;
                    if m < j {
                        assert(r[m] == e);
                    } else {
                        assert(r[m + 1] == e);
                    }
                }
            }
        }
        if s.no_duplicates() {
            assert(t.no_duplicates()) by {
                assert forall|a: int, b: int| 0 <= a < t.len() && 0 <= b < t.len() && a != b implies t[a] != t[b] by {
                    assert(t[a] == s[a] && t[b] == s[b]);
                }
            }
            assert(!u.contains(x)) by {
                if u.contains(x) {
                    assert(t.contains(x));
                    let m = choose|m: int| 0 <= m < t.len() && t[m] == x;
                    assert(s[m] == s[s.len() - 1]);
                }
            }
            assert forall|a: int, b: int| 0 <= a < r.len() && 0 <= b < r.len() && a != b implies r[a] != r[b] by {
                if a == j {
                    if b < j {
                        assert(r[b] == u[b]);
                    } else {
                        assert(r[b] == u[b - 1]);
                    }
                } else if b == j {
                    if a < j {
                        assert(r[a] == u[a]);
                    } else {
                        assert(r[a] == u[a - 1]);
                    }
                } else {
                    let ua = if a < j { a } else { a - 1 };
                    let ub = if b < j { b } else { b - 1 };
                    assert(r[a] == u[ua]);
                    assert(r[b] == u[ub]);
                }
            }
        }
    }
}

/// Whether no entry of `s` sorts before an earlier one.
pub open spec fn in_order<A>(s: Seq<A>, lt: spec_fn(A, A) -> bool) -> bool {
    forall|i: int, j: int| 0 <= i < j < s.len() ==> !lt(#[trigger] s[j], #[trigger] s[i])
}

/// Whether `lt` is a strict order whose incomparability is transitive (a strict weak order).
pub open spec fn strict_weak_order<A>(lt: spec_fn(A, A) -> bool) -> bool {
    &&& forall|a: A| !#[trigger] lt(a, a)
    &&& forall|a: A, b: A, c: A| #[trigger] lt(a, b) && #[trigger] lt(b, c) ==> lt(a, c)
    &&& forall|a: A, b: A, c: A|
        !#[trigger] lt(a, b) && !#[trigger] lt(b, c) ==> !lt(a, c)
}

proof fn lemma_sorted_insert_in_order<A>(s: Seq<A>, x: A, lt: spec_fn(A, A) -> bool)
    requires
        strict_weak_order(lt),
        in_order(s, lt),
    ensures
        in_order(sorted_insert(s, x, lt), lt),
        sorted_insert(s, x, lt).to_multiset() == s.to_multiset().insert(x),
    decreases s.len(),
{
    broadcast use vstd::seq_lib::group_to_multiset_ensures;
    if s.len() == 0 {
        assert(seq![x] == Seq::<A>::empty().push(x));
    } else if lt(x, s.last()) {
        let t = s.drop_last();
        assert(in_order(t, lt)) by {
            assert forall|i: int, j: int| 0 <= i < j < t.len() implies !lt(#[trigger] t[j], #[trigger] t[i]) by {
                assert(t[j] == s[j] && t[i] == s[i]);
            }
        }
        lemma_sorted_insert_in_order(t, x, lt);
        let u = sorted_insert(t, x, lt);
        let r = u.push(s.last());
        assert(s == t.push(s.last()));
        assert forall|i: int, j: int| 0 <= i < j < r.len() implies !lt(#[trigger] r[j], #[trigger] r[i]) by {
            if j == r.len() - 1 {
                // every entry of u is x or an entry of t, and neither sorts after s.last()
                assert(u.to_multiset().count(u[i]) > 0);
                if u[i] == x {
                } else {
                    assert(t.to_multiset().count(u[i]) > 0);
                    assert(t.contains(u[i]));
                    let k = choose|k: int| 0 <= k < t.len() && t[k] == u[i];
                    assert(s[k] == u[i]);
                    assert(!lt(s[s.len() - 1], s[k]));
                }
            }
        }
    } else {
        assert forall|i: int, j: int| 0 <= i < j < s.len() + 1 implies !lt(#[trigger] s.push(x)[j], #[trigger] s.push(x)[i]) by {
            if j == s.len() {
                if i < s.len() - 1 {
                    assert(!lt(s[s.len() - 1], s[i]));
                }
            } else {
                assert(s.push(x)[j] == s[j] && s.push(x)[i] == s[i]);
            }
        }
    }
}

/// A stable sort by a strict weak order puts its entries in order and keeps the same
/// entries, each as many times.
pub proof fn stable_sorted_is_ordered_permutation<A>(s: Seq<A>, lt: spec_fn(A, A) -> bool)
    requires
        strict_weak_order(lt),
    ensures
        in_order(stable_sorted(s, lt), lt),
        stable_sorted(s, lt).to_multiset() == s.to_multiset(),
    decreases s.len(),
{
    broadcast use vstd::seq_lib::group_to_multiset_ensures;
    if s.len() > 0 {
        stable_sorted_is_ordered_permutation(s.drop_last(), lt);
        lemma_sorted_insert_in_order(stable_sorted(s.drop_last(), lt), s.last(), lt);
        assert(s == s.drop_last().push(s.last()));
    }
}

} // verus!

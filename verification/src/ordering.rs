//! Stable ordering. Several views list things "most important first" with
//! ties kept in the order they came in; this is the one sort they share.

use vstd::prelude::*;

verus! {

/// A type with a total preorder ("ranks no later than") to sort by.
pub trait Ranked: Sized {
    /// `self` may come before `other`. Values that rank no later than each
    /// other are tied.
    spec fn rank_le(self, other: Self) -> bool;

    /// Any two values are comparable.
    proof fn rank_total(a: Self, b: Self)
        ensures
            a.rank_le(b) || b.rank_le(a),
    ;

    /// The ranking is transitive.
    proof fn rank_transitive(a: Self, b: Self, c: Self)
        requires
            a.rank_le(b),
            b.rank_le(c),
        ensures
            a.rank_le(c),
    ;

}

/// A ranked type whose ranking can be decided at run time.
pub trait RankCompare: Ranked {
    /// Decide `rank_le`.
    fn ranks_no_later(&self, other: &Self) -> (r: bool)
        ensures
            r == self.rank_le(*other),
    ;
}

/// Position `a` of `s` goes before position `b` in a stable order: it ranks no
/// later, and when the two are tied it came first.
pub open spec fn precedes<T: Ranked>(s: Seq<T>, a: int, b: int) -> bool {
    &&& s[a].rank_le(s[b])
    &&& (!s[b].rank_le(s[a]) || a < b)
}

/// `order` lists the positions of `s` so that ranks never decrease and ties
/// keep the order they came in.
pub open spec fn is_stable_order<T: Ranked>(s: Seq<T>, order: Seq<int>) -> bool {
    &&& order.len() == s.len()
    &&& forall|k: int| 0 <= k < order.len() ==> 0 <= #[trigger] order[k]< s.len()
    &&& forall|i: int, j: int|
        0 <= i < j < order.len() ==> precedes(s, #[trigger] order[i], #[trigger] order[j])
}

/// The elements of `s` at the positions `order` lists.
pub open spec fn reordered<T>(s: Seq<T>, order: Seq<int>) -> Seq<T> {
    Seq::new(order.len(), |k: int| s[order[k]])
}

/// `precedes` is transitive.
pub proof fn lemma_precedes_transitive<T: Ranked>(s: Seq<T>, a: int, b: int, c: int)
    requires
        precedes(s, a, b),
        precedes(s, b, c),
    ensures
        precedes(s, a, c),
{
    T::rank_transitive(s[a], s[b], s[c]);
    if s[c].rank_le(s[a]) {
        T::rank_transitive(s[c], s[a], s[b]);
        T::rank_transitive(s[b], s[c], s[a]);
    }
}

/// The elements of `s` sorted by rank, ties in the order they came in. There is
/// exactly one such arrangement (see `stable_order_is_unique`).
pub open spec fn stable_sort<T: Ranked>(s: Seq<T>) -> Seq<T> {
    reordered(s, choose|order: Seq<int>| is_stable_order(s, order))
}

/// A stable order lists every position of `s`.
proof fn lemma_stable_order_covers<T: Ranked>(s: Seq<T>, order: Seq<int>, a: int)
    requires
        is_stable_order(s, order),
        0 <= a < s.len(),
    ensures
        exists|k: int| 0 <= k < order.len() && order[k] == a,
{
    let m = order;
    assert(m.no_duplicates()) by {
        assert forall|i: int, j: int| 0 <= i < m.len() && 0 <= j < m.len() && i != j implies m[i] != m[j] by {
            if i < j {
                assert(precedes(s, order[i] , order[j] ));
            } else {
                assert(precedes(s, order[j] , order[i] ));
            }
        }
    }
    m.unique_seq_to_set();
    vstd::set_lib::lemma_int_range(0, s.len() as int);
    let range = vstd::set_lib::set_int_range(0, s.len() as int);
    assert(m.to_set().subset_of(range)) by {
        assert forall|x: int| m.to_set().contains(x) implies range.contains(x) by {
            let k = choose|k: int| 0 <= k < m.len() && m[k] == x;
            assert(order[k]< s.len());
        }
    }
    vstd::seq_lib::seq_to_set_is_finite(m);
    vstd::set_lib::lemma_subset_equality(m.to_set(), range);
    assert(range.contains(a));
    assert(m.to_set().contains(a));
    let k = choose|k: int| 0 <= k < m.len() && m[k] == a;
    assert(order[k] == a);
}

/// Two stable orders of the same sequence agree on their first `k + 1` slots.
proof fn lemma_stable_orders_agree<T: Ranked>(s: Seq<T>, o1: Seq<int>, o2: Seq<int>, k: int)
    requires
        is_stable_order(s, o1),
        is_stable_order(s, o2),
        0 <= k < s.len(),
    ensures
        forall|j: int| 0 <= j <= k ==> o1[j] == o2[j],
    decreases k,
{
    if k > 0 {
        lemma_stable_orders_agree(s, o1, o2, k - 1);
    }
    if o1[k] != o2[k] {
        let x = o1[k] ;
        let y = o2[k] ;
        lemma_stable_order_covers(s, o1, y);
        lemma_stable_order_covers(s, o2, x);
        let m1 = choose|m: int| 0 <= m < o1.len() && o1[m]  == y;
        let m2 = choose|m: int| 0 <= m < o2.len() && o2[m]  == x;
        if m1 < k {
            assert(o2[m1] == o1[m1]);
            assert(precedes(s, o2[m1] , o2[k] ));
        }
        if m2 < k {
            assert(o1[m2] == o2[m2]);
            assert(precedes(s, o1[m2] , o1[k] ));
        }
        assert(m1 != k && m2 != k);
        assert(precedes(s, o1[k] , o1[m1] ));
        assert(precedes(s, o2[k] , o2[m2] ));
    }
}

/// A sequence has only one stable order.
pub proof fn stable_order_is_unique<T: Ranked>(s: Seq<T>, o1: Seq<int>, o2: Seq<int>)
    requires
        is_stable_order(s, o1),
        is_stable_order(s, o2),
    ensures
        o1 == o2,
{
    if s.len() > 0 {
        lemma_stable_orders_agree(s, o1, o2, s.len() - 1);
    }
    assert(o1 =~= o2);
}

/// Whatever a stable order produces is `stable_sort`.
pub proof fn lemma_stably_sorted_is_stable_sort<T: Ranked>(s: Seq<T>, order: Seq<int>)
    requires
        is_stable_order(s, order),
    ensures
        reordered(s, order) == stable_sort(s),
{
    let chosen = choose|o: Seq<int>| is_stable_order(s, o);
    stable_order_is_unique(s, order, chosen);
}

/// `order` lists the first `m` positions of `s` in stable order.
pub open spec fn orders_prefix<T: Ranked>(s: Seq<T>, m: int, order: Seq<int>) -> bool {
    &&& order.len() == m
    &&& forall|k: int| 0 <= k < order.len() ==> 0 <= #[trigger] order[k]< m
    &&& forall|i: int, j: int|
        0 <= i < j < order.len() ==> precedes(s, #[trigger] order[i], #[trigger] order[j])
}

/// First slot, at or after `k`, whose occupant position `x` precedes.
spec fn first_preceded<T: Ranked>(s: Seq<T>, order: Seq<int>, x: int, k: int) -> int
    decreases order.len() - k,
{
    if k >= order.len() {
        order.len() as int
    } else if precedes(s, x, order[k]) {
        k
    } else {
        first_preceded(s, order, x, k + 1)
    }
}

proof fn lemma_first_preceded<T: Ranked>(s: Seq<T>, order: Seq<int>, x: int, k: int)
    requires
        0 <= k <= order.len(),
    ensures
        k <= first_preceded(s, order, x, k) <= order.len(),
        forall|j: int| k <= j < first_preceded(s, order, x, k) ==> !precedes(s, x, #[trigger] order[j] ),
        first_preceded(s, order, x, k) < order.len() ==> precedes(
            s,
            x,
            order[first_preceded(s, order, x, k)] ,
        ),
    decreases order.len() - k,
{
    if k < order.len() && !precedes(s, x, order[k]) {
        lemma_first_preceded(s, order, x, k + 1);
    }
}

/// Every prefix of every sequence has a stable order.
proof fn lemma_prefix_order_exists<T: Ranked>(s: Seq<T>, m: int)
    requires
        0 <= m <= s.len(),
    ensures
        exists|order: Seq<int>| #[trigger] orders_prefix(s, m, order) && reordered(s, order).to_multiset()
            == s.take(m).to_multiset(),
    decreases m,
{
    if m == 0 {
        assert(orders_prefix(s, 0, Seq::<int>::empty()));
        assert(reordered(s, Seq::<int>::empty()) =~= s.take(0));
    } else {
        lemma_prefix_order_exists(s, m - 1);
        let o = choose|order: Seq<int>| #[trigger] orders_prefix(s, m - 1, order) && reordered(s, order).to_multiset()
            == s.take(m - 1).to_multiset();
        let x = m - 1;
        lemma_first_preceded(s, o, x, 0);
        let p = first_preceded(s, o, x, 0);
        assert forall|k: int| 0 <= k < p implies precedes(s, #[trigger] o[k] , x) by {
            T::rank_total(s[x], s[o[k] ]);
        }
        if p < o.len() {
            assert forall|k: int| p <= k < o.len() implies precedes(s, x, #[trigger] o[k] ) by {
                if k > p {
                    lemma_precedes_transitive(s, x, o[p] , o[k] );
                }
            }
        }
        let n = o.insert(p, x);
        assert forall|k: int| 0 <= k < n.len() implies 0 <= #[trigger] n[k] < m by {
            if k < p {
                assert(n[k] == o[k]);
            } else if k > p {
                assert(n[k] == o[k - 1]);
            }
        }
        assert forall|a: int, b: int| 0 <= a < b < n.len() implies precedes(
            s,
            #[trigger] n[a] ,
            #[trigger] n[b] ,
        ) by {
            if a < p && b < p {
                assert(precedes(s, o[a] , o[b] ));
            } else if a < p && b == p {
                assert(precedes(s, o[a] , x));
            } else if a < p {
                assert(precedes(s, o[a] , o[b - 1] ));
            } else if a == p {
                assert(precedes(s, x, o[b - 1] ));
            } else {
                assert(precedes(s, o[a - 1] , o[b - 1] ));
            }
        }
        assert(orders_prefix(s, m, n));
        assert(reordered(s, n) =~= reordered(s, o).insert(p, s[x]));
        vstd::seq_lib::to_multiset_insert(reordered(s, o), p, s[x]);
        assert(s.take(m) =~= s.take(m - 1).push(s[x]));
        vstd::seq_lib::to_multiset_build(s.take(m - 1), s[x]);
        assert(reordered(s, n).to_multiset() == s.take(m).to_multiset());
    }
}

/// Every sequence has a stable order.
pub proof fn lemma_stable_order_exists<T: Ranked>(s: Seq<T>)
    ensures
        exists|order: Seq<int>| is_stable_order(s, order),
{
    lemma_prefix_order_exists(s, s.len() as int);
    let o = choose|order: Seq<int>| #[trigger] orders_prefix(s, s.len() as int, order) && reordered(s, order).to_multiset()
        == s.take(s.len() as int).to_multiset();
    assert(is_stable_order(s, o));
}

/// Sorting keeps every element exactly as often as it occurs: the result is a
/// permutation of the input.
pub proof fn stable_sort_is_a_permutation<T: Ranked>(s: Seq<T>)
    ensures
        stable_sort(s).to_multiset() == s.to_multiset(),
{
    lemma_prefix_order_exists(s, s.len() as int);
    let o = choose|order: Seq<int>| #[trigger] orders_prefix(s, s.len() as int, order) && reordered(s, order).to_multiset()
        == s.take(s.len() as int).to_multiset();
    assert(is_stable_order(s, o));
    lemma_stably_sorted_is_stable_sort(s, o);
    assert(s.take(s.len() as int) =~= s);
}

/// Sorting keeps the length.
pub proof fn lemma_stable_sort_len<T: Ranked>(s: Seq<T>)
    ensures
        stable_sort(s).len() == s.len(),
{
    lemma_stable_order_exists(s);
}

/// Positions held as machine integers, as mathematical ones.
pub open spec fn positions(v: Seq<usize>) -> Seq<int> {
    v.map_values(|i: usize| i as int)
}

/// The stable order of `v`: its positions sorted by rank, ties by position.
pub fn stable_order<T: RankCompare>(v: &Vec<T>) -> (order: Vec<usize>)
    ensures
        is_stable_order(v@, positions(order@)),
        reordered(v@, positions(order@)) == stable_sort(v@),
{
    let mut order: Vec<usize> = Vec::new();
    let mut i: usize = 0;
    while i < v.len()
        invariant
            i <= v.len(),
            orders_prefix(v@, i as int, positions(order@)),
        decreases v.len() - i,
    {
        let ghost o = positions(order@);
        assert forall|k: int| 0 <= k < order.len() implies #[trigger] order@[k] < i by {
            assert(o[k] == order@[k] as int);
        }
        // First slot whose occupant the new position strictly precedes.
        let mut p: usize = 0;
        while p < order.len() && !(v[i].ranks_no_later(&v[order[p]]) && !v[order[p]].ranks_no_later(&v[i]))
            invariant
                i < v.len(),
                p <= order.len(),
                o == positions(order@),
                orders_prefix(v@, i as int, o),
                forall|k: int| 0 <= k < order.len() ==> #[trigger] order@[k] < i,
                forall|k: int| 0 <= k < p ==> precedes(v@, #[trigger] o[k], i as int),
            decreases order.len() - p,
        {
            proof {
                T::rank_total(v@[i as int], v@[o[p as int]]);
            }
            p = p + 1;
        }
        proof {
            if p < order.len() {
                assert forall|k: int| p <= k < o.len() implies precedes(v@, i as int, #[trigger] o[k]) by {
                    if k > p {
                        lemma_precedes_transitive(v@, i as int, o[p as int], o[k]);
                    }
                }
            }
        }
        order.insert(p, i);
        proof {
            let n = positions(order@);
            assert(n =~= o.insert(p as int, i as int));
            assert forall|k: int| 0 <= k < n.len() implies 0 <= #[trigger] n[k] < i + 1 by {
                if k < p {
                    assert(n[k] == o[k]);
                } else if k > p {
                    assert(n[k] == o[k - 1]);
                }
            }
            assert forall|a: int, b: int| 0 <= a < b < n.len() implies precedes(
                v@,
                #[trigger] n[a],
                #[trigger] n[b],
            ) by {
                if a < p && b < p {
                    assert(precedes(v@, o[a], o[b]));
                } else if a < p && b == p {
                    assert(precedes(v@, o[a], i as int));
                } else if a < p {
                    assert(precedes(v@, o[a], o[b - 1]));
                } else if a == p {
                    assert(precedes(v@, i as int, o[b - 1]));
                } else {
                    assert(precedes(v@, o[a - 1], o[b - 1]));
                }
            }
        }
        i = i + 1;
    }
    proof {
        assert(is_stable_order(v@, positions(order@)));
        lemma_stably_sorted_is_stable_sort(v@, positions(order@));
    }
    order
}

} // verus!

verus! {

/// A copy of `v` sorted by rank, ties in the order they came in.
pub fn sorted_copy<T: RankCompare + crate::copies::Replicate>(v: &Vec<T>) -> (out: Vec<T>)
    ensures
        out@ == stable_sort(v@),
{
    let order = stable_order(v);
    let mut out: Vec<T> = Vec::new();
    let mut k: usize = 0;
    while k < order.len()
        invariant
            is_stable_order(v@, positions(order@)),
            k <= order.len(),
            out.len() == k,
            forall|j: int| 0 <= j < k ==> #[trigger] out@[j] == v@[order@[j] as int],
        decreases order.len() - k,
    {
        proof {
            assert(positions(order@)[k as int] == order@[k as int] as int);
        }
        out.push(v[order[k]].replicate());
        k = k + 1;
    }
    assert(out@ =~= reordered(v@, positions(order@)));
    out
}

} // verus!

verus! {

/// Sorting commutes with a map that keeps every comparison: sorting and then
/// mapping gives what mapping and then sorting gives.
pub proof fn lemma_stable_sort_map<A: Ranked, B: Ranked>(s: Seq<A>, f: spec_fn(A) -> B)
    requires
        forall|x: A, y: A| #[trigger] x.rank_le(y) == f(x).rank_le(f(y)),
    ensures
        stable_sort(s).map_values(f) == stable_sort(s.map_values(f)),
{
    lemma_stable_order_exists(s);
    let o = choose|order: Seq<int>| is_stable_order(s, order);
    let t = s.map_values(f);
    assert(is_stable_order(t, o)) by {
        assert forall|i: int, j: int| 0 <= i < j < o.len() implies precedes(t, #[trigger] o[i], #[trigger] o[j]) by {
            assert(precedes(s, o[i], o[j]));
            assert(s[o[i]].rank_le(s[o[j]]) == f(s[o[i]]).rank_le(f(s[o[j]])));
            assert(s[o[j]].rank_le(s[o[i]]) == f(s[o[j]]).rank_le(f(s[o[i]])));
        }
    }
    lemma_stably_sorted_is_stable_sort(t, o);
    lemma_stably_sorted_is_stable_sort(s, o);
    assert(reordered(s, o).map_values(f) =~= reordered(t, o));
}

} // verus!

verus! {

/// A stable sort never puts a lower-ranked element before a higher-ranked one.
pub proof fn stable_sort_is_sorted<T: Ranked>(s: Seq<T>)
    ensures
        stable_sort(s).len() == s.len(),
        forall|i: int, j: int|
            0 <= i < j < s.len() ==> (#[trigger] stable_sort(s)[i]).rank_le(#[trigger] stable_sort(s)[j]),
{
    lemma_stable_order_exists(s);
    let o = choose|order: Seq<int>| is_stable_order(s, order);
    assert forall|i: int, j: int| 0 <= i < j < s.len() implies (#[trigger] stable_sort(s)[i]).rank_le(
        #[trigger] stable_sort(s)[j],
    ) by {
        assert(precedes(s, o[i], o[j]));
    }
}

/// A stable sort rearranges: it lists the input elements at the positions
/// of a stable order, every input element occurs in it, and nothing else.
pub proof fn stable_sort_rearranges<T: Ranked>(s: Seq<T>)
    ensures
        exists|order: Seq<int>| is_stable_order(s, order) && #[trigger] reordered(s, order) == stable_sort(s),
        forall|i: int| 0 <= i < s.len() ==> stable_sort(s).contains(#[trigger] s[i]),
        forall|k: int| 0 <= k < s.len() ==> s.contains(#[trigger] stable_sort(s)[k]),
{
    lemma_stable_order_exists(s);
    let o = choose|order: Seq<int>| is_stable_order(s, order);
    assert(reordered(s, o) == stable_sort(s));
    assert forall|i: int| 0 <= i < s.len() implies stable_sort(s).contains(#[trigger] s[i]) by {
        lemma_stable_order_covers(s, o, i);
        let k = choose|k: int| 0 <= k < o.len() && o[k] == i;
        assert(reordered(s, o)[k] == s[o[k]]);
        assert(stable_sort(s)[k] == s[i]);
    }
    assert forall|k: int| 0 <= k < s.len() implies s.contains(#[trigger] stable_sort(s)[k]) by {
        assert(reordered(s, o)[k] == s[o[k]]);
        assert(0 <= o[k] < s.len());
    }
}


/// A filter keeps every copy of what passes and nothing else.
pub proof fn filter_keeps_exactly_what_passes<A>(s: Seq<A>, p: spec_fn(A) -> bool, x: A)
    ensures
        s.filter(p).to_multiset().count(x) == if p(x) {
            s.to_multiset().count(x)
        } else {
            0
        },
    decreases s.len(),
{
    broadcast use vstd::multiset::group_multiset_axioms;
    broadcast use vstd::seq_lib::group_to_multiset_ensures;

    reveal(Seq::filter);
    if s.len() == 0 {
        assert(s.filter(p) =~= Seq::<A>::empty());
        assert(!s.contains(x));
    } else {
        let rest = s.drop_last();
        filter_keeps_exactly_what_passes(rest, p, x);
        assert(s =~= rest.push(s.last()));
        vstd::seq_lib::to_multiset_build(rest, s.last());
        vstd::seq_lib::to_multiset_build(rest.filter(p), s.last());
    }
}

} // verus!

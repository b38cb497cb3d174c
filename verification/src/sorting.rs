//! Sorting values by a total order on their views, and the listing of a
//! set in that order.

use vstd::prelude::*;
use vstd::relations::{sorted_by, total_ordering};

use crate::key_set::views_of;
use crate::package_id::Keyed;

verus! {

/// A value whose views are totally ordered, with a test of that order.
pub trait Ordered: View + Sized {
    /// The order, as a relation on views.
    spec fn order() -> spec_fn(Self::V, Self::V) -> bool;

    /// The order is a total order.
    proof fn lemma_order_is_total()
        ensures
            total_ordering(Self::order()),
    ;

    /// Whether `self` comes no later than `other`.
    fn ordered_le(&self, other: &Self) -> (r: bool)
        ensures
            r == (Self::order())(self@, other@),
    ;
}

/// The members of a finite set, listed once each in the order `le`.
pub open spec fn listing<A>(s: Set<A>, le: spec_fn(A, A) -> bool) -> Seq<A> {
    s.to_seq().sort_by(le)
}

/// The keys of a map in the order `le`, each with the value filed under it.
pub open spec fn map_listing<K, V>(m: Map<K, V>, le: spec_fn(K, K) -> bool) -> Seq<(K, V)> {
    listing(m.dom(), le).map_values(|k: K| (k, m[k]))
}

/// The sequence of the members of a finite set has no repetition and holds
/// exactly the members.
pub proof fn lemma_to_seq_no_duplicates<A>(s: Set<A>)
    requires
        s.finite(),
    ensures
        s.to_seq().no_duplicates(),
        s.to_seq().to_set() == s,
    decreases s.len(),
{
    s.lemma_to_seq_to_set_id();
    if s.len() > 0 {
        let x = s.choose();
        let rest = s.remove(x);
        lemma_to_seq_no_duplicates(rest);
        assert(s.to_seq() == Seq::<A>::empty().push(x) + rest.to_seq());
        assert(!rest.to_seq().contains(x)) by {
            if rest.to_seq().contains(x) {
                assert(rest.to_seq().to_set().contains(x));
            }
        }
        assert forall|i: int, j: int|
            0 <= i < s.to_seq().len() && 0 <= j < s.to_seq().len() && i != j implies s.to_seq()[i]
            != s.to_seq()[j] by {
            if i == 0 {
                assert(s.to_seq()[j] == rest.to_seq()[j - 1]);
            } else if j == 0 {
                assert(s.to_seq()[i] == rest.to_seq()[i - 1]);
            } else {
                assert(s.to_seq()[i] == rest.to_seq()[i - 1]);
                assert(s.to_seq()[j] == rest.to_seq()[j - 1]);
            }
        }
    }
}

/// Two sequences without repetitions that hold the same elements are
/// rearrangements of each other.
pub proof fn lemma_same_elements_rearrangement<A>(a: Seq<A>, b: Seq<A>)
    requires
        a.no_duplicates(),
        b.no_duplicates(),
        a.to_set() == b.to_set(),
    ensures
        a.to_multiset() == b.to_multiset(),
{
    broadcast use vstd::multiset::group_multiset_axioms;
    broadcast use vstd::seq_lib::to_multiset_contains;

    a.lemma_multiset_has_no_duplicates();
    b.lemma_multiset_has_no_duplicates();
    assert forall|x: A| a.to_multiset().count(x) == b.to_multiset().count(x) by {
        assert(a.contains(x) == a.to_set().contains(x));
        assert(b.contains(x) == b.to_set().contains(x));
    }
    assert(a.to_multiset() =~= b.to_multiset());
}

/// Sorting a sequence that holds each member of a set once gives the
/// listing of the set.
pub proof fn lemma_sorted_is_listing<A>(a: Seq<A>, le: spec_fn(A, A) -> bool)
    requires
        a.no_duplicates(),
        total_ordering(le),
    ensures
        a.sort_by(le) == listing(a.to_set(), le),
{
    let s = a.to_set();
    a.lemma_cardinality_of_set();
    lemma_to_seq_no_duplicates(s);
    lemma_same_elements_rearrangement(a, s.to_seq());
    a.lemma_sort_by_ensures(le);
    s.to_seq().lemma_sort_by_ensures(le);
    vstd::seq_lib::lemma_sorted_unique(a.sort_by(le), s.to_seq().sort_by(le), le);
}

/// The listing of a finite set holds each member once, in order, and it is
/// the only sequence that does: however the members were gathered, sorting
/// them gives the same sequence.
pub proof fn law_listing_is_unique<A>(s: Set<A>, le: spec_fn(A, A) -> bool, q: Seq<A>)
    requires
        s.finite(),
        total_ordering(le),
        q.no_duplicates(),
        q.to_set() == s,
        sorted_by(q, le),
    ensures
        q == listing(s, le),
        listing(s, le).no_duplicates(),
        listing(s, le).to_set() == s,
        sorted_by(listing(s, le), le),
{
    broadcast use vstd::seq_lib::to_multiset_contains;

    lemma_sorted_is_listing(q, le);
    q.lemma_sort_by_ensures(le);
    vstd::seq_lib::lemma_sorted_unique(q, q.sort_by(le), le);
    lemma_to_seq_no_duplicates(s);
    s.to_seq().lemma_sort_by_ensures(le);
    let l = listing(s, le);
    assert(l.to_set() =~= s) by {
        assert forall|x: A| l.to_set().contains(x) == s.contains(x) by {
            assert(l.contains(x) == (l.to_multiset().count(x) > 0));
            assert(s.to_seq().contains(x) == (s.to_seq().to_multiset().count(x) > 0));
        }
    }
}

/// The positions of `v`, listed so that the values there come in order.
pub fn sorted_positions<T: Ordered>(v: &Vec<T>) -> (r: Vec<usize>)
    ensures
        r@.len() == v@.len(),
        r@.no_duplicates(),
        forall|i: int| 0 <= i < r@.len() ==> #[trigger] r@[i] < v@.len(),
        r@.map_values(|j: usize| v@[j as int]@) == views_of(v@).sort_by(T::order()),
{
    let ghost es = v@;
    let ghost keys = views_of(es);
    let ghost le = T::order();
    let mut out: Vec<usize> = Vec::new();
    let n = v.len();
    let mut k: usize = 0;
    proof {
        T::lemma_order_is_total();
        assert(keys.take(0) =~= Seq::<T::V>::empty());
        assert(out@.map_values(|j: usize| es[j as int]@) =~= Seq::<T::V>::empty());
    }
    while k < n
        invariant
            n == es.len(),
            es == v@,
            keys == views_of(es),
            le == T::order(),
            k <= n,
            total_ordering(le),
            out@.len() == k,
            out@.no_duplicates(),
            forall|i: int| 0 <= i < out@.len() ==> #[trigger] out@[i] < k,
            sorted_by(out@.map_values(|j: usize| es[j as int]@), le),
            out@.map_values(|j: usize| es[j as int]@).to_multiset() == keys.take(
                k as int,
            ).to_multiset(),
        decreases n - k,
    {
        let ghost ks = out@.map_values(|j: usize| es[j as int]@);
        let t = &v[k];
        let len = out.len();
        let mut p: usize = 0;
        while p < len
            invariant
                len == out@.len(),
                p <= len,
                ks == out@.map_values(|j: usize| es[j as int]@),
                forall|i: int| 0 <= i < out@.len() ==> #[trigger] out@[i] < k,
                k < n,
                n == es.len(),
                es == v@,
                le == T::order(),
                forall|q: int| 0 <= q < p ==> le(#[trigger] ks[q], t@),
            ensures
                p <= len,
                forall|q: int| 0 <= q < p ==> le(#[trigger] ks[q], t@),
                p < len ==> !le(ks[p as int], t@),
            decreases len - p,
        {
            assert(out@[p as int] < n);
            if !v[out[p]].ordered_le(t) {
                break;
            }
            p += 1;
        }
        let ghost before = out@;
        out.insert(p, k);
        proof {
            let nks = out@.map_values(|j: usize| es[j as int]@);
            assert(keys[k as int] == t@);
            assert(nks =~= ks.insert(p as int, t@));
            assert forall|i: int, j: int| 0 <= i < j < nks.len() implies le(
                #[trigger] nks[i],
                #[trigger] nks[j],
            ) by {
                if j < p {
                    assert(nks[i] == ks[i] && nks[j] == ks[j]);
                } else if j == p {
                    assert(nks[i] == ks[i]);
                } else if i == p {
                    assert(nks[j] == ks[j - 1]);
                    assert(le(t@, ks[p as int])) by {
                        assert(le(ks[p as int], t@) || le(t@, ks[p as int]));
                    }
                    if j - 1 > p {
                        assert(le(ks[p as int], ks[j - 1]));
                    }
                } else if i < p {
                    assert(nks[i] == ks[i] && nks[j] == ks[j - 1]);
                } else {
                    assert(nks[i] == ks[i - 1] && nks[j] == ks[j - 1]);
                }
            }
            assert(out@ =~= before.insert(p as int, k));
            assert forall|i: int, j: int|
                0 <= i < out@.len() && 0 <= j < out@.len() && i != j implies out@[i]
                != out@[j] by {
                if i == p as int {
                    if j < p {
                        assert(out@[j] == before[j]);
                    } else {
                        assert(out@[j] == before[j - 1]);
                    }
                } else if j == p as int {
                    if i < p {
                        assert(out@[i] == before[i]);
                    } else {
                        assert(out@[i] == before[i - 1]);
                    }
                } else {
                    let bi = if i < p {
                        i
                    } else {
                        i - 1
                    };
                    let bj = if j < p {
                        j
                    } else {
                        j - 1
                    };
                    assert(out@[i] == before[bi] && out@[j] == before[bj]);
                }
            }
            vstd::seq_lib::to_multiset_insert(ks, p as int, t@);
            assert(keys.take(k + 1) =~= keys.take(k as int).push(t@));
            keys.take(k as int).to_multiset_ensures();
            keys.take(k + 1).to_multiset_ensures();
        }
        k += 1;
    }
    proof {
        assert(keys.take(n as int) =~= keys);
        keys.lemma_sort_by_ensures(le);
        vstd::seq_lib::lemma_sorted_unique(
            out@.map_values(|j: usize| es[j as int]@),
            keys.sort_by(le),
            le,
        );
    }
    out
}

/// Copies of the values of `v` at `positions`, in that order.
pub fn take_in_order<T: Keyed>(v: &Vec<T>, positions: &Vec<usize>) -> (r: Vec<T>)
    requires
        forall|i: int| 0 <= i < positions@.len() ==> #[trigger] positions@[i] < v@.len(),
    ensures
        views_of(r@) == positions@.map_values(|j: usize| v@[j as int]@),
{
    let mut out: Vec<T> = Vec::new();
    let n = positions.len();
    let mut i: usize = 0;
    while i < n
        invariant
            n == positions@.len(),
            i <= n,
            forall|q: int| 0 <= q < positions@.len() ==> #[trigger] positions@[q] < v@.len(),
            views_of(out@) == positions@.take(i as int).map_values(|j: usize| v@[j as int]@),
        decreases n - i,
    {
        let ghost before = views_of(out@);
        out.push(v[positions[i]].duplicate());
        proof {
            assert(views_of(out@) =~= before.push(v@[positions@[i as int] as int]@));
            assert(positions@.take(i + 1).map_values(|j: usize| v@[j as int]@) =~= positions@.take(
                i as int,
            ).map_values(|j: usize| v@[j as int]@).push(v@[positions@[i as int] as int]@));
        }
        i += 1;
    }
    assert(positions@.take(n as int) =~= positions@);
    out
}

} // verus!

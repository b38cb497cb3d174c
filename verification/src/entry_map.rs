//! Report entries filed under the id of the package that each describes.
//!
//! The entries are kept in a vector with at most one per package id, for the
//! reason given in `key_set`: vstd specifies `std` hash maps only for keys of
//! primitive type.

use vstd::prelude::*;

use crate::id_order::{id_order, law_id_order_is_total};
use crate::key_set::views_of;
use crate::sorting::{lemma_sorted_is_listing, listing, map_listing, sorted_positions};
use crate::package_id::{Keyed, PackageId, PackageIdView};

verus! {

/// An entry of a report: it describes one package, whose id it gives.
pub trait Entry: View + Sized {
    /// The id of the package that the entry describes.
    spec fn package_key(&self) -> PackageIdView;

    /// The id of the package that the entry describes.
    fn package_id(&self) -> (r: &PackageId)
        ensures
            r@ == self.package_key(),
    ;

    /// A copy of the entry, of the same value and package id.
    fn duplicate_entry(&self) -> (r: Self)
        ensures
            r@ == self@,
            r.package_key() == self.package_key(),
    ;

    /// Whether two entries have the same value.
    fn same_entry(&self, other: &Self) -> (r: bool)
        ensures
            r == (self@ == other@),
    ;
}

/// The map that filing `s` in order gives: each entry under its package id,
/// a later entry replacing an earlier one with the same id.
pub open spec fn entries_map<E: Entry>(s: Seq<E>) -> Map<PackageIdView, E::V>
    decreases s.len(),
{
    if s.len() == 0 {
        Map::empty()
    } else {
        entries_map(s.drop_last()).insert(s.last().package_key(), s.last()@)
    }
}

/// No two entries of `s` describe the same package.
pub open spec fn keys_distinct<E: Entry>(s: Seq<E>) -> bool {
    forall|i: int, j: int|
        0 <= i < j < s.len() ==> #[trigger] s[i].package_key() != #[trigger] s[j].package_key()
}

/// A package id is filed exactly where some entry of `s` has it.
pub proof fn lemma_entries_map_keys<E: Entry>(s: Seq<E>, k: PackageIdView)
    ensures
        entries_map(s).contains_key(k) <==> exists|i: int|
            0 <= i < s.len() && #[trigger] s[i].package_key() == k,
    decreases s.len(),
{
    if s.len() > 0 {
        let t = s.drop_last();
        lemma_entries_map_keys(t, k);
        if entries_map(s).contains_key(k) {
            if k != s.last().package_key() {
                let i = choose|i: int| 0 <= i < t.len() && #[trigger] t[i].package_key() == k;
                assert(s[i] == t[i]);
            } else {
                assert(s[s.len() - 1].package_key() == k);
            }
        }
        if exists|i: int| 0 <= i < s.len() && #[trigger] s[i].package_key() == k {
            let i = choose|i: int| 0 <= i < s.len() && #[trigger] s[i].package_key() == k;
            if i < s.len() - 1 {
                assert(t[i] == s[i]);
            }
        }
    }
}

/// With distinct keys, an entry's package id maps to that entry.
pub proof fn lemma_entries_map_value<E: Entry>(s: Seq<E>, j: int)
    requires
        keys_distinct(s),
        0 <= j < s.len(),
    ensures
        entries_map(s).contains_key(s[j].package_key()),
        entries_map(s)[s[j].package_key()] == s[j]@,
    decreases s.len(),
{
    let t = s.drop_last();
    if j < s.len() - 1 {
        assert(t[j] == s[j]);
        assert(keys_distinct(t));
        lemma_entries_map_value(t, j);
        assert(s[j].package_key() != s[s.len() - 1].package_key());
    }
}

/// With distinct keys, replacing an entry by one with the same package id
/// replaces the value filed under that id.
pub proof fn lemma_entries_map_update<E: Entry>(s: Seq<E>, j: int, e: E)
    requires
        keys_distinct(s),
        0 <= j < s.len(),
        s[j].package_key() == e.package_key(),
    ensures
        keys_distinct(s.update(j, e)),
        entries_map(s.update(j, e)) == entries_map(s).insert(e.package_key(), e@),
    decreases s.len(),
{
    let u = s.update(j, e);
    let t = s.drop_last();
    assert forall|a: int, b: int| 0 <= a < b < u.len() implies #[trigger] u[a].package_key()
        != #[trigger] u[b].package_key() by {
        assert(s[a].package_key() != s[b].package_key());
    }
    if j == s.len() - 1 {
        assert(u.drop_last() =~= t);
        assert(entries_map(u) =~= entries_map(s).insert(e.package_key(), e@));
    } else {
        assert(u.drop_last() =~= t.update(j, e));
        assert(t[j] == s[j]);
        assert(keys_distinct(t));
        lemma_entries_map_update(t, j, e);
        assert(s.last().package_key() != e.package_key());
        assert(entries_map(u) =~= entries_map(s).insert(e.package_key(), e@));
    }
}

/// Filing entries in order keeps, for each package, the last entry that
/// describes it.
pub proof fn law_last_entry_wins<E: Entry>(s: Seq<E>, i: int)
    requires
        0 <= i < s.len(),
        forall|j: int| i < j < s.len() ==> #[trigger] s[j].package_key() != s[i].package_key(),
    ensures
        entries_map(s).contains_key(s[i].package_key()),
        entries_map(s)[s[i].package_key()] == s[i]@,
    decreases s.len(),
{
    let t = s.drop_last();
    if i < s.len() - 1 {
        assert forall|j: int| i < j < t.len() implies #[trigger] t[j].package_key()
            != t[i].package_key() by {
            assert(t[j] == s[j]);
        }
        law_last_entry_wins(t, i);
        assert(s[s.len() - 1].package_key() != s[i].package_key());
    }
}

/// The package id and value of an entry.
pub open spec fn filed_pair<E: Entry>(e: E) -> (PackageIdView, E::V) {
    (e.package_key(), e@)
}

/// The package id and value of each entry of `s`, in order.
pub open spec fn filed_pairs<E: Entry>(s: Seq<E>) -> Seq<(PackageIdView, E::V)> {
    s.map_values(|e: E| filed_pair(e))
}

/// The package ids of a map, each with the value filed under it, in the
/// order of package ids.
pub open spec fn entry_listing<V>(m: Map<PackageIdView, V>) -> Seq<(PackageIdView, V)> {
    map_listing(m, id_order())
}

/// The map that filing `s` in order gives: each value under its key, a later
/// pair replacing an earlier one with the same key.
pub open spec fn pairs_map<K, V>(s: Seq<(K, V)>) -> Map<K, V>
    decreases s.len(),
{
    if s.len() == 0 {
        Map::empty()
    } else {
        pairs_map(s.drop_last()).insert(s.last().0, s.last().1)
    }
}

/// No two pairs of `s` have the same key.
pub open spec fn pair_keys_distinct<K, V>(s: Seq<(K, V)>) -> bool {
    forall|i: int, j: int| 0 <= i < j < s.len() ==> #[trigger] s[i].0 != #[trigger] s[j].0
}

proof fn lemma_entries_map_is_pairs_map<E: Entry>(s: Seq<E>)
    ensures
        entries_map(s) == pairs_map(filed_pairs(s)),
    decreases s.len(),
{
    if s.len() > 0 {
        assert(filed_pairs(s).drop_last() =~= filed_pairs(s.drop_last()));
        lemma_entries_map_is_pairs_map(s.drop_last());
    }
}

/// A key is filed exactly where some pair of `s` has it.
pub proof fn lemma_pairs_map_keys<K, V>(s: Seq<(K, V)>, k: K)
    ensures
        pairs_map(s).contains_key(k) <==> exists|i: int| 0 <= i < s.len() && #[trigger] s[i].0 == k,
    decreases s.len(),
{
    if s.len() > 0 {
        let t = s.drop_last();
        lemma_pairs_map_keys(t, k);
        if pairs_map(s).contains_key(k) && k != s.last().0 {
            let i = choose|i: int| 0 <= i < t.len() && #[trigger] t[i].0 == k;
            assert(s[i] == t[i]);
        }
        if pairs_map(s).contains_key(k) && k == s.last().0 {
            assert(s[s.len() - 1].0 == k);
        }
        if exists|i: int| 0 <= i < s.len() && #[trigger] s[i].0 == k {
            let i = choose|i: int| 0 <= i < s.len() && #[trigger] s[i].0 == k;
            if i < s.len() - 1 {
                assert(t[i] == s[i]);
            }
        }
    }
}

/// With distinct keys, the key of a pair maps to the pair's value.
pub proof fn lemma_pairs_map_value<K, V>(s: Seq<(K, V)>, j: int)
    requires
        pair_keys_distinct(s),
        0 <= j < s.len(),
    ensures
        pairs_map(s).contains_key(s[j].0),
        pairs_map(s)[s[j].0] == s[j].1,
    decreases s.len(),
{
    let t = s.drop_last();
    if j < s.len() - 1 {
        assert(t[j] == s[j]);
        assert(pair_keys_distinct(t));
        lemma_pairs_map_value(t, j);
        assert(s[j].0 != s[s.len() - 1].0);
    }
}

/// With distinct keys, as many keys are filed as there are pairs.
pub proof fn lemma_pairs_map_len<K, V>(s: Seq<(K, V)>)
    requires
        pair_keys_distinct(s),
    ensures
        pairs_map(s).dom().finite(),
        pairs_map(s).dom().len() == s.len(),
    decreases s.len(),
{
    if s.len() > 0 {
        let t = s.drop_last();
        assert(pair_keys_distinct(t));
        lemma_pairs_map_len(t);
        lemma_pairs_map_keys(t, s.last().0);
        if pairs_map(t).contains_key(s.last().0) {
            let i = choose|i: int| 0 <= i < t.len() && #[trigger] t[i].0 == s.last().0;
            assert(s[i] == t[i]);
            assert(s[i].0 != s[s.len() - 1].0);
        }
    }
}

/// Filing the same pairs in another order gives the same map, when no two
/// pairs have the same key.
pub proof fn law_refiling_pairs<K, V>(s: Seq<(K, V)>, t: Seq<(K, V)>)
    requires
        pair_keys_distinct(s),
        t.to_multiset() == s.to_multiset(),
    ensures
        pair_keys_distinct(t),
        pairs_map(t) == pairs_map(s),
{
    broadcast use vstd::multiset::group_multiset_axioms;
    broadcast use vstd::seq_lib::to_multiset_contains;

    assert(s.no_duplicates()) by {
        assert forall|i: int, j: int| 0 <= i < s.len() && 0 <= j < s.len() && i != j implies s[i]
            != s[j] by {
            if i < j {
                assert(s[i].0 != s[j].0);
            } else {
                assert(s[j].0 != s[i].0);
            }
        }
    }
    s.lemma_multiset_has_no_duplicates();
    t.lemma_multiset_has_no_duplicates_conv();
    assert forall|i: int| 0 <= i < t.len() implies #[trigger] s.contains(t[i]) by {
        assert(t.contains(t[i]));
        assert(t.to_multiset().count(t[i]) > 0);
    }
    assert forall|i: int| 0 <= i < s.len() implies #[trigger] t.contains(s[i]) by {
        assert(s.contains(s[i]));
        assert(s.to_multiset().count(s[i]) > 0);
    }
    assert forall|i: int, j: int| 0 <= i < j < t.len() implies #[trigger] t[i].0 != #[trigger] t[j].0 by {
        assert(t[i] != t[j]);
        assert(s.contains(t[i]));
        assert(s.contains(t[j]));
        let p = choose|p: int| 0 <= p < s.len() && s[p] == t[i];
        let q = choose|q: int| 0 <= q < s.len() && s[q] == t[j];
        if p < q {
            assert(s[p].0 != s[q].0);
        } else {
            assert(s[q].0 != s[p].0);
        }
    }
    assert forall|k: K| #[trigger] pairs_map(t).contains_key(k) == pairs_map(s).contains_key(k) by {
        lemma_pairs_map_keys(t, k);
        lemma_pairs_map_keys(s, k);
        if exists|i: int| 0 <= i < t.len() && #[trigger] t[i].0 == k {
            let i = choose|i: int| 0 <= i < t.len() && #[trigger] t[i].0 == k;
            assert(s.contains(t[i]));
            let p = choose|p: int| 0 <= p < s.len() && s[p] == t[i];
            assert(s[p].0 == k);
        }
        if exists|p: int| 0 <= p < s.len() && #[trigger] s[p].0 == k {
            let p = choose|p: int| 0 <= p < s.len() && #[trigger] s[p].0 == k;
            assert(t.contains(s[p]));
            let i = choose|i: int| 0 <= i < t.len() && t[i] == s[p];
            assert(t[i].0 == k);
        }
    }
    assert forall|k: K| #[trigger] pairs_map(t).contains_key(k) implies pairs_map(t)[k] == pairs_map(
        s,
    )[k] by {
        lemma_pairs_map_keys(t, k);
        let i = choose|i: int| 0 <= i < t.len() && #[trigger] t[i].0 == k;
        assert(s.contains(t[i]));
        let p = choose|p: int| 0 <= p < s.len() && s[p] == t[i];
        lemma_pairs_map_value(t, i);
        lemma_pairs_map_value(s, p);
    }
    assert(pairs_map(t) =~= pairs_map(s));
}

/// Filing entries that describe the same packages with the same values, in
/// any order, gives the same map, when no two describe the same package.
/// The entries need only agree in package id and value, not be the same
/// values: reading back entries written out in any order restores the map
/// they were written from.
pub proof fn law_refiling_in_any_order<E: Entry>(s: Seq<E>, t: Seq<E>)
    requires
        keys_distinct(s),
        filed_pairs(t).to_multiset() == filed_pairs(s).to_multiset(),
    ensures
        keys_distinct(t),
        entries_map(t) == entries_map(s),
{
    let p = filed_pairs(s);
    let q = filed_pairs(t);
    assert forall|i: int, j: int| 0 <= i < j < p.len() implies #[trigger] p[i].0 != #[trigger] p[j].0 by {
        assert(s[i].package_key() != s[j].package_key());
    }
    law_refiling_pairs(p, q);
    assert forall|i: int, j: int| 0 <= i < j < t.len() implies #[trigger] t[i].package_key()
        != #[trigger] t[j].package_key() by {
        assert(q[i].0 != q[j].0);
    }
    lemma_entries_map_is_pairs_map(s);
    lemma_entries_map_is_pairs_map(t);
}

/// What a map holds is given back by its entries: filing, in any order,
/// entries with the same package ids and values as the map's entries gives
/// the map again.
pub proof fn law_read_back<E: Entry>(m: EntryMap<E>, t: Seq<E>)
    requires
        m.well_formed(),
        filed_pairs(t).to_multiset() == filed_pairs(m.entry_seq()).to_multiset(),
    ensures
        entries_map(t) == m@,
{
    law_refiling_in_any_order(m.entry_seq(), t);
}

/// Maps of equal value list their entries alike: at the positions that
/// `sorted_order` gives, both hold the same package ids with the same values,
/// whatever order their entries were filed in.
pub proof fn law_equal_maps_list_alike<E: Entry>(a: EntryMap<E>, b: EntryMap<E>)
    requires
        a@ == b@,
    ensures
        entry_listing(a@) == entry_listing(b@),
{
}

proof fn lemma_same_filing<E: Entry>(a: Seq<E>, b: Seq<E>)
    requires
        a.len() == b.len(),
        forall|j: int|
            #![trigger a[j]]
            0 <= j < a.len() ==> a[j]@ == b[j]@ && a[j].package_key() == b[j].package_key(),
        keys_distinct(b),
    ensures
        keys_distinct(a),
        entries_map(a) == entries_map(b),
    decreases a.len(),
{
    assert forall|i: int, j: int| 0 <= i < j < a.len() implies #[trigger] a[i].package_key()
        != #[trigger] a[j].package_key() by {
        assert(b[i].package_key() != b[j].package_key());
    }
    if a.len() > 0 {
        let a1 = a.drop_last();
        let b1 = b.drop_last();
        assert forall|j: int| #![trigger a1[j]] 0 <= j < a1.len() implies a1[j]@ == b1[j]@
            && a1[j].package_key() == b1[j].package_key() by {
            assert(a1[j] == a[j] && b1[j] == b[j]);
        }
        assert(keys_distinct(b1));
        lemma_same_filing(a1, b1);
        assert(a.last()@ == b.last()@);
    }
}

/// With distinct keys, as many package ids are filed as there are entries.
pub proof fn lemma_entries_map_len<E: Entry>(s: Seq<E>)
    requires
        keys_distinct(s),
    ensures
        entries_map(s).dom().finite(),
        entries_map(s).dom().len() == s.len(),
    decreases s.len(),
{
    if s.len() > 0 {
        let t = s.drop_last();
        assert(keys_distinct(t));
        lemma_entries_map_len(t);
        lemma_entries_map_keys(t, s.last().package_key());
        if entries_map(t).contains_key(s.last().package_key()) {
            let i = choose|i: int|
                0 <= i < t.len() && #[trigger] t[i].package_key() == s.last().package_key();
            assert(s[i] == t[i]);
            assert(s[i].package_key() != s[s.len() - 1].package_key());
        }
    }
}

/// Entries filed under the ids of the packages they describe, at most one
/// per package.
#[derive(Debug)]
pub struct EntryMap<E: Entry> {
    items: Vec<E>,
}

impl<E: Entry> View for EntryMap<E> {
    type V = Map<PackageIdView, E::V>;

    closed spec fn view(&self) -> Map<PackageIdView, E::V> {
        entries_map(self.items@)
    }
}

impl<E: Entry> EntryMap<E> {
    #[verifier::type_invariant]
    closed spec fn distinct(self) -> bool {
        keys_distinct(self.items@)
    }

    /// A map with no entries.
    pub fn new() -> (r: Self)
        ensures
            r@ == Map::<PackageIdView, E::V>::empty(),
    {
        EntryMap { items: Vec::new() }
    }

    fn find(&self, id: &PackageId) -> (r: Option<usize>)
        ensures
            match r {
                Some(j) => j < self.items@.len() && self.items@[j as int].package_key() == id@,
                None => forall|i: int|
                    0 <= i < self.items@.len() ==> #[trigger] self.items@[i].package_key() != id@,
            },
    {
        let n = self.items.len();
        let mut i: usize = 0;
        while i < n
            invariant
                n == self.items@.len(),
                i <= n,
                forall|j: int| 0 <= j < i ==> #[trigger] self.items@[j].package_key() != id@,
            decreases n - i,
        {
            if self.items[i].package_id().same_key(id) {
                return Some(i);
            }
            i += 1;
        }
        None
    }

    /// The entry filed under `id`, if any.
    pub fn get(&self, id: &PackageId) -> (r: Option<&E>)
        ensures
            match r {
                Some(e) => self@.contains_key(id@) && e@ == self@[id@],
                None => !self@.contains_key(id@),
            },
    {
        proof {
            use_type_invariant(self);
            lemma_entries_map_keys(self.items@, id@);
        }
        match self.find(id) {
            Some(j) => {
                proof {
                    lemma_entries_map_value(self.items@, j as int);
                }
                Some(&self.items[j])
            },
            None => None,
        }
    }

    /// Whether both maps file the same values under the same package ids.
    pub fn same_entries(&self, other: &Self) -> (r: bool)
        ensures
            r == (self@ == other@),
    {
        proof {
            use_type_invariant(self);
            use_type_invariant(other);
            lemma_entries_map_len(self.items@);
            lemma_entries_map_len(other.items@);
        }
        if self.items.len() != other.items.len() {
            return false;
        }
        let n = self.items.len();
        let mut i: usize = 0;
        while i < n
            invariant
                n == self.items@.len(),
                n == other.items@.len(),
                i <= n,
                keys_distinct(self.items@),
                forall|j: int|
                    0 <= j < i ==> #[trigger] other@.contains_key(self.items@[j].package_key())
                        && other@[self.items@[j].package_key()] == self.items@[j]@,
            decreases n - i,
        {
            proof {
                lemma_entries_map_value(self.items@, i as int);
            }
            match other.get(self.items[i].package_id()) {
                None => {
                    return false;
                },
                Some(e) => {
                    if !self.items[i].same_entry(e) {
                        return false;
                    }
                },
            }
            i += 1;
        }
        proof {
            assert forall|k: PackageIdView| #[trigger] self@.contains_key(k) implies other@.contains_key(
                k,
            ) && other@[k] == self@[k] by {
                lemma_entries_map_keys(self.items@, k);
                let j = choose|j: int| 0 <= j < self.items@.len() && #[trigger] self.items@[j].package_key() == k;
                lemma_entries_map_value(self.items@, j);
            }
            vstd::set_lib::lemma_subset_equality(self@.dom(), other@.dom());
            assert(self@ =~= other@);
        }
        true
    }

    /// Files `e` under its package id, replacing any entry filed there.
    pub fn insert(&mut self, e: E)
        ensures
            final(self)@ == old(self)@.insert(e.package_key(), e@),
    {
        proof {
            use_type_invariant(&*self);
        }
        let found = self.find(e.package_id());
        let ghost before = self.items@;
        let mut items = Vec::new();
        std::mem::swap(&mut items, &mut self.items);
        match found {
            Some(j) => {
                proof {
                    lemma_entries_map_update(before, j as int, e);
                }
                items.set(j, e);
                assert(items@ == before.update(j as int, e));
            },
            None => {
                items.push(e);
                assert(items@.drop_last() =~= before);
                assert(keys_distinct(items@));
            },
        }
        self.items = items;
    }

    /// The entries, in the order they are kept.
    pub closed spec fn entry_seq(self) -> Seq<E> {
        self.items@
    }

    /// No two kept entries describe the same package: what every map upholds.
    pub closed spec fn well_formed(self) -> bool {
        keys_distinct(self.items@)
    }

    /// The entries, each describing a different package.
    pub fn entries(&self) -> (r: &Vec<E>)
        ensures
            self.well_formed(),
            r@ == self.entry_seq(),
            entries_map(r@) == self@,
            keys_distinct(r@),
    {
        proof {
            use_type_invariant(self);
        }
        &self.items
    }

    /// The positions of the entries in `entries()`, listed in the order of
    /// their package ids. The ids and values found there, in that order, are
    /// the listing of the map's value, so maps of equal value list alike.
    pub fn sorted_order(&self) -> (r: Vec<usize>)
        ensures
            r@.len() == self.entry_seq().len(),
            r@.no_duplicates(),
            forall|i: int| 0 <= i < r@.len() ==> #[trigger] r@[i] < self.entry_seq().len(),
            r@.map_values(|j: usize| self.entry_seq()[j as int].package_key())
                == self.entry_seq().map_values(|e: E| e.package_key()).sort_by(id_order()),
            r@.map_values(|j: usize| filed_pair(self.entry_seq()[j as int])) == entry_listing(
                self@,
            ),
    {
        proof {
            use_type_invariant(self);
        }
        let ghost es = self.items@;
        let ghost keys = es.map_values(|e: E| e.package_key());
        let mut ids: Vec<PackageId> = Vec::new();
        let n = self.items.len();
        let mut i: usize = 0;
        while i < n
            invariant
                n == es.len(),
                es == self.items@,
                keys == es.map_values(|e: E| e.package_key()),
                i <= n,
                views_of(ids@) == keys.take(i as int),
            decreases n - i,
        {
            ids.push(self.items[i].package_id().duplicate());
            proof {
                assert(keys.take(i + 1) =~= keys.take(i as int).push(keys[i as int]));
                assert(views_of(ids@) =~= keys.take(i + 1));
            }
            i += 1;
        }
        let r = sorted_positions(&ids);
        proof {
            assert(keys.take(n as int) =~= keys);
            assert(views_of(ids@) == keys);
            assert forall|q: int| 0 <= q < r@.len() implies es[#[trigger] r@[q] as int].package_key()
                == ids@[r@[q] as int]@ by {
                assert(views_of(ids@)[r@[q] as int] == ids@[r@[q] as int]@);
            }
            assert(r@.map_values(|j: usize| es[j as int].package_key()) =~= r@.map_values(
                |j: usize| ids@[j as int]@,
            ));
            law_id_order_is_total();
            assert(keys.no_duplicates()) by {
                assert forall|a: int, b: int| 0 <= a < keys.len() && 0 <= b < keys.len() && a != b
                    implies keys[a] != keys[b] by {
                    if a < b {
                        assert(es[a].package_key() != es[b].package_key());
                    } else {
                        assert(es[b].package_key() != es[a].package_key());
                    }
                }
            }
            assert(keys.to_set() =~= self@.dom()) by {
                assert forall|k: PackageIdView| keys.to_set().contains(k) == self@.dom().contains(k) by {
                    lemma_entries_map_keys(es, k);
                    if keys.contains(k) {
                        let a = choose|a: int| 0 <= a < keys.len() && keys[a] == k;
                        assert(es[a].package_key() == k);
                    }
                    if exists|a: int| 0 <= a < es.len() && #[trigger] es[a].package_key() == k {
                        let a = choose|a: int| 0 <= a < es.len() && #[trigger] es[a].package_key() == k;
                        assert(keys[a] == k);
                    }
                }
            }
            lemma_sorted_is_listing(keys, id_order());
            let sorted = listing(self@.dom(), id_order());
            let got = r@.map_values(|j: usize| filed_pair(es[j as int]));
            assert forall|q: int| 0 <= q < got.len() implies #[trigger] got[q] == entry_listing(
                self@,
            )[q] by {
                let j = r@[q] as int;
                assert(r@.map_values(|j: usize| es[j as int].package_key())[q] == sorted[q]);
                lemma_entries_map_value(es, j);
            }
            assert(got =~= entry_listing(self@));
        }
        r
    }

    /// Files the entries of `v` in order, a later entry replacing an earlier
    /// one for the same package.
    pub fn from_entries(v: Vec<E>) -> (r: Self)
        ensures
            r@ == entries_map(v@),
    {
        let ghost all = v@;
        let mut rest = v;
        let mut map = EntryMap::new();
        let n = rest.len();
        let mut k: usize = 0;
        while k < n
            invariant
                n == all.len(),
                k <= n,
                rest@ == all.skip(k as int),
                map@ == entries_map(all.take(k as int)),
            decreases n - k,
        {
            let e = rest.remove(0);
            assert(all.take(k + 1).drop_last() =~= all.take(k as int));
            assert(all.take(k + 1).last() == e);
            map.insert(e);
            assert(rest@ =~= all.skip(k + 1));
            k += 1;
        }
        assert(all.take(n as int) =~= all);
        map
    }
}

impl<E: Entry> Clone for EntryMap<E> {
    /// A copy filing entries of the same values under the same package ids.
    fn clone(&self) -> (r: Self)
        ensures
            r@ == self@,
    {
        proof {
            use_type_invariant(self);
        }
        let mut items: Vec<E> = Vec::new();
        let n = self.items.len();
        let mut i: usize = 0;
        while i < n
            invariant
                n == self.items@.len(),
                i <= n,
                keys_distinct(self.items@),
                items@.len() == i,
                forall|j: int|
                    #![trigger items@[j]]
                    0 <= j < i ==> items@[j]@ == self.items@[j]@ && items@[j].package_key()
                        == self.items@[j].package_key(),
            decreases n - i,
        {
            items.push(self.items[i].duplicate_entry());
            i += 1;
        }
        proof {
            lemma_same_filing(items@, self.items@);
        }
        EntryMap { items }
    }
}

impl<E: Entry> PartialEq for EntryMap<E> {
    fn eq(&self, other: &Self) -> (r: bool) {
        self.same_entries(other)
    }
}

impl<E: Entry> vstd::std_specs::cmp::PartialEqSpecImpl for EntryMap<E> {
    open spec fn obeys_eq_spec() -> bool {
        true
    }

    open spec fn eq_spec(&self, other: &Self) -> bool {
        self@ == other@
    }
}

impl<E: Entry> Eq for EntryMap<E> {
}

} // verus!

//! A finite set of keyed values, compared by their views.
//!
//! A `std` hash set is specified by vstd only for key types that obey its
//! hash-table key model, which vstd grants to primitive types alone; a package
//! id, a struct of strings, cannot be shown to obey it. The set therefore keeps
//! its values in a vector, with no two of the same view.

use vstd::prelude::*;

use crate::package_id::Keyed;

verus! {

/// The views of the values of `s`, in order.
pub open spec fn views_of<K: View>(s: Seq<K>) -> Seq<K::V> {
    s.map_values(|k: K| k@)
}

/// A set of values in which no two have the same view.
#[derive(Debug)]
pub struct KeySet<K: Keyed> {
    items: Vec<K>,
}

impl<K: Keyed> View for KeySet<K> {
    type V = Set<K::V>;

    closed spec fn view(&self) -> Set<K::V> {
        views_of(self.items@).to_set()
    }
}

impl<K: Keyed> KeySet<K> {
    #[verifier::type_invariant]
    closed spec fn distinct(self) -> bool {
        views_of(self.items@).no_duplicates()
    }

    /// An empty set.
    pub fn new() -> (r: Self)
        ensures
            r@ == Set::<K::V>::empty(),
    {
        let r = KeySet { items: Vec::new() };
        assert(views_of(r.items@).to_set() =~= Set::<K::V>::empty());
        r
    }

    /// Whether a value with the view of `k` is in the set.
    pub fn contains(&self, k: &K) -> (r: bool)
        ensures
            r == self@.contains(k@),
    {
        let n = self.items.len();
        let mut i: usize = 0;
        while i < n
            invariant
                n == self.items@.len(),
                i <= n,
                forall|j: int| 0 <= j < i ==> self.items@[j]@ != k@,
            decreases n - i,
        {
            if self.items[i].same_key(k) {
                assert(views_of(self.items@)[i as int] == k@);
                return true;
            }
            i += 1;
        }
        assert(!views_of(self.items@).contains(k@));
        false
    }

    /// Adds `k` unless a value with its view is already there; tells whether
    /// it was added.
    pub fn insert(&mut self, k: K) -> (r: bool)
        ensures
            final(self)@ == old(self)@.insert(k@),
            r == !old(self)@.contains(k@),
    {
        proof {
            use_type_invariant(&*self);
        }
        if self.contains(&k) {
            assert(self@.insert(k@) =~= self@);
            return false;
        }
        let ghost before = self.items@;
        let mut items = Vec::new();
        std::mem::swap(&mut items, &mut self.items);
        items.push(k);
        proof {
            assert(views_of(items@) =~= views_of(before).push(k@));
            views_of(before).lemma_push_to_set_commute(k@);
            assert(!views_of(before).contains(k@));
        }
        self.items = items;
        true
    }

    /// The number of values in the set.
    pub fn len(&self) -> (r: usize)
        ensures
            r == self@.len(),
    {
        proof {
            use_type_invariant(self);
            views_of(self.items@).unique_seq_to_set();
        }
        self.items.len()
    }

    /// Whether both sets hold values with the same views.
    pub fn same_elements(&self, other: &Self) -> (r: bool)
        ensures
            r == (self@ == other@),
    {
        proof {
            use_type_invariant(self);
            use_type_invariant(other);
            views_of(self.items@).unique_seq_to_set();
            views_of(other.items@).unique_seq_to_set();
        }
        if self.items.len() != other.items.len() {
            return false;
        }
        let n = self.items.len();
        let mut i: usize = 0;
        while i < n
            invariant
                n == self.items@.len(),
                i <= n,
                forall|j: int| 0 <= j < i ==> other@.contains(#[trigger] self.items@[j]@),
            decreases n - i,
        {
            if !other.contains(&self.items[i]) {
                assert(views_of(self.items@)[i as int] == self.items@[i as int]@);
                return false;
            }
            i += 1;
        }
        proof {
            assert forall|v: K::V| self@.contains(v) implies other@.contains(v) by {
                let j = choose|j: int| 0 <= j < views_of(self.items@).len() && views_of(self.items@)[j] == v;
                assert(self.items@[j]@ == v);
            }
            vstd::set_lib::lemma_subset_equality(self@, other@);
        }
        true
    }

    /// The views of the values of the set, in the order they are kept.
    pub closed spec fn element_views(self) -> Seq<K::V> {
        views_of(self.items@)
    }

    /// No two kept values have the same view: what every set upholds.
    pub closed spec fn well_formed(self) -> bool {
        views_of(self.items@).no_duplicates()
    }

    /// The kept values are, by their views, the members of the set.
    pub proof fn lemma_element_views(self)
        ensures
            self.element_views().to_set() == self@,
            self.well_formed() ==> self.element_views().no_duplicates(),
    {
    }

    /// The values of the set, each once.
    pub fn elements(&self) -> (r: &Vec<K>)
        ensures
            views_of(r@) == self.element_views(),
            self.well_formed(),
            views_of(r@).to_set() == self@,
            views_of(r@).no_duplicates(),
    {
        proof {
            use_type_invariant(self);
        }
        &self.items
    }
}

impl<K: Keyed> Clone for KeySet<K> {
    /// A copy holding values with the same views.
    fn clone(&self) -> (r: Self)
        ensures
            r@ == self@,
            r.element_views() == self.element_views(),
    {
        proof {
            use_type_invariant(self);
        }
        let mut items: Vec<K> = Vec::new();
        let n = self.items.len();
        let mut i: usize = 0;
        while i < n
            invariant
                n == self.items@.len(),
                i <= n,
                views_of(self.items@).no_duplicates(),
                views_of(items@) =~= views_of(self.items@).take(i as int),
            decreases n - i,
        {
            items.push(self.items[i].duplicate());
            assert(views_of(self.items@).take(i + 1) =~= views_of(self.items@).take(i as int).push(
                self.items@[i as int]@,
            ));
            i += 1;
        }
        assert(views_of(self.items@).take(n as int) =~= views_of(self.items@));
        KeySet { items }
    }
}

impl<K: Keyed> PartialEq for KeySet<K> {
    fn eq(&self, other: &Self) -> (r: bool) {
        self.same_elements(other)
    }
}

impl<K: Keyed> vstd::std_specs::cmp::PartialEqSpecImpl for KeySet<K> {
    open spec fn obeys_eq_spec() -> bool {
        true
    }

    open spec fn eq_spec(&self, other: &Self) -> bool {
        self@ == other@
    }
}

impl<K: Keyed> Eq for KeySet<K> {
}

} // verus!

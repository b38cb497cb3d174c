//! File paths as `std::path::Path` compares them: by their components.
//!
//! Two paths are the same path when their components are the same, so
//! `/a/b`, `/a//b` and `/a/b/` are one path. Paths are ordered by their
//! components, one after the other; two components compare first by their
//! kind (a prefix, the root, `.`, `..`, a name, in that order), then by their
//! text. Prefixes occur only on Windows, where they are compared here by
//! their text.

use vstd::prelude::*;
use vstd::relations::total_ordering;

use crate::debug_text::{
    braced_sorted_list, debug_fmt_set, lemma_texts_of_set, path_debug, path_debug_text,
};
use crate::entry_map::{
    lemma_pairs_map_keys, lemma_pairs_map_len, lemma_pairs_map_value, pair_keys_distinct, pairs_map,
};
use crate::key_set::views_of;
use crate::ordering::{law_text_order_is_total, text_le, text_le_exec, text_order};
use crate::sorting::{
    lemma_sorted_is_listing, listing, map_listing, sorted_positions, take_in_order, Ordered,
};
use std::path::Component;

verus! {

/// One component of a file path.
#[derive(Debug)]
pub enum PathComponent {
    /// A Windows path prefix, such as `C:`.
    Prefix(String),
    /// The root, `/`.
    RootDir,
    /// `.`, where it is kept: at the start of a relative path.
    CurDir,
    /// `..`.
    ParentDir,
    /// A file or directory name.
    Normal(String),
}

/// The mathematical value of a [`PathComponent`].
pub enum PathComponentView {
    Prefix(Seq<char>),
    RootDir,
    CurDir,
    ParentDir,
    Normal(Seq<char>),
}

impl View for PathComponent {
    type V = PathComponentView;

    open spec fn view(&self) -> PathComponentView {
        match self {
            PathComponent::Prefix(t) => PathComponentView::Prefix(t@),
            PathComponent::RootDir => PathComponentView::RootDir,
            PathComponent::CurDir => PathComponentView::CurDir,
            PathComponent::ParentDir => PathComponentView::ParentDir,
            PathComponent::Normal(t) => PathComponentView::Normal(t@),
        }
    }
}

/// The components of a path, as `std::path::Path::components` splits it.
pub uninterp spec fn components_of(path: Seq<char>) -> Seq<PathComponentView>;

/// Splits `path` with `std::path::Path::components`, converting each
/// component to a [`PathComponent`] of the same kind and text. Claims only
/// that the result is `components_of` of the path.
#[verifier::external_body]
fn path_components(path: &String) -> (r: Vec<PathComponent>)
    ensures
        views_of(r@) == components_of(path@),
{
    std::path::Path::new(path.as_str()).components().map(|c| match c {
        Component::Prefix(p) => PathComponent::Prefix(p.as_os_str().to_string_lossy().into_owned()),
        Component::RootDir => PathComponent::RootDir,
        Component::CurDir => PathComponent::CurDir,
        Component::ParentDir => PathComponent::ParentDir,
        Component::Normal(t) => PathComponent::Normal(t.to_string_lossy().into_owned()),
    }).collect()
}

/// The place of a kind of component in the order of components.
pub open spec fn component_rank(c: PathComponentView) -> int {
    match c {
        PathComponentView::Prefix(_) => 0,
        PathComponentView::RootDir => 1,
        PathComponentView::CurDir => 2,
        PathComponentView::ParentDir => 3,
        PathComponentView::Normal(_) => 4,
    }
}

/// `a` comes no later than `b` among components.
pub open spec fn component_le(a: PathComponentView, b: PathComponentView) -> bool {
    match (a, b) {
        (PathComponentView::Prefix(x), PathComponentView::Prefix(y)) => text_le(x, y),
        (PathComponentView::Normal(x), PathComponentView::Normal(y)) => text_le(x, y),
        _ => component_rank(a) <= component_rank(b),
    }
}

/// `a` comes no later than `b` when both are compared from component `i` on.
pub open spec fn path_le_from(a: Seq<PathComponentView>, b: Seq<PathComponentView>, i: int) -> bool
    decreases a.len() - i,
{
    if i < 0 || i >= a.len() {
        true
    } else if i >= b.len() {
        false
    } else if a[i] != b[i] {
        component_le(a[i], b[i])
    } else {
        path_le_from(a, b, i + 1)
    }
}

/// `a` comes no later than `b` among paths given by their components.
pub open spec fn path_le(a: Seq<PathComponentView>, b: Seq<PathComponentView>) -> bool {
    path_le_from(a, b, 0)
}

/// The order of paths, as a relation on their components.
pub open spec fn path_order() -> spec_fn(Seq<PathComponentView>, Seq<PathComponentView>) -> bool {
    |a: Seq<PathComponentView>, b: Seq<PathComponentView>| path_le(a, b)
}

proof fn lemma_component_facts()
    ensures
        forall|a: PathComponentView| #[trigger] component_le(a, a),
        forall|a: PathComponentView, b: PathComponentView|
            #[trigger] component_le(a, b) && #[trigger] component_le(b, a) ==> a == b,
        forall|a: PathComponentView, b: PathComponentView, c: PathComponentView|
            #[trigger] component_le(a, b) && #[trigger] component_le(b, c) ==> component_le(a, c),
        forall|a: PathComponentView, b: PathComponentView|
            #[trigger] component_le(a, b) || #[trigger] component_le(b, a),
{
    law_text_order_is_total();
    assert forall|a: PathComponentView| #[trigger] component_le(a, a) by {
        match a {
            PathComponentView::Prefix(x) => assert(text_order()(x, x)),
            PathComponentView::Normal(x) => assert(text_order()(x, x)),
            _ => {},
        }
    }
    assert forall|a: PathComponentView, b: PathComponentView|
        #[trigger] component_le(a, b) && #[trigger] component_le(b, a) implies a == b by {
        match (a, b) {
            (PathComponentView::Prefix(x), PathComponentView::Prefix(y)) => {
                assert(text_order()(x, y) && text_order()(y, x));
            },
            (PathComponentView::Normal(x), PathComponentView::Normal(y)) => {
                assert(text_order()(x, y) && text_order()(y, x));
            },
            _ => {},
        }
    }
    assert forall|a: PathComponentView, b: PathComponentView, c: PathComponentView|
        #[trigger] component_le(a, b) && #[trigger] component_le(b, c) implies component_le(
        a,
        c,
    ) by {
        match (a, b, c) {
            (
                PathComponentView::Prefix(x),
                PathComponentView::Prefix(y),
                PathComponentView::Prefix(z),
            ) => {
                assert(text_order()(x, y) && text_order()(y, z));
            },
            (
                PathComponentView::Normal(x),
                PathComponentView::Normal(y),
                PathComponentView::Normal(z),
            ) => {
                assert(text_order()(x, y) && text_order()(y, z));
            },
            _ => {},
        }
    }
    assert forall|a: PathComponentView, b: PathComponentView|
        #[trigger] component_le(a, b) || #[trigger] component_le(b, a) by {
        match (a, b) {
            (PathComponentView::Prefix(x), PathComponentView::Prefix(y)) => {
                assert(text_order()(x, y) || text_order()(y, x));
            },
            (PathComponentView::Normal(x), PathComponentView::Normal(y)) => {
                assert(text_order()(x, y) || text_order()(y, x));
            },
            _ => {},
        }
    }
}

proof fn lemma_path_le_from_reflexive(a: Seq<PathComponentView>, i: int)
    requires
        0 <= i,
    ensures
        path_le_from(a, a, i),
    decreases a.len() - i,
{
    if i < a.len() {
        lemma_path_le_from_reflexive(a, i + 1);
    }
}

proof fn lemma_path_le_from_total(a: Seq<PathComponentView>, b: Seq<PathComponentView>, i: int)
    requires
        0 <= i,
    ensures
        path_le_from(a, b, i) || path_le_from(b, a, i),
    decreases a.len() - i,
{
    lemma_component_facts();
    if i < a.len() && i < b.len() && a[i] == b[i] {
        lemma_path_le_from_total(a, b, i + 1);
    } else if i < a.len() && i < b.len() {
        assert(component_le(a[i], b[i]) || component_le(b[i], a[i]));
    }
}

proof fn lemma_path_le_from_transitive(
    a: Seq<PathComponentView>,
    b: Seq<PathComponentView>,
    c: Seq<PathComponentView>,
    i: int,
)
    requires
        0 <= i,
        path_le_from(a, b, i),
        path_le_from(b, c, i),
    ensures
        path_le_from(a, c, i),
    decreases a.len() - i,
{
    lemma_component_facts();
    if i < a.len() && i < b.len() && i < c.len() {
        if a[i] == b[i] && b[i] == c[i] {
            lemma_path_le_from_transitive(a, b, c, i + 1);
        } else if a[i] != b[i] && b[i] != c[i] {
            assert(component_le(a[i], c[i]));
            if a[i] == c[i] {
                assert(component_le(b[i], a[i]));
            }
        }
    }
}

proof fn lemma_path_le_from_antisymmetric(
    a: Seq<PathComponentView>,
    b: Seq<PathComponentView>,
    i: int,
)
    requires
        0 <= i <= a.len(),
        i <= b.len(),
        path_le_from(a, b, i),
        path_le_from(b, a, i),
    ensures
        a.len() == b.len(),
        forall|j: int| i <= j < a.len() ==> a[j] == b[j],
    decreases a.len() - i,
{
    lemma_component_facts();
    if i < a.len() && i < b.len() {
        if a[i] == b[i] {
            lemma_path_le_from_antisymmetric(a, b, i + 1);
        } else {
            assert(component_le(a[i], b[i]) && component_le(b[i], a[i]));
        }
    }
}

/// Paths are ordered component by component: at the first component where
/// they differ, the one whose component comes first comes first, and a path
/// comes before any longer path that it starts. Components come by kind, a
/// prefix, the root, `.`, `..`, a name, in that order; two names, or two
/// prefixes, by their text.
pub proof fn law_path_order_goes_by_components(
    a: Seq<PathComponentView>,
    b: Seq<PathComponentView>,
    i: int,
)
    requires
        0 <= i <= a.len(),
        i <= b.len(),
        forall|k: int| 0 <= k < i ==> a[k] == b[k],
    ensures
        i == a.len() ==> path_le(a, b),
        i == a.len() && i < b.len() ==> !path_le(b, a),
        i < a.len() && i < b.len() && a[i] != b[i] ==> path_le(a, b) == component_le(a[i], b[i]),
        forall|c: PathComponentView, e: PathComponentView|
            component_rank(c) < component_rank(e) ==> #[trigger] component_le(c, e)
                && !#[trigger] component_le(e, c),
        forall|x: Seq<char>, y: Seq<char>|
            #[trigger] component_le(PathComponentView::Normal(x), PathComponentView::Normal(y))
                == text_le(x, y),
        component_rank(PathComponentView::RootDir) < component_rank(PathComponentView::CurDir)
            < component_rank(PathComponentView::ParentDir) < component_rank(
            PathComponentView::Normal(Seq::empty()),
        ),
{
    lemma_path_le_from_skips_equal(a, b, 0, i);
    lemma_path_le_from_skips_equal(b, a, 0, i);
    lemma_component_facts();
    if i < a.len() && i < b.len() && a[i] != b[i] {
        assert(path_le_from(b, a, i) == component_le(b[i], a[i]));
    }
}

proof fn lemma_path_le_from_skips_equal(
    a: Seq<PathComponentView>,
    b: Seq<PathComponentView>,
    j: int,
    i: int,
)
    requires
        0 <= j <= i,
        i <= a.len(),
        i <= b.len(),
        forall|k: int| j <= k < i ==> a[k] == b[k],
    ensures
        path_le_from(a, b, j) == path_le_from(a, b, i),
    decreases i - j,
{
    if j < i {
        lemma_path_le_from_skips_equal(a, b, j + 1, i);
    }
}

/// The order of paths is a total order on their component sequences.
pub proof fn law_path_order_is_total()
    ensures
        total_ordering(path_order()),
{
    assert forall|a: Seq<PathComponentView>| #[trigger] path_order()(a, a) by {
        lemma_path_le_from_reflexive(a, 0);
    }
    assert forall|a: Seq<PathComponentView>, b: Seq<PathComponentView>|
        #[trigger] path_order()(a, b) && #[trigger] path_order()(b, a) implies a == b by {
        lemma_path_le_from_antisymmetric(a, b, 0);
        assert(a =~= b);
    }
    assert forall|a: Seq<PathComponentView>, b: Seq<PathComponentView>, c: Seq<PathComponentView>|
        #[trigger] path_order()(a, b) && #[trigger] path_order()(b, c) implies path_order()(
        a,
        c,
    ) by {
        lemma_path_le_from_transitive(a, b, c, 0);
    }
    assert forall|a: Seq<PathComponentView>, b: Seq<PathComponentView>|
        #[trigger] path_order()(a, b) || #[trigger] path_order()(b, a) by {
        lemma_path_le_from_total(a, b, 0);
    }
}

impl PathComponent {
    /// Whether two components are the same.
    pub fn same_component(&self, other: &PathComponent) -> (r: bool)
        ensures
            r == (self@ == other@),
    {
        match (self, other) {
            (PathComponent::Prefix(x), PathComponent::Prefix(y)) => *x == *y,
            (PathComponent::RootDir, PathComponent::RootDir) => true,
            (PathComponent::CurDir, PathComponent::CurDir) => true,
            (PathComponent::ParentDir, PathComponent::ParentDir) => true,
            (PathComponent::Normal(x), PathComponent::Normal(y)) => *x == *y,
            _ => false,
        }
    }

    /// Whether `self` comes no later than `other` among components.
    pub fn component_le_exec(&self, other: &PathComponent) -> (r: bool)
        ensures
            r == component_le(self@, other@),
    {
        match (self, other) {
            (PathComponent::Prefix(x), PathComponent::Prefix(y)) => text_le_exec(
                x.as_str(),
                y.as_str(),
            ),
            (PathComponent::Normal(x), PathComponent::Normal(y)) => text_le_exec(
                x.as_str(),
                y.as_str(),
            ),
            _ => self.rank() <= other.rank(),
        }
    }

    fn rank(&self) -> (r: u8)
        ensures
            r == component_rank(self@),
    {
        match self {
            PathComponent::Prefix(_) => 0,
            PathComponent::RootDir => 1,
            PathComponent::CurDir => 2,
            PathComponent::ParentDir => 3,
            PathComponent::Normal(_) => 4,
        }
    }
}

/// A path given by its components: what paths are compared and ordered by.
#[derive(Debug)]
pub struct PathKey {
    components: Vec<PathComponent>,
}

impl View for PathKey {
    type V = Seq<PathComponentView>;

    closed spec fn view(&self) -> Seq<PathComponentView> {
        views_of(self.components@)
    }
}

impl PathKey {
    /// The components of `path`.
    pub fn of(path: &String) -> (r: PathKey)
        ensures
            r@ == components_of(path@),
    {
        PathKey { components: path_components(path) }
    }

    /// Whether two keys have the same components.
    pub fn same_as(&self, other: &PathKey) -> (r: bool)
        ensures
            r == (self@ == other@),
    {
        let n = self.components.len();
        if n != other.components.len() {
            assert(self@.len() != other@.len());
            return false;
        }
        let mut i: usize = 0;
        while i < n
            invariant
                n == self.components@.len(),
                n == other.components@.len(),
                i <= n,
                forall|j: int| 0 <= j < i ==> self.components@[j]@ == other.components@[j]@,
            decreases n - i,
        {
            if !self.components[i].same_component(&other.components[i]) {
                assert(self@[i as int] != other@[i as int]);
                return false;
            }
            i += 1;
        }
        assert(self@ =~= other@);
        true
    }
}

impl Ordered for PathKey {
    open spec fn order() -> spec_fn(Seq<PathComponentView>, Seq<PathComponentView>) -> bool {
        path_order()
    }

    proof fn lemma_order_is_total() {
        law_path_order_is_total();
    }

    fn ordered_le(&self, other: &Self) -> (r: bool) {
        let n = self.components.len();
        let m = other.components.len();
        let mut i: usize = 0;
        while i < n
            invariant
                n == self@.len(),
                m == other@.len(),
                n == self.components@.len(),
                m == other.components@.len(),
                i <= n,
                path_le_from(self@, other@, i as int) == path_le(self@, other@),
            decreases n - i,
        {
            if i >= m {
                return false;
            }
            let x = &self.components[i];
            let y = &other.components[i];
            assert(self@[i as int] == x@ && other@[i as int] == y@);
            if !x.same_component(y) {
                return x.component_le_exec(y);
            }
            i += 1;
        }
        true
    }
}

/// A path, given by its text, paired with its components.
pub open spec fn path_pair(text: Seq<char>) -> (Seq<PathComponentView>, Seq<char>) {
    (components_of(text), text)
}

/// The components and text of each path of `texts`, in order.
pub open spec fn path_pairs(texts: Seq<String>) -> Seq<(Seq<PathComponentView>, Seq<char>)> {
    texts.map_values(|t: String| path_pair(t@))
}

/// A set of file paths, compared by their components: a path is added only
/// when no path with the same components is there, and the first text added
/// for a path is the one kept.
#[derive(Debug)]
pub struct PathSet {
    keys: Vec<PathKey>,
    texts: Vec<String>,
}

impl View for PathSet {
    /// Each path held, given by its components, with the text kept for it.
    type V = Map<Seq<PathComponentView>, Seq<char>>;

    closed spec fn view(&self) -> Map<Seq<PathComponentView>, Seq<char>> {
        pairs_map(path_pairs(self.texts@))
    }
}

impl PathSet {
    #[verifier::type_invariant]
    closed spec fn keyed(self) -> bool {
        &&& self.keys@.len() == self.texts@.len()
        &&& forall|i: int|
            0 <= i < self.keys@.len() ==> #[trigger] self.keys@[i]@ == components_of(
                self.texts@[i]@,
            )
        &&& pair_keys_distinct(path_pairs(self.texts@))
    }

    /// An empty set.
    pub fn new() -> (r: Self)
        ensures
            r@ == Map::<Seq<PathComponentView>, Seq<char>>::empty(),
    {
        let r = PathSet { keys: Vec::new(), texts: Vec::new() };
        assert(path_pairs(r.texts@) =~= Seq::empty());
        r
    }

    fn find(&self, key: &PathKey) -> (r: Option<usize>)
        ensures
            match r {
                Some(j) => j < self.texts@.len() && components_of(self.texts@[j as int]@) == key@,
                None => forall|i: int|
                    0 <= i < self.texts@.len() ==> components_of(#[trigger] self.texts@[i]@)
                        != key@,
            },
    {
        proof {
            use_type_invariant(self);
        }
        let n = self.keys.len();
        let mut i: usize = 0;
        while i < n
            invariant
                n == self.keys@.len(),
                n == self.texts@.len(),
                forall|q: int|
                    0 <= q < self.keys@.len() ==> #[trigger] self.keys@[q]@ == components_of(
                        self.texts@[q]@,
                    ),
                i <= n,
                forall|j: int| 0 <= j < i ==> components_of(#[trigger] self.texts@[j]@) != key@,
            decreases n - i,
        {
            if self.keys[i].same_as(key) {
                return Some(i);
            }
            assert(self.keys@[i as int]@ == components_of(self.texts@[i as int]@));
            i += 1;
        }
        None
    }

    proof fn lemma_find(&self, k: Seq<PathComponentView>)
        ensures
            self@.contains_key(k) <==> exists|i: int|
                0 <= i < self.texts@.len() && components_of(#[trigger] self.texts@[i]@) == k,
    {
        let ps = path_pairs(self.texts@);
        lemma_pairs_map_keys(ps, k);
        if self@.contains_key(k) {
            let i = choose|i: int| 0 <= i < ps.len() && #[trigger] ps[i].0 == k;
            assert(components_of(self.texts@[i]@) == k);
        }
        if exists|i: int| 0 <= i < self.texts@.len() && components_of(#[trigger] self.texts@[i]@) == k {
            let i = choose|i: int|
                0 <= i < self.texts@.len() && components_of(#[trigger] self.texts@[i]@) == k;
            assert(ps[i].0 == k);
        }
    }

    /// Whether a path with the components of `path` is in the set.
    pub fn contains(&self, path: &String) -> (r: bool)
        ensures
            r == self@.contains_key(components_of(path@)),
    {
        let key = PathKey::of(path);
        proof {
            self.lemma_find(key@);
        }
        self.find(&key).is_some()
    }

    /// Adds `path` unless a path with its components is already there; tells
    /// whether it was added.
    pub fn insert(&mut self, path: String) -> (r: bool)
        ensures
            r == !old(self)@.contains_key(components_of(path@)),
            final(self)@ == if r {
                old(self)@.insert(components_of(path@), path@)
            } else {
                old(self)@
            },
    {
        proof {
            use_type_invariant(&*self);
        }
        let key = PathKey::of(&path);
        proof {
            self.lemma_find(key@);
        }
        if self.find(&key).is_some() {
            return false;
        }
        let ghost before = self.texts@;
        let mut taken = PathSet::new();
        std::mem::swap(&mut taken, self);
        let PathSet { mut keys, mut texts } = taken;
        keys.push(key);
        texts.push(path);
        proof {
            assert(texts@ =~= before.push(path));
            assert(path_pairs(texts@).drop_last() =~= path_pairs(before));
            assert forall|i: int, j: int| 0 <= i < j < path_pairs(texts@).len() implies #[trigger] path_pairs(
                texts@,
            )[i].0 != #[trigger] path_pairs(texts@)[j].0 by {
                if j < before.len() {
                    assert(path_pairs(texts@)[i] == path_pairs(before)[i]);
                    assert(path_pairs(texts@)[j] == path_pairs(before)[j]);
                } else {
                    assert(texts@[i] == before[i]);
                }
            }
        }
        *self = PathSet { keys, texts };
        true
    }

    /// How many paths the set holds.
    pub fn len(&self) -> (r: usize)
        ensures
            r == self@.len(),
    {
        proof {
            use_type_invariant(self);
            lemma_pairs_map_len(path_pairs(self.texts@));
        }
        self.texts.len()
    }

    /// The texts kept, one for each path held, in no particular order.
    pub fn texts(&self) -> (r: &Vec<String>)
        ensures
            forall|i: int|
                0 <= i < r@.len() ==> self@.contains_key(components_of(#[trigger] r@[i]@))
                    && self@[components_of(r@[i]@)] == r@[i]@,
            forall|i: int, j: int|
                0 <= i < j < r@.len() ==> components_of(#[trigger] r@[i]@) != components_of(
                    #[trigger] r@[j]@,
                ),
            forall|k: Seq<PathComponentView>|
                #[trigger] self@.contains_key(k) ==> exists|i: int|
                    0 <= i < r@.len() && components_of(#[trigger] r@[i]@) == k,
    {
        proof {
            use_type_invariant(self);
            let ps = path_pairs(self.texts@);
            assert forall|i: int| 0 <= i < self.texts@.len() implies self@.contains_key(
                components_of(#[trigger] self.texts@[i]@),
            ) && self@[components_of(self.texts@[i]@)] == self.texts@[i]@ by {
                lemma_pairs_map_value(ps, i);
            }
            assert forall|i: int, j: int| 0 <= i < j < self.texts@.len() implies components_of(
                #[trigger] self.texts@[i]@,
            ) != components_of(#[trigger] self.texts@[j]@) by {
                assert(ps[i].0 != ps[j].0);
            }
            assert forall|k: Seq<PathComponentView>| #[trigger] self@.contains_key(k) implies exists|
                i: int,
            | 0 <= i < self.texts@.len() && components_of(#[trigger] self.texts@[i]@) == k by {
                self.lemma_find(k);
            }
        }
        &self.texts
    }

    /// Whether every path of `other` is in this set.
    fn covers(&self, other: &PathSet) -> (r: bool)
        ensures
            r == other@.dom().subset_of(self@.dom()),
    {
        proof {
            use_type_invariant(other);
        }
        let n = other.keys.len();
        let mut i: usize = 0;
        while i < n
            invariant
                n == other.keys@.len(),
                n == other.texts@.len(),
                forall|q: int|
                    0 <= q < other.keys@.len() ==> #[trigger] other.keys@[q]@ == components_of(
                        other.texts@[q]@,
                    ),
                i <= n,
                forall|j: int|
                    0 <= j < i ==> self@.contains_key(components_of(#[trigger] other.texts@[j]@)),
            decreases n - i,
        {
            let k = &other.keys[i];
            proof {
                self.lemma_find(k@);
                other.lemma_find(k@);
                assert(k@ == components_of(other.texts@[i as int]@));
            }
            if self.find(k).is_none() {
                return false;
            }
            i += 1;
        }
        proof {
            assert forall|k: Seq<PathComponentView>| other@.dom().contains(k) implies self@.dom().contains(
                k,
            ) by {
                other.lemma_find(k);
            }
        }
        true
    }

    /// Whether both sets hold the same paths, compared by their components;
    /// the texts kept for them may differ.
    pub fn same_paths(&self, other: &PathSet) -> (r: bool)
        ensures
            r == (self@.dom() == other@.dom()),
    {
        let a = self.covers(other);
        let b = other.covers(self);
        proof {
            if a && b {
                assert(self@.dom() =~= other@.dom());
            }
        }
        a && b
    }

    /// The texts kept, in the order of their paths: with the components of
    /// each, the listing of the set, which depends on its value alone.
    pub fn sorted_paths(&self) -> (r: Vec<String>)
        ensures
            path_pairs(r@) == map_listing(self@, path_order()),
    {
        proof {
            use_type_invariant(self);
        }
        let positions = sorted_positions(&self.keys);
        let out = take_in_order(&self.texts, &positions);
        proof {
            let ps = path_pairs(self.texts@);
            let ks = views_of(self.keys@);
            let m = self@;
            law_path_order_is_total();
            assert forall|q: int| 0 <= q < positions@.len() implies #[trigger] ks[positions@[q] as int]
                == components_of(self.texts@[positions@[q] as int]@) by {
                assert(ks[positions@[q] as int] == self.keys@[positions@[q] as int]@);
            }
            assert(ks.no_duplicates()) by {
                assert forall|a: int, b: int| 0 <= a < ks.len() && 0 <= b < ks.len() && a != b
                    implies ks[a] != ks[b] by {
                    assert(ks[a] == self.keys@[a]@ && ks[b] == self.keys@[b]@);
                    if a < b {
                        assert(ps[a].0 != ps[b].0);
                    } else {
                        assert(ps[b].0 != ps[a].0);
                    }
                }
            }
            assert(ks.to_set() =~= m.dom()) by {
                assert forall|k: Seq<PathComponentView>| ks.to_set().contains(k) == m.dom().contains(k) by {
                    self.lemma_find(k);
                    if ks.contains(k) {
                        let a = choose|a: int| 0 <= a < ks.len() && ks[a] == k;
                        assert(ks[a] == self.keys@[a]@);
                    }
                    if m.dom().contains(k) {
                        let a = choose|a: int|
                            0 <= a < self.texts@.len() && components_of(#[trigger] self.texts@[a]@) == k;
                        assert(ks[a] == self.keys@[a]@);
                    }
                }
            }
            lemma_sorted_is_listing(ks, path_order());
            let sorted = listing(m.dom(), path_order());
            let got = path_pairs(out@);
            assert(views_of(out@) == positions@.map_values(|j: usize| self.texts@[j as int]@));
            assert(positions@.map_values(|j: usize| self.keys@[j as int]@) == ks.sort_by(path_order()));
            assert(positions@.map_values(|j: usize| self.keys@[j as int]@) == sorted);
            assert(got.len() == out@.len());
            assert(views_of(out@).len() == out@.len());
            assert(positions@.map_values(|j: usize| self.texts@[j as int]@).len() == positions@.len());
            assert(positions@.map_values(|j: usize| self.keys@[j as int]@).len() == positions@.len());
            assert(got.len() == sorted.len());
            assert forall|q: int| 0 <= q < got.len() implies #[trigger] got[q] == map_listing(
                m,
                path_order(),
            )[q] by {
                let j = positions@[q] as int;
                assert(views_of(out@).len() == out@.len());
                assert(0 <= j < self.keys@.len());
                assert(positions@.map_values(|j: usize| self.keys@[j as int]@)[q] == sorted[q]);
                assert(positions@.map_values(|j: usize| self.texts@[j as int]@)[q] == self.texts@[j]@);
                assert(views_of(out@)[q] == out@[q]@);
                assert(out@[q]@ == self.texts@[j]@);
                lemma_pairs_map_value(ps, j);
            }
            assert(got =~= map_listing(m, path_order()));
        }
        out
    }
}

/// Sets holding the same paths with the same texts are listed alike by
/// `sorted_paths`, whatever order the paths were added in.
pub proof fn law_equal_path_sets_list_alike(a: PathSet, b: PathSet)
    requires
        a@ == b@,
    ensures
        map_listing(a@, path_order()) == map_listing(b@, path_order()),
{
}

/// The Debug text of a set of paths: the Debug texts of the texts kept,
/// sorted.
pub open spec fn path_set_debug_text(s: Map<Seq<PathComponentView>, Seq<char>>) -> Seq<char> {
    braced_sorted_list(s.dom().to_seq().map_values(|k: Seq<PathComponentView>| path_debug_text(s[k])))
}

/// The Debug text of a set of paths: the Debug texts of the texts kept,
/// sorted.
pub fn path_set_debug(s: &PathSet) -> (r: String)
    ensures
        r@ == path_set_debug_text(s@),
{
    let texts = s.texts();
    let ghost m = s@;
    let ghost ks = texts@.map_values(|t: String| components_of(t@));
    let ghost f = |k: Seq<PathComponentView>| path_debug_text(m[k]);
    let mut out: Vec<String> = Vec::new();
    let n = texts.len();
    let mut i: usize = 0;
    while i < n
        invariant
            n == texts@.len(),
            m == s@,
            ks == texts@.map_values(|t: String| components_of(t@)),
            f == (|k: Seq<PathComponentView>| path_debug_text(m[k])),
            forall|q: int|
                0 <= q < texts@.len() ==> m.contains_key(components_of(#[trigger] texts@[q]@))
                    && m[components_of(texts@[q]@)] == texts@[q]@,
            i <= n,
            out.deep_view() =~= ks.take(i as int).map_values(f),
        decreases n - i,
    {
        let ghost before = out.deep_view();
        out.push(path_debug(&texts[i]));
        proof {
            assert(f(ks[i as int]) == path_debug_text(texts@[i as int]@));
            assert(ks.take(i + 1).map_values(f) =~= ks.take(i as int).map_values(f).push(
                f(ks[i as int]),
            ));
        }
        i += 1;
    }
    proof {
        assert(ks.take(n as int) =~= ks);
        assert(ks.no_duplicates()) by {
            assert forall|a: int, b: int| 0 <= a < ks.len() && 0 <= b < ks.len() && a != b implies ks[a]
                != ks[b] by {
                if a < b {
                    assert(components_of(texts@[a]@) != components_of(texts@[b]@));
                } else {
                    assert(components_of(texts@[b]@) != components_of(texts@[a]@));
                }
            }
        }
        assert(ks.to_set() =~= m.dom()) by {
            assert forall|k: Seq<PathComponentView>| ks.to_set().contains(k) == m.dom().contains(k) by {
                if m.dom().contains(k) {
                    let a = choose|a: int| 0 <= a < texts@.len() && components_of(#[trigger] texts@[a]@) == k;
                    assert(ks[a] == k);
                }
            }
        }
        lemma_texts_of_set(ks, m.dom(), f);
    }
    debug_fmt_set(out)
}

impl Clone for PathSet {
    /// A copy holding the same paths with the same texts.
    fn clone(&self) -> (r: Self)
        ensures
            r@ == self@,
    {
        let mut copy = PathSet::new();
        let texts = self.texts();
        let n = texts.len();
        let mut i: usize = 0;
        while i < n
            invariant
                n == texts@.len(),
                i <= n,
                forall|q: int|
                    0 <= q < texts@.len() ==> self@.contains_key(components_of(#[trigger] texts@[q]@))
                        && self@[components_of(texts@[q]@)] == texts@[q]@,
                forall|a: int, b: int|
                    0 <= a < b < texts@.len() ==> components_of(#[trigger] texts@[a]@)
                        != components_of(#[trigger] texts@[b]@),
                copy@.dom() =~= Set::new(
                    |k: Seq<PathComponentView>|
                        exists|q: int| 0 <= q < i && components_of(#[trigger] texts@[q]@) == k,
                ),
                forall|k: Seq<PathComponentView>| #[trigger] copy@.contains_key(k) ==> copy@[k] == self@[k],
            decreases n - i,
        {
            let ghost before = copy@;
            let t = texts[i].clone();
            proof {
                assert forall|q: int| 0 <= q < i implies components_of(#[trigger] texts@[q]@)
                    != components_of(t@) by {
                    assert(components_of(texts@[q]@) != components_of(texts@[i as int]@));
                }
                if before.contains_key(components_of(t@)) {
                    let q = choose|q: int| 0 <= q < i && components_of(#[trigger] texts@[q]@)
                        == components_of(t@);
                }
            }
            copy.insert(t);
            proof {
                assert(copy@.dom() =~= Set::new(
                    |k: Seq<PathComponentView>|
                        exists|q: int| 0 <= q < i + 1 && components_of(#[trigger] texts@[q]@) == k,
                )) by {
                    assert forall|k: Seq<PathComponentView>| copy@.dom().contains(k) implies (exists|q: int|
                        0 <= q < i + 1 && components_of(#[trigger] texts@[q]@) == k) by {
                        if k == components_of(t@) {
                            assert(components_of(texts@[i as int]@) == k);
                        }
                    }
                }
            }
            i += 1;
        }
        proof {
            assert(copy@.dom() =~= self@.dom()) by {
                assert forall|k: Seq<PathComponentView>| copy@.dom().contains(k) == self@.dom().contains(k) by {
                    if self@.contains_key(k) {
                        let q = choose|q: int| 0 <= q < texts@.len() && components_of(#[trigger] texts@[q]@) == k;
                        assert(copy@.dom().contains(k));
                    }
                }
            }
            assert(copy@ =~= self@);
        }
        copy
    }
}

impl PartialEq for PathSet {
    fn eq(&self, other: &Self) -> (r: bool) {
        self.same_paths(other)
    }
}

impl vstd::std_specs::cmp::PartialEqSpecImpl for PathSet {
    open spec fn obeys_eq_spec() -> bool {
        true
    }

    open spec fn eq_spec(&self, other: &Self) -> bool {
        self@.dom() == other@.dom()
    }
}

impl Eq for PathSet {
}

} // verus!

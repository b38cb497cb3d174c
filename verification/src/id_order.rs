//! The order of package ids: by name, then version, then source, each text
//! in lexicographic order; among sources git comes before registry before
//! local. This is the order that the derived `Ord` of `PackageId` gives.

use vstd::prelude::*;
use vstd::relations::total_ordering;

use crate::key_set::{views_of, KeySet};
use crate::ordering::{law_text_order_is_total, text_le, text_le_exec, text_order};
use crate::package_id::{PackageId, PackageIdView, Source, SourceView};
use crate::sorting::{lemma_sorted_is_listing, listing, sorted_positions, take_in_order, Ordered};

verus! {

/// `a` comes strictly before `b` in lexicographic order.
pub open spec fn text_lt(a: Seq<char>, b: Seq<char>) -> bool {
    text_le(a, b) && a != b
}

/// Two texts compared first, then two more where the first are equal.
pub open spec fn pair_le(a1: Seq<char>, a2: Seq<char>, b1: Seq<char>, b2: Seq<char>) -> bool {
    text_lt(a1, b1) || (a1 == b1 && text_le(a2, b2))
}

/// The place of a kind of source in the order of sources.
pub open spec fn source_rank(s: SourceView) -> int {
    match s {
        SourceView::Git { .. } => 0,
        SourceView::Registry { .. } => 1,
        SourceView::Path(_) => 2,
    }
}

/// `a` comes no later than `b` among sources.
pub open spec fn source_le(a: SourceView, b: SourceView) -> bool {
    match (a, b) {
        (SourceView::Git { url: u1, rev: r1 }, SourceView::Git { url: u2, rev: r2 }) => pair_le(
            u1,
            r1,
            u2,
            r2,
        ),
        (
            SourceView::Registry { name: n1, url: u1 },
            SourceView::Registry { name: n2, url: u2 },
        ) => pair_le(n1, u1, n2, u2),
        (SourceView::Path(u1), SourceView::Path(u2)) => text_le(u1, u2),
        _ => source_rank(a) < source_rank(b),
    }
}

/// `a` comes no later than `b` among package ids.
pub open spec fn id_le(a: PackageIdView, b: PackageIdView) -> bool {
    text_lt(a.name, b.name) || (a.name == b.name && (text_lt(a.version, b.version) || (a.version
        == b.version && source_le(a.source, b.source))))
}

/// The order of package ids, as a relation.
pub open spec fn id_order() -> spec_fn(PackageIdView, PackageIdView) -> bool {
    |a: PackageIdView, b: PackageIdView| id_le(a, b)
}

proof fn lemma_text_facts()
    ensures
        forall|a: Seq<char>| #[trigger] text_le(a, a),
        forall|a: Seq<char>, b: Seq<char>| #[trigger] text_le(a, b) && #[trigger] text_le(b, a) ==> a
            == b,
        forall|a: Seq<char>, b: Seq<char>, c: Seq<char>|
            #[trigger] text_le(a, b) && #[trigger] text_le(b, c) ==> text_le(a, c),
        forall|a: Seq<char>, b: Seq<char>| #[trigger] text_le(a, b) || #[trigger] text_le(b, a),
{
    law_text_order_is_total();
    assert forall|a: Seq<char>| #[trigger] text_le(a, a) by {
        assert(text_order()(a, a));
    }
    assert forall|a: Seq<char>, b: Seq<char>| #[trigger] text_le(a, b) && #[trigger] text_le(
        b,
        a,
    ) implies a == b by {
        assert(text_order()(a, b) && text_order()(b, a));
    }
    assert forall|a: Seq<char>, b: Seq<char>, c: Seq<char>|
        #[trigger] text_le(a, b) && #[trigger] text_le(b, c) implies text_le(a, c) by {
        assert(text_order()(a, b) && text_order()(b, c));
        assert(text_order()(a, c));
    }
    assert forall|a: Seq<char>, b: Seq<char>| #[trigger] text_le(a, b) || #[trigger] text_le(
        b,
        a,
    ) by {
        assert(text_order()(a, b) || text_order()(b, a));
    }
}

/// Package ids are ordered by name first, then by version, then by source;
/// among sources, git comes before registry before local, and two sources of
/// one kind are ordered by their texts, URL first.
pub proof fn law_id_order_goes_by_name_version_source(a: PackageIdView, b: PackageIdView)
    ensures
        text_lt(a.name, b.name) ==> id_le(a, b) && !id_le(b, a),
        a.name == b.name && text_lt(a.version, b.version) ==> id_le(a, b) && !id_le(b, a),
        a.name == b.name && a.version == b.version ==> id_le(a, b) == source_le(a.source, b.source),
        source_rank(a.source) < source_rank(b.source) ==> source_le(a.source, b.source)
            && !source_le(b.source, a.source),
        (a.source is Git && b.source is Registry) ==> source_rank(a.source) < source_rank(b.source),
        (a.source is Registry && b.source is Path) ==> source_rank(a.source) < source_rank(b.source),
        a.source matches SourceView::Path(x) ==> (b.source matches SourceView::Path(y) ==> source_le(
            a.source,
            b.source,
        ) == text_le(x, y)),
        a.source matches SourceView::Git { url: u1, .. } ==> (b.source matches SourceView::Git {
            url: u2,
            ..
        } ==> (text_lt(u1, u2) ==> source_le(a.source, b.source) && !source_le(b.source, a.source))),
        a.source matches SourceView::Registry { name: n1, .. } ==> (
        b.source matches SourceView::Registry { name: n2, .. } ==> (text_lt(n1, n2) ==> source_le(
            a.source,
            b.source,
        ) && !source_le(b.source, a.source))),
{
    lemma_text_facts();
}

/// The order of package ids is a total order.
pub proof fn law_id_order_is_total()
    ensures
        total_ordering(id_order()),
{
    lemma_text_facts();
    assert forall|a: PackageIdView| #[trigger] id_order()(a, a) by {
        assert(text_le(a.version, a.version));
        match a.source {
            SourceView::Git { url, rev } => assert(text_le(rev, rev)),
            SourceView::Registry { name, url } => assert(text_le(url, url)),
            SourceView::Path(u) => assert(text_le(u, u)),
        }
    }
    assert forall|a: PackageIdView, b: PackageIdView|
        #[trigger] id_order()(a, b) && #[trigger] id_order()(b, a) implies a == b by {
        assert(id_le(a, b) && id_le(b, a));
        assert(a.name == b.name);
        assert(a.version == b.version);
        assert(source_le(a.source, b.source) && source_le(b.source, a.source));
        assert(a.source == b.source);
    }
    assert forall|a: PackageIdView, b: PackageIdView, c: PackageIdView|
        #[trigger] id_order()(a, b) && #[trigger] id_order()(b, c) implies id_order()(a, c) by {
        assert(id_le(a, b) && id_le(b, c));
        if a.name == b.name && b.name == c.name && a.version == b.version && b.version == c.version {
            assert(source_le(a.source, b.source) && source_le(b.source, c.source));
            assert(source_le(a.source, c.source));
        }
        assert(id_le(a, c));
    }
    assert forall|a: PackageIdView, b: PackageIdView|
        #[trigger] id_order()(a, b) || #[trigger] id_order()(b, a) by {
        assert(text_le(a.name, b.name) || text_le(b.name, a.name));
        assert(text_le(a.version, b.version) || text_le(b.version, a.version));
        match (a.source, b.source) {
            (SourceView::Git { url: u1, rev: r1 }, SourceView::Git { url: u2, rev: r2 }) => {
                assert(text_le(u1, u2) || text_le(u2, u1));
                assert(text_le(r1, r2) || text_le(r2, r1));
            },
            (
                SourceView::Registry { name: n1, url: u1 },
                SourceView::Registry { name: n2, url: u2 },
            ) => {
                assert(text_le(n1, n2) || text_le(n2, n1));
                assert(text_le(u1, u2) || text_le(u2, u1));
            },
            (SourceView::Path(u1), SourceView::Path(u2)) => {
                assert(text_le(u1, u2) || text_le(u2, u1));
            },
            _ => {},
        }
        assert(id_le(a, b) || id_le(b, a));
    }
}

/// Whether `a` comes strictly before `b` in lexicographic order.
pub fn text_lt_exec(a: &String, b: &String) -> (r: bool)
    ensures
        r == text_lt(a@, b@),
{
    text_le_exec(a.as_str(), b.as_str()) && !(*a == *b)
}

/// Whether `a` comes no later than `b` among sources.
pub fn source_le_exec(a: &Source, b: &Source) -> (r: bool)
    ensures
        r == source_le(a@, b@),
{
    match (a, b) {
        (Source::Git { url: u1, rev: r1 }, Source::Git { url: u2, rev: r2 }) => {
            text_lt_exec(u1, u2) || (*u1 == *u2 && text_le_exec(r1.as_str(), r2.as_str()))
        },
        (Source::Registry { name: n1, url: u1 }, Source::Registry { name: n2, url: u2 }) => {
            text_lt_exec(n1, n2) || (*n1 == *n2 && text_le_exec(u1.as_str(), u2.as_str()))
        },
        (Source::Path(u1), Source::Path(u2)) => text_le_exec(u1.as_str(), u2.as_str()),
        (Source::Git { .. }, _) => true,
        (Source::Registry { .. }, Source::Path(_)) => true,
        _ => false,
    }
}

/// Whether `a` comes no later than `b` among package ids.
pub fn id_le_exec(a: &PackageId, b: &PackageId) -> (r: bool)
    ensures
        r == id_le(a@, b@),
{
    text_lt_exec(&a.name, &b.name) || (a.name == b.name && (text_lt_exec(&a.version, &b.version)
        || (a.version == b.version && source_le_exec(&a.source, &b.source))))
}

impl Ordered for PackageId {
    open spec fn order() -> spec_fn(PackageIdView, PackageIdView) -> bool {
        id_order()
    }

    proof fn lemma_order_is_total() {
        law_id_order_is_total();
    }

    fn ordered_le(&self, other: &Self) -> (r: bool) {
        id_le_exec(self, other)
    }
}

/// The ids of a set, in the order of package ids: the listing of the set,
/// which depends on the set alone.
pub fn sorted_ids(set: &KeySet<PackageId>) -> (r: Vec<PackageId>)
    ensures
        views_of(r@) == set.element_views().sort_by(id_order()),
        views_of(r@) == listing(set@, id_order()),
{
    let items = set.elements();
    let positions = sorted_positions(items);
    let out = take_in_order(items, &positions);
    proof {
        law_id_order_is_total();
        lemma_sorted_is_listing(set.element_views(), id_order());
    }
    out
}

/// Sets of ids of equal value are listed alike by `sorted_ids`, whatever
/// order their members were added in.
pub proof fn law_equal_id_sets_list_alike(a: KeySet<PackageId>, b: KeySet<PackageId>)
    requires
        a@ == b@,
    ensures
        listing(a@, id_order()) == listing(b@, id_order()),
{
}

} // verus!

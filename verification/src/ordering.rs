//! The order of texts: lexicographic by character code, which for UTF-8
//! text is the order of their bytes.

use vstd::prelude::*;
use vstd::relations::total_ordering;

use crate::key_set::views_of;
use crate::sorting::{sorted_positions, take_in_order, Ordered};

verus! {

/// `a` comes no later than `b` when both are compared from position `i` on.
pub open spec fn text_le_from(a: Seq<char>, b: Seq<char>, i: int) -> bool
    decreases a.len() - i,
{
    if i < 0 || i >= a.len() {
        true
    } else if i >= b.len() {
        false
    } else if a[i] != b[i] {
        (a[i] as int) < (b[i] as int)
    } else {
        text_le_from(a, b, i + 1)
    }
}

/// `a` comes no later than `b` in lexicographic order.
pub open spec fn text_le(a: Seq<char>, b: Seq<char>) -> bool {
    text_le_from(a, b, 0)
}

/// The lexicographic order of texts, as a relation.
pub open spec fn text_order() -> spec_fn(Seq<char>, Seq<char>) -> bool {
    |a: Seq<char>, b: Seq<char>| text_le(a, b)
}

proof fn lemma_le_from_reflexive(a: Seq<char>, i: int)
    requires
        0 <= i,
    ensures
        text_le_from(a, a, i),
    decreases a.len() - i,
{
    if i < a.len() {
        lemma_le_from_reflexive(a, i + 1);
    }
}

proof fn lemma_le_from_total(a: Seq<char>, b: Seq<char>, i: int)
    requires
        0 <= i,
    ensures
        text_le_from(a, b, i) || text_le_from(b, a, i),
    decreases a.len() - i,
{
    if i < a.len() && i < b.len() && a[i] == b[i] {
        lemma_le_from_total(a, b, i + 1);
    } else if i < a.len() && i < b.len() {
        assert(a[i] as int != b[i] as int);
    }
}

proof fn lemma_le_from_transitive(a: Seq<char>, b: Seq<char>, c: Seq<char>, i: int)
    requires
        0 <= i,
        text_le_from(a, b, i),
        text_le_from(b, c, i),
    ensures
        text_le_from(a, c, i),
    decreases a.len() - i,
{
    if i < a.len() && i < b.len() && i < c.len() && a[i] == b[i] && b[i] == c[i] {
        lemma_le_from_transitive(a, b, c, i + 1);
    }
}

proof fn lemma_le_from_antisymmetric(a: Seq<char>, b: Seq<char>, i: int)
    requires
        0 <= i <= a.len(),
        i <= b.len(),
        text_le_from(a, b, i),
        text_le_from(b, a, i),
    ensures
        a.len() == b.len(),
        forall|j: int| i <= j < a.len() ==> a[j] == b[j],
    decreases a.len() - i,
{
    if i < a.len() && i < b.len() {
        if a[i] == b[i] {
            lemma_le_from_antisymmetric(a, b, i + 1);
        } else {
            assert(a[i] as int != b[i] as int);
        }
    }
}

/// Lexicographic order is a total order on texts.
pub proof fn law_text_order_is_total()
    ensures
        total_ordering(text_order()),
{
    assert forall|a: Seq<char>| #[trigger] text_order()(a, a) by {
        lemma_le_from_reflexive(a, 0);
    }
    assert forall|a: Seq<char>, b: Seq<char>|
        #[trigger] text_order()(a, b) && #[trigger] text_order()(b, a) implies a == b by {
        lemma_le_from_antisymmetric(a, b, 0);
        assert(a =~= b);
    }
    assert forall|a: Seq<char>, b: Seq<char>, c: Seq<char>|
        #[trigger] text_order()(a, b) && #[trigger] text_order()(b, c) implies text_order()(
        a,
        c,
    ) by {
        lemma_le_from_transitive(a, b, c, 0);
    }
    assert forall|a: Seq<char>, b: Seq<char>|
        #[trigger] text_order()(a, b) || #[trigger] text_order()(b, a) by {
        lemma_le_from_total(a, b, 0);
    }
}

proof fn lemma_le_from_skips_equal(a: Seq<char>, b: Seq<char>, j: int, i: int)
    requires
        0 <= j <= i,
        i <= a.len(),
        i <= b.len(),
        forall|k: int| j <= k < i ==> a[k] == b[k],
    ensures
        text_le_from(a, b, j) == text_le_from(a, b, i),
    decreases i - j,
{
    if j < i {
        lemma_le_from_skips_equal(a, b, j + 1, i);
    }
}

/// Texts are ordered by their first differing character, by character
/// code; a text comes no later than any text that it starts, and strictly
/// before any longer one.
pub proof fn law_text_order_is_lexicographic(a: Seq<char>, b: Seq<char>, i: int)
    requires
        0 <= i <= a.len(),
        i <= b.len(),
        forall|k: int| 0 <= k < i ==> a[k] == b[k],
    ensures
        i == a.len() ==> text_le(a, b),
        i == a.len() && i < b.len() ==> !text_le(b, a),
        i < a.len() && i < b.len() && (a[i] as int) < (b[i] as int) ==> text_le(a, b) && !text_le(
            b,
            a,
        ),
{
    lemma_le_from_skips_equal(a, b, 0, i);
    lemma_le_from_skips_equal(b, a, 0, i);
    if i < a.len() && i < b.len() && (a[i] as int) < (b[i] as int) {
        assert(a[i] != b[i]);
    }
}

/// Whether `a` comes no later than `b` in lexicographic order.
pub fn text_le_exec(a: &str, b: &str) -> (r: bool)
    ensures
        r == text_le(a@, b@),
{
    let n = a.unicode_len();
    let m = b.unicode_len();
    let mut i: usize = 0;
    while i < n
        invariant
            n == a@.len(),
            m == b@.len(),
            i <= n,
            text_le_from(a@, b@, i as int) == text_le(a@, b@),
        decreases n - i,
    {
        if i >= m {
            return false;
        }
        let x = a.get_char(i);
        let y = b.get_char(i);
        if x != y {
            return x < y;
        }
        i += 1;
    }
    true
}

impl Ordered for String {
    open spec fn order() -> spec_fn(Seq<char>, Seq<char>) -> bool {
        text_order()
    }

    proof fn lemma_order_is_total() {
        law_text_order_is_total();
    }

    fn ordered_le(&self, other: &Self) -> (r: bool) {
        text_le_exec(self.as_str(), other.as_str())
    }
}

/// The texts of `v`, sorted in lexicographic order.
pub fn sort_texts(v: Vec<String>) -> (r: Vec<String>)
    ensures
        r.deep_view() == v.deep_view().sort_by(text_order()),
{
    let positions = sorted_positions(&v);
    let out = take_in_order(&v, &positions);
    assert(v.deep_view() =~= views_of(v@));
    assert(out.deep_view() =~= views_of(out@));
    out
}

} // verus!

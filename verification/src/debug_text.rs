//! Debug texts in which the members of sets and maps come in sorted order,
//! so that the text of a report does not depend on how it was built.

use vstd::prelude::*;

use crate::ordering::{sort_texts, text_order};
use crate::counts::{Count, CounterBlock};
use crate::package_id::{PackageId, PackageIdView, Source, SourceView};
use crate::report::UnsafeInfo;
use crate::sorting::{lemma_same_elements_rearrangement, lemma_to_seq_no_duplicates};

verus! {

/// The texts of `list` with `sep` between each two consecutive ones.
pub open spec fn joined(list: Seq<Seq<char>>, sep: Seq<char>) -> Seq<char>
    decreases list.len(),
{
    if list.len() == 0 {
        Seq::empty()
    } else if list.len() == 1 {
        list[0]
    } else {
        joined(list.drop_last(), sep) + sep + list.last()
    }
}

/// The texts of `list` with `sep` between each two consecutive ones.
pub fn join_texts(list: &Vec<String>, sep: &str) -> (r: String)
    ensures
        r@ == joined(list.deep_view(), sep@),
{
    let ghost texts = list.deep_view();
    let mut out = String::new();
    let n = list.len();
    let mut i: usize = 0;
    while i < n
        invariant
            n == list@.len(),
            texts == list.deep_view(),
            i <= n,
            out@ == joined(texts.take(i as int), sep@),
        decreases n - i,
    {
        assert(texts.take(i + 1).drop_last() =~= texts.take(i as int));
        assert(texts[i as int] == list@[i as int]@);
        if i > 0 {
            out.append(sep);
        } else {
            assert(out@ =~= Seq::<char>::empty());
        }
        out.append(list[i].as_str());
        assert(texts.take(i + 1).last() == texts[i as int]);
        i += 1;
    }
    assert(texts.take(n as int) =~= texts);
    out
}

/// `{ a, b }, `: the texts sorted, joined with `, ` and enclosed in braces,
/// followed by `, `.
pub open spec fn braced_sorted_list(texts: Seq<Seq<char>>) -> Seq<char> {
    "{ "@ + joined(texts.sort_by(text_order()), ", "@) + " }, "@
}

/// The braced list of texts depends only on which texts there are, and how
/// often each occurs, not on their order.
pub proof fn law_braced_list_ignores_order(a: Seq<Seq<char>>, b: Seq<Seq<char>>)
    requires
        a.to_multiset() == b.to_multiset(),
    ensures
        braced_sorted_list(a) == braced_sorted_list(b),
{
    crate::ordering::law_text_order_is_total();
    a.lemma_sort_by_ensures(text_order());
    b.lemma_sort_by_ensures(text_order());
    vstd::seq_lib::lemma_sorted_unique(a.sort_by(text_order()), b.sort_by(text_order()), text_order());
}

/// Two sequences that are rearrangements of each other stay so when each
/// element is mapped by `f`.
pub proof fn lemma_map_keeps_rearrangement<A, B>(a: Seq<A>, b: Seq<A>, f: spec_fn(A) -> B)
    requires
        a.to_multiset() == b.to_multiset(),
    ensures
        a.map_values(f).to_multiset() == b.map_values(f).to_multiset(),
    decreases a.len(),
{
    broadcast use vstd::multiset::group_multiset_axioms;
    broadcast use vstd::seq_lib::to_multiset_build, vstd::seq_lib::to_multiset_remove;
    broadcast use vstd::seq_lib::to_multiset_len, vstd::seq_lib::to_multiset_contains;

    if a.len() == 0 {
        assert(b.to_multiset().len() == 0);
        assert(b.len() == 0);
        assert(a.map_values(f) =~= b.map_values(f));
    } else {
        let x = a.last();
        let a1 = a.drop_last();
        assert(a =~= a1.push(x));
        assert(a.to_multiset() =~= a1.to_multiset().insert(x));
        assert(b.to_multiset().count(x) > 0);
        assert(b.contains(x));
        let j = choose|j: int| 0 <= j < b.len() && b[j] == x;
        let b1 = b.remove(j);
        assert(b1.to_multiset() == b.to_multiset().remove(x));
        assert(a1.to_multiset() =~= b1.to_multiset());
        lemma_map_keeps_rearrangement(a1, b1, f);
        assert(a.map_values(f) =~= a1.map_values(f).push(f(x)));
        assert(b.map_values(f).remove(j) =~= b1.map_values(f));
        assert(b.map_values(f)[j] == f(x));
        assert(b.map_values(f).remove(j).to_multiset() == b.map_values(f).to_multiset().remove(f(x)));
        assert(b.map_values(f).to_multiset().count(f(x)) > 0) by {
            assert(b.map_values(f).contains(f(x)));
        }
        assert(b.map_values(f).to_multiset() =~= b1.map_values(f).to_multiset().insert(f(x)));
    }
}

/// Texts made from the members of a set, each taken once in any order, sort
/// to the texts made from the set.
pub proof fn lemma_texts_of_set<A>(a: Seq<A>, s: Set<A>, f: spec_fn(A) -> Seq<char>)
    requires
        a.no_duplicates(),
        a.to_set() == s,
    ensures
        braced_sorted_list(a.map_values(f)) == braced_sorted_list(s.to_seq().map_values(f)),
{
    broadcast use vstd::seq_lib::seq_to_set_is_finite;

    lemma_to_seq_no_duplicates(s);
    lemma_same_elements_rearrangement(a, s.to_seq());
    lemma_map_keeps_rearrangement(a, s.to_seq(), f);
    law_braced_list_ignores_order(a.map_values(f), s.to_seq().map_values(f));
}

/// The Debug text of a set whose members have the Debug texts `texts`:
/// sorted, joined with `, ` and enclosed in braces, followed by `, `.
pub fn debug_fmt_set(texts: Vec<String>) -> (r: String)
    ensures
        r@ == braced_sorted_list(texts.deep_view()),
{
    let sorted = sort_texts(texts);
    let inner = join_texts(&sorted, ", ");
    let mut out = String::from_str("{ ");
    out.append(inner.as_str());
    out.append(" }, ");
    out
}

/// `key: value`.
pub open spec fn key_value_text(pair: (Seq<char>, Seq<char>)) -> Seq<char> {
    pair.0 + ": "@ + pair.1
}

/// The Debug text of a map whose entries have the Debug texts `pairs` of
/// key and value: each entry written `key: value`, then as for a set.
pub fn debug_fmt_map(pairs: Vec<(String, String)>) -> (r: String)
    ensures
        r@ == braced_sorted_list(pairs.deep_view().map_values(|p| key_value_text(p))),
{
    let ghost pv = pairs.deep_view();
    let mut texts: Vec<String> = Vec::new();
    let n = pairs.len();
    let mut i: usize = 0;
    while i < n
        invariant
            n == pairs@.len(),
            pv == pairs.deep_view(),
            i <= n,
            texts.deep_view() =~= pv.take(i as int).map_values(|p| key_value_text(p)),
        decreases n - i,
    {
        let mut t = pairs[i].0.clone();
        t.append(": ");
        t.append(pairs[i].1.as_str());
        assert(pv[i as int] == (pairs@[i as int].0@, pairs@[i as int].1@));
        let ghost before = texts.deep_view();
        texts.push(t);
        assert(texts.deep_view() =~= before.push(key_value_text(pv[i as int])));
        assert(pv.take(i + 1).map_values(|p| key_value_text(p)) =~= pv.take(i as int).map_values(
            |p| key_value_text(p),
        ).push(key_value_text(pv[i as int])));
        i += 1;
    }
    assert(pv.take(n as int) =~= pv);
    debug_fmt_set(texts)
}

/// The text of one decimal digit.
pub open spec fn digit_text(d: nat) -> Seq<char> {
    if d == 0 {
        "0"@
    } else if d == 1 {
        "1"@
    } else if d == 2 {
        "2"@
    } else if d == 3 {
        "3"@
    } else if d == 4 {
        "4"@
    } else if d == 5 {
        "5"@
    } else if d == 6 {
        "6"@
    } else if d == 7 {
        "7"@
    } else if d == 8 {
        "8"@
    } else {
        "9"@
    }
}

/// The decimal text of `n`, without leading zeros: what `{:?}` writes for an
/// unsigned integer.
pub open spec fn decimal_text(n: nat) -> Seq<char>
    decreases n,
{
    if n < 10 {
        digit_text(n)
    } else {
        decimal_text(n / 10) + digit_text(n % 10)
    }
}

/// The Debug text of unsafety statistics shows the `used` block, then the
/// `unused` block, then whether the package forbids unsafe code; each block
/// shows its five counters under their own names, in declared order, and
/// each count its safe number before its unsafe one.
pub proof fn law_unsafe_info_text_shows_each_field_under_its_name(info: UnsafeInfo)
    ensures
        unsafe_info_debug_text(info) == "UnsafeInfo { used: "@ + block_debug_text(info.used)
            + ", unused: "@ + block_debug_text(info.unused) + ", forbids_unsafe: "@ + (
        if info.forbids_unsafe {
            "true"@
        } else {
            "false"@
        }) + " }"@,
        forall|b: CounterBlock| #[trigger] block_debug_text(b) == "CounterBlock { functions: "@
            + count_debug_text(b.functions) + ", exprs: "@ + count_debug_text(b.exprs)
            + ", item_impls: "@ + count_debug_text(b.item_impls) + ", item_traits: "@
            + count_debug_text(b.item_traits) + ", methods: "@ + count_debug_text(b.methods)
            + " }"@,
        forall|c: Count| #[trigger] count_debug_text(c) == "Count { safe: "@ + decimal_text(
            c.safe as nat,
        ) + ", unsafe_: "@ + decimal_text(c.unsafe_ as nat) + " }"@,
{
}

/// The decimal text of a number below ten is its one digit, and that of a
/// larger number is the text of all but its last digit followed by its last
/// digit: reading the digits back gives the number.
pub proof fn law_decimal_text_is_positional(n: nat)
    ensures
        n < 10 ==> decimal_text(n).len() == 1,
        n >= 10 ==> decimal_text(n) == decimal_text(n / 10) + digit_text(n % 10),
        digit_text(0) == seq!['0'],
        digit_text(1) == seq!['1'],
        digit_text(2) == seq!['2'],
        digit_text(3) == seq!['3'],
        digit_text(4) == seq!['4'],
        digit_text(5) == seq!['5'],
        digit_text(6) == seq!['6'],
        digit_text(7) == seq!['7'],
        digit_text(8) == seq!['8'],
        digit_text(9) == seq!['9'],
{
    reveal_strlit("0");
    reveal_strlit("1");
    reveal_strlit("2");
    reveal_strlit("3");
    reveal_strlit("4");
    reveal_strlit("5");
    reveal_strlit("6");
    reveal_strlit("7");
    reveal_strlit("8");
    reveal_strlit("9");
    assert(digit_text(0) =~= seq!['0']);
    assert(digit_text(1) =~= seq!['1']);
    assert(digit_text(2) =~= seq!['2']);
    assert(digit_text(3) =~= seq!['3']);
    assert(digit_text(4) =~= seq!['4']);
    assert(digit_text(5) =~= seq!['5']);
    assert(digit_text(6) =~= seq!['6']);
    assert(digit_text(7) =~= seq!['7']);
    assert(digit_text(8) =~= seq!['8']);
    assert(digit_text(9) =~= seq!['9']);
}

/// The text of one decimal digit.
fn digit_str(d: u64) -> (r: &'static str)
    requires
        d < 10,
    ensures
        r@ == digit_text(d as nat),
{
    if d == 0 {
        "0"
    } else if d == 1 {
        "1"
    } else if d == 2 {
        "2"
    } else if d == 3 {
        "3"
    } else if d == 4 {
        "4"
    } else if d == 5 {
        "5"
    } else if d == 6 {
        "6"
    } else if d == 7 {
        "7"
    } else if d == 8 {
        "8"
    } else {
        "9"
    }
}

/// The decimal text of `n`.
pub fn decimal(n: u64) -> (r: String)
    ensures
        r@ == decimal_text(n as nat),
    decreases n,
{
    if n < 10 {
        String::from_str(digit_str(n))
    } else {
        let mut s = decimal(n / 10);
        s.append(digit_str(n % 10));
        s
    }
}

/// What `{:?}` writes for a `bool`.
pub open spec fn bool_text(b: bool) -> Seq<char> {
    if b {
        "true"@
    } else {
        "false"@
    }
}

/// The derived Debug text of a [`Count`].
pub open spec fn count_debug_text(c: Count) -> Seq<char> {
    "Count { safe: "@ + decimal_text(c.safe as nat) + ", unsafe_: "@ + decimal_text(
        c.unsafe_ as nat,
    ) + " }"@
}

/// The derived Debug text of a [`CounterBlock`].
pub open spec fn block_debug_text(b: CounterBlock) -> Seq<char> {
    "CounterBlock { functions: "@ + count_debug_text(b.functions) + ", exprs: "@
        + count_debug_text(b.exprs) + ", item_impls: "@ + count_debug_text(b.item_impls)
        + ", item_traits: "@ + count_debug_text(b.item_traits) + ", methods: "@ + count_debug_text(
        b.methods,
    ) + " }"@
}

/// The derived Debug text of unsafety statistics.
pub open spec fn unsafe_info_debug_text(info: UnsafeInfo) -> Seq<char> {
    "UnsafeInfo { used: "@ + block_debug_text(info.used) + ", unused: "@ + block_debug_text(
        info.unused,
    ) + ", forbids_unsafe: "@ + bool_text(info.forbids_unsafe) + " }"@
}

/// The derived Debug text of a [`Count`].
pub fn count_debug(c: &Count) -> (r: String)
    ensures
        r@ == count_debug_text(*c),
{
    let mut out = String::from_str("Count { safe: ");
    out.append(decimal(c.safe).as_str());
    out.append(", unsafe_: ");
    out.append(decimal(c.unsafe_).as_str());
    out.append(" }");
    out
}

/// The derived Debug text of a [`CounterBlock`].
pub fn block_debug(b: &CounterBlock) -> (r: String)
    ensures
        r@ == block_debug_text(*b),
{
    let mut out = String::from_str("CounterBlock { functions: ");
    out.append(count_debug(&b.functions).as_str());
    out.append(", exprs: ");
    out.append(count_debug(&b.exprs).as_str());
    out.append(", item_impls: ");
    out.append(count_debug(&b.item_impls).as_str());
    out.append(", item_traits: ");
    out.append(count_debug(&b.item_traits).as_str());
    out.append(", methods: ");
    out.append(count_debug(&b.methods).as_str());
    out.append(" }");
    out
}

/// The derived Debug text of unsafety statistics.
pub fn unsafe_info_debug(info: &UnsafeInfo) -> (r: String)
    ensures
        r@ == unsafe_info_debug_text(*info),
{
    let mut out = String::from_str("UnsafeInfo { used: ");
    out.append(block_debug(&info.used).as_str());
    out.append(", unused: ");
    out.append(block_debug(&info.unused).as_str());
    out.append(", forbids_unsafe: ");
    out.append(if info.forbids_unsafe {
        "true"
    } else {
        "false"
    });
    out.append(" }");
    out
}

/// What `{:?}` writes for a string: the text quoted, with escapes.
pub uninterp spec fn str_debug_text(s: Seq<char>) -> Seq<char>;

/// Formats `s` with `{:?}`, std's `Debug` of `str`. Claims only that the
/// text is `str_debug_text` of the string.
#[verifier::external_body]
pub(crate) fn str_debug(s: &str) -> (r: String)
    ensures
        r@ == str_debug_text(s@),
{
    format!("{:?}", s)
}

/// The derived Debug text of a [`Source`].
pub open spec fn source_debug_text(s: SourceView) -> Seq<char> {
    match s {
        SourceView::Git { url, rev } => "Git { url: "@ + str_debug_text(url) + ", rev: "@
            + str_debug_text(rev) + " }"@,
        SourceView::Registry { name, url } => "Registry { name: "@ + str_debug_text(name)
            + ", url: "@ + str_debug_text(url) + " }"@,
        SourceView::Path(url) => "Path("@ + str_debug_text(url) + ")"@,
    }
}

/// The derived Debug text of a package id.
pub open spec fn package_id_debug_text(id: PackageIdView) -> Seq<char> {
    "PackageId { name: "@ + str_debug_text(id.name) + ", version: "@ + str_debug_text(id.version)
        + ", source: "@ + source_debug_text(id.source) + " }"@
}

/// The derived Debug text of a [`Source`].
pub fn source_debug(s: &Source) -> (r: String)
    ensures
        r@ == source_debug_text(s@),
{
    match s {
        Source::Git { url, rev } => {
            let mut out = String::from_str("Git { url: ");
            out.append(str_debug(url.as_str()).as_str());
            out.append(", rev: ");
            out.append(str_debug(rev.as_str()).as_str());
            out.append(" }");
            out
        },
        Source::Registry { name, url } => {
            let mut out = String::from_str("Registry { name: ");
            out.append(str_debug(name.as_str()).as_str());
            out.append(", url: ");
            out.append(str_debug(url.as_str()).as_str());
            out.append(" }");
            out
        },
        Source::Path(url) => {
            let mut out = String::from_str("Path(");
            out.append(str_debug(url.as_str()).as_str());
            out.append(")");
            out
        },
    }
}

/// The derived Debug text of a package id.
pub fn package_id_debug(id: &PackageId) -> (r: String)
    ensures
        r@ == package_id_debug_text(id@),
{
    let mut out = String::from_str("PackageId { name: ");
    out.append(str_debug(id.name.as_str()).as_str());
    out.append(", version: ");
    out.append(str_debug(id.version.as_str()).as_str());
    out.append(", source: ");
    out.append(source_debug(&id.source).as_str());
    out.append(" }");
    out
}

/// The Debug text (`{:?}`) of a file path.
pub uninterp spec fn path_debug_text(path: Seq<char>) -> Seq<char>;

/// Formats `path` as a `std::path::Path` with `{:?}`. Claims only that the
/// text is `path_debug_text` of the path.
#[verifier::external_body]
pub(crate) fn path_debug(path: &String) -> (r: String)
    ensures
        r@ == path_debug_text(path@),
{
    format!("{:?}", std::path::Path::new(path))
}

} // verus!

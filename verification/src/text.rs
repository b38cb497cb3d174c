//! Character-level helpers on string slices, each with an exact contract.

use vstd::prelude::*;

verus! {

/// Whether two string slices hold the same characters.
pub fn str_equals(a: &str, b: &str) -> (r: bool)
    ensures
        r == (a@ == b@),
{
    let n = a.unicode_len();
    if n != b.unicode_len() {
        return false;
    }
    let mut i: usize = 0;
    while i < n
        invariant
            n == a@.len(),
            n == b@.len(),
            i <= n,
            forall|j: int| 0 <= j < i ==> a@[j] == b@[j],
        decreases n - i,
    {
        if a.get_char(i) != b.get_char(i) {
            return false;
        }
        i += 1;
    }
    assert(a@ =~= b@);
    true
}


/// `i` ends the first field of `s`: no `sep` stands before it, and `sep`
/// stands at it unless it is the end of `s`.
pub open spec fn ends_first_field(s: Seq<char>, sep: char, i: int) -> bool {
    &&& 0 <= i <= s.len()
    &&& forall|j: int| 0 <= j < i ==> s[j] != sep
    &&& i < s.len() ==> s[i] == sep
}

/// The text of `s` before its first `sep`: the first piece that splitting
/// `s` on `sep` yields (all of `s` when `sep` does not occur).
pub open spec fn first_field(s: Seq<char>, sep: char) -> Seq<char> {
    s.take(choose|i: int| ends_first_field(s, sep, i))
}

/// `k` starts the last field of `s`: no `sep` stands at or after it, and
/// `sep` stands just before it unless it is the start of `s`.
pub open spec fn starts_last_field(s: Seq<char>, sep: char, k: int) -> bool {
    &&& 0 <= k <= s.len()
    &&& forall|j: int| k <= j < s.len() ==> s[j] != sep
    &&& k > 0 ==> s[k - 1] == sep
}

/// The text of `s` after its last `sep`: the last piece that splitting `s`
/// on `sep` yields (all of `s` when `sep` does not occur).
pub open spec fn last_field(s: Seq<char>, sep: char) -> Seq<char> {
    s.skip(choose|k: int| starts_last_field(s, sep, k))
}

proof fn lemma_first_field(s: Seq<char>, sep: char, i: int)
    requires
        ends_first_field(s, sep, i),
    ensures
        first_field(s, sep) == s.take(i),
{
    let c = choose|i: int| ends_first_field(s, sep, i);
    assert(ends_first_field(s, sep, c));
    if c < i {
        assert(s[c] != sep);
    } else if i < c {
        assert(s[i] != sep);
    }
}

proof fn lemma_last_field(s: Seq<char>, sep: char, k: int)
    requires
        starts_last_field(s, sep, k),
    ensures
        last_field(s, sep) == s.skip(k),
{
    let c = choose|k: int| starts_last_field(s, sep, k);
    assert(starts_last_field(s, sep, c));
    if c < k {
        assert(s[k - 1] != sep);
    } else if k < c {
        assert(s[c - 1] != sep);
    }
}

proof fn lemma_first_field_end_exists(s: Seq<char>, sep: char, i: int) -> (k: int)
    requires
        0 <= i <= s.len(),
        forall|j: int| 0 <= j < i ==> s[j] != sep,
    ensures
        ends_first_field(s, sep, k),
    decreases s.len() - i,
{
    if i == s.len() || s[i] == sep {
        i
    } else {
        lemma_first_field_end_exists(s, sep, i + 1)
    }
}

proof fn lemma_last_field_start_exists(s: Seq<char>, sep: char, k: int) -> (r: int)
    requires
        0 <= k <= s.len(),
        forall|j: int| k <= j < s.len() ==> s[j] != sep,
    ensures
        starts_last_field(s, sep, r),
    decreases k,
{
    if k == 0 || s[k - 1] == sep {
        k
    } else {
        lemma_last_field_start_exists(s, sep, k - 1)
    }
}

/// The first field is the text of `s` up to its first `sep`: a prefix of
/// `s` without `sep`, followed in `s` by `sep` unless it is all of `s`.
pub proof fn law_first_field_is_first_piece(s: Seq<char>, sep: char)
    ensures
        first_field(s, sep).len() <= s.len(),
        s.take(first_field(s, sep).len() as int) == first_field(s, sep),
        !first_field(s, sep).contains(sep),
        first_field(s, sep).len() < s.len() ==> s[first_field(s, sep).len() as int] == sep,
{
    let i = lemma_first_field_end_exists(s, sep, 0);
    lemma_first_field(s, sep, i);
}

/// The last field is the text of `s` after its last `sep`: a suffix of `s`
/// without `sep`, preceded in `s` by `sep` unless it is all of `s`.
pub proof fn law_last_field_is_last_piece(s: Seq<char>, sep: char)
    ensures
        last_field(s, sep).len() <= s.len(),
        s.skip(s.len() - last_field(s, sep).len()) == last_field(s, sep),
        !last_field(s, sep).contains(sep),
        last_field(s, sep).len() < s.len() ==> s[s.len() - last_field(s, sep).len() - 1] == sep,
{
    let k = lemma_last_field_start_exists(s, sep, s.len() as int);
    lemma_last_field(s, sep, k);
    assert(s.skip(k).len() == s.len() - k);
    if last_field(s, sep).contains(sep) {
        let j = choose|j: int| 0 <= j < s.skip(k).len() && s.skip(k)[j] == sep;
        assert(s[k + j] == sep);
    }
}

/// The first field of `s` with respect to `sep`.
pub fn first_field_of(s: &str, sep: char) -> (r: &str)
    ensures
        r@ == first_field(s@, sep),
{
    let n = s.unicode_len();
    let mut i: usize = 0;
    while i < n
        invariant
            n == s@.len(),
            i <= n,
            forall|j: int| 0 <= j < i ==> s@[j] != sep,
        ensures
            i <= n,
            forall|j: int| 0 <= j < i ==> s@[j] != sep,
            i < n ==> s@[i as int] == sep,
        decreases n - i,
    {
        if s.get_char(i) == sep {
            break;
        }
        i += 1;
    }
    proof {
        lemma_first_field(s@, sep, i as int);
    }
    s.substring_char(0, i)
}

/// The last field of `s` with respect to `sep`.
pub fn last_field_of(s: &str, sep: char) -> (r: &str)
    ensures
        r@ == last_field(s@, sep),
{
    let n = s.unicode_len();
    let mut k: usize = n;
    while k > 0
        invariant
            n == s@.len(),
            k <= n,
            forall|j: int| k <= j < n ==> s@[j] != sep,
        ensures
            k <= n,
            forall|j: int| k <= j < n ==> s@[j] != sep,
            k > 0 ==> s@[k - 1] == sep,
        decreases k,
    {
        if s.get_char(k - 1) == sep {
            break;
        }
        k -= 1;
    }
    proof {
        lemma_last_field(s@, sep, k as int);
    }
    s.substring_char(k, n)
}


/// `pat` occurs in `s` starting at position `p`.
pub open spec fn occurs_at(s: Seq<char>, pat: Seq<char>, p: int) -> bool {
    0 <= p && p + pat.len() <= s.len() && s.subrange(p, p + pat.len()) == pat
}

/// `pat` occurs somewhere in `s`.
pub open spec fn contains_pattern(s: Seq<char>, pat: Seq<char>) -> bool {
    exists|p: int| occurs_at(s, pat, p)
}

/// `p` is the start of the rightmost occurrence of `pat` in `s`.
pub open spec fn is_last_occurrence(s: Seq<char>, pat: Seq<char>, p: int) -> bool {
    &&& occurs_at(s, pat, p)
    &&& forall|q: int| p < q ==> !occurs_at(s, pat, q)
}

/// The text of `s` after the rightmost occurrence of `pat`.
pub open spec fn after_last_occurrence(s: Seq<char>, pat: Seq<char>) -> Seq<char> {
    s.skip((choose|p: int| is_last_occurrence(s, pat, p)) + pat.len())
}

proof fn lemma_after_last_occurrence(s: Seq<char>, pat: Seq<char>, p: int)
    requires
        is_last_occurrence(s, pat, p),
    ensures
        after_last_occurrence(s, pat) == s.skip(p + pat.len()),
{
    let c = choose|p: int| is_last_occurrence(s, pat, p);
    assert(is_last_occurrence(s, pat, c));
    assert(!(c < p));
    assert(!(p < c));
}

proof fn lemma_last_occurrence_exists(s: Seq<char>, pat: Seq<char>, q: int) -> (p: int)
    requires
        contains_pattern(s, pat),
        forall|r: int| q < r ==> !occurs_at(s, pat, r),
    ensures
        is_last_occurrence(s, pat, p),
    decreases q + 1,
{
    let w = choose|r: int| occurs_at(s, pat, r);
    if q < 0 {
        assert(occurs_at(s, pat, w));
        assert(false);
        q
    } else if occurs_at(s, pat, q) {
        q
    } else {
        lemma_last_occurrence_exists(s, pat, q - 1)
    }
}

/// Where `pat` occurs in `s`, the text after its rightmost occurrence is a
/// suffix of `s` that follows a copy of `pat` and holds no copy of `pat`
/// overlapping or after that one.
pub proof fn law_after_last_occurrence(s: Seq<char>, pat: Seq<char>)
    requires
        contains_pattern(s, pat),
    ensures
        exists|p: int|
            is_last_occurrence(s, pat, p) && #[trigger] s.skip(p + pat.len()) == after_last_occurrence(
                s,
                pat,
            ),
{
    let p = lemma_last_occurrence_exists(s, pat, s.len() as int);
    lemma_after_last_occurrence(s, pat, p);
}

/// Whether `pat` occurs in `s` starting at character position `p`.
pub fn occurs_at_exec(s: &str, pat: &str, p: usize) -> (r: bool)
    ensures
        r == occurs_at(s@, pat@, p as int),
{
    let n = s.unicode_len();
    let m = pat.unicode_len();
    if m > n || p > n - m {
        return false;
    }
    let mut i: usize = 0;
    while i < m
        invariant
            n == s@.len(),
            m == pat@.len(),
            p + m <= n,
            i <= m,
            forall|j: int| 0 <= j < i ==> s@[p + j] == pat@[j],
        decreases m - i,
    {
        if s.get_char(p + i) != pat.get_char(i) {
            assert(s@.subrange(p as int, p + m)[i as int] != pat@[i as int]);
            return false;
        }
        i += 1;
    }
    assert(s@.subrange(p as int, p + m) =~= pat@);
    true
}

/// The start of the rightmost occurrence of `pat` in `s`, if any.
pub fn last_occurrence_of(s: &str, pat: &str) -> (r: Option<usize>)
    ensures
        match r {
            Some(p) => is_last_occurrence(s@, pat@, p as int),
            None => !contains_pattern(s@, pat@),
        },
{
    let n = s.unicode_len();
    let m = pat.unicode_len();
    if m > n {
        assert forall|q: int| !occurs_at(s@, pat@, q) by {}
        return None;
    }
    let mut k: usize = n - m;
    loop
        invariant
            n == s@.len(),
            m == pat@.len(),
            m <= n,
            k <= n - m,
            forall|q: int| k < q ==> !occurs_at(s@, pat@, q),
        decreases k,
    {
        if occurs_at_exec(s, pat, k) {
            return Some(k);
        }
        if k == 0 {
            assert forall|q: int| !occurs_at(s@, pat@, q) by {}
            return None;
        }
        k -= 1;
    }
}


/// The text of `s` after the rightmost occurrence of `pat`, if `pat` occurs.
pub fn text_after_last<'a>(s: &'a str, pat: &str) -> (r: Option<&'a str>)
    ensures
        match r {
            Some(t) => contains_pattern(s@, pat@) && t@ == after_last_occurrence(s@, pat@),
            None => !contains_pattern(s@, pat@),
        },
{
    match last_occurrence_of(s, pat) {
        Some(p) => {
            let n = s.unicode_len();
            let m = pat.unicode_len();
            proof {
                lemma_after_last_occurrence(s@, pat@, p as int);
            }
            Some(s.substring_char(p + m, n))
        },
        None => None,
    }
}

} // verus!

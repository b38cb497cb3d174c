//! Where a package comes from, worked out from the text descriptions that
//! cargo gives of package sources and package ids.

use vstd::prelude::*;

use crate::package_id::{Source, SourceView};
use crate::text::{
    after_last_occurrence, contains_pattern, first_field, first_field_of, last_field,
    last_field_of, str_equals, text_after_last,
};
use crate::url_parts::{
    file_path_url, parse_url, parsed_url, url_from_file_path, UrlParts, UrlPartsView,
};

verus! {

/// The kind of source that the first field of a source description names.
#[derive(Clone, Copy, Debug, PartialEq, Eq)]
pub enum SourceType {
    Registry,
    Git,
    Unrecognised,
}

/// The kind of source that `raw` names.
pub open spec fn source_type_of(raw: Seq<char>) -> SourceType {
    if raw == "registry"@ {
        SourceType::Registry
    } else if raw == "git"@ {
        SourceType::Git
    } else {
        SourceType::Unrecognised
    }
}

impl SourceType {
    /// Reads the kind of source from its name.
    pub fn from(raw: &str) -> (r: SourceType)
        ensures
            r == source_type_of(raw@),
    {
        if str_equals(raw, "registry") {
            SourceType::Registry
        } else if str_equals(raw, "git") {
            SourceType::Git
        } else {
            SourceType::Unrecognised
        }
    }
}

/// Why a source could not be worked out.
#[derive(Clone, Copy, Debug, PartialEq, Eq)]
pub enum SourceError {
    /// A URL in the description was refused by the URL parser.
    InvalidUrl(url::ParseError),
    /// A git URL has no host.
    MissingHost,
    /// The path of a local package could not be turned into a `file:` URL.
    InvalidFilePath,
}

/// The outcome of working out a source, with the parser's error left out.
pub enum SourceOutcome {
    Resolved(SourceView),
    InvalidUrl,
    MissingHost,
    InvalidFilePath,
}

/// The outcome that a result stands for.
pub open spec fn outcome_of(r: Result<Source, SourceError>) -> SourceOutcome {
    match r {
        Ok(s) => SourceOutcome::Resolved(s@),
        Err(SourceError::InvalidUrl(_)) => SourceOutcome::InvalidUrl,
        Err(SourceError::MissingHost) => SourceOutcome::MissingHost,
        Err(SourceError::InvalidFilePath) => SourceOutcome::InvalidFilePath,
    }
}

/// The value of the first pair in `pairs`, from index `i` on, whose key is
/// `key`; empty when there is none.
pub open spec fn value_for_key_from(
    pairs: Seq<(Seq<char>, Seq<char>)>,
    key: Seq<char>,
    i: int,
) -> Seq<char>
    decreases pairs.len() - i,
{
    if i < 0 || i >= pairs.len() {
        Seq::empty()
    } else if pairs[i].0 == key {
        pairs[i].1
    } else {
        value_for_key_from(pairs, key, i + 1)
    }
}

/// The revision named by the first `rev` pair of a query; empty when there
/// is none.
pub open spec fn revision_of(pairs: Seq<(Seq<char>, Seq<char>)>) -> Seq<char> {
    value_for_key_from(pairs, "rev"@, 0)
}

/// `scheme://host/path` of a URL, without its query or fragment; `None` when
/// the URL has no host.
pub open spec fn git_location_of(p: UrlPartsView) -> Option<Seq<char>> {
    match p.host {
        Some(h) => Some(p.scheme + "://"@ + h + p.path),
        None => None,
    }
}

/// The outcome of working out the source described by `repr`, of the form
/// `kind+url`: a registry source named `crates.io` at the parsed URL, or a
/// git source at the URL stripped of its query and pinned to the query's
/// `rev`.
pub open spec fn repr_outcome(repr: Seq<char>) -> SourceOutcome {
    match parsed_url(last_field(repr, '+')) {
        None => SourceOutcome::InvalidUrl,
        Some(p) => if source_type_of(first_field(repr, '+')) == SourceType::Registry {
            SourceOutcome::Resolved(SourceView::Registry { name: "crates.io"@, url: p.serialization })
        } else {
            match git_location_of(p) {
                None => SourceOutcome::MissingHost,
                Some(loc) => match parsed_url(loc) {
                    None => SourceOutcome::InvalidUrl,
                    Some(q) => SourceOutcome::Resolved(
                        SourceView::Git { url: q.serialization, rev: revision_of(p.query_pairs) },
                    ),
                },
            }
        }
    }
}

/// A registry description whose URL parses resolves to the registry named
/// `crates.io` at that URL exactly as the parser gives it back: nothing of
/// it, such as a port, a user or a query, is dropped or rebuilt, and a
/// registry URL without a host resolves all the same.
pub proof fn law_registry_url_is_the_parsed_url(repr: Seq<char>, p: UrlPartsView)
    requires
        source_type_of(first_field(repr, '+')) is Registry,
        parsed_url(last_field(repr, '+')) == Some(p),
    ensures
        repr_outcome(repr) == SourceOutcome::Resolved(
            SourceView::Registry { name: "crates.io"@, url: p.serialization },
        ),
{
}

/// A git description whose URL parses resolves to the git source at
/// `scheme://host/path` of that URL, as the parser gives that back, pinned to
/// the first `rev` of the URL's query; it has a missing host exactly when the
/// URL has no host.
pub proof fn law_git_source_drops_only_the_query(repr: Seq<char>, p: UrlPartsView)
    requires
        source_type_of(first_field(repr, '+')) is Git,
        parsed_url(last_field(repr, '+')) == Some(p),
    ensures
        p.host is None <==> repr_outcome(repr) == SourceOutcome::MissingHost,
        p.host matches Some(h) ==> repr_outcome(repr) == match parsed_url(
            p.scheme + "://"@ + h + p.path,
        ) {
            None => SourceOutcome::InvalidUrl,
            Some(q) => SourceOutcome::Resolved(
                SourceView::Git { url: q.serialization, rev: revision_of(p.query_pairs) },
            ),
        },
{
}

/// A description whose URL the parser refuses has no source, whatever its
/// kind.
pub proof fn law_unparsed_url_is_invalid(repr: Seq<char>)
    requires
        parsed_url(last_field(repr, '+')) is None,
    ensures
        repr_outcome(repr) == SourceOutcome::InvalidUrl,
{
}

/// The revision is the value of the first pair whose key is `rev`, and empty
/// when no key is `rev`.
pub proof fn law_revision_is_first_rev(pairs: Seq<(Seq<char>, Seq<char>)>)
    ensures
        forall|i: int|
            0 <= i < pairs.len() && #[trigger] pairs[i].0 == "rev"@ && (forall|j: int|
                0 <= j < i ==> pairs[j].0 != "rev"@) ==> revision_of(pairs) == pairs[i].1,
        (forall|j: int| 0 <= j < pairs.len() ==> pairs[j].0 != "rev"@) ==> revision_of(pairs)
            == Seq::<char>::empty(),
{
    assert forall|i: int|
        0 <= i < pairs.len() && #[trigger] pairs[i].0 == "rev"@ && (forall|j: int|
            0 <= j < i ==> pairs[j].0 != "rev"@) implies revision_of(pairs) == pairs[i].1 by {
        lemma_value_for_key_skips(pairs, "rev"@, 0, i);
    }
    if forall|j: int| 0 <= j < pairs.len() ==> pairs[j].0 != "rev"@ {
        lemma_value_for_key_skips(pairs, "rev"@, 0, pairs.len() as int);
    }
}

proof fn lemma_value_for_key_skips(
    pairs: Seq<(Seq<char>, Seq<char>)>,
    key: Seq<char>,
    from: int,
    to: int,
)
    requires
        0 <= from <= to <= pairs.len(),
        forall|j: int| from <= j < to ==> pairs[j].0 != key,
    ensures
        value_for_key_from(pairs, key, from) == value_for_key_from(pairs, key, to),
    decreases to - from,
{
    if from < to {
        lemma_value_for_key_skips(pairs, key, from + 1, to);
    }
}

/// A resolved source description gives a registry source exactly when it
/// names a registry, never a local source, and a registry source is always
/// named `crates.io`.
pub proof fn law_resolved_source_kind(repr: Seq<char>)
    requires
        repr_outcome(repr) is Resolved,
    ensures
        (repr_outcome(repr)->Resolved_0 is Registry) == (source_type_of(first_field(repr, '+'))
            is Registry),
        repr_outcome(repr)->Resolved_0 is Registry ==> repr_outcome(repr)->Resolved_0->Registry_name
            == "crates.io"@,
        !(repr_outcome(repr)->Resolved_0 is Path),
{
}

/// The revision named by the first `rev` pair of a query; empty when there is
/// none.
pub fn revision_in_query(pairs: &Vec<(String, String)>) -> (r: String)
    ensures
        r@ == revision_of(pairs.deep_view()),
{
    let n = pairs.len();
    let mut i: usize = 0;
    while i < n
        invariant
            n == pairs@.len(),
            i <= n,
            value_for_key_from(pairs.deep_view(), "rev"@, i as int) == revision_of(
                pairs.deep_view(),
            ),
        decreases n - i,
    {
        assert(pairs.deep_view()[i as int] == (pairs@[i as int].0@, pairs@[i as int].1@));
        if str_equals(pairs[i].0.as_str(), "rev") {
            return pairs[i].1.clone();
        }
        i += 1;
    }
    String::new()
}

/// `scheme://host/path` of a parsed URL; `None` when it has no host.
pub fn git_location(url: &UrlParts) -> (r: Option<String>)
    ensures
        r.deep_view() == git_location_of(url@),
{
    match &url.host {
        Some(h) => {
            let mut s = url.scheme.clone();
            s.append("://");
            s.append(h.as_str());
            s.append(url.path.as_str());
            Some(s)
        },
        None => None,
    }
}

/// The registry source at a parsed URL. Cargo does not report the registry's
/// name, so it is taken to be `crates.io`.
pub fn registry_source(url: &UrlParts) -> (r: Source)
    ensures
        r@ == (SourceView::Registry { name: "crates.io"@, url: url@.serialization }),
{
    Source::Registry { name: String::from_str("crates.io"), url: url.serialization.clone() }
}

/// The git source at a parsed location, pinned to `revision`.
pub fn git_source(location: &UrlParts, revision: String) -> (r: Source)
    ensures
        r@ == (SourceView::Git { url: location@.serialization, rev: revision@ }),
{
    Source::Git { url: location.serialization.clone(), rev: revision }
}

/// Works out the source described by `source_repr`, of the form `kind+url`,
/// where `kind` is `registry` or `git`. Where the URL parser refuses a URL,
/// or a git URL has no host, this returns that error: such a description
/// has no source to give, and the error stands where a panic would.
pub fn handle_source_repr(source_repr: &str) -> (r: Result<Source, SourceError>)
    requires
        !(source_type_of(first_field(source_repr@, '+')) is Unrecognised),
    ensures
        outcome_of(r) == repr_outcome(source_repr@),
{
    let source_type = SourceType::from(first_field_of(source_repr, '+'));
    let raw = last_field_of(source_repr, '+');
    let parsed = match parse_url(raw) {
        Ok(p) => p,
        Err(e) => {
            return Err(SourceError::InvalidUrl(e));
        },
    };
    match source_type {
        SourceType::Registry => Ok(registry_source(&parsed)),
        _ => {
            let location = match git_location(&parsed) {
                Some(l) => l,
                None => {
                    return Err(SourceError::MissingHost);
                },
            };
            let revision = revision_in_query(&parsed.query_pairs);
            match parse_url(location.as_str()) {
                Ok(loc) => Ok(git_source(&loc, revision)),
                Err(e) => Err(SourceError::InvalidUrl(e)),
            }
        },
    }
}

/// Whether `c` is a one-byte (ASCII) character.
pub open spec fn is_ascii_char(c: char) -> bool {
    (c as u32) < 128
}

/// The text of a package id description `(... +file://path)` after its last
/// `+file://`, between the enclosing brackets.
pub open spec fn path_after_marker(repr: Seq<char>) -> Seq<char> {
    after_last_occurrence(repr.subrange(1, repr.len() - 1), "+file://"@)
}

/// The local path named by a package id description; on Windows the slash
/// before the drive letter is dropped.
pub open spec fn path_text(repr: Seq<char>, on_windows: bool) -> Seq<char> {
    if on_windows {
        path_after_marker(repr).drop_first()
    } else {
        path_after_marker(repr)
    }
}

/// The package id descriptions from which a local path can be read: a
/// bracket-like ASCII character at each end, a `+file://` marker between
/// them, and on Windows an ASCII character after the last marker.
pub open spec fn path_repr_ok(repr: Seq<char>, on_windows: bool) -> bool {
    &&& repr.len() >= 2
    &&& is_ascii_char(repr[0])
    &&& is_ascii_char(repr.last())
    &&& contains_pattern(repr.subrange(1, repr.len() - 1), "+file://"@)
    &&& on_windows ==> path_after_marker(repr).len() >= 1 && is_ascii_char(
        path_after_marker(repr)[0],
    )
}

/// Whether a local path can be read from the package id description
/// `package_id_repr`.
pub fn path_repr_usable(package_id_repr: &str, on_windows: bool) -> (r: bool)
    ensures
        r == path_repr_ok(package_id_repr@, on_windows),
{
    let n = package_id_repr.unicode_len();
    if n < 2 {
        return false;
    }
    let first = package_id_repr.get_char(0);
    let last = package_id_repr.get_char(n - 1);
    if !((first as u32) < 128) || !((last as u32) < 128) {
        return false;
    }
    let inner = package_id_repr.substring_char(1, n - 1);
    match text_after_last(inner, "+file://") {
        None => false,
        Some(after) => {
            if on_windows {
                let m = after.unicode_len();
                m >= 1 && (after.get_char(0) as u32) < 128
            } else {
                true
            }
        },
    }
}

/// The outcome of working out the local source of a package id description.
pub open spec fn path_outcome(repr: Seq<char>, on_windows: bool) -> SourceOutcome {
    match file_path_url(path_text(repr, on_windows)) {
        Some(u) => SourceOutcome::Resolved(SourceView::Path(u)),
        None => SourceOutcome::InvalidFilePath,
    }
}

/// Works out the local source of a package from its id description, such as
/// `(path+file:///some/dir)`. Where the path is not one that a `file:` URL
/// can be made of (on Unix, a path that is not absolute), this returns
/// `InvalidFilePath`: the error stands where a panic would.
pub fn handle_path_source(package_id_repr: &str, on_windows: bool) -> (r: Result<
    Source,
    SourceError,
>)
    requires
        path_repr_ok(package_id_repr@, on_windows),
    ensures
        outcome_of(r) == path_outcome(package_id_repr@, on_windows),
{
    let n = package_id_repr.unicode_len();
    let inner = package_id_repr.substring_char(1, n - 1);
    let after = match text_after_last(inner, "+file://") {
        Some(t) => t,
        None => {
            proof {
                assert(false);
            }
            return Err(SourceError::InvalidFilePath);
        },
    };
    let path = if on_windows {
        let m = after.unicode_len();
        after.substring_char(1, m)
    } else {
        after
    };
    assert(path@ == path_text(package_id_repr@, on_windows));
    match url_from_file_path(path) {
        Some(u) => Ok(Source::Path(u)),
        None => Err(SourceError::InvalidFilePath),
    }
}

/// Works out the source of a package: from cargo's description of its
/// source when it has one, else from its id description as a local path.
pub fn source_of_package(source_repr: Option<&str>, package_id_repr: &str, on_windows: bool) -> (r:
    Result<Source, SourceError>)
    requires
        match source_repr {
            Some(s) => !(source_type_of(first_field(s@, '+')) is Unrecognised),
            None => path_repr_ok(package_id_repr@, on_windows),
        },
    ensures
        outcome_of(r) == match source_repr {
            Some(s) => repr_outcome(s@),
            None => path_outcome(package_id_repr@, on_windows),
        },
{
    match source_repr {
        Some(s) => handle_source_repr(s),
        None => handle_path_source(package_id_repr, on_windows),
    }
}

} // verus!

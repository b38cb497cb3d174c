//! Identity of a package: its name, its version and where it comes from.

use vstd::prelude::*;

verus! {

/// Where a package comes from. Each URL is held as its serialized text.
#[derive(Clone, Debug, PartialEq, Eq, Hash, PartialOrd, Ord)]
pub enum Source {
    /// A git repository at `url`, pinned to revision `rev` (empty when none).
    Git { url: String, rev: String },
    /// A package registry called `name` at `url`.
    Registry { name: String, url: String },
    /// A local directory, as a `file:` URL.
    Path(String),
}

/// The mathematical value of a [`Source`].
pub enum SourceView {
    Git { url: Seq<char>, rev: Seq<char> },
    Registry { name: Seq<char>, url: Seq<char> },
    Path(Seq<char>),
}

impl View for Source {
    type V = SourceView;

    open spec fn view(&self) -> SourceView {
        match self {
            Source::Git { url, rev } => SourceView::Git { url: url@, rev: rev@ },
            Source::Registry { name, url } => SourceView::Registry { name: name@, url: url@ },
            Source::Path(url) => SourceView::Path(url@),
        }
    }
}

/// Identifies one package: name, version text and source.
#[derive(Clone, Debug, PartialEq, Eq, Hash, PartialOrd, Ord)]
pub struct PackageId {
    pub name: String,
    pub version: String,
    pub source: Source,
}

/// The mathematical value of a [`PackageId`].
pub struct PackageIdView {
    pub name: Seq<char>,
    pub version: Seq<char>,
    pub source: SourceView,
}

impl View for PackageId {
    type V = PackageIdView;

    open spec fn view(&self) -> PackageIdView {
        PackageIdView { name: self.name@, version: self.version@, source: self.source@ }
    }
}

/// A value that can be compared with another of its type by its view, and
/// copied keeping its view.
pub trait Keyed: View + Sized {
    fn same_key(&self, other: &Self) -> (r: bool)
        ensures
            r == (self@ == other@),
    ;

    fn duplicate(&self) -> (r: Self)
        ensures
            r@ == self@,
    ;
}

impl Keyed for String {
    fn same_key(&self, other: &Self) -> (r: bool) {
        *self == *other
    }

    fn duplicate(&self) -> (r: Self) {
        self.clone()
    }
}

impl Keyed for Source {
    fn same_key(&self, other: &Self) -> (r: bool) {
        match (self, other) {
            (Source::Git { url: u1, rev: r1 }, Source::Git { url: u2, rev: r2 }) => {
                *u1 == *u2 && *r1 == *r2
            },
            (Source::Registry { name: n1, url: u1 }, Source::Registry { name: n2, url: u2 }) => {
                *n1 == *n2 && *u1 == *u2
            },
            (Source::Path(u1), Source::Path(u2)) => *u1 == *u2,
            _ => false,
        }
    }

    fn duplicate(&self) -> (r: Self) {
        match self {
            Source::Git { url, rev } => Source::Git { url: url.clone(), rev: rev.clone() },
            Source::Registry { name, url } => Source::Registry {
                name: name.clone(),
                url: url.clone(),
            },
            Source::Path(url) => Source::Path(url.clone()),
        }
    }
}

impl Keyed for PackageId {
    fn same_key(&self, other: &Self) -> (r: bool) {
        self.name == other.name && self.version == other.version && self.source.same_key(
            &other.source,
        )
    }

    fn duplicate(&self) -> (r: Self) {
        PackageId {
            name: self.name.clone(),
            version: self.version.clone(),
            source: self.source.duplicate(),
        }
    }
}

} // verus!

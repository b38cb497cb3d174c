//! Output patterns: how one package is rendered as a line of text.

use vstd::prelude::*;

use crate::key_set::views_of;

verus! {

/// One piece of an output pattern.
#[derive(Clone, Debug, PartialEq, Eq)]
pub enum Chunk {
    /// The package's license.
    License,
    /// The package's name and version.
    Package,
    /// Text written as it is.
    Raw(String),
    /// The package's repository.
    Repository,
}

/// The mathematical value of a [`Chunk`].
pub enum ChunkView {
    License,
    Package,
    Raw(Seq<char>),
    Repository,
}

impl View for Chunk {
    type V = ChunkView;

    open spec fn view(&self) -> ChunkView {
        match self {
            Chunk::License => ChunkView::License,
            Chunk::Package => ChunkView::Package,
            Chunk::Raw(s) => ChunkView::Raw(s@),
            Chunk::Repository => ChunkView::Repository,
        }
    }
}

/// A sequence of chunks rendered one after the other.
#[derive(Clone, Debug, PartialEq, Eq)]
pub struct Pattern {
    pub chunks: Vec<Chunk>,
}

impl Pattern {
    /// The pattern made of `chunks`.
    pub fn new(chunks: Vec<Chunk>) -> (r: Self)
        ensures
            r.chunks@ == chunks@,
    {
        Pattern { chunks }
    }
}

/// What is known of a package when it is rendered; each piece is absent
/// where the package metadata did not give it.
#[derive(Clone, Debug, PartialEq, Eq)]
pub struct PackageDetails {
    pub license: Option<String>,
    pub name_and_version: Option<(String, String)>,
    pub repository: Option<String>,
}

/// The mathematical value of a [`PackageDetails`].
pub struct PackageDetailsView {
    pub license: Option<Seq<char>>,
    pub name_and_version: Option<(Seq<char>, Seq<char>)>,
    pub repository: Option<Seq<char>>,
}

impl View for PackageDetails {
    type V = PackageDetailsView;

    open spec fn view(&self) -> PackageDetailsView {
        PackageDetailsView {
            license: self.license.deep_view(),
            name_and_version: self.name_and_version.deep_view(),
            repository: self.repository.deep_view(),
        }
    }
}

/// The text of an optional piece: the piece, or nothing.
pub open spec fn text_or_empty(o: Option<Seq<char>>) -> Seq<char> {
    match o {
        Some(t) => t,
        None => Seq::empty(),
    }
}

/// The text that one chunk renders to.
pub open spec fn chunk_text(c: ChunkView, d: PackageDetailsView) -> Seq<char> {
    match c {
        ChunkView::License => text_or_empty(d.license),
        ChunkView::Package => match d.name_and_version {
            Some((name, version)) => name + " "@ + version,
            None => Seq::empty(),
        },
        ChunkView::Raw(s) => s,
        ChunkView::Repository => text_or_empty(d.repository),
    }
}

/// The text that a sequence of chunks renders to.
pub open spec fn rendered(chunks: Seq<ChunkView>, d: PackageDetailsView) -> Seq<char>
    decreases chunks.len(),
{
    if chunks.len() == 0 {
        Seq::empty()
    } else {
        rendered(chunks.drop_last(), d) + chunk_text(chunks.last(), d)
    }
}

/// Rendering two patterns one after the other renders their concatenation.
pub proof fn law_render_concatenation(a: Seq<ChunkView>, b: Seq<ChunkView>, d: PackageDetailsView)
    ensures
        rendered(a + b, d) == rendered(a, d) + rendered(b, d),
    decreases b.len(),
{
    if b.len() == 0 {
        assert(a + b =~= a);
        assert(rendered(a, d) + rendered(b, d) =~= rendered(a, d));
    } else {
        assert((a + b).drop_last() =~= a + b.drop_last());
        law_render_concatenation(a, b.drop_last(), d);
        assert(rendered(a, d) + rendered(b, d) =~= rendered(a, d) + rendered(b.drop_last(), d)
            + chunk_text(b.last(), d));
    }
}

/// Each chunk renders to its own piece of the details and to nothing else:
/// a license chunk to the license, or to nothing when there is none; a
/// repository chunk to the repository, or to nothing; a package chunk to the
/// name, a space and the version, or to nothing; raw text to itself. A
/// one-chunk pattern renders to that chunk's text.
pub proof fn law_each_chunk_renders_its_own_detail(d: PackageDetailsView, raw: Seq<char>)
    ensures
        d.license matches Some(t) ==> chunk_text(ChunkView::License, d) == t,
        d.license is None ==> chunk_text(ChunkView::License, d) == Seq::<char>::empty(),
        d.repository matches Some(t) ==> chunk_text(ChunkView::Repository, d) == t,
        d.repository is None ==> chunk_text(ChunkView::Repository, d) == Seq::<char>::empty(),
        d.name_and_version matches Some((n, v)) ==> chunk_text(ChunkView::Package, d) == n + " "@
            + v,
        d.name_and_version is None ==> chunk_text(ChunkView::Package, d) == Seq::<char>::empty(),
        chunk_text(ChunkView::Raw(raw), d) == raw,
        forall|c: ChunkView| #[trigger] rendered(seq![c], d) == chunk_text(c, d),
{
    assert forall|c: ChunkView| #[trigger] rendered(seq![c], d) == chunk_text(c, d) by {
        let one = seq![c];
        assert(one.drop_last() =~= Seq::<ChunkView>::empty());
        assert(one.last() == c);
        assert(rendered(Seq::<ChunkView>::empty(), d) == Seq::<char>::empty());
        assert(rendered(one, d) == rendered(one.drop_last(), d) + chunk_text(one.last(), d));
        assert(Seq::<char>::empty() + chunk_text(c, d) =~= chunk_text(c, d));
    }
}

/// How many of `chunks` are `Package` chunks.
pub open spec fn package_chunk_count(chunks: Seq<ChunkView>) -> nat
    decreases chunks.len(),
{
    if chunks.len() == 0 {
        0
    } else {
        package_chunk_count(chunks.drop_last()) + if chunks.last() is Package {
            1nat
        } else {
            0nat
        }
    }
}

/// Only `Package` chunks count as lookups that can fail: a one-chunk pattern
/// counts one exactly when its chunk is a `Package` chunk, and the count of
/// two patterns one after the other is the sum of their counts.
pub proof fn law_only_package_chunks_count(a: Seq<ChunkView>, b: Seq<ChunkView>)
    ensures
        forall|c: ChunkView| #[trigger] package_chunk_count(seq![c]) == if c is Package {
            1nat
        } else {
            0nat
        },
        package_chunk_count(a + b) == package_chunk_count(a) + package_chunk_count(b),
    decreases b.len(),
{
    assert forall|c: ChunkView| #[trigger] package_chunk_count(seq![c]) == if c is Package {
        1nat
    } else {
        0nat
    } by {
        let one = seq![c];
        assert(one.drop_last() =~= Seq::<ChunkView>::empty());
        assert(one.last() == c);
        assert(package_chunk_count(Seq::<ChunkView>::empty()) == 0);
    }
    if b.len() == 0 {
        assert(a + b =~= a);
    } else {
        assert((a + b).drop_last() =~= a + b.drop_last());
        assert((a + b).last() == b.last());
        law_only_package_chunks_count(a, b.drop_last());
    }
}

/// Renders one chunk for a package: `None` where it is a `Package` chunk and
/// the name and version are not known, a lookup failure to report.
pub fn render_chunk(chunk: &Chunk, details: &PackageDetails) -> (r: Option<String>)
    ensures
        r is None <==> (chunk@ is Package && details.name_and_version is None),
        r matches Some(t) ==> t@ == chunk_text(chunk@, details@),
{
    match chunk {
        Chunk::License => {
            match &details.license {
                Some(license) => Some(license.clone()),
                None => Some(String::new()),
            }
        },
        Chunk::Package => {
            match &details.name_and_version {
                Some((name, version)) => {
                    let mut text = name.clone();
                    text.append(" ");
                    text.append(version.as_str());
                    Some(text)
                },
                None => None,
            }
        },
        Chunk::Raw(s) => Some(s.clone()),
        Chunk::Repository => {
            match &details.repository {
                Some(repository) => Some(repository.clone()),
                None => Some(String::new()),
            }
        },
    }
}

/// Renders `pattern` for a package. Also tells how many `Package` chunks
/// could not be rendered because the name and version were not known: each
/// is a lookup failure to report.
pub fn render_pattern(pattern: &Pattern, details: &PackageDetails) -> (r: (String, usize))
    ensures
        r.0@ == rendered(views_of(pattern.chunks@), details@),
        r.1 == (if details.name_and_version is Some {
            0
        } else {
            package_chunk_count(views_of(pattern.chunks@))
        }),
{
    let ghost chunks = views_of(pattern.chunks@);
    let mut text = String::new();
    let mut failures: usize = 0;
    let n = pattern.chunks.len();
    let mut i: usize = 0;
    while i < n
        invariant
            n == pattern.chunks@.len(),
            chunks == views_of(pattern.chunks@),
            i <= n,
            text@ == rendered(chunks.take(i as int), details@),
            failures == (if details.name_and_version is Some {
                0
            } else {
                package_chunk_count(chunks.take(i as int))
            }),
            failures <= i,
        decreases n - i,
    {
        assert(chunks.take(i + 1).drop_last() =~= chunks.take(i as int));
        assert(chunks.take(i + 1).last() == pattern.chunks@[i as int]@);
        match render_chunk(&pattern.chunks[i], details) {
            Some(piece) => {
                text.append(piece.as_str());
            },
            None => {
                failures = failures + 1;
            },
        }
        i += 1;
    }
    assert(chunks.take(n as int) =~= chunks);
    (text, failures)
}

} // verus!

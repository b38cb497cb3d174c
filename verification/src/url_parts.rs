//! The parts of a URL that the source logic reads, obtained from the `url`
//! crate.

use vstd::prelude::*;

verus! {

#[verifier::external_type_specification]
#[verifier::external_body]
pub struct ExUrlParseError(url::ParseError);

/// The parts of a parsed URL, as plain text.
pub struct UrlParts {
    /// The whole URL, serialized.
    pub serialization: String,
    /// The scheme, without the `:` delimiter.
    pub scheme: String,
    /// The host, if the URL has one.
    pub host: Option<String>,
    /// The path.
    pub path: String,
    /// The decoded `key=value` pairs of the query, in order.
    pub query_pairs: Vec<(String, String)>,
}

/// The mathematical value of a [`UrlParts`].
pub struct UrlPartsView {
    pub serialization: Seq<char>,
    pub scheme: Seq<char>,
    pub host: Option<Seq<char>>,
    pub path: Seq<char>,
    pub query_pairs: Seq<(Seq<char>, Seq<char>)>,
}

impl View for UrlParts {
    type V = UrlPartsView;

    open spec fn view(&self) -> UrlPartsView {
        UrlPartsView {
            serialization: self.serialization@,
            scheme: self.scheme@,
            host: self.host.deep_view(),
            path: self.path@,
            query_pairs: self.query_pairs.deep_view(),
        }
    }
}

/// What `url::Url::parse` makes of `input`: the parts of the URL, or `None`
/// where it refuses the input.
pub uninterp spec fn parsed_url(input: Seq<char>) -> Option<UrlPartsView>;

/// What `url::Url::from_file_path` makes of `path` on the target this crate
/// is built for: the serialized `file:` URL, or `None` where it refuses the
/// path.
pub uninterp spec fn file_path_url(path: Seq<char>) -> Option<Seq<char>>;

/// Parses `input` with `url::Url::parse` and reads back the URL's
/// serialization (`as_str`), `scheme`, `host_str`, `path` and decoded
/// `query_pairs`. Claims only that the outcome is `parsed_url` of the input:
/// `Ok` with those parts exactly where that name is `Some`.
#[verifier::external_body]
pub(crate) fn parse_url(input: &str) -> (r: Result<UrlParts, url::ParseError>)
    ensures
        match r {
            Ok(parts) => parsed_url(input@) == Some(parts@),
            Err(_) => parsed_url(input@) is None,
        },
{
    match url::Url::parse(input) {
        Ok(u) => Ok(UrlParts {
            serialization: u.as_str().to_string(),
            scheme: u.scheme().to_string(),
            host: u.host_str().map(|h| h.to_string()),
            path: u.path().to_string(),
            query_pairs: u.query_pairs().map(|(k, v)| (k.into_owned(), v.into_owned())).collect(),
        }),
        Err(e) => Err(e),
    }
}

/// Converts `path` with `url::Url::from_file_path` and reads back the URL's
/// serialization. Claims only that the outcome is `file_path_url` of the
/// path.
#[verifier::external_body]
pub(crate) fn url_from_file_path(path: &str) -> (r: Option<String>)
    ensures
        r.deep_view() == file_path_url(path@),
{
    match url::Url::from_file_path(path) {
        Ok(u) => Some(u.as_str().to_string()),
        Err(()) => None,
    }
}

} // verus!

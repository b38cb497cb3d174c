use cargo_geiger::package_id::Source;
use cargo_geiger::source_repr::{
    git_location, git_source, handle_path_source, path_repr_usable, handle_source_repr, registry_source,
    revision_in_query, source_of_package, SourceError, SourceType,
};
use cargo_geiger::url_parts::UrlParts;

fn url_text(s: &str) -> String {
    url::Url::parse(s).unwrap().as_str().to_string()
}

#[test]
fn handle_source_repr_test_registry() {
    let source = handle_source_repr("registry+https://github.com/rust-lang/crates.io-index");
    assert_eq!(
        source,
        Ok(Source::Registry {
            name: String::from("crates.io"),
            url: url_text("https://github.com/rust-lang/crates.io-index"),
        })
    );
}

#[test]
fn handle_source_repr_test_git_with_rev() {
    let source =
        handle_source_repr("git+https://github.com/rust-itertools/itertools.git?rev=98d3978");
    assert_eq!(
        source,
        Ok(Source::Git {
            url: url_text("https://github.com/rust-itertools/itertools.git"),
            rev: String::from("98d3978"),
        })
    );
}

#[test]
fn handle_source_repr_test_git_without_rev() {
    let source = handle_source_repr("git+https://github.com/rust-itertools/itertools.git");
    assert_eq!(
        source,
        Ok(Source::Git {
            url: url_text("https://github.com/rust-itertools/itertools.git"),
            rev: String::from(""),
        })
    );
}

#[test]
fn handle_source_repr_drops_other_query_pairs_and_fragment() {
    let source = handle_source_repr("git+https://example.com/a/b.git?branch=main&rev=abc#abcdef");
    assert_eq!(
        source,
        Ok(Source::Git { url: String::from("https://example.com/a/b.git"), rev: String::from("abc") })
    );
}

#[test]
fn handle_source_repr_first_rev_wins() {
    let source = handle_source_repr("git+https://example.com/x?rev=one&rev=two");
    assert_eq!(
        source,
        Ok(Source::Git { url: String::from("https://example.com/x"), rev: String::from("one") })
    );
}

#[test]
fn handle_source_repr_invalid_url() {
    let source = handle_source_repr("registry+not a url");
    assert!(matches!(source, Err(SourceError::InvalidUrl(_))));
}

#[test]
fn handle_source_repr_git_without_host() {
    let source = handle_source_repr("git+mailto:someone@example.com");
    assert_eq!(source, Err(SourceError::MissingHost));
}

#[test]
fn handle_source_repr_uses_last_field() {
    let source = handle_source_repr("registry+sparse+https://index.crates.io/");
    assert_eq!(
        source,
        Ok(Source::Registry {
            name: String::from("crates.io"),
            url: String::from("https://index.crates.io/"),
        })
    );
}

#[test]
fn handle_path_source_test() {
    let source = handle_path_source(
        "(path+file:///cargo_geiger/test_crates/test1_package_with_no_deps)",
        false,
    );
    let expected = url::Url::from_file_path("/cargo_geiger/test_crates/test1_package_with_no_deps")
        .unwrap()
        .as_str()
        .to_string();
    assert_eq!(source, Ok(Source::Path(expected)));
}

#[test]
fn handle_path_source_takes_text_after_last_marker() {
    let source = handle_path_source("(a+file:///x+file:///y/z)", false);
    assert_eq!(source, Ok(Source::Path(String::from("file:///y/z"))));
}

#[test]
fn handle_path_source_relative_path_is_refused() {
    let source = handle_path_source("(path+file://relative/dir)", false);
    assert_eq!(source, Err(SourceError::InvalidFilePath));
}

#[test]
fn source_of_package_dispatches() {
    let from_repr = source_of_package(
        Some("registry+https://github.com/rust-lang/crates.io-index"),
        "(unused)",
        false,
    );
    assert!(matches!(from_repr, Ok(Source::Registry { .. })));
    let from_path = source_of_package(None, "(path+file:///tmp/p)", false);
    assert_eq!(from_path, Ok(Source::Path(String::from("file:///tmp/p"))));
}

#[test]
fn source_type_from_names() {
    assert_eq!(SourceType::from("registry"), SourceType::Registry);
    assert_eq!(SourceType::from("git"), SourceType::Git);
    assert_eq!(SourceType::from("path"), SourceType::Unrecognised);
    assert_eq!(SourceType::from(""), SourceType::Unrecognised);
    assert_eq!(SourceType::from("Git"), SourceType::Unrecognised);
}

fn parts(host: Option<&str>, pairs: Vec<(&str, &str)>) -> UrlParts {
    UrlParts {
        serialization: String::from("https://h/p?x"),
        scheme: String::from("https"),
        host: host.map(String::from),
        path: String::from("/p"),
        query_pairs: pairs.into_iter().map(|(k, v)| (k.to_string(), v.to_string())).collect(),
    }
}

#[test]
fn revision_in_query_finds_first_rev() {
    let p = parts(None, vec![("a", "1"), ("rev", "r1"), ("rev", "r2")]);
    assert_eq!(revision_in_query(&p.query_pairs), "r1");
    let q = parts(None, vec![("a", "1")]);
    assert_eq!(revision_in_query(&q.query_pairs), "");
    assert_eq!(revision_in_query(&Vec::new()), "");
}

#[test]
fn git_location_joins_scheme_host_and_path() {
    assert_eq!(git_location(&parts(Some("h"), vec![])), Some(String::from("https://h/p")));
    assert_eq!(git_location(&parts(None, vec![])), None);
}

#[test]
fn registry_and_git_sources() {
    let p = parts(Some("h"), vec![]);
    assert_eq!(
        registry_source(&p),
        Source::Registry { name: String::from("crates.io"), url: String::from("https://h/p?x") }
    );
    assert_eq!(
        git_source(&p, String::from("abc")),
        Source::Git { url: String::from("https://h/p?x"), rev: String::from("abc") }
    );
}

#[test]
fn path_repr_usable_checks_shape() {
    assert!(path_repr_usable("(path+file:///x)", false));
    assert!(!path_repr_usable("(no marker)", false));
    assert!(!path_repr_usable("x", false));
    assert!(!path_repr_usable("(path+file://)", true));
    assert!(path_repr_usable("(path+file:///C:/x)", true));
}

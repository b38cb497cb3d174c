use cargo_geiger::pattern::{render_chunk, render_pattern, Chunk, PackageDetails, Pattern};

fn details() -> PackageDetails {
    PackageDetails {
        license: Some(String::from("Apache-2.0/MIT")),
        name_and_version: Some((String::from("cargo-geiger"), String::from("0.11.0"))),
        repository: Some(String::from("https://github.com/rust-secure-code/cargo-geiger")),
    }
}

#[test]
fn display_format_fmt_test_license() {
    let (text, failed) = render_pattern(&Pattern::new(vec![Chunk::License]), &details());
    assert_eq!(text, "Apache-2.0/MIT");
    assert_eq!(failed, 0);
}

#[test]
fn display_format_fmt_test_raw() {
    let (text, _) =
        render_pattern(&Pattern::new(vec![Chunk::Raw(String::from("chunk_value"))]), &details());
    assert_eq!(text, "chunk_value");
}

#[test]
fn display_format_fmt_test_repository() {
    let (text, _) = render_pattern(&Pattern::new(vec![Chunk::Repository]), &details());
    assert_eq!(text, "https://github.com/rust-secure-code/cargo-geiger");
}

#[test]
fn display_package_chunk() {
    let pattern = Pattern::new(vec![
        Chunk::Package,
        Chunk::Raw(String::from(" | ")),
        Chunk::License,
    ]);
    let (text, failed) = render_pattern(&pattern, &details());
    assert_eq!(text, "cargo-geiger 0.11.0 | Apache-2.0/MIT");
    assert_eq!(failed, 0);
}

#[test]
fn display_missing_details() {
    let pattern = Pattern::new(vec![
        Chunk::Package,
        Chunk::Raw(String::from("[")),
        Chunk::License,
        Chunk::Repository,
        Chunk::Raw(String::from("]")),
        Chunk::Package,
    ]);
    let none = PackageDetails { license: None, name_and_version: None, repository: None };
    let (text, failed) = render_pattern(&pattern, &none);
    assert_eq!(text, "[]");
    assert_eq!(failed, 2);
}

#[test]
fn display_concatenation() {
    let a = vec![Chunk::License, Chunk::Raw(String::from("-"))];
    let b = vec![Chunk::Repository];
    let mut ab = a.clone();
    ab.extend(b.clone());
    let (ta, _) = render_pattern(&Pattern::new(a), &details());
    let (tb, _) = render_pattern(&Pattern::new(b), &details());
    let (tab, _) = render_pattern(&Pattern::new(ab), &details());
    assert_eq!(tab, format!("{}{}", ta, tb));
}

#[test]
fn render_chunk_reports_a_missing_package() {
    let none = PackageDetails { license: None, name_and_version: None, repository: None };
    assert_eq!(render_chunk(&Chunk::Package, &none), None);
    assert_eq!(render_chunk(&Chunk::License, &none), Some(String::new()));
    assert_eq!(render_chunk(&Chunk::Repository, &none), Some(String::new()));
    assert_eq!(
        render_chunk(&Chunk::Package, &details()),
        Some(String::from("cargo-geiger 0.11.0"))
    );
    assert_eq!(render_chunk(&Chunk::Raw(String::from("x")), &none), Some(String::from("x")));
}

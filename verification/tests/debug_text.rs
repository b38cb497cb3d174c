use cargo_geiger::counts::{Count, CounterBlock};
use cargo_geiger::debug_text::{
    block_debug, count_debug, debug_fmt_map, debug_fmt_set, decimal, join_texts, package_id_debug,
    source_debug, unsafe_info_debug,
};
use cargo_geiger::id_order::{id_le_exec, sorted_ids};
use cargo_geiger::entry_map::EntryMap;
use cargo_geiger::key_set::KeySet;
use cargo_geiger::ordering::{sort_texts, text_le_exec};
use cargo_geiger::package_id::{PackageId, Source};
use cargo_geiger::paths::{path_set_debug, PathKey, PathSet};
use cargo_geiger::sorting::Ordered;
use cargo_geiger::report::{
    id_set_debug, DependencyKind, PackageInfo, ReportEntry, SafetyReport, UnsafeInfo,
};

fn id(name: &str) -> PackageId {
    PackageId {
        name: name.to_string(),
        version: String::from("1.0.0"),
        source: Source::Path(String::from("file:///tmp/x")),
    }
}

fn strings(v: &[&str]) -> Vec<String> {
    v.iter().map(|s| s.to_string()).collect()
}

#[test]
fn text_order_is_lexicographic() {
    assert!(text_le_exec("a", "b"));
    assert!(!text_le_exec("b", "a"));
    assert!(text_le_exec("ab", "abc"));
    assert!(!text_le_exec("abc", "ab"));
    assert!(text_le_exec("", ""));
    assert!(text_le_exec("B", "a"));
    assert!(text_le_exec("z", "é"));
}

#[test]
fn sort_texts_matches_byte_order() {
    let v = strings(&["pear", "apple", "é", "z", "Apple", "", "apple"]);
    let mut expected = v.clone();
    expected.sort();
    assert_eq!(sort_texts(v), expected);
}

#[test]
fn join_texts_puts_separator_between() {
    assert_eq!(join_texts(&strings(&["a", "b", "c"]), ", "), "a, b, c");
    assert_eq!(join_texts(&strings(&["a"]), ", "), "a");
    assert_eq!(join_texts(&Vec::new(), ", "), "");
}

#[test]
fn debug_fmt_set_sorts_and_braces() {
    assert_eq!(debug_fmt_set(strings(&["b", "a"])), "{ a, b }, ");
    assert_eq!(debug_fmt_set(Vec::new()), "{  }, ");
}

#[test]
fn debug_fmt_map_sorts_entries() {
    let pairs = vec![
        (String::from("k2"), String::from("v")),
        (String::from("k1"), String::from("w")),
    ];
    assert_eq!(debug_fmt_map(pairs), "{ k1: w, k2: v }, ");
}

#[test]
fn package_info_debug_text_is_sorted() {
    let mut x = PackageInfo::new(id("a"));
    x.add_dependency(id("c"), DependencyKind::Normal);
    x.add_dependency(id("b"), DependencyKind::Normal);
    let mut y = PackageInfo::new(id("a"));
    y.add_dependency(id("b"), DependencyKind::Normal);
    y.add_dependency(id("c"), DependencyKind::Normal);
    assert_eq!(x.debug_text(), y.debug_text());
    let expected = format!(
        "PackageInfo {{ id: {:?}, dependencies: {{ {:?}, {:?} }}, , dev_dependencies: {{  }}, , build_dependencies: {{  }},  }}",
        id("a"),
        id("b"),
        id("c")
    );
    assert_eq!(x.debug_text(), expected);
}

#[test]
fn id_set_debug_lists_ids() {
    let mut s = KeySet::new();
    s.insert(id("q"));
    assert_eq!(id_set_debug(&s), format!("{{ {:?} }}, ", id("q")));
}

#[test]
fn safety_report_debug_text() {
    let entry = ReportEntry { package: PackageInfo::new(id("a")), unsafety: UnsafeInfo::default() };
    let entry_text = format!(
        "ReportEntry {{ package: {}, unsafety: {:?} }}",
        PackageInfo::new(id("a")).debug_text(),
        UnsafeInfo::default()
    );
    assert_eq!(entry.debug_text(), entry_text);
    let mut report = SafetyReport::default();
    report.packages = EntryMap::from_entries(vec![entry]);
    report.used_but_not_scanned_files.insert(String::from("/b.rs"));
    report.used_but_not_scanned_files.insert(String::from("/a.rs"));
    report.packages_without_metrics.insert(id("z"));
    let expected = format!(
        "SafetyReport {{ packages: {{ {:?}: {} }}, , packages_without_metrics: {{ {:?} }}, , used_but_not_scanned_files: {{ \"/a.rs\", \"/b.rs\" }},  }}",
        id("a"),
        entry_text,
        id("z")
    );
    assert_eq!(report.debug_text(), expected);
    assert_eq!(UnsafeInfo::default().used, CounterBlock::default());
}

fn info(safe: u64, unsafe_: u64, forbids: bool) -> UnsafeInfo {
    let c = Count { safe, unsafe_ };
    let block = CounterBlock { functions: c, exprs: Count { safe: 3, unsafe_: 0 }, item_impls: c, item_traits: c, methods: c };
    UnsafeInfo { used: block, unused: CounterBlock::default(), forbids_unsafe: forbids }
}

#[test]
fn decimal_writes_the_number() {
    assert_eq!(decimal(0), "0");
    assert_eq!(decimal(7), "7");
    assert_eq!(decimal(10), "10");
    assert_eq!(decimal(1234), "1234");
    assert_eq!(decimal(u64::MAX), u64::MAX.to_string());
}

#[test]
fn count_and_block_debug_match_derived() {
    let c = Count { safe: 12, unsafe_: 0 };
    assert_eq!(count_debug(&c), format!("{:?}", c));
    assert_eq!(count_debug(&c), "Count { safe: 12, unsafe_: 0 }");
    let b = info(5, 9, true).used;
    assert_eq!(block_debug(&b), format!("{:?}", b));
}

#[test]
fn unsafe_info_debug_matches_derived() {
    for i in [info(0, 0, false), info(1, 2, true), info(u64::MAX, 40, false)] {
        assert_eq!(unsafe_info_debug(&i), format!("{:?}", i));
    }
}

#[test]
fn package_id_debug_matches_derived() {
    let ids = vec![
        PackageId {
            name: String::from("quo\"te"),
            version: String::from("0.1.0"),
            source: Source::Git { url: String::from("https://g/x"), rev: String::from("ab\\c") },
        },
        PackageId {
            name: String::from("reg"),
            version: String::from("2.0.0\n"),
            source: Source::Registry { name: String::from("crates-io"), url: String::from("https://r") },
        },
        id("path"),
    ];
    for i in &ids {
        assert_eq!(package_id_debug(i), format!("{:?}", i));
    }
    assert_eq!(source_debug(&ids[2].source), "Path(\"file:///tmp/x\")");
}

fn with_source(name: &str, version: &str, source: Source) -> PackageId {
    PackageId { name: name.to_string(), version: version.to_string(), source }
}

fn mixed_ids() -> Vec<PackageId> {
    vec![
        with_source("b", "1.0.0", Source::Path(String::from("file:///b"))),
        with_source("a", "2.0.0", Source::Registry { name: String::from("r"), url: String::from("u") }),
        with_source("a", "10.0.0", Source::Registry { name: String::from("r"), url: String::from("u") }),
        with_source("a", "2.0.0", Source::Git { url: String::from("u"), rev: String::from("r") }),
        with_source("a", "2.0.0", Source::Path(String::from("file:///a"))),
        with_source("B", "1.0.0", Source::Path(String::from("file:///b"))),
        with_source("a", "2.0.0", Source::Registry { name: String::from("q"), url: String::from("z") }),
    ]
}

#[test]
fn sorted_ids_follow_the_derived_order() {
    let mut set = KeySet::new();
    for i in mixed_ids() {
        set.insert(i);
    }
    let mut expected = mixed_ids();
    expected.sort();
    assert_eq!(sorted_ids(&set), expected);
    assert!(id_le_exec(&expected[0], &expected[1]));
    assert!(!id_le_exec(&expected[1], &expected[0]));
}

#[test]
fn sorted_order_lists_entries_by_id() {
    let entries: Vec<ReportEntry> = mixed_ids()
        .into_iter()
        .map(|i| ReportEntry { package: PackageInfo::new(i), unsafety: UnsafeInfo::default() })
        .collect();
    let map = EntryMap::from_entries(entries);
    let order = map.sorted_order();
    let listed: Vec<PackageId> = order.iter().map(|&i| map.entries()[i].package.id.clone()).collect();
    let mut expected = mixed_ids();
    expected.sort();
    assert_eq!(listed, expected);
}

#[test]
fn refiled_entries_give_the_same_report_text() {
    let make = |ids: Vec<PackageId>| {
        let entries: Vec<ReportEntry> = ids
            .into_iter()
            .map(|i| ReportEntry { package: PackageInfo::new(i), unsafety: info(1, 1, false) })
            .collect();
        let mut r = SafetyReport::default();
        r.packages = EntryMap::from_entries(entries);
        r
    };
    let forward = make(mixed_ids());
    let mut reversed_ids = mixed_ids();
    reversed_ids.reverse();
    let backward = make(reversed_ids);
    assert!(forward.packages.same_entries(&backward.packages));
    assert_eq!(forward.debug_text(), backward.debug_text());
}

#[test]
fn entries_written_in_sorted_order_read_back_to_the_same_map() {
    let entries: Vec<ReportEntry> = mixed_ids()
        .into_iter()
        .enumerate()
        .map(|(n, i)| ReportEntry { package: PackageInfo::new(i), unsafety: info(n as u64, 2, n % 2 == 0) })
        .collect();
    let map = EntryMap::from_entries(entries);
    let written: Vec<ReportEntry> = map
        .sorted_order()
        .into_iter()
        .map(|k| {
            let e = &map.entries()[k];
            let id = &e.package.id;
            ReportEntry {
                package: PackageInfo::new(PackageId {
                    name: id.name.clone(),
                    version: id.version.clone(),
                    source: id.source.clone(),
                }),
                unsafety: UnsafeInfo { used: e.unsafety.used, unused: e.unsafety.unused, forbids_unsafe: e.unsafety.forbids_unsafe },
            }
        })
        .collect();
    let read_back = EntryMap::from_entries(written);
    assert!(read_back.same_entries(&map));
    assert!(read_back == map);
}

#[test]
fn path_set_compares_paths_by_components() {
    let mut s = PathSet::new();
    assert!(s.insert(String::from("/a/b")));
    assert!(!s.insert(String::from("/a//b")));
    assert!(!s.insert(String::from("/a/b/")));
    assert!(!s.insert(String::from("/a/./b")));
    assert!(s.insert(String::from("/a.b")));
    assert_eq!(s.len(), 2);
    assert!(s.contains(&String::from("/a//b/")));
    assert!(!s.contains(&String::from("/a")));
    // The first text added for a path is the one kept.
    assert_eq!(s.texts(), &vec![String::from("/a/b"), String::from("/a.b")]);
    let mut other = PathSet::new();
    other.insert(String::from("/a.b"));
    other.insert(String::from("/a/b/"));
    assert!(s.same_paths(&other));
    assert!(s == other);
    other.insert(String::from("/c"));
    assert!(s != other);
}

#[test]
fn sorted_paths_follow_path_order() {
    let texts = ["/a.b", "/a/b", "b", "./b", "../x", "/", "/a/b/c", "a/b", "/A"];
    let mut s = PathSet::new();
    for t in texts {
        s.insert(t.to_string());
    }
    let mut expected: Vec<String> = texts.iter().map(|t| t.to_string()).collect();
    expected.sort_by(|a, b| std::path::Path::new(a).cmp(std::path::Path::new(b)));
    assert_eq!(s.sorted_paths(), expected);
    assert!(s.sorted_paths().iter().position(|p| p == "/a/b").unwrap() < s.sorted_paths().iter().position(|p| p == "/a.b").unwrap());
}

#[test]
fn path_set_debug_lists_kept_texts_sorted() {
    let mut s = PathSet::new();
    s.insert(String::from("/z.rs"));
    s.insert(String::from("/y//x.rs"));
    s.insert(String::from("/y/x.rs"));
    assert_eq!(path_set_debug(&s), "{ \"/y//x.rs\", \"/z.rs\" }, ");
    let copy = s.clone();
    assert_eq!(copy.texts(), s.texts());
}

#[test]
fn path_keys_follow_components() {
    let a = PathKey::of(&String::from("/a/b/"));
    let b = PathKey::of(&String::from("/a//b"));
    assert!(a.same_as(&b));
    let c = PathKey::of(&String::from("/a.b"));
    assert!(a.ordered_le(&c));
    assert!(!c.ordered_le(&a));
}

use cargo_geiger::counts::{Count, CounterBlock};
use cargo_geiger::entry_map::{Entry, EntryMap};
use cargo_geiger::key_set::KeySet;
use cargo_geiger::package_id::{Keyed, PackageId, Source};
use cargo_geiger::report::{
    DependencyKind, PackageInfo, QuickReportEntry, QuickSafetyReport, ReportEntry, SafetyReport,
    UnsafeInfo,
};

fn id(name: &str, version: &str) -> PackageId {
    PackageId {
        name: name.to_string(),
        version: version.to_string(),
        source: Source::Registry {
            name: String::from("crates.io"),
            url: String::from("https://github.com/rust-lang/crates.io-index"),
        },
    }
}

#[test]
fn package_info_new_has_no_dependencies() {
    let info = PackageInfo::new(id("a", "1.0.0"));
    assert_eq!(info.id, id("a", "1.0.0"));
    assert_eq!(info.dependencies.len(), 0);
    assert_eq!(info.dev_dependencies.len(), 0);
    assert_eq!(info.build_dependencies.len(), 0);
}

#[test]
fn add_dependency_files_by_kind() {
    let mut info = PackageInfo::new(id("a", "1.0.0"));
    info.add_dependency(id("b", "1.0.0"), DependencyKind::Normal);
    info.add_dependency(id("c", "1.0.0"), DependencyKind::Development);
    info.add_dependency(id("d", "1.0.0"), DependencyKind::Build);
    assert!(info.dependencies.contains(&id("b", "1.0.0")));
    assert!(!info.dependencies.contains(&id("c", "1.0.0")));
    assert!(info.dev_dependencies.contains(&id("c", "1.0.0")));
    assert!(info.build_dependencies.contains(&id("d", "1.0.0")));
    assert_eq!(info.dependencies.len(), 1);
    assert_eq!(info.dev_dependencies.len(), 1);
    assert_eq!(info.build_dependencies.len(), 1);
}

#[test]
fn add_dependency_twice_keeps_one() {
    let mut info = PackageInfo::new(id("a", "1.0.0"));
    info.add_dependency(id("b", "1.0.0"), DependencyKind::Normal);
    info.add_dependency(id("b", "1.0.0"), DependencyKind::Normal);
    info.add_dependency(id("b", "2.0.0"), DependencyKind::Normal);
    assert_eq!(info.dependencies.len(), 2);
}

#[test]
fn add_dependency_order_does_not_matter() {
    let mut x = PackageInfo::new(id("a", "1.0.0"));
    x.add_dependency(id("b", "1.0.0"), DependencyKind::Normal);
    x.add_dependency(id("c", "1.0.0"), DependencyKind::Normal);
    let mut y = PackageInfo::new(id("a", "1.0.0"));
    y.add_dependency(id("c", "1.0.0"), DependencyKind::Normal);
    y.add_dependency(id("b", "1.0.0"), DependencyKind::Normal);
    assert_eq!(x, y);
    y.add_dependency(id("b", "1.0.0"), DependencyKind::Build);
    assert_ne!(x, y);
}

#[test]
fn key_set_insert_reports_novelty() {
    let mut s: KeySet<String> = KeySet::new();
    assert!(s.insert(String::from("x")));
    assert!(!s.insert(String::from("x")));
    assert!(s.insert(String::from("y")));
    assert_eq!(s.elements().len(), 2);
    assert!(s.contains(&String::from("y")));
    assert!(!s.contains(&String::from("z")));
}

#[test]
fn package_id_same_key() {
    assert!(id("a", "1").same_key(&id("a", "1")));
    assert!(!id("a", "1").same_key(&id("a", "2")));
    let mut git = id("a", "1");
    git.source = Source::Git { url: String::from("u"), rev: String::new() };
    assert!(!git.same_key(&id("a", "1")));
    assert_eq!(git.duplicate(), git);
}

#[test]
fn count_counts_each_kind() {
    let mut c = Count::default();
    c.count(true);
    c.count(false);
    c.count(false);
    assert_eq!(c, Count { safe: 2, unsafe_: 1 });
}

#[test]
fn count_add_is_fieldwise() {
    let a = Count { safe: 1, unsafe_: 2 };
    let b = Count { safe: 10, unsafe_: 20 };
    assert_eq!(a + b, Count { safe: 11, unsafe_: 22 });
    assert_eq!(a + b, b + a);
    let mut c = a;
    c.add_assign(b);
    assert_eq!(c, Count { safe: 11, unsafe_: 22 });
    assert_eq!(a + Count::default(), a);
}

fn block(n: u64, u: u64) -> CounterBlock {
    CounterBlock {
        functions: Count { safe: n, unsafe_: 0 },
        exprs: Count { safe: n, unsafe_: u },
        item_impls: Count { safe: 0, unsafe_: 0 },
        item_traits: Count { safe: 1, unsafe_: 0 },
        methods: Count { safe: 2, unsafe_: 0 },
    }
}

#[test]
fn counter_block_has_unsafe() {
    assert!(!CounterBlock::default().has_unsafe());
    assert!(!block(3, 0).has_unsafe());
    assert!(block(3, 1).has_unsafe());
    let mut m = CounterBlock::default();
    m.methods.count(true);
    assert!(m.has_unsafe());
    let mut t = CounterBlock::default();
    t.item_traits.count(true);
    assert!(t.has_unsafe());
}

#[test]
fn counter_block_add_is_counterwise() {
    let s = block(3, 1) + block(4, 5);
    assert_eq!(s.exprs, Count { safe: 7, unsafe_: 6 });
    assert_eq!(s.methods, Count { safe: 4, unsafe_: 0 });
    assert!(s.has_unsafe());
    assert!(!(block(1, 0) + block(2, 0)).has_unsafe());
    let mut x = block(1, 0);
    x.add_assign(block(1, 1));
    assert_eq!(x, block(1, 0) + block(1, 1));
    assert_eq!(CounterBlock::default() + block(9, 9), block(9, 9));
}

#[test]
fn unsafe_info_default() {
    let u = UnsafeInfo::default();
    assert_eq!(u.used, CounterBlock::default());
    assert_eq!(u.unused, CounterBlock::default());
    assert!(!u.forbids_unsafe);
}

fn entry(name: &str, forbids: bool) -> ReportEntry {
    ReportEntry {
        package: PackageInfo::new(id(name, "1.0.0")),
        unsafety: UnsafeInfo { forbids_unsafe: forbids, ..UnsafeInfo::default() },
    }
}

#[test]
fn entry_map_from_entries_later_wins() {
    let map = EntryMap::from_entries(vec![entry("a", false), entry("b", false), entry("a", true)]);
    assert_eq!(map.entries().len(), 2);
    assert!(map.get(&id("a", "1.0.0")).unwrap().unsafety.forbids_unsafe);
    assert!(!map.get(&id("b", "1.0.0")).unwrap().unsafety.forbids_unsafe);
    assert!(map.get(&id("c", "1.0.0")).is_none());
}

#[test]
fn entry_map_insert_then_get() {
    let mut map = EntryMap::new();
    map.insert(entry("a", false));
    assert_eq!(map.get(&id("a", "1.0.0")).unwrap(), &entry("a", false));
    map.insert(entry("a", true));
    assert_eq!(map.get(&id("a", "1.0.0")).unwrap(), &entry("a", true));
    assert_eq!(map.entries().len(), 1);
}

#[test]
fn entries_give_their_package_id() {
    let e = entry("a", false);
    assert_eq!(e.package_id(), &id("a", "1.0.0"));
    let q = QuickReportEntry { package: PackageInfo::new(id("q", "0.1.0")), forbids_unsafe: true };
    assert_eq!(q.package_id(), &id("q", "0.1.0"));
}

#[test]
fn reports_default_empty() {
    let r = SafetyReport::default();
    assert_eq!(r.packages.entries().len(), 0);
    assert_eq!(r.packages_without_metrics.len(), 0);
    assert_eq!(r.used_but_not_scanned_files.len(), 0);
    let q = QuickSafetyReport::default();
    assert_eq!(q.packages.entries().len(), 0);
    assert_eq!(q.packages_without_metrics.len(), 0);
}

#[test]
fn reports_compare_by_content() {
    let mut x = SafetyReport::default();
    x.packages = EntryMap::from_entries(vec![entry("a", false), entry("b", true)]);
    let mut y = SafetyReport::default();
    y.packages = EntryMap::from_entries(vec![entry("b", true), entry("a", false)]);
    assert_eq!(x, y);
    assert!(x.packages.same_entries(&y.packages));
    y.packages.insert(entry("a", true));
    assert_ne!(x, y);
    let mut z = SafetyReport::default();
    z.packages = EntryMap::from_entries(vec![entry("a", false)]);
    assert_ne!(x, z);
    assert!(!x.packages.same_entries(&z.packages));
}

#[test]
fn package_info_same_info() {
    let mut a = PackageInfo::new(id("a", "1"));
    let b = PackageInfo::new(id("a", "1"));
    assert!(a.same_info(&b));
    a.add_dependency(id("x", "1"), DependencyKind::Development);
    assert!(!a.same_info(&b));
    assert!(!PackageInfo::new(id("a", "2")).same_info(&b));
}

#[test]
fn clones_are_equal() {
    let mut info = PackageInfo::new(id("a", "1"));
    info.add_dependency(id("b", "1"), DependencyKind::Normal);
    let copy = info.clone();
    assert_eq!(copy, info);
    assert!(copy.dependencies.contains(&id("b", "1")));
    let dup = info.duplicate();
    assert_eq!(dup, info);
    let mut report = SafetyReport::default();
    report.packages.insert(entry("x", true));
    report.used_but_not_scanned_files.insert(String::from("/f.rs"));
    let report_copy = report.clone();
    assert_eq!(report_copy, report);
    assert_eq!(report_copy.packages.entries().len(), 1);
}

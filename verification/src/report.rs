//! Reports of scanning packages for the use of `unsafe`.

use vstd::prelude::*;

use crate::counts::CounterBlock;
use crate::debug_text::{
    braced_sorted_list, debug_fmt_map, joined, debug_fmt_set, key_value_text, law_braced_list_ignores_order,
    lemma_map_keeps_rearrangement, lemma_texts_of_set, package_id_debug,
    package_id_debug_text, path_debug_text, unsafe_info_debug, unsafe_info_debug_text,
};
use crate::entry_map::{
    entries_map, keys_distinct, lemma_entries_map_keys, lemma_entries_map_value, Entry, EntryMap,
};
use crate::key_set::KeySet;
use crate::ordering::text_order;
use crate::sorting::lemma_to_seq_no_duplicates;
use crate::package_id::{Keyed, PackageId, PackageIdView};
use crate::paths::{path_set_debug, path_set_debug_text, PathComponentView, PathSet};


verus! {

/// Kind of dependency for a package
#[derive(Clone, Copy, Debug, PartialEq, Eq, Hash, Structural)]
pub enum DependencyKind {
    /// Dependency in the `[dependencies]` section of `Cargo.toml`
    Normal,
    /// Dependency in the `[dev-dependencies]` section of `Cargo.toml`
    Development,
    /// Dependency in the `[build-dependencies]` section of `Cargo.toml`
    Build,
}

/// Package dependency information
///
/// `{:?}` prints the fields as they are stored, in the order their members
/// were added: a type of this library can have only a derived `Debug`. The
/// report text, with each set of dependencies sorted, is [`PackageInfo::debug_text`].
#[derive(Debug)]
pub struct PackageInfo {
    pub id: PackageId,
    pub dependencies: KeySet<PackageId>,
    pub dev_dependencies: KeySet<PackageId>,
    pub build_dependencies: KeySet<PackageId>,
}

/// The mathematical value of a [`PackageInfo`].
pub struct PackageInfoView {
    pub id: PackageIdView,
    pub dependencies: Set<PackageIdView>,
    pub dev_dependencies: Set<PackageIdView>,
    pub build_dependencies: Set<PackageIdView>,
}

impl View for PackageInfo {
    type V = PackageInfoView;

    open spec fn view(&self) -> PackageInfoView {
        PackageInfoView {
            id: self.id@,
            dependencies: self.dependencies@,
            dev_dependencies: self.dev_dependencies@,
            build_dependencies: self.build_dependencies@,
        }
    }
}

impl PartialEq for PackageInfo {
    fn eq(&self, other: &Self) -> (r: bool) {
        self.same_info(other)
    }
}

impl Clone for PackageInfo {
    fn clone(&self) -> (r: Self)
        ensures
            r@ == self@,
    {
        self.duplicate()
    }
}

impl vstd::std_specs::cmp::PartialEqSpecImpl for PackageInfo {
    open spec fn obeys_eq_spec() -> bool {
        true
    }

    open spec fn eq_spec(&self, other: &Self) -> bool {
        self@ == other@
    }
}

impl Eq for PackageInfo {
}

impl PackageInfoView {
    /// The package information of `id`, with no dependencies.
    pub open spec fn fresh(id: PackageIdView) -> PackageInfoView {
        PackageInfoView {
            id,
            dependencies: Set::empty(),
            dev_dependencies: Set::empty(),
            build_dependencies: Set::empty(),
        }
    }

    /// This information with `dep` added to the dependencies of kind `kind`.
    pub open spec fn with_dependency(self, dep: PackageIdView, kind: DependencyKind) -> PackageInfoView {
        match kind {
            DependencyKind::Normal => PackageInfoView {
                dependencies: self.dependencies.insert(dep),
                ..self
            },
            DependencyKind::Development => PackageInfoView {
                dev_dependencies: self.dev_dependencies.insert(dep),
                ..self
            },
            DependencyKind::Build => PackageInfoView {
                build_dependencies: self.build_dependencies.insert(dep),
                ..self
            },
        }
    }
}

impl PackageInfo {
    /// The package information of `id`, with no dependencies.
    pub fn new(id: PackageId) -> (r: Self)
        ensures
            r@ == PackageInfoView::fresh(id@),
    {
        PackageInfo {
            id,
            dependencies: KeySet::new(),
            dev_dependencies: KeySet::new(),
            build_dependencies: KeySet::new(),
        }
    }

    /// A copy of this information, of the same value.
    pub fn duplicate(&self) -> (r: Self)
        ensures
            r@ == self@,
    {
        PackageInfo {
            id: self.id.duplicate(),
            dependencies: self.dependencies.clone(),
            dev_dependencies: self.dev_dependencies.clone(),
            build_dependencies: self.build_dependencies.clone(),
        }
    }

    /// Whether both informations have the same value.
    pub fn same_info(&self, other: &Self) -> (r: bool)
        ensures
            r == (self@ == other@),
    {
        self.id.same_key(&other.id) && self.dependencies.same_elements(&other.dependencies)
            && self.dev_dependencies.same_elements(&other.dev_dependencies)
            && self.build_dependencies.same_elements(&other.build_dependencies)
    }

    /// Records `dep` as a dependency of kind `kind`.
    pub fn add_dependency(&mut self, dep: PackageId, kind: DependencyKind)
        ensures
            final(self)@ == old(self)@.with_dependency(dep@, kind),
    {
        match kind {
            DependencyKind::Normal => self.dependencies.insert(dep),
            DependencyKind::Development => self.dev_dependencies.insert(dep),
            DependencyKind::Build => self.build_dependencies.insert(dep),
        };
    }
}

/// Adding a dependency changes only the dependencies of its kind, and the
/// dependency is recorded afterwards.
pub proof fn law_add_dependency_is_local(v: PackageInfoView, dep: PackageIdView, kind: DependencyKind)
    ensures
        v.with_dependency(dep, kind).id == v.id,
        kind is Normal ==> v.with_dependency(dep, kind).dependencies.contains(dep),
        kind is Development ==> v.with_dependency(dep, kind).dev_dependencies.contains(dep),
        kind is Build ==> v.with_dependency(dep, kind).build_dependencies.contains(dep),
        !(kind is Normal) ==> v.with_dependency(dep, kind).dependencies == v.dependencies,
        !(kind is Development) ==> v.with_dependency(dep, kind).dev_dependencies
            == v.dev_dependencies,
        !(kind is Build) ==> v.with_dependency(dep, kind).build_dependencies
            == v.build_dependencies,
{
}

/// Adding the same dependency twice is the same as adding it once.
pub proof fn law_add_dependency_idempotent(v: PackageInfoView, dep: PackageIdView, kind: DependencyKind)
    ensures
        v.with_dependency(dep, kind).with_dependency(dep, kind) == v.with_dependency(dep, kind),
{
    assert(v.dependencies.insert(dep).insert(dep) =~= v.dependencies.insert(dep));
    assert(v.dev_dependencies.insert(dep).insert(dep) =~= v.dev_dependencies.insert(dep));
    assert(v.build_dependencies.insert(dep).insert(dep) =~= v.build_dependencies.insert(dep));
}

/// The order in which dependencies are added does not matter.
pub proof fn law_add_dependency_commutes(
    v: PackageInfoView,
    d1: PackageIdView,
    k1: DependencyKind,
    d2: PackageIdView,
    k2: DependencyKind,
)
    ensures
        v.with_dependency(d1, k1).with_dependency(d2, k2) == v.with_dependency(d2, k2).with_dependency(
            d1,
            k1,
        ),
{
    assert(v.dependencies.insert(d1).insert(d2) =~= v.dependencies.insert(d2).insert(d1));
    assert(v.dev_dependencies.insert(d1).insert(d2) =~= v.dev_dependencies.insert(d2).insert(d1));
    assert(v.build_dependencies.insert(d1).insert(d2) =~= v.build_dependencies.insert(d2).insert(
        d1,
    ));
}

/// Entry of the report generated from scanning for packages that forbid the use of `unsafe`
#[derive(Clone, Debug, PartialEq, Eq)]
pub struct QuickReportEntry {
    pub package: PackageInfo,
    /// Whether this package forbids the use of `unsafe`
    pub forbids_unsafe: bool,
}

/// The mathematical value of a [`QuickReportEntry`].
pub struct QuickReportEntryView {
    pub package: PackageInfoView,
    pub forbids_unsafe: bool,
}

impl View for QuickReportEntry {
    type V = QuickReportEntryView;

    open spec fn view(&self) -> QuickReportEntryView {
        QuickReportEntryView { package: self.package@, forbids_unsafe: self.forbids_unsafe }
    }
}

impl Entry for QuickReportEntry {
    open spec fn package_key(&self) -> PackageIdView {
        self.package.id@
    }

    fn package_id(&self) -> (r: &PackageId) {
        &self.package.id
    }

    fn duplicate_entry(&self) -> (r: Self) {
        QuickReportEntry { package: self.package.duplicate(), forbids_unsafe: self.forbids_unsafe }
    }

    fn same_entry(&self, other: &Self) -> (r: bool) {
        self.package.same_info(&other.package) && self.forbids_unsafe == other.forbids_unsafe
    }
}

/// Report generated from scanning for packages that forbid the use of `unsafe`
#[derive(Clone, Debug, PartialEq, Eq)]
pub struct QuickSafetyReport {
    /// Packages that were scanned successfully
    pub packages: EntryMap<QuickReportEntry>,
    /// Packages that were not scanned successfully
    pub packages_without_metrics: KeySet<PackageId>,
}

impl core::default::Default for QuickSafetyReport {
    fn default() -> (r: Self)
        ensures
            r.packages@ == Map::<PackageIdView, QuickReportEntryView>::empty(),
            r.packages_without_metrics@ == Set::<PackageIdView>::empty(),
    {
        QuickSafetyReport { packages: EntryMap::new(), packages_without_metrics: KeySet::new() }
    }
}

/// Unsafety usage in a package
#[derive(Clone, Copy, Debug, PartialEq, Eq, Structural)]
pub struct UnsafeInfo {
    /// Unsafe usage statistics for code used by the project
    pub used: CounterBlock,
    /// Unsafe usage statistics for code not used by the project
    pub unused: CounterBlock,
    /// Whether this package forbids the use of `unsafe`
    pub forbids_unsafe: bool,
}

impl core::default::Default for UnsafeInfo {
    fn default() -> (r: Self)
        ensures
            r.used == CounterBlock::zero(),
            r.unused == CounterBlock::zero(),
            !r.forbids_unsafe,
    {
        UnsafeInfo {
            used: CounterBlock::default(),
            unused: CounterBlock::default(),
            forbids_unsafe: false,
        }
    }
}

/// Entry of the report generated from scanning for the use of `unsafe`
#[derive(Clone, Debug, PartialEq, Eq)]
pub struct ReportEntry {
    pub package: PackageInfo,
    /// Unsafety scan results
    pub unsafety: UnsafeInfo,
}

/// The mathematical value of a [`ReportEntry`].
pub struct ReportEntryView {
    pub package: PackageInfoView,
    pub unsafety: UnsafeInfo,
}

impl View for ReportEntry {
    type V = ReportEntryView;

    open spec fn view(&self) -> ReportEntryView {
        ReportEntryView { package: self.package@, unsafety: self.unsafety }
    }
}

impl Entry for ReportEntry {
    open spec fn package_key(&self) -> PackageIdView {
        self.package.id@
    }

    fn package_id(&self) -> (r: &PackageId) {
        &self.package.id
    }

    fn duplicate_entry(&self) -> (r: Self) {
        ReportEntry { package: self.package.duplicate(), unsafety: self.unsafety }
    }

    fn same_entry(&self, other: &Self) -> (r: bool) {
        self.package.same_info(&other.package) && self.unsafety == other.unsafety
    }
}

/// Report generated from scanning for the use of `unsafe`
///
/// `{:?}` prints the fields as they are stored, in the order their members
/// were added: a type of this library can have only a derived `Debug`. The
/// report text, with each set and map sorted, is [`SafetyReport::debug_text`].
#[derive(Clone, Debug, PartialEq, Eq)]
pub struct SafetyReport {
    pub packages: EntryMap<ReportEntry>,
    pub packages_without_metrics: KeySet<PackageId>,
    /// Paths of source files that the build used but the scan did not cover.
    pub used_but_not_scanned_files: PathSet,
}

impl core::default::Default for SafetyReport {
    fn default() -> (r: Self)
        ensures
            r.packages@ == Map::<PackageIdView, ReportEntryView>::empty(),
            r.packages_without_metrics@ == Set::<PackageIdView>::empty(),
            r.used_but_not_scanned_files@ == Map::<Seq<PathComponentView>, Seq<char>>::empty(),
    {
        SafetyReport {
            packages: EntryMap::new(),
            packages_without_metrics: KeySet::new(),
            used_but_not_scanned_files: PathSet::new(),
        }
    }
}

/// The Debug texts of package ids, in order.
pub open spec fn id_texts(ids: Seq<PackageIdView>) -> Seq<Seq<char>> {
    ids.map_values(|id: PackageIdView| package_id_debug_text(id))
}

/// The Debug text of a set of package ids: the ids' texts, sorted.
pub open spec fn id_set_debug_text(s: Set<PackageIdView>) -> Seq<char> {
    braced_sorted_list(id_texts(s.to_seq()))
}

/// The Debug text of a set of package ids: the ids' texts, sorted.
pub fn id_set_debug(s: &KeySet<PackageId>) -> (r: String)
    ensures
        r@ == id_set_debug_text(s@),
{
    let items = s.elements();
    let ghost ids = s.element_views();
    let mut texts: Vec<String> = Vec::new();
    let n = items.len();
    let mut i: usize = 0;
    while i < n
        invariant
            n == items@.len(),
            ids == crate::key_set::views_of(items@),
            i <= n,
            texts.deep_view() =~= id_texts(ids.take(i as int)),
        decreases n - i,
    {
        texts.push(package_id_debug(&items[i]));
        assert(ids[i as int] == items@[i as int]@);
        assert(id_texts(ids.take(i + 1)) =~= id_texts(ids.take(i as int)).push(
            package_id_debug_text(ids[i as int]),
        ));
        i += 1;
    }
    assert(ids.take(n as int) =~= ids);
    proof {
        s.lemma_element_views();
        lemma_texts_of_set(ids, s@, |id: PackageIdView| package_id_debug_text(id));
    }
    debug_fmt_set(texts)
}

impl PackageInfoView {
    /// The Debug text of package information, with each set of dependencies
    /// in sorted order.
    pub open spec fn debug_text(self) -> Seq<char> {
        "PackageInfo { id: "@ + package_id_debug_text(self.id) + ", dependencies: "@
            + id_set_debug_text(self.dependencies) + ", dev_dependencies: "@ + id_set_debug_text(
            self.dev_dependencies,
        ) + ", build_dependencies: "@ + id_set_debug_text(self.build_dependencies) + " }"@
    }
}

impl PackageInfo {
    /// The Debug text of this information, with each set of dependencies in
    /// sorted order.
    pub fn debug_text(&self) -> (r: String)
        ensures
            r@ == self@.debug_text(),
    {
        let mut out = String::from_str("PackageInfo { id: ");
        out.append(package_id_debug(&self.id).as_str());
        out.append(", dependencies: ");
        out.append(id_set_debug(&self.dependencies).as_str());
        out.append(", dev_dependencies: ");
        out.append(id_set_debug(&self.dev_dependencies).as_str());
        out.append(", build_dependencies: ");
        out.append(id_set_debug(&self.build_dependencies).as_str());
        out.append(" }");
        out
    }
}

/// The debug text of package information shows each field in its place:
/// the id after `id: `, and each set of dependencies, listed sorted, after
/// its own label.
pub proof fn law_debug_text_shows_each_field_under_its_label(v: PackageInfoView)
    ensures
        v.debug_text() == "PackageInfo { id: "@ + package_id_debug_text(v.id) + ", dependencies: "@
            + braced_sorted_list(id_texts(v.dependencies.to_seq())) + ", dev_dependencies: "@
            + braced_sorted_list(id_texts(v.dev_dependencies.to_seq())) + ", build_dependencies: "@
            + braced_sorted_list(id_texts(v.build_dependencies.to_seq())) + " }"@,
{
}

proof fn lemma_empty_id_set_text()
    ensures
        id_set_debug_text(Set::<PackageIdView>::empty()) == "{ "@ + " }, "@,
{
    let e = Set::<PackageIdView>::empty();
    let q = e.to_seq();
    lemma_to_seq_no_duplicates(e);
    if q.len() > 0 {
        assert(q.contains(q[0]));
        assert(q.to_set().contains(q[0]));
    }
    let t = id_texts(q);
    assert(t.len() == 0);
    crate::ordering::law_text_order_is_total();
    t.lemma_sort_by_ensures(text_order());
    let sorted = t.sort_by(text_order());
    sorted.to_multiset_ensures();
    t.to_multiset_ensures();
    assert(sorted.len() == 0);
    assert(joined(sorted, ", "@) == Seq::<char>::empty());
    assert("{ "@ + joined(sorted, ", "@) + " }, "@ =~= "{ "@ + " }, "@);
}

proof fn lemma_single_id_set_text(d: PackageIdView)
    ensures
        id_set_debug_text(Set::<PackageIdView>::empty().insert(d)) == "{ "@ + package_id_debug_text(d)
            + " }, "@,
{
    broadcast use vstd::seq_lib::to_multiset_contains;

    let e = Set::<PackageIdView>::empty().insert(d);
    let q = e.to_seq();
    lemma_to_seq_no_duplicates(e);
    assert(q.to_set().contains(d));
    assert(q.contains(d));
    if q.len() >= 2 {
        assert(q.contains(q[0]) && q.contains(q[1]));
        assert(q.to_set().contains(q[0]) && q.to_set().contains(q[1]));
        assert(q[0] == q[1]);
    }
    assert(q.len() == 1);
    assert(q[0] == d) by {
        assert(q.contains(q[0]));
        assert(q.to_set().contains(q[0]));
    }
    let t = id_texts(q);
    assert(t =~= seq![package_id_debug_text(d)]);
    crate::ordering::law_text_order_is_total();
    t.lemma_sort_by_ensures(text_order());
    let sorted = t.sort_by(text_order());
    sorted.to_multiset_ensures();
    t.to_multiset_ensures();
    assert(sorted.len() == 1);
    assert(sorted.contains(sorted[0]));
    assert(t.contains(sorted[0]));
    assert(sorted[0] == package_id_debug_text(d));
    assert(joined(sorted, ", "@) == sorted[0]);
}

/// A package with one dependency lists it under the label of its kind, and
/// nothing under the other two: a build dependency under
/// `build_dependencies`, a development one under `dev_dependencies`, a
/// normal one under `dependencies`.
pub proof fn law_debug_text_lists_a_dependency_under_its_kind(
    id: PackageIdView,
    d: PackageIdView,
    kind: DependencyKind,
)
    ensures
        PackageInfoView::fresh(id).with_dependency(d, kind).debug_text() == "PackageInfo { id: "@
            + package_id_debug_text(id) + ", dependencies: "@ + (if kind is Normal {
            "{ "@ + package_id_debug_text(d) + " }, "@
        } else {
            "{ "@ + " }, "@
        }) + ", dev_dependencies: "@ + (if kind is Development {
            "{ "@ + package_id_debug_text(d) + " }, "@
        } else {
            "{ "@ + " }, "@
        }) + ", build_dependencies: "@ + (if kind is Build {
            "{ "@ + package_id_debug_text(d) + " }, "@
        } else {
            "{ "@ + " }, "@
        }) + " }"@,
{
    lemma_empty_id_set_text();
    lemma_single_id_set_text(d);
    assert(Set::<PackageIdView>::empty().insert(d) == Set::<PackageIdView>::empty().insert(d));
}

/// Two package informations of the same value have the same Debug text,
/// whatever the order in which their dependencies were added.
pub proof fn law_debug_text_depends_only_on_value(x: PackageInfo, y: PackageInfo)
    requires
        x@ == y@,
    ensures
        x@.debug_text() == y@.debug_text(),
{
}

impl ReportEntryView {
    /// The Debug text of a report entry, its package information written as
    /// `PackageInfo::debug_text` writes it.
    pub open spec fn debug_text(self) -> Seq<char> {
        "ReportEntry { package: "@ + self.package.debug_text() + ", unsafety: "@
            + unsafe_info_debug_text(self.unsafety) + " }"@
    }
}

impl ReportEntry {
    /// The Debug text of this entry, its package information as
    /// `PackageInfo::debug_text` gives it.
    pub fn debug_text(&self) -> (r: String)
        ensures
            r@ == self@.debug_text(),
    {
        let mut out = String::from_str("ReportEntry { package: ");
        out.append(self.package.debug_text().as_str());
        out.append(", unsafety: ");
        out.append(unsafe_info_debug(&self.unsafety).as_str());
        out.append(" }");
        out
    }
}

/// The Debug text of report entries filed by package id: each written
/// `id: entry`, in sorted order.
pub open spec fn entries_debug_text(m: Map<PackageIdView, ReportEntryView>) -> Seq<char> {
    braced_sorted_list(m.dom().to_seq().map_values(|k: PackageIdView| entry_text_under(m, k)))
}

/// The Debug text of the entry filed under `k`, written `id: entry`.
pub open spec fn entry_text_under(m: Map<PackageIdView, ReportEntryView>, k: PackageIdView) -> Seq<
    char,
> {
    key_value_text((package_id_debug_text(k), m[k].debug_text()))
}

/// The mathematical value of a [`SafetyReport`].
pub struct SafetyReportView {
    pub packages: Map<PackageIdView, ReportEntryView>,
    pub packages_without_metrics: Set<PackageIdView>,
    pub used_but_not_scanned_files: Map<Seq<PathComponentView>, Seq<char>>,
}

impl View for SafetyReport {
    type V = SafetyReportView;

    open spec fn view(&self) -> SafetyReportView {
        SafetyReportView {
            packages: self.packages@,
            packages_without_metrics: self.packages_without_metrics@,
            used_but_not_scanned_files: self.used_but_not_scanned_files@,
        }
    }
}

impl SafetyReportView {
    /// The Debug text of a report, with the members of each set and map in
    /// sorted order.
    pub open spec fn debug_text(self) -> Seq<char> {
        "SafetyReport { packages: "@ + entries_debug_text(self.packages)
            + ", packages_without_metrics: "@ + id_set_debug_text(self.packages_without_metrics)
            + ", used_but_not_scanned_files: "@ + path_set_debug_text(
            self.used_but_not_scanned_files,
        ) + " }"@
    }
}

/// The debug text of a report entry shows its package information as
/// `PackageInfo::debug_text` writes it, then its unsafety statistics.
pub proof fn law_entry_debug_text_shows_each_field_under_its_label(v: ReportEntryView)
    ensures
        v.debug_text() == "ReportEntry { package: "@ + v.package.debug_text() + ", unsafety: "@
            + unsafe_info_debug_text(v.unsafety) + " }"@,
{
}

/// The debug text of a report shows each field in its place: the entries,
/// each as `id: entry`, sorted, after `packages: `; the ids without metrics,
/// sorted, after their label; the paths, sorted, after theirs.
pub proof fn law_report_debug_text_shows_each_field_under_its_label(v: SafetyReportView)
    ensures
        v.debug_text() == "SafetyReport { packages: "@ + braced_sorted_list(
            v.packages.dom().to_seq().map_values(
                |k: PackageIdView| key_value_text((package_id_debug_text(k), v.packages[k].debug_text())),
            ),
        ) + ", packages_without_metrics: "@ + braced_sorted_list(
            id_texts(v.packages_without_metrics.to_seq()),
        ) + ", used_but_not_scanned_files: "@ + braced_sorted_list(
            v.used_but_not_scanned_files.dom().to_seq().map_values(
                |k: Seq<PathComponentView>| path_debug_text(v.used_but_not_scanned_files[k]),
            ),
        ) + " }"@,
{
    assert(v.packages.dom().to_seq().map_values(
        |k: PackageIdView| key_value_text((package_id_debug_text(k), v.packages[k].debug_text())),
    ) =~= v.packages.dom().to_seq().map_values(|k: PackageIdView| entry_text_under(v.packages, k)));
    assert(v.used_but_not_scanned_files.dom().to_seq().map_values(
        |k: Seq<PathComponentView>| path_debug_text(v.used_but_not_scanned_files[k]),
    ) =~= v.used_but_not_scanned_files.dom().to_seq().map_values(
        |k: Seq<PathComponentView>| path_debug_text(v.used_but_not_scanned_files[k]),
    ));
}

/// Two reports of the same value have the same Debug text, whatever the order
/// in which their entries, ids and paths were added.
pub proof fn law_report_debug_text_depends_only_on_value(x: SafetyReport, y: SafetyReport)
    requires
        x@ == y@,
    ensures
        x@.debug_text() == y@.debug_text(),
{
}

impl SafetyReport {
    /// The Debug text of this report, with the members of each set and map in
    /// sorted order.
    #[verifier::spinoff_prover]
    #[verifier::rlimit(40)]
    pub fn debug_text(&self) -> (r: String)
        ensures
            r@ == self@.debug_text(),
    {
        let entries = self.packages.entries();
        let ghost es = self.packages.entry_seq();
        let ghost m = self.packages@;
        let ghost keys = es.map_values(|e: ReportEntry| e.package_key());
        let mut pairs: Vec<(String, String)> = Vec::new();
        let n = entries.len();
        let mut i: usize = 0;
        proof {
            crate::entry_map::lemma_entries_map_len(es);
        }
        while i < n
            invariant
                n == entries@.len(),
                es == entries@,
                m == entries_map(es),
                keys == es.map_values(|e: ReportEntry| e.package_key()),
                keys_distinct(es),
                i <= n,
                pairs.deep_view().map_values(|p| key_value_text(p)) =~= keys.take(i as int).map_values(
                    |k: PackageIdView| entry_text_under(m, k),
                ),
            decreases n - i,
        {
            let e = &entries[i];
            proof {
                lemma_entries_map_value(es, i as int);
            }
            let ghost before = pairs.deep_view();
            pairs.push((package_id_debug(&e.package.id), e.debug_text()));
            assert(pairs.deep_view() =~= before.push(
                (package_id_debug_text(keys[i as int]), es[i as int]@.debug_text()),
            ));
            assert(pairs.deep_view().map_values(|p| key_value_text(p)) =~= before.map_values(
                |p| key_value_text(p),
            ).push(entry_text_under(m, keys[i as int])));
            assert(keys.take(i + 1).map_values(|k: PackageIdView| entry_text_under(m, k))
                =~= keys.take(i as int).map_values(|k: PackageIdView| entry_text_under(m, k)).push(
                entry_text_under(m, keys[i as int]),
            ));
            i += 1;
        }
        proof {
            assert(keys.take(n as int) =~= keys);
            assert(keys.no_duplicates());
            assert forall|k: PackageIdView| #[trigger] keys.to_set().contains(k) == m.dom().contains(
                k,
            ) by {
                lemma_entries_map_keys(es, k);
                if keys.to_set().contains(k) {
                    let j = choose|j: int| 0 <= j < keys.len() && keys[j] == k;
                    assert(es[j].package_key() == k);
                }
                if m.dom().contains(k) {
                    let j = choose|j: int| 0 <= j < es.len() && #[trigger] es[j].package_key() == k;
                    assert(keys[j] == k);
                }
            }
            assert(keys.to_set() =~= m.dom());
            lemma_texts_of_set(keys, m.dom(), |k: PackageIdView| entry_text_under(m, k));
        }
        let mut out = String::from_str("SafetyReport { packages: ");
        out.append(debug_fmt_map(pairs).as_str());
        out.append(", packages_without_metrics: ");
        out.append(id_set_debug(&self.packages_without_metrics).as_str());
        out.append(", used_but_not_scanned_files: ");
        out.append(path_set_debug(&self.used_but_not_scanned_files).as_str());
        out.append(" }");
        out
    }
}

} // verus!

//! The lock file: the exact set of packages of a project.
use vstd::prelude::*;

use crate::order::{by_name, name_sorted, name_sorted_is_sorted, name_sorted_of_views, sort_by_name, view_each, HasName, Named};
use crate::text::{chars_of, copy_opt, copy_strings, equals_ignoring_case, opt_view, same_ignoring_case, same_str,
    views};

verus! {

/// Where a package comes from.
#[derive(Debug, Clone, PartialEq, Eq)]
pub enum PackageSource {
    Cran,
    Bioconductor,
    GitHub,
    Local,
    /// A repository laid out like CRAN, under the name the project gives it.
    Custom { name: String },
    /// A Forgejo server.
    Forgejo { host: String },
}

/// A package source as a mathematical value.
pub enum SourceView {
    Cran,
    Bioconductor,
    GitHub,
    Local,
    Custom { name: Seq<char> },
    Forgejo { host: Seq<char> },
}

impl View for PackageSource {
    type V = SourceView;

    open spec fn view(&self) -> SourceView {
        match *self {
            PackageSource::Cran => SourceView::Cran,
            PackageSource::Bioconductor => SourceView::Bioconductor,
            PackageSource::GitHub => SourceView::GitHub,
            PackageSource::Local => SourceView::Local,
            PackageSource::Custom { name } => SourceView::Custom { name: name@ },
            PackageSource::Forgejo { host } => SourceView::Forgejo { host: host@ },
        }
    }
}

/// The word for a kind of source.
pub open spec fn source_label(s: SourceView) -> Seq<char> {
    match s {
        SourceView::Cran => "cran"@,
        SourceView::Bioconductor => "bioconductor"@,
        SourceView::GitHub => "github"@,
        SourceView::Local => "local"@,
        SourceView::Custom { .. } => "custom"@,
        SourceView::Forgejo { .. } => "forgejo"@,
    }
}

impl PackageSource {
    /// The word for the kind of source.
    pub fn label(&self) -> (r: String)
        ensures
            r@ == source_label(self@),
    {
        match self {
            PackageSource::Cran => "cran".to_owned(),
            PackageSource::Bioconductor => "bioconductor".to_owned(),
            PackageSource::GitHub => "github".to_owned(),
            PackageSource::Local => "local".to_owned(),
            PackageSource::Custom { name: _ } => "custom".to_owned(),
            PackageSource::Forgejo { host: _ } => "forgejo".to_owned(),
        }
    }

    /// A copy of the source.
    pub fn copy(&self) -> (r: PackageSource)
        ensures
            r@ == self@,
    {
        match self {
            PackageSource::Cran => PackageSource::Cran,
            PackageSource::Bioconductor => PackageSource::Bioconductor,
            PackageSource::GitHub => PackageSource::GitHub,
            PackageSource::Local => PackageSource::Local,
            PackageSource::Custom { name } => PackageSource::Custom { name: name.as_str().to_owned() },
            PackageSource::Forgejo { host } => PackageSource::Forgejo { host: host.as_str().to_owned() },
        }
    }
}

/// One package of the lock file.
#[derive(Debug, Clone, PartialEq, Eq)]
pub struct LockedPackage {
    pub name: String,
    pub version: String,
    pub source: PackageSource,
    /// The version as the registry writes it (`1.1-3`), where that is known.
    pub raw_version: Option<String>,
    /// Where the package is downloaded from.
    pub url: Option<String>,
    pub checksum: Option<String>,
    /// The names of the packages that this one needs.
    pub requires: Vec<String>,
    /// The `SystemRequirements` field of the package, where it has one.
    pub system_requirements: Option<String>,
}

/// A locked package as a mathematical value.
pub struct LockedView {
    pub name: Seq<char>,
    pub version: Seq<char>,
    pub source: SourceView,
    pub raw_version: Option<Seq<char>>,
    pub url: Option<Seq<char>>,
    pub checksum: Option<Seq<char>>,
    pub requires: Seq<Seq<char>>,
    pub system_requirements: Option<Seq<char>>,
}

impl View for LockedPackage {
    type V = LockedView;

    open spec fn view(&self) -> LockedView {
        LockedView {
            name: self.name@,
            version: self.version@,
            source: self.source@,
            raw_version: opt_view(self.raw_version),
            url: opt_view(self.url),
            checksum: opt_view(self.checksum),
            requires: views(self.requires@),
            system_requirements: opt_view(self.system_requirements),
        }
    }
}

impl HasName for LockedView {
    open spec fn spec_name(&self) -> Seq<char> {
        self.name
    }
}

impl HasName for LockedPackage {
    open spec fn spec_name(&self) -> Seq<char> {
        self.name@
    }
}

impl Named for LockedPackage {
    fn name_text(&self) -> (r: &str) {
        self.name.as_str()
    }
}

impl LockedPackage {
    /// A copy of the package.
    pub fn copy(&self) -> (r: LockedPackage)
        ensures
            r@ == self@,
    {
        LockedPackage {
            name: self.name.as_str().to_owned(),
            version: self.version.as_str().to_owned(),
            source: self.source.copy(),
            raw_version: copy_opt(&self.raw_version),
            url: copy_opt(&self.url),
            checksum: copy_opt(&self.checksum),
            requires: copy_strings(&self.requires),
            system_requirements: copy_opt(&self.system_requirements),
        }
    }
}

/// The versions of R and Bioconductor that the lock file was made with.
#[derive(Debug, Clone, PartialEq, Eq)]
pub struct RVersionPin {
    pub version: String,
    pub bioc_version: Option<String>,
}

/// The lock file.
#[derive(Debug, Clone, PartialEq, Eq)]
pub struct Lockfile {
    pub r: RVersionPin,
    pub packages: Vec<LockedPackage>,
}

/// A lock file as a mathematical value.
pub struct LockfileView {
    pub r_version: Seq<char>,
    pub bioc_version: Option<Seq<char>>,
    pub packages: Seq<LockedView>,
}

impl View for Lockfile {
    type V = LockfileView;

    open spec fn view(&self) -> LockfileView {
        LockfileView {
            r_version: self.r.version@,
            bioc_version: opt_view(self.r.bioc_version),
            packages: view_each(self.packages@),
        }
    }
}

/// The first position at or after `i` of a package whose name is `name` up to
/// case, or the number of packages.
pub open spec fn find_package(s: Seq<LockedView>, name: Seq<char>, i: int) -> int
    decreases s.len() - i,
{
    if i >= s.len() {
        s.len() as int
    } else if same_ignoring_case(s[i].name, name) {
        i
    } else {
        find_package(s, name, i + 1)
    }
}

/// The first position at or after `i` of a package whose name is exactly `name`,
/// or the number of packages.
pub open spec fn find_exact_package(s: Seq<LockedView>, name: Seq<char>, i: int) -> int
    decreases s.len() - i,
{
    if i >= s.len() {
        s.len() as int
    } else if s[i].name == name {
        i
    } else {
        find_exact_package(s, name, i + 1)
    }
}

/// The packages with `pkg` in the place of the first one of its name, or at the
/// end where there is none.
pub open spec fn with_package(s: Seq<LockedView>, pkg: LockedView) -> Seq<LockedView> {
    let k = find_exact_package(s, pkg.name, 0);
    if k < s.len() {
        s.update(k, pkg)
    } else {
        s.push(pkg)
    }
}

/// The packages with one added or replaced, ordered by name.
pub open spec fn upserted(s: Seq<LockedView>, pkg: LockedView) -> Seq<LockedView> {
    name_sorted(with_package(s, pkg))
}

/// No two packages have the same name.
pub open spec fn distinct_names(s: Seq<LockedView>) -> bool {
    forall|i: int, j: int| 0 <= i < j < s.len() ==> #[trigger] s[i].name != #[trigger] s[j].name
}

impl Lockfile {
    /// The package of the given name, whatever its case. The first one counts.
    pub fn get_package(&self, name: &str) -> (r: Option<&LockedPackage>)
        ensures
            ({
                let k = find_package(self@.packages, name@, 0);
                match r {
                    Some(p) => 0 <= k < self@.packages.len() && p@ == self@.packages[k],
                    None => k == self@.packages.len(),
                }
            }),
            r is None <==> forall|i: int|
                0 <= i < self@.packages.len() ==> !same_ignoring_case(#[trigger] self@.packages[i].name, name@),
    {
        let n = chars_of(name);
        let ghost s = self@.packages;
        let mut i: usize = 0;
        while i < self.packages.len()
            invariant
                n@ == name@,
                s == self@.packages,
                i <= s.len(),
                find_package(s, name@, 0) == find_package(s, name@, i as int),
                forall|j: int| 0 <= j < i ==> !same_ignoring_case(#[trigger] s[j].name, name@),
            decreases s.len() - i,
        {
            let p = chars_of(self.packages[i].name.as_str());
            assert(s[i as int].name == p@);
            if equals_ignoring_case(p.as_slice(), n.as_slice()) {
                return Some(&self.packages[i]);
            }
            i += 1;
        }
        None
    }

    /// Puts `pkg` in the place of the package of its name, or adds it, and sorts the
    /// packages by name.
    pub fn upsert_package(&mut self, pkg: LockedPackage)
        ensures
            final(self).r == old(self).r,
            final(self)@.packages == upserted(old(self)@.packages, pkg@),
    {
        let mut packages: Vec<LockedPackage> = Vec::new();
        std::mem::swap(&mut packages, &mut self.packages);
        let ghost before = view_each(packages@);
        let mut i: usize = 0;
        while i < packages.len() && !same_str(packages[i].name.as_str(), pkg.name.as_str())
            invariant
                i <= packages@.len(),
                view_each(packages@) == before,
                find_exact_package(before, pkg.name@, 0) == find_exact_package(before, pkg.name@, i as int),
            decreases packages@.len() - i,
        {
            assert(before[i as int].name == packages@[i as int].name@);
            i += 1;
        }
        if i < packages.len() {
            assert(before[i as int].name == packages@[i as int].name@);
            packages.set(i, pkg);
        } else {
            packages.push(pkg);
        }
        proof {
            assert(view_each(packages@) == with_package(before, pkg@));
            name_sorted_of_views(packages@);
        }
        self.packages = sort_by_name(packages);
    }

    /// A copy of the lock file with its packages sorted by name, as it is written to
    /// disk.
    pub fn sorted(&self) -> (r: Lockfile)
        ensures
            r@ == (LockfileView { packages: name_sorted(self@.packages), ..self@ }),
    {
        let mut packages: Vec<LockedPackage> = Vec::new();
        let mut i: usize = 0;
        while i < self.packages.len()
            invariant
                i <= self.packages@.len(),
                view_each(packages@) == self@.packages.take(i as int),
            decreases self.packages@.len() - i,
        {
            let ghost before = packages@;
            packages.push(self.packages[i].copy());
            assert(view_each(packages@) == view_each(before).push(self.packages@[i as int]@));
            i += 1;
            assert(view_each(packages@) == self@.packages.take(i as int));
        }
        assert(self@.packages.take(i as int) == self@.packages);
        proof {
            name_sorted_of_views(packages@);
        }
        Lockfile {
            r: RVersionPin {
                version: self.r.version.as_str().to_owned(),
                bioc_version: copy_opt(&self.r.bioc_version),
            },
            packages: sort_by_name(packages),
        }
    }
}

proof fn lemma_find_exact(s: Seq<LockedView>, name: Seq<char>, i: int)
    requires
        0 <= i <= s.len(),
    ensures
        i <= find_exact_package(s, name, i) <= s.len(),
        forall|j: int| i <= j < find_exact_package(s, name, i) ==> (#[trigger] s[j]).name != name,
        find_exact_package(s, name, i) < s.len() ==> s[find_exact_package(s, name, i)].name == name,
    decreases s.len() - i,
{
    if i < s.len() && s[i].name != name {
        lemma_find_exact(s, name, i + 1);
    }
}

proof fn lemma_find_package(s: Seq<LockedView>, name: Seq<char>, i: int)
    requires
        0 <= i <= s.len(),
    ensures
        i <= find_package(s, name, i) <= s.len(),
        find_package(s, name, i) < s.len() ==> same_ignoring_case(s[find_package(s, name, i)].name, name),
        find_package(s, name, i) == s.len() ==> forall|j: int|
            i <= j < s.len() ==> !same_ignoring_case((#[trigger] s[j]).name, name),
    decreases s.len() - i,
{
    if i < s.len() && !same_ignoring_case(s[i].name, name) {
        lemma_find_package(s, name, i + 1);
    }
}

/// Sorting keeps the packages.
proof fn lemma_sorted_contains(s: Seq<LockedView>)
    ensures
        forall|p: LockedView| #[trigger] name_sorted(s).contains(p) <==> s.contains(p),
        distinct_names(s) ==> distinct_names(name_sorted(s)),
{
    broadcast use vstd::seq_lib::group_to_multiset_ensures;

    let out = name_sorted(s);
    name_sorted_is_sorted(s);
    assert forall|p: LockedView| #[trigger] out.contains(p) <==> s.contains(p) by {
        assert(out.to_multiset().count(p) > 0 <==> out.contains(p));
        assert(s.to_multiset().count(p) > 0 <==> s.contains(p));
    }
    if distinct_names(s) {
        assert forall|i: int, j: int| 0 <= i < s.len() && 0 <= j < s.len() && i != j implies s[i] != s[j] by {
            if i < j {
                assert(s[i].name != s[j].name);
            } else {
                assert(s[j].name != s[i].name);
            }
        }
        s.lemma_multiset_has_no_duplicates();
        out.lemma_multiset_has_no_duplicates_conv();
        assert forall|i: int, j: int| 0 <= i < j < out.len() implies #[trigger] out[i].name != #[trigger] out[j].name by {
            assert(out.contains(out[i]) && out.contains(out[j]));
            let a = s.index_of(out[i]);
            let b = s.index_of(out[j]);
            assert(out[i] != out[j]);
            assert(s[a] == out[i] && s[b] == out[j]);
            if a < b {
                assert(s[a].name != s[b].name);
            } else {
                assert(s[b].name != s[a].name);
            }
        }
    }
}

/// A package that is put into a lock file is there, and so are the packages of other
/// names. The packages are ordered by name, and none is there twice if none was.
pub proof fn upserted_package_is_there(s: Seq<LockedView>, pkg: LockedView)
    ensures
        by_name(upserted(s, pkg)),
        upserted(s, pkg).contains(pkg),
        forall|p: LockedView| p.name != pkg.name ==> (#[trigger] upserted(s, pkg).contains(p) <==> s.contains(p)),
        distinct_names(s) ==> distinct_names(upserted(s, pkg)),
{
    let w = with_package(s, pkg);
    let k = find_exact_package(s, pkg.name, 0);
    lemma_find_exact(s, pkg.name, 0);
    name_sorted_is_sorted(w);
    lemma_sorted_contains(w);
    assert(w[k] == pkg);
    assert forall|p: LockedView| p.name != pkg.name implies (w.contains(p) <==> s.contains(p)) by {
        if s.contains(p) {
            let i = s.index_of(p);
            assert(w[i] == p);
        }
        if w.contains(p) {
            let i = w.index_of(p);
            assert(s[i] == p);
        }
    }
    if distinct_names(s) {
        assert forall|i: int, j: int| 0 <= i < j < w.len() implies #[trigger] w[i].name != #[trigger] w[j].name by {
            if i < s.len() && j < s.len() {
                assert(s[i].name != s[j].name);
            }
        }
    }
}

/// A package that is put into a lock file is the one that is found there under its name,
/// where no other package has the same name but for the case of its letters.
pub proof fn upserted_package_is_found(s: Seq<LockedView>, pkg: LockedView)
    requires
        distinct_names(s),
        forall|i: int| 0 <= i < s.len() && same_ignoring_case((#[trigger] s[i]).name, pkg.name) ==> s[i].name == pkg.name,
    ensures
        ({
            let k = find_package(upserted(s, pkg), pkg.name, 0);
            k < upserted(s, pkg).len() && upserted(s, pkg)[k] == pkg
        }),
{
    let out = upserted(s, pkg);
    let k = find_package(out, pkg.name, 0);
    upserted_package_is_there(s, pkg);
    lemma_find_package(out, pkg.name, 0);
    let i = out.index_of(pkg);
    assert(out[i] == pkg);
    assert(k < out.len());
    if out[k].name != pkg.name {
        assert(out.contains(out[k]));
        let j = s.index_of(out[k]);
        assert(s[j] == out[k]);
    } else if k != i {
        if k < i {
            assert(out[k].name != out[i].name);
        } else {
            assert(out[i].name != out[k].name);
        }
    }
}

} // verus!

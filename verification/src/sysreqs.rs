//! The packages of a Linux distribution that R packages need.
use vstd::prelude::*;

use crate::order::view_each;
use crate::sysreqs_rules::{matches_of, needed_packages, resolve_local, rules_are_valid, SysReqRule};
use crate::text::{chars_of, contains_text, cut_once, has_text, is_text, opt_view, pieces, same_str, slice_views, split, split_once,
    string_of, views};
use crate::text_map::TextMap;

verus! {

/// A package of a distribution.
#[derive(Debug, Clone, PartialEq, Eq)]
pub struct SysReq {
    pub package: String,
}

impl View for SysReq {
    type V = Seq<char>;

    open spec fn view(&self) -> Seq<char> {
        self.package@
    }
}

/// The name by which catalogues of requirements know a distribution.
pub open spec fn catalogue_name(id: Seq<char>) -> Seq<char> {
    if id == "rhel"@ {
        "redhat"@
    } else if id == "rocky"@ || id == "almalinux"@ {
        "rockylinux"@
    } else if id == "sles"@ {
        "sle"@
    } else if id == "opensuse-leap"@ || id == "opensuse-tumbleweed"@ {
        "opensuse"@
    } else {
        id
    }
}

/// The release by which catalogues of requirements know a release: of Red Hat and its
/// kin only the first part.
pub open spec fn catalogue_release(name: Seq<char>, version: Seq<char>) -> Seq<char> {
    if name == "redhat"@ || name == "rockylinux"@ || name == "centos"@ || name == "fedora"@ {
        split(version, '.')[0]
    } else {
        version
    }
}

/// The names by which catalogues of requirements know a distribution and its release.
pub fn normalize_distro(id: &str, version_id: &str) -> (r: (String, String))
    ensures
        r.0@ == catalogue_name(id@),
        r.1@ == catalogue_release(catalogue_name(id@), version_id@),
{
    let cs = chars_of(id);
    let s = cs.as_slice();
    let name = if is_text(s, "rhel") {
        "redhat"
    } else if is_text(s, "rocky") || is_text(s, "almalinux") {
        "rockylinux"
    } else if is_text(s, "sles") {
        "sle"
    } else if is_text(s, "opensuse-leap") || is_text(s, "opensuse-tumbleweed") {
        "opensuse"
    } else {
        id
    };
    let by_major = same_str(name, "redhat") || same_str(name, "rockylinux") || same_str(name, "centos") || same_str(
        name,
        "fedora",
    );
    let release = if by_major {
        let vs = chars_of(version_id);
        let ps = pieces(vs.as_slice(), '.');
        assert(slice_views(ps@)[0] == ps@[0]@);
        string_of(ps[0])
    } else {
        version_id.to_owned()
    };
    (name.to_owned(), release)
}

/// A distribution and its release, as `id-version`; none where either is not known.
pub fn distro_of(id: &str, version_id: &str) -> (r: Option<String>)
    ensures
        opt_view(r) == (if id@.len() == 0 || version_id@.len() == 0 {
            None
        } else {
            Some(catalogue_name(id@) + "-"@ + catalogue_release(catalogue_name(id@), version_id@))
        }),
{
    let a = chars_of(id);
    let b = chars_of(version_id);
    if a.len() == 0 || b.len() == 0 {
        return None;
    }
    let (name, release) = normalize_distro(id, version_id);
    Some(name.concat("-").concat(release.as_str()))
}

/// The distribution and the release in `id-version`.
pub open spec fn distro_parts(distro: Seq<char>) -> (Seq<char>, Seq<char>) {
    match split_once(distro, '-') {
        Some(p) => p,
        None => (distro, seq![]),
    }
}

/// The distribution and the release in `id-version`.
pub fn split_distro(distro: &str) -> (r: (String, String))
    ensures
        (r.0@, r.1@) == distro_parts(distro@),
{
    let cs = chars_of(distro);
    match cut_once(cs.as_slice(), '-') {
        Some((a, b)) => (string_of(a), string_of(b)),
        None => (distro.to_owned(), String::new()),
    }
}

/// A reply that says that the catalogue does not know the distribution.
pub fn is_unsupported_system_body(body: &str) -> (r: bool)
    ensures
        r == contains_text(body@, "Unsupported system"@),
{
    let cs = chars_of(body);
    has_text(cs.as_slice(), "Unsupported system")
}

/// What asking the catalogue came to.
#[derive(Debug, Clone, PartialEq, Eq)]
pub enum SysReqLookup {
    /// These packages are needed.
    Supported(Vec<SysReq>),
    /// The catalogue does not know the distribution.
    UnsupportedDistro,
    /// The catalogue could not be asked.
    LookupFailed,
}

/// What asking the catalogue came to, as a mathematical value.
pub enum LookupView {
    Supported(Seq<Seq<char>>),
    UnsupportedDistro,
    LookupFailed,
}

impl View for SysReqLookup {
    type V = LookupView;

    open spec fn view(&self) -> LookupView {
        match *self {
            SysReqLookup::Supported(v) => LookupView::Supported(view_each(v@)),
            SysReqLookup::UnsupportedDistro => LookupView::UnsupportedDistro,
            SysReqLookup::LookupFailed => LookupView::LookupFailed,
        }
    }
}

/// The reply of the catalogue.
#[derive(Debug)]
pub enum CatalogueReply {
    /// There was none.
    Unreached,
    /// It refused, in these words.
    Refused { body: String },
    /// Its reply could not be read.
    Unreadable,
    /// The packages of each requirement.
    Requirements(Vec<Vec<String>>),
}

/// The packages of the requirements one after another, without those that have no name.
pub open spec fn named_packages(reqs: Seq<Seq<Seq<char>>>) -> Seq<Seq<char>>
    decreases reqs.len(),
{
    if reqs.len() == 0 {
        seq![]
    } else {
        named_packages(reqs.drop_last()) + reqs.last().filter(|p: Seq<char>| p.len() > 0)
    }
}

pub open spec fn nested_views(v: Seq<Vec<String>>) -> Seq<Seq<Seq<char>>> {
    v.map_values(|x: Vec<String>| views(x@))
}

/// What a reply of the catalogue means.
pub open spec fn lookup_of(reply: CatalogueReply) -> LookupView {
    match reply {
        CatalogueReply::Unreached => LookupView::LookupFailed,
        CatalogueReply::Refused { body } => if contains_text(body@, "Unsupported system"@) {
            LookupView::UnsupportedDistro
        } else {
            LookupView::LookupFailed
        },
        CatalogueReply::Unreadable => LookupView::LookupFailed,
        CatalogueReply::Requirements(r) => LookupView::Supported(named_packages(nested_views(r@))),
    }
}

fn push_named(out: &mut Vec<SysReq>, packages: &Vec<String>)
    ensures
        view_each(final(out)@) == view_each(old(out)@) + views(packages@).filter(|p: Seq<char>| p.len() > 0),
{
    let ghost start = view_each(out@);
    let ghost all = views(packages@);
    let ghost keep = |p: Seq<char>| p.len() > 0;
    let mut i: usize = 0;
    proof {
        reveal(Seq::filter);
        assert(all.take(0).filter(keep) == Seq::<Seq<char>>::empty());
        assert(view_each(out@) == start + Seq::<Seq<char>>::empty());
    }
    while i < packages.len()
        invariant
            i <= packages@.len(),
            all == views(packages@),
            keep == (|p: Seq<char>| p.len() > 0),
            view_each(out@) == start + all.take(i as int).filter(keep),
        decreases packages@.len() - i,
    {
        proof {
            reveal(Seq::filter);
            assert(all[i as int] == packages@[i as int]@);
            assert(all.take(i + 1).drop_last() == all.take(i as int));
        }
        let letters = chars_of(packages[i].as_str());
        if letters.len() > 0 {
            let ghost before = out@;
            let ghost kept = all.take(i as int).filter(keep);
            out.push(SysReq { package: packages[i].as_str().to_owned() });
            proof {
                assert(view_each(out@) == view_each(before).push(all[i as int]));
                assert((start + kept).push(all[i as int]) == start + kept.push(all[i as int]));
            }
        }
        i += 1;
    }
    assert(all.take(i as int) == all);
}

/// What a reply of the catalogue means; see [`lookup_of`].
pub fn resolve_system_deps(reply: &CatalogueReply) -> (r: SysReqLookup)
    ensures
        r@ == lookup_of(*reply),
{
    match reply {
        CatalogueReply::Unreached => SysReqLookup::LookupFailed,
        CatalogueReply::Refused { body } => if is_unsupported_system_body(body.as_str()) {
            SysReqLookup::UnsupportedDistro
        } else {
            SysReqLookup::LookupFailed
        },
        CatalogueReply::Unreadable => SysReqLookup::LookupFailed,
        CatalogueReply::Requirements(reqs) => {
            let ghost all = nested_views(reqs@);
            let mut out: Vec<SysReq> = Vec::new();
            let mut i: usize = 0;
            assert(all.take(0) == Seq::<Seq<Seq<char>>>::empty());
            assert(view_each(out@) == Seq::<Seq<char>>::empty());
            while i < reqs.len()
                invariant
                    i <= reqs@.len(),
                    all == nested_views(reqs@),
                    view_each(out@) == named_packages(all.take(i as int)),
                decreases reqs@.len() - i,
            {
                proof {
                    assert(all[i as int] == views(reqs@[i as int]@));
                    assert(all.take(i + 1).drop_last() == all.take(i as int));
                }
                push_named(&mut out, &reqs[i]);
                i += 1;
            }
            assert(all.take(i as int) == all);
            SysReqLookup::Supported(out)
        },
    }
}

/// The program that says whether a package of the distribution is installed, with its
/// arguments.
pub fn probe_command(has_dpkg: bool, has_rpm: bool, has_apk: bool) -> (r: Option<(&'static str, Vec<&'static str>)>)
    ensures
        match r {
            Some((cmd, args)) => {
                let a = args@.map_values(|x: &'static str| x@);
                if has_dpkg {
                    cmd@ == "dpkg"@ && a == seq!["-s"@]
                } else if has_rpm {
                    cmd@ == "rpm"@ && a == seq!["-q"@]
                } else {
                    has_apk && cmd@ == "apk"@ && a == seq!["info"@, "-e"@]
                }
            },
            None => !has_dpkg && !has_rpm && !has_apk,
        },
{
    if has_dpkg {
        let a: Vec<&'static str> = vec!["-s"];
        assert(a@.map_values(|x: &'static str| x@) == seq!["-s"@]);
        Some(("dpkg", a))
    } else if has_rpm {
        let a: Vec<&'static str> = vec!["-q"];
        assert(a@.map_values(|x: &'static str| x@) == seq!["-q"@]);
        Some(("rpm", a))
    } else if has_apk {
        let a: Vec<&'static str> = vec!["info", "-e"];
        assert(a@.map_values(|x: &'static str| x@) == seq!["info"@, "-e"@]);
        Some(("apk", a))
    } else {
        None
    }
}

/// The packages that are missing: those of which the program said so. Where it could not
/// be run, a package is not reported.
pub open spec fn missing_of(packages: Seq<Seq<char>>, installed: Seq<Option<bool>>) -> Seq<Seq<char>>
    decreases packages.len(),
{
    if packages.len() == 0 {
        seq![]
    } else {
        let front = missing_of(packages.drop_last(), installed.drop_last());
        if installed.last() == Some(false) {
            front.push(packages.last())
        } else {
            front
        }
    }
}

/// The packages that are missing; see [`missing_of`].
pub fn filter_missing(packages: &Vec<SysReq>, installed: &Vec<Option<bool>>) -> (r: Vec<SysReq>)
    requires
        packages@.len() == installed@.len(),
    ensures
        view_each(r@) == missing_of(view_each(packages@), installed@),
{
    let ghost all = view_each(packages@);
    let mut out: Vec<SysReq> = Vec::new();
    let mut i: usize = 0;
    assert(all.take(0) == Seq::<Seq<char>>::empty());
    assert(view_each(out@) == Seq::<Seq<char>>::empty());
    while i < packages.len()
        invariant
            i <= packages@.len(),
            packages@.len() == installed@.len(),
            all == view_each(packages@),
            view_each(out@) == missing_of(all.take(i as int), installed@.take(i as int)),
        decreases packages@.len() - i,
    {
        proof {
            assert(all[i as int] == packages@[i as int]@);
            assert(all.take(i + 1).drop_last() == all.take(i as int));
            assert(installed@.take(i + 1).drop_last() == installed@.take(i as int));
        }
        let missing = match installed[i] {
            Some(there) => !there,
            None => false,
        };
        if missing {
            let ghost before = out@;
            out.push(SysReq { package: packages[i].package.as_str().to_owned() });
            assert(view_each(out@) == view_each(before).push(all[i as int]));
        }
        i += 1;
    }
    proof {
        assert(all.take(i as int) == all);
        assert(installed@.take(i as int) == installed@);
    }
    out
}

/// A package of R whose requirements are looked up.
#[derive(Debug, Clone, PartialEq, Eq)]
pub struct PackageSysReqQuery {
    pub name: String,
    /// What the package says that it needs.
    pub system_requirements: Option<String>,
    /// It comes from Bioconductor, which the catalogue does not know.
    pub bioc: bool,
}

/// A list of packages of a distribution.
#[derive(Debug)]
pub struct SysReqList {
    pub packages: Vec<SysReq>,
}

impl View for SysReqList {
    type V = Seq<Seq<char>>;

    open spec fn view(&self) -> Seq<Seq<char>> {
        view_each(self.packages@)
    }
}

/// What a check of the requirements came to, and how far it has come.
#[derive(Debug)]
pub struct SysReqsCheck {
    /// The packages that are missing, for each package of R.
    pub missing: TextMap<SysReqList>,
    /// The catalogue does not know the distribution.
    pub unsupported_distro: bool,
    /// The catalogue could not be asked about some package.
    pub lookup_failed: bool,
}

/// What a check came to as a mathematical value.
pub struct CheckView {
    pub missing: Map<Seq<char>, Seq<Seq<char>>>,
    pub unsupported_distro: bool,
    pub lookup_failed: bool,
}

impl View for SysReqsCheck {
    type V = CheckView;

    open spec fn view(&self) -> CheckView {
        CheckView {
            missing: self.missing@,
            unsupported_distro: self.unsupported_distro,
            lookup_failed: self.lookup_failed,
        }
    }
}

/// The catalogue is asked about a package, unless it comes from Bioconductor or the
/// catalogue has said that it does not know the distribution.
pub open spec fn asks_catalogue(c: CheckView, pkg: PackageSysReqQuery) -> bool {
    !pkg.bioc && !c.unsupported_distro
}

/// What a package needs by the rules.
pub open spec fn needed_by_rules(
    rules: Seq<crate::sysreqs_rules::RuleView>,
    pkg: PackageSysReqQuery,
    distro: Seq<char>,
) -> Seq<Seq<char>> {
    match pkg.system_requirements {
        Some(t) => if t@.len() == 0 {
            seq![]
        } else {
            let (d, v) = distro_parts(distro);
            needed_packages(rules, matches_of(rules, t@), d, v)
        },
        None => seq![],
    }
}

/// What a package needs: by the catalogue, where it was asked and knew, else by the
/// rules.
pub open spec fn needed_by(
    rules: Seq<crate::sysreqs_rules::RuleView>,
    pkg: PackageSysReqQuery,
    distro: Seq<char>,
    lookup: Option<LookupView>,
) -> Seq<Seq<char>> {
    match lookup {
        Some(LookupView::Supported(p)) => p,
        _ => needed_by_rules(rules, pkg, distro),
    }
}

/// The check after the catalogue was, or was not, asked about a package.
pub open spec fn after_lookup(c: CheckView, lookup: Option<LookupView>) -> CheckView {
    match lookup {
        Some(LookupView::UnsupportedDistro) => CheckView { unsupported_distro: true, ..c },
        Some(LookupView::LookupFailed) => CheckView { lookup_failed: true, ..c },
        _ => c,
    }
}

/// The view of an optional lookup.
pub open spec fn opt_lookup(l: Option<SysReqLookup>) -> Option<LookupView> {
    match l {
        Some(l) => Some(l@),
        None => None,
    }
}

fn as_sysreqs(v: Vec<String>) -> (r: Vec<SysReq>)
    ensures
        view_each(r@) == views(v@),
{
    let mut out: Vec<SysReq> = Vec::new();
    let mut i: usize = 0;
    assert(view_each(out@) == views(v@).take(0));
    while i < v.len()
        invariant
            i <= v@.len(),
            view_each(out@) == views(v@).take(i as int),
        decreases v@.len() - i,
    {
        let ghost before = out@;
        out.push(SysReq { package: v[i].as_str().to_owned() });
        proof {
            assert(views(v@)[i as int] == v@[i as int]@);
            assert(view_each(out@) == view_each(before).push(v@[i as int]@));
            assert(views(v@).take(i + 1) == views(v@).take(i as int).push(views(v@)[i as int]));
        }
        i += 1;
    }
    assert(views(v@).take(i as int) == views(v@));
    out
}

impl SysReqsCheck {
    /// Nothing has been checked.
    pub fn new() -> (r: Self)
        ensures
            r@ == (CheckView { missing: Map::empty(), unsupported_distro: false, lookup_failed: false }),
    {
        SysReqsCheck { missing: TextMap::new(), unsupported_distro: false, lookup_failed: false }
    }

    /// Whether the catalogue is asked about a package; see [`asks_catalogue`].
    pub fn wants_lookup(&self, pkg: &PackageSysReqQuery) -> (r: bool)
        ensures
            r == asks_catalogue(self@, *pkg),
    {
        !pkg.bioc && !self.unsupported_distro
    }

    /// What a package needs. `lookup` is what the catalogue said, where it was asked.
    pub fn resolve_package(
        &mut self,
        rules: &Vec<SysReqRule>,
        pkg: &PackageSysReqQuery,
        distro: &str,
        lookup: Option<SysReqLookup>,
    ) -> (r: Vec<SysReq>)
        requires
            rules_are_valid(view_each(rules@)),
        ensures
            view_each(r@) == needed_by(view_each(rules@), *pkg, distro@, opt_lookup(lookup)),
            final(self)@ == after_lookup(old(self)@, opt_lookup(lookup)),
    {
        match lookup {
            Some(SysReqLookup::Supported(packages)) => {
                return packages;
            },
            Some(SysReqLookup::UnsupportedDistro) => {
                self.unsupported_distro = true;
            },
            Some(SysReqLookup::LookupFailed) => {
                self.lookup_failed = true;
            },
            None => {},
        }
        match &pkg.system_requirements {
            Some(text) => {
                let (distribution, version) = split_distro(distro);
                let found = resolve_local(rules, text.as_str(), distribution.as_str(), version.as_str());
                as_sysreqs(found)
            },
            None => {
                let none: Vec<SysReq> = Vec::new();
                assert(view_each(none@) == Seq::<Seq<char>>::empty());
                none
            },
        }
    }

    /// What a package needs, or nothing where a rule cannot be used.
    pub fn check_package(
        &mut self,
        rules: &Vec<SysReqRule>,
        pkg: &PackageSysReqQuery,
        distro: &str,
        lookup: Option<SysReqLookup>,
    ) -> (r: Option<Vec<SysReq>>)
        ensures
            r is Some <==> rules_are_valid(view_each(rules@)),
            r matches Some(v) ==> view_each(v@) == needed_by(view_each(rules@), *pkg, distro@, opt_lookup(lookup)),
            final(self)@ == (if r is Some {
                after_lookup(old(self)@, opt_lookup(lookup))
            } else {
                old(self)@
            }),
    {
        match crate::sysreqs_rules::resolve_with_rules(rules, "", "", "") {
            Some(_) => Some(self.resolve_package(rules, pkg, distro, lookup)),
            None => None,
        }
    }

    /// Records what a package of R misses, where it misses anything.
    pub fn record(&mut self, name: &str, missing: Vec<SysReq>)
        ensures
            final(self)@ == (CheckView {
                missing: if missing@.len() == 0 {
                    old(self)@.missing
                } else {
                    old(self)@.missing.insert(name@, view_each(missing@))
                },
                ..old(self)@
            }),
    {
        if missing.len() > 0 {
            self.missing.insert(name, SysReqList { packages: missing });
        }
    }
}

/// The catalogue is never asked about a package of Bioconductor, and never again once it
/// has said that it does not know the distribution.
pub proof fn catalogue_is_spared(c: CheckView, pkg: PackageSysReqQuery, lookup: Option<LookupView>)
    ensures
        pkg.bioc ==> !asks_catalogue(c, pkg),
        lookup == Some(LookupView::UnsupportedDistro) ==> !asks_catalogue(after_lookup(c, lookup), pkg),
        c.unsupported_distro ==> after_lookup(c, lookup).unsupported_distro,
{
}

/// A lookup that failed, and a distribution that the catalogue does not know, are not
/// taken for a package that needs nothing: the rules say what it needs.
pub proof fn rules_stand_in(
    rules: Seq<crate::sysreqs_rules::RuleView>,
    pkg: PackageSysReqQuery,
    distro: Seq<char>,
    lookup: Option<LookupView>,
)
    requires
        lookup is None || !(lookup->0 is Supported),
    ensures
        needed_by(rules, pkg, distro, lookup) == needed_by_rules(rules, pkg, distro),
{
}

} // verus!

//! Repositories laid out like CRAN: an index of packages, and the packages at
//! addresses made of their names and versions.
use vstd::prelude::*;

use crate::dcf::{dcf_fields, parse_dcf_fields};
use crate::error::{outcome, ErrorView, UvrError};
use crate::lockfile::{PackageSource, SourceView};
use crate::order::view_each;
use crate::r_version::host::{first_two_parts, minor_of, HostTriple, TripleView};
use crate::registry::{Dep, DepView, PackageInfo, PackageInfoView};
use crate::resolver::requirement::{admits, normal_version, normalize_version, parse_version_req, requirement,
    version_matches_req};
use crate::resolver::solve::{is_real, PackageRegistry};
use crate::resolver::is_base_package;
use crate::text::{chars_of, copy_opt, cut_once, find_char, index_of, is_text, opt_str, opt_view, part, pieces,
    pieces_text, same_str, slice_views, split, split_once, split_text, string_of, strip_prefix, trim, trim_end_char,
    trimmed, trimmed_end_char, without_prefix};
use crate::text_map::TextMap;
use crate::version::{older, semver_version, Version, VersionReq, VersionView};

verus! {

/// A dependency as the index states it, with its requirement where that can be
/// read.
#[derive(Debug, Clone, PartialEq, Eq)]
pub struct DepConstraint {
    pub name: String,
    pub req: Option<VersionReq>,
}

impl View for DepConstraint {
    type V = DepView;

    open spec fn view(&self) -> DepView {
        DepView {
            name: self.name@,
            constraint: match self.req {
                Some(r) => Some(r@),
                None => None,
            },
        }
    }
}

/// The dependency that one entry of a dependency field states: a name, and in
/// parentheses a requirement. A requirement that cannot be read is left out.
pub open spec fn dep_of(entry: Seq<char>) -> DepView {
    let k = find_char(entry, '(', 0);
    if k < entry.len() {
        let text = trim(trim_end_char(entry.subrange(k + 1, entry.len() as int), ')'));
        DepView {
            name: trim(entry.subrange(0, k)),
            constraint: match requirement(text) {
                Ok(req) => Some(req),
                Err(_) => None,
            },
        }
    } else {
        DepView { name: entry, constraint: None }
    }
}

/// The dependencies that the entries state; blank entries state none.
pub open spec fn deps_of_entries(entries: Seq<Seq<char>>) -> Seq<DepView>
    decreases entries.len(),
{
    if entries.len() == 0 {
        seq![]
    } else {
        let front = deps_of_entries(entries.drop_last());
        let entry = trim(entries.last());
        if entry.len() == 0 {
            front
        } else {
            front.push(dep_of(entry))
        }
    }
}

/// The dependencies that a field states, separated by commas.
pub open spec fn dep_field(s: Seq<char>) -> Seq<DepView> {
    deps_of_entries(split(s, ','))
}

/// The dependency for an entry, given what reading its requirement comes to.
pub fn dep_with_requirement(name: &str, req: Result<VersionReq, UvrError>) -> (r: DepConstraint)
    ensures
        r@ == (DepView {
            name: name@,
            constraint: match outcome(req) {
                Ok(q) => Some(q),
                Err(_) => None,
            },
        }),
{
    DepConstraint {
        name: name.to_owned(),
        req: match req {
            Ok(q) => Some(q),
            Err(_) => None,
        },
    }
}

/// The dependencies that a field such as `dplyr (>= 1.0.0), rlang` states.
pub fn parse_dep_field(s: &str) -> (r: Vec<DepConstraint>)
    ensures
        view_each(r@) == dep_field(s@),
{
    let cs = chars_of(s);
    let ps = pieces(cs.as_slice(), ',');
    let ghost all = split(s@, ',');
    let mut out: Vec<DepConstraint> = Vec::new();
    let mut i: usize = 0;
    proof {
        assert(all.take(0) == Seq::<Seq<char>>::empty());
        assert(view_each(out@) == Seq::<DepView>::empty());
    }
    while i < ps.len()
        invariant
            i <= ps@.len(),
            slice_views(ps@) == all,
            view_each(out@) == deps_of_entries(all.take(i as int)),
        decreases ps@.len() - i,
    {
        let entry = trimmed(ps[i]);
        proof {
            assert(slice_views(ps@)[i as int] == ps@[i as int]@);
            assert(all.take(i + 1).drop_last() == all.take(i as int));
        }
        if entry.len() > 0 {
            let k: usize = index_of(entry, '(', 0);
            let dep = if k < entry.len() {
                let name = string_of(trimmed(part(entry, 0, k)));
                let text = string_of(trimmed(trimmed_end_char(part(entry, k + 1, entry.len()), ')')));
                dep_with_requirement(name.as_str(), parse_version_req(text.as_str()))
            } else {
                DepConstraint { name: string_of(entry), req: None }
            };
            let ghost before = out@;
            assert(dep@ == dep_of(entry@));
            out.push(dep);
            assert(view_each(out@) == view_each(before).push(dep_of(entry@)));
        }
        i += 1;
    }
    assert(all.take(i as int) == all);
    out
}

/// What is known of a binary build.
#[derive(Debug, Clone, PartialEq, Eq)]
pub struct BuiltInfo {
    pub r_version: String,
    pub platform: String,
    pub date: String,
    pub os_family: String,
}

/// A binary build as a mathematical value.
pub struct BuiltView {
    pub r_version: Seq<char>,
    pub platform: Seq<char>,
    pub date: Seq<char>,
    pub os_family: Seq<char>,
}

impl View for BuiltInfo {
    type V = BuiltView;

    open spec fn view(&self) -> BuiltView {
        BuiltView {
            r_version: self.r_version@,
            platform: self.platform@,
            date: self.date@,
            os_family: self.os_family@,
        }
    }
}

/// A platform triple without its vendor, the second part. A text of fewer than
/// three parts is left as it is.
pub open spec fn vendorless(triple: Seq<char>) -> Seq<char> {
    match split_once(triple, '-') {
        None => triple,
        Some((arch, rest)) => match split_once(rest, '-') {
            None => triple,
            Some((_, tail)) => arch + "-"@ + tail,
        },
    }
}

/// A platform triple without its vendor: `aarch64-pc-linux-musl` becomes
/// `aarch64-linux-musl`.
pub fn normalize_triple_drop_vendor(triple: &str) -> (r: String)
    ensures
        r@ == vendorless(triple@),
{
    let cs = chars_of(triple);
    match cut_once(cs.as_slice(), '-') {
        None => triple.to_owned(),
        Some((arch, rest)) => match cut_once(rest, '-') {
            None => triple.to_owned(),
            Some((_vendor, tail)) => string_of(arch).concat("-").concat(string_of(tail).as_str()),
        },
    }
}

/// A build runs on a machine: it is for the same series of R, for the same platform
/// whatever the vendor, and for the same family of systems.
pub open spec fn runs_on(b: BuiltView, host: TripleView, r_minor: Seq<char>) -> bool {
    &&& first_two_parts(b.r_version) == r_minor
    &&& vendorless(b.platform) == host.arch + "-"@ + host.os + "-"@ + host.abi
    &&& b.os_family == (if host.os == "windows"@ {
        "windows"@
    } else {
        "unix"@
    })
}

impl BuiltInfo {
    /// Whether the build runs on the machine with the given series of R.
    pub fn matches_host(&self, host: &HostTriple, r_minor: &str) -> (r: bool)
        ensures
            r == runs_on(self@, host@, r_minor@),
    {
        let minor = minor_of(self.r_version.as_str());
        let platform = normalize_triple_drop_vendor(self.platform.as_str());
        let wanted = host.arch.as_str().to_owned().concat("-").concat(host.os.as_str()).concat("-").concat(
            host.abi.as_str(),
        );
        let family = if same_str(host.os.as_str(), "windows") {
            "windows"
        } else {
            "unix"
        };
        same_str(minor.as_str(), r_minor) && same_str(platform.as_str(), wanted.as_str()) && same_str(
            self.os_family.as_str(),
            family,
        )
    }
}

/// What a `Built` field says, where it is one of a binary build: at least four parts
/// separated by semicolons, the first of them `R` and a version.
pub open spec fn built_of(s: Seq<char>) -> Option<BuiltView> {
    let p = split(s, ';');
    if p.len() < 4 {
        None
    } else {
        match strip_prefix(trim(p[0]), "R "@) {
            None => None,
            Some(v) => if trim(v).len() == 0 {
                None
            } else {
                Some(
                    BuiltView {
                        r_version: trim(v),
                        platform: trim(p[1]),
                        date: trim(p[2]),
                        os_family: trim(p[3]),
                    },
                )
            },
        }
    }
}

/// What a `Built` field says; see [`built_of`].
pub fn parse_built(s: &str) -> (r: Option<BuiltInfo>)
    ensures
        match r {
            Some(b) => built_of(s@) == Some(b@),
            None => built_of(s@) is None,
        },
{
    let cs = chars_of(s);
    let ps = pieces(cs.as_slice(), ';');
    proof {
        assert(slice_views(ps@).len() == ps@.len());
        assert forall|i: int| 0 <= i < ps@.len() implies slice_views(ps@)[i] == (#[trigger] ps@[i])@ by {}
    }
    if ps.len() < 4 {
        return None;
    }
    let v = match without_prefix(trimmed(ps[0]), "R ") {
        Some(v) => trimmed(v),
        None => {
            return None;
        },
    };
    if v.len() == 0 {
        return None;
    }
    Some(
        BuiltInfo {
            r_version: string_of(v),
            platform: string_of(trimmed(ps[1])),
            date: string_of(trimmed(ps[2])),
            os_family: string_of(trimmed(ps[3])),
        },
    )
}

/// An entry of the index.
#[derive(Debug, Clone, PartialEq, Eq)]
pub struct CranPackageEntry {
    pub name: String,
    /// The version in the form in which versions are compared.
    pub version: Version,
    /// The version as the index writes it, which is what addresses use.
    pub raw_version: String,
    pub depends: Vec<DepConstraint>,
    pub imports: Vec<DepConstraint>,
    /// Packages whose headers are needed to compile this one.
    pub linking_to: Vec<DepConstraint>,
    pub md5sum: String,
    pub system_requirements: Option<String>,
    /// Where the package lies below the repository, if not at the top.
    pub path: Option<String>,
    /// What is known of the build, where it is a binary.
    pub built: Option<BuiltInfo>,
}

/// An entry of the index as a mathematical value.
pub struct EntryView {
    pub name: Seq<char>,
    pub version: VersionView,
    pub raw_version: Seq<char>,
    pub depends: Seq<DepView>,
    pub imports: Seq<DepView>,
    pub linking_to: Seq<DepView>,
    pub md5sum: Seq<char>,
    pub system_requirements: Option<Seq<char>>,
    pub path: Option<Seq<char>>,
    pub built: Option<BuiltView>,
}

impl View for CranPackageEntry {
    type V = EntryView;

    open spec fn view(&self) -> EntryView {
        EntryView {
            name: self.name@,
            version: self.version@,
            raw_version: self.raw_version@,
            depends: view_each(self.depends@),
            imports: view_each(self.imports@),
            linking_to: view_each(self.linking_to@),
            md5sum: self.md5sum@,
            system_requirements: opt_view(self.system_requirements),
            path: opt_view(self.path),
            built: match self.built {
                Some(b) => Some(b@),
                None => None,
            },
        }
    }
}

/// All that a package needs, what comes with R left out.
pub open spec fn entry_deps(e: EntryView) -> Seq<DepView> {
    crate::resolver::solve::non_base(e.depends + e.imports + e.linking_to)
}

/// A path below the repository that cannot lead out of it.
pub open spec fn is_safe_path(p: Seq<char>) -> bool {
    p.len() > 0 && p[0] != '/' && !split(p, '/').contains(".."@)
}

/// The address of a package below `base`.
pub open spec fn tarball_at(base: Seq<char>, e: EntryView) -> Seq<char> {
    let dir = match e.path {
        Some(p) => if is_safe_path(p) {
            base + "/"@ + p
        } else {
            base
        },
        None => base,
    };
    dir + "/"@ + e.name + "_"@ + e.raw_version + ".tar.gz"@
}

fn path_is_safe(p: &str) -> (r: bool)
    ensures
        r == is_safe_path(p@),
{
    let cs = chars_of(p);
    let s = cs.as_slice();
    if s.len() == 0 || s[0] == '/' {
        return false;
    }
    let ps = pieces(s, '/');
    let ghost all = split(p@, '/');
    let mut i: usize = 0;
    while i < ps.len()
        invariant
            i <= ps@.len(),
            slice_views(ps@) == all,
            all == split(p@, '/'),
            forall|j: int| 0 <= j < i ==> #[trigger] all[j] != ".."@,
        decreases ps@.len() - i,
    {
        assert(slice_views(ps@)[i as int] == ps@[i as int]@);
        if is_text(ps[i], "..") {
            assert(all[i as int] == ".."@);
            return false;
        }
        i += 1;
    }
    true
}

pub(crate) fn push_deps(out: &mut Vec<Dep>, deps: &Vec<DepConstraint>)
    ensures
        view_each(final(out)@) == view_each(old(out)@) + crate::resolver::solve::non_base(view_each(deps@)),
{
    let ghost start = view_each(out@);
    let ghost all = view_each(deps@);
    let mut i: usize = 0;
    proof {
        assert(all.take(0) == Seq::<DepView>::empty());
        assert(start + crate::resolver::solve::non_base(all.take(0)) == start);
    }
    while i < deps.len()
        invariant
            i <= deps@.len(),
            all == view_each(deps@),
            view_each(out@) == start + crate::resolver::solve::non_base(all.take(i as int)),
        decreases deps@.len() - i,
    {
        let d: &DepConstraint = &deps[i];
        proof {
            assert(all[i as int] == d@);
            assert(all.take(i + 1).drop_last() == all.take(i as int));
        }
        if !is_base_package(d.name.as_str()) {
            let ghost before = out@;
            let one = Dep {
                name: d.name.as_str().to_owned(),
                constraint: match &d.req {
                    Some(q) => Some(q.text.as_str().to_owned()),
                    None => None,
                },
            };
            assert(one@ == d@);
            out.push(one);
            proof {
                assert(view_each(out@) == view_each(before).push(d@));
                assert((start + crate::resolver::solve::non_base(all.take(i as int))).push(d@) == start
                    + crate::resolver::solve::non_base(all.take(i + 1)));
            }
        }
        i += 1;
    }
    assert(all.take(i as int) == all);
}

proof fn lemma_non_base_concat(a: Seq<DepView>, b: Seq<DepView>)
    ensures
        crate::resolver::solve::non_base(a + b) == crate::resolver::solve::non_base(a) + crate::resolver::solve::non_base(
            b,
        ),
    decreases b.len(),
{
    if b.len() == 0 {
        assert(a + b == a);
        assert(crate::resolver::solve::non_base(b) == Seq::<DepView>::empty());
    } else {
        assert((a + b).drop_last() == a + b.drop_last());
        lemma_non_base_concat(a, b.drop_last());
    }
}

impl CranPackageEntry {
    /// All that the package needs with the requirements on versions, what comes with
    /// R left out. Packages that it links to count.
    pub fn requires_as_deps(&self) -> (r: Vec<Dep>)
        ensures
            view_each(r@) == entry_deps(self@),
    {
        let mut out: Vec<Dep> = Vec::new();
        assert(view_each(out@) == Seq::<DepView>::empty());
        push_deps(&mut out, &self.depends);
        push_deps(&mut out, &self.imports);
        push_deps(&mut out, &self.linking_to);
        proof {
            let (a, b, c) = (self@.depends, self@.imports, self@.linking_to);
            lemma_non_base_concat(a, b);
            lemma_non_base_concat(a + b, c);
        }
        out
    }

    /// The names of all that the package needs, what comes with R left out.
    pub fn all_requires(&self) -> (r: Vec<String>)
        ensures
            crate::text::views(r@) == crate::resolver::solve::dep_names(entry_deps(self@)),
    {
        let deps = self.requires_as_deps();
        let ghost want = crate::resolver::solve::dep_names(entry_deps(self@));
        let mut r: Vec<String> = Vec::new();
        let mut i: usize = 0;
        while i < deps.len()
            invariant
                i <= deps@.len(),
                want == crate::resolver::solve::dep_names(view_each(deps@)),
                crate::text::views(r@) == want.take(i as int),
            decreases deps@.len() - i,
        {
            let ghost before = r@;
            r.push(deps[i].name.as_str().to_owned());
            assert(crate::text::views(r@) == crate::text::views(before).push(want[i as int]));
            i += 1;
            assert(crate::text::views(r@) == want.take(i as int));
        }
        assert(want.take(i as int) == want);
        r
    }

    /// The address of the package on CRAN.
    pub fn tarball_url(&self) -> (r: String)
        ensures
            r@ == tarball_at("https://cran.r-project.org/src/contrib"@, self@),
    {
        self.tarball_url_with_base("https://cran.r-project.org/src/contrib")
    }

    /// The address of the package below `base`. A path that could lead out of the
    /// repository is left out.
    pub fn tarball_url_with_base(&self, base: &str) -> (r: String)
        ensures
            r@ == tarball_at(base@, self@),
    {
        let dir = match &self.path {
            Some(p) => if path_is_safe(p.as_str()) {
                base.to_owned().concat("/").concat(p.as_str())
            } else {
                base.to_owned()
            },
            None => base.to_owned(),
        };
        dir.concat("/").concat(self.name.as_str()).concat("_").concat(self.raw_version.as_str()).concat(".tar.gz")
    }
}

/// The dependencies in a field of a record; none where there is no such field.
pub open spec fn deps_in(fields: Map<Seq<char>, Seq<char>>, key: Seq<char>) -> Seq<DepView> {
    if fields.contains_key(key) {
        dep_field(fields[key])
    } else {
        seq![]
    }
}

/// A field of a record, where there is one.
pub open spec fn field(fields: Map<Seq<char>, Seq<char>>, key: Seq<char>) -> Option<Seq<char>> {
    if fields.contains_key(key) {
        Some(fields[key])
    } else {
        None
    }
}

/// The entry for a record whose name and version are known.
pub open spec fn entry_with(
    fields: Map<Seq<char>, Seq<char>>,
    name: Seq<char>,
    raw_version: Seq<char>,
    version: VersionView,
) -> EntryView {
    EntryView {
        name,
        version,
        raw_version,
        depends: deps_in(fields, "Depends"@),
        imports: deps_in(fields, "Imports"@),
        linking_to: deps_in(fields, "LinkingTo"@),
        md5sum: match field(fields, "MD5sum"@) {
            Some(m) => m,
            None => seq![],
        },
        system_requirements: field(fields, "SystemRequirements"@),
        path: match field(fields, "Path"@) {
            Some(p) => if p.len() > 0 {
                Some(p)
            } else {
                None
            },
            None => None,
        },
        built: match field(fields, "Built"@) {
            Some(b) => built_of(b),
            None => None,
        },
    }
}

/// What reading a version comes to, as a mathematical value.
pub open spec fn parsed_view(r: Result<Version, String>) -> Result<VersionView, Seq<char>> {
    match r {
        Ok(v) => Ok(v@),
        Err(e) => Err(e@),
    }
}

/// The entry for a record, given what reading its version comes to. A record
/// without a name, or without a version that can be read, is no entry.
pub open spec fn entry_given(
    fields: Map<Seq<char>, Seq<char>>,
    version: Result<VersionView, Seq<char>>,
) -> Option<EntryView> {
    match (field(fields, "Package"@), field(fields, "Version"@), version) {
        (Some(name), Some(raw), Ok(v)) => Some(entry_with(fields, name, raw, v)),
        _ => None,
    }
}

/// The entry for a record.
pub open spec fn entry_of(block: Seq<char>) -> Option<EntryView> {
    let fields = dcf_fields(block);
    match field(fields, "Version"@) {
        Some(raw) => entry_given(fields, semver_version(normal_version(raw))),
        None => None,
    }
}

pub(crate) fn get_field(fields: &TextMap<String>, key: &str) -> (r: Option<String>)
    ensures
        opt_view(r) == field(fields@, key@),
{
    match fields.get(key) {
        Some(v) => Some(v.as_str().to_owned()),
        None => None,
    }
}

pub(crate) fn get_deps(fields: &TextMap<String>, key: &str) -> (r: Vec<DepConstraint>)
    ensures
        view_each(r@) == deps_in(fields@, key@),
{
    match fields.get(key) {
        Some(v) => parse_dep_field(v.as_str()),
        None => {
            let none: Vec<DepConstraint> = Vec::new();
            assert(view_each(none@) == Seq::<DepView>::empty());
            none
        },
    }
}

/// The entry for the fields of a record, given what reading its version comes to;
/// see [`entry_given`].
pub fn entry_from_fields(fields: &TextMap<String>, version: Result<Version, String>) -> (r: Option<CranPackageEntry>)
    ensures
        match r {
            Some(e) => entry_given(fields@, parsed_view(version)) == Some(e@),
            None => entry_given(fields@, parsed_view(version)) is None,
        },
{
    let name = match get_field(fields, "Package") {
        Some(n) => n,
        None => {
            return None;
        },
    };
    let raw_version = match get_field(fields, "Version") {
        Some(v) => v,
        None => {
            return None;
        },
    };
    let version = match version {
        Ok(v) => v,
        Err(_) => {
            return None;
        },
    };
    let md5sum = match get_field(fields, "MD5sum") {
        Some(m) => m,
        None => String::new(),
    };
    let path = match get_field(fields, "Path") {
        Some(p) => if p.as_str().is_empty() {
            None
        } else {
            Some(p)
        },
        None => None,
    };
    let built = match get_field(fields, "Built") {
        Some(b) => parse_built(b.as_str()),
        None => None,
    };
    Some(
        CranPackageEntry {
            name,
            version,
            raw_version,
            depends: get_deps(fields, "Depends"),
            imports: get_deps(fields, "Imports"),
            linking_to: get_deps(fields, "LinkingTo"),
            md5sum,
            system_requirements: get_field(fields, "SystemRequirements"),
            path,
            built,
        },
    )
}

/// The entry for a record; see [`entry_of`].
pub fn parse_dcf_block(block: &str) -> (r: Option<CranPackageEntry>)
    ensures
        match r {
            Some(e) => entry_of(block@) == Some(e@),
            None => entry_of(block@) is None,
        },
{
    let fields = parse_dcf_fields(block);
    match get_field(&fields, "Version") {
        Some(raw) => {
            let version = Version::parse(normalize_version(raw.as_str()).as_str());
            entry_from_fields(&fields, version)
        },
        None => None,
    }
}

/// The entries for one package.
#[derive(Debug)]
struct EntryList {
    entries: Vec<CranPackageEntry>,
}

impl View for EntryList {
    type V = Seq<EntryView>;

    closed spec fn view(&self) -> Seq<EntryView> {
        view_each(self.entries@)
    }
}

/// No entry is older than one on its right.
pub open spec fn newest_first(s: Seq<EntryView>) -> bool {
    forall|i: int, j: int| 0 <= i < j < s.len() ==> !older((#[trigger] s[i]).version, (#[trigger] s[j]).version)
}

/// The first position at or after `i` of an entry that is older than `v`, or the
/// number of entries.
pub open spec fn age_slot(s: Seq<EntryView>, v: VersionView, i: int) -> int
    decreases s.len() - i,
{
    if i >= s.len() {
        s.len() as int
    } else if older(s[i].version, v) {
        i
    } else {
        age_slot(s, v, i + 1)
    }
}

/// The entries of a package in an index.
pub open spec fn entries_of(m: Map<Seq<char>, Seq<EntryView>>, name: Seq<char>) -> Seq<EntryView> {
    if m.contains_key(name) {
        m[name]
    } else {
        seq![]
    }
}

/// The index with one more entry, put before the first of its package that is older.
pub open spec fn with_entry(m: Map<Seq<char>, Seq<EntryView>>, e: EntryView) -> Map<Seq<char>, Seq<EntryView>> {
    let s = entries_of(m, e.name);
    m.insert(e.name, s.insert(age_slot(s, e.version, 0), e))
}

/// The index of a repository: for each package its versions, newest first.
pub struct CranIndex {
    packages: TextMap<EntryList>,
}

impl View for CranIndex {
    type V = Map<Seq<char>, Seq<EntryView>>;

    closed spec fn view(&self) -> Map<Seq<char>, Seq<EntryView>> {
        self.packages@
    }
}

/// Every package has its versions newest first.
pub open spec fn is_index(m: Map<Seq<char>, Seq<EntryView>>) -> bool {
    forall|n: Seq<char>| #[trigger] m.contains_key(n) ==> newest_first(m[n])
}

/// The first position at or after `i` of an entry that the requirement admits, or
/// the number of entries.
pub open spec fn admitted(s: Seq<EntryView>, req: Option<Seq<char>>, i: int) -> int
    decreases s.len() - i,
{
    if i >= s.len() {
        s.len() as int
    } else if req is None || admits(req->0, s[i].version) {
        i
    } else {
        admitted(s, req, i + 1)
    }
}

/// The text of an optional requirement.
pub open spec fn req_view(req: Option<VersionReq>) -> Option<Seq<char>> {
    match req {
        Some(q) => Some(q@),
        None => None,
    }
}

/// What a requirement on a package says, where it says something.
pub open spec fn wanted(constraint: Option<Seq<char>>) -> Result<Option<Seq<char>>, ErrorView> {
    if is_real(constraint) {
        match requirement(constraint->0) {
            Ok(req) => Ok(Some(req)),
            Err(e) => Err(e),
        }
    } else {
        Ok(None)
    }
}

/// The newest entry of a package that a requirement admits.
pub open spec fn best(
    m: Map<Seq<char>, Seq<EntryView>>,
    name: Seq<char>,
    constraint: Option<Seq<char>>,
) -> Result<EntryView, ErrorView> {
    if !m.contains_key(name) {
        Err(ErrorView::PackageNotFound(name))
    } else {
        match wanted(constraint) {
            Err(e) => Err(e),
            Ok(req) => {
                let k = admitted(m[name], req, 0);
                if k < m[name].len() {
                    Ok(m[name][k])
                } else {
                    Err(
                        ErrorView::NoMatchingVersion {
                            package: name,
                            constraint: match constraint {
                                Some(c) => c,
                                None => "*"@,
                            },
                        },
                    )
                }
            },
        }
    }
}

/// The first position at or after `i` of an entry with exactly the version `v`, or
/// the number of entries.
pub open spec fn exactly(s: Seq<EntryView>, v: VersionView, i: int) -> int
    decreases s.len() - i,
{
    if i >= s.len() {
        s.len() as int
    } else if s[i].version == v {
        i
    } else {
        exactly(s, v, i + 1)
    }
}

/// The entry of a package with a given version, given what reading the version
/// comes to.
pub open spec fn exact_given(
    m: Map<Seq<char>, Seq<EntryView>>,
    name: Seq<char>,
    version: Result<VersionView, Seq<char>>,
) -> Option<EntryView> {
    match version {
        Err(_) => None,
        Ok(v) => {
            let s = entries_of(m, name);
            let k = exactly(s, v, 0);
            if k < s.len() {
                Some(s[k])
            } else {
                None
            }
        },
    }
}

/// The entry of a package with a given version, whatever form the version has.
pub open spec fn exact(m: Map<Seq<char>, Seq<EntryView>>, name: Seq<char>, version: Seq<char>) -> Option<EntryView> {
    exact_given(m, name, semver_version(normal_version(version)))
}

impl CranIndex {
    #[verifier::type_invariant]
    spec fn wf(self) -> bool {
        is_index(self.packages@)
    }

    /// The index without packages.
    pub fn new() -> (r: CranIndex)
        ensures
            r@ == Map::<Seq<char>, Seq<EntryView>>::empty(),
    {
        CranIndex { packages: TextMap::new() }
    }

    /// Adds an entry; see [`with_entry`].
    pub fn insert(&mut self, entry: CranPackageEntry)
        ensures
            final(self)@ == with_entry(old(self)@, entry@),
            is_index(final(self)@),
    {
        proof {
            use_type_invariant(&*self);
        }
        let ghost m = self@;
        let mut taken = CranIndex::new();
        std::mem::swap(&mut taken, self);
        let CranIndex { mut packages } = taken;
        let mut entries: Vec<CranPackageEntry> = Vec::new();
        if let Some(l) = packages.get(entry.name.as_str()) {
            let mut k: usize = 0;
            while k < l.entries.len()
                invariant
                    k <= l.entries@.len(),
                    view_each(entries@) == view_each(l.entries@).take(k as int),
                decreases l.entries@.len() - k,
            {
                let ghost before = entries@;
                entries.push(copy_entry(&l.entries[k]));
                assert(view_each(entries@) == view_each(before).push(l.entries@[k as int]@));
                k += 1;
                assert(view_each(entries@) == view_each(l.entries@).take(k as int));
            }
            assert(view_each(l.entries@).take(k as int) == view_each(l.entries@));
        } else {
            assert(view_each(entries@) == Seq::<EntryView>::empty());
        }
        let ghost s = view_each(entries@);
        let ghost v = entry@.version;
        assert(s == entries_of(m, entry@.name));
        let mut i: usize = 0;
        while i < entries.len()
            invariant
                i <= entries@.len(),
                s == view_each(entries@),
                v == entry@.version,
                age_slot(s, v, 0) == age_slot(s, v, i as int),
                forall|j: int| 0 <= j < i ==> !older((#[trigger] s[j]).version, v),
            ensures
                i == age_slot(s, v, 0),
                forall|j: int| 0 <= j < i ==> !older((#[trigger] s[j]).version, v),
                i < s.len() ==> older(s[i as int].version, v),
                i < s.len() ==> (forall|c: VersionView| #[trigger] older(v, c) ==> older(s[i as int].version, c)),
                i < s.len() ==> !older(v, s[i as int].version),
                i <= s.len(),
            decreases entries@.len() - i,
        {
            assert(s[i as int].version == entries@[i as int].version@);
            if entries[i].version.is_older_than(&entry.version) {
                break;
            }
            i += 1;
        }
        let name = entry.name.as_str().to_owned();
        let ghost e = entry@;
        entries.insert(i, entry);
        let ghost t = view_each(entries@);
        proof {
            assert(t == s.insert(i as int, e));
            assert forall|a: int, b: int| 0 <= a < b < t.len() implies !older((#[trigger] t[a]).version, (#[trigger] t[b]).version) by {
                if m.contains_key(e.name) {
                    assert(newest_first(m[e.name]));
                }
                if a == i {
                    if b - 1 > i {
                        assert(!older(s[i as int].version, s[b - 1].version));
                    }
                } else if b == i {
                    assert(!older(s[a].version, v));
                } else {
                    let a2 = if a < i { a } else { a - 1 };
                    let b2 = if b < i { b } else { b - 1 };
                    assert(!older(s[a2].version, s[b2].version));
                }
            }
            assert(newest_first(t));
        }
        packages.insert(name.as_str(), EntryList { entries });
        *self = CranIndex { packages };
    }

    /// The newest entry of a package that a requirement admits; see [`best`].
    pub fn get_best(&self, name: &str, constraint: Option<&str>) -> (r: Result<&CranPackageEntry, UvrError>)
        ensures
            match r {
                Ok(e) => best(self@, name@, opt_str(constraint)) == Ok::<EntryView, ErrorView>(e@),
                Err(e) => best(self@, name@, opt_str(constraint)) == Err::<EntryView, ErrorView>(e@),
            },
            is_index(self@),
    {
        proof {
            use_type_invariant(self);
        }
        let l = match self.packages.get(name) {
            Some(l) => l,
            None => {
                return Err(UvrError::PackageNotFound(name.to_owned()));
            },
        };
        let req: Option<VersionReq> = match constraint {
            Some(c) => if !same_str(c, "*") && !c.is_empty() {
                match parse_version_req(c) {
                    Ok(q) => Some(q),
                    Err(e) => {
                        return Err(e);
                    },
                }
            } else {
                None
            },
            None => None,
        };
        let ghost s = self@[name@];
        let ghost q = req_view(req);
        let mut i: usize = 0;
        while i < l.entries.len()
            invariant
                i <= l.entries@.len(),
                is_index(self@),
                s == view_each(l.entries@),
                s == self@[name@],
                self@.contains_key(name@),
                q == req_view(req),
                wanted(opt_str(constraint)) == Ok::<Option<Seq<char>>, ErrorView>(q),
                admitted(s, q, 0) == admitted(s, q, i as int),
            decreases l.entries@.len() - i,
        {
            assert(s[i as int] == l.entries@[i as int]@);
            let ok = match &req {
                Some(q) => version_matches_req(&l.entries[i].version, q),
                None => true,
            };
            if ok {
                return Ok(&l.entries[i]);
            }
            i += 1;
        }
        let text = match constraint {
            Some(c) => c.to_owned(),
            None => "*".to_owned(),
        };
        Err(UvrError::NoMatchingVersion { package: name.to_owned(), constraint: text })
    }

    /// How many packages there are.
    pub fn len(&self) -> (r: usize)
        ensures
            r == self@.dom().len(),
            self@.dom().finite(),
    {
        let n: usize = self.packages.len();
        proof {
            self.packages.keys_in_order();
            crate::text_map::ascending_has_no_duplicates(self.packages.keys());
            self.packages.keys().unique_seq_to_set();
        }
        n
    }

    /// Whether there is no package.
    pub fn is_empty(&self) -> (r: bool)
        ensures
            r == (self@.dom() == Set::<Seq<char>>::empty()),
    {
        let r = self.packages.is_empty();
        proof {
            self.packages.keys_in_order();
            let keys = self.packages.keys();
            if keys.len() > 0 {
                assert(keys.to_set().contains(keys[0]));
            } else {
                assert(keys.to_set() =~= Set::<Seq<char>>::empty());
            }
        }
        r
    }

    /// All entries: the packages in the order of their names, each with its versions
    /// newest first.
    pub fn all_entries(&self) -> (r: Vec<&CranPackageEntry>)
        ensures
            entry_refs(r@) == all_entries_upto(self@, crate::text_map::in_order(self@.dom())),
    {
        let mut out: Vec<&CranPackageEntry> = Vec::new();
        let n: usize = self.packages.len();
        proof {
            self.packages.keys_in_order();
        }
        let ghost keys = self.packages.keys();
        let mut i: usize = 0;
        proof {
            assert(keys.take(0) == Seq::<Seq<char>>::empty());
            assert(entry_refs(out@) == Seq::<EntryView>::empty());
        }
        while i < n
            invariant
                i <= n,
                n == keys.len(),
                keys == self.packages.keys(),
                entry_refs(out@) == all_entries_upto(self@, keys.take(i as int)),
            decreases n - i,
        {
            let l: &EntryList = self.packages.value_at(i);
            let ghost front = entry_refs(out@);
            let ghost s = view_each(l.entries@);
            let mut k: usize = 0;
            assert(front + s.take(0) == front);
            while k < l.entries.len()
                invariant
                    k <= l.entries@.len(),
                    s == view_each(l.entries@),
                    entry_refs(out@) == front + s.take(k as int),
                decreases l.entries@.len() - k,
            {
                let ghost before = out@;
                out.push(&l.entries[k]);
                proof {
                    assert(entry_refs(out@) == entry_refs(before).push(s[k as int]));
                    assert((front + s.take(k as int)).push(s[k as int]) == front + s.take(k + 1));
                }
                k += 1;
            }
            proof {
                assert(s.take(k as int) == s);
                assert(keys.take(i + 1).drop_last() == keys.take(i as int));
                assert(keys.take(i + 1).last() == keys[i as int]);
            }
            i += 1;
        }
        assert(keys.take(i as int) == keys);
        out
    }

    /// The entry of a package with the version read; see [`exact_given`].
    pub fn find_version(&self, name: &str, version: Result<Version, String>) -> (r: Option<&CranPackageEntry>)
        ensures
            match r {
                Some(e) => exact_given(self@, name@, parsed_view(version)) == Some(e@),
                None => exact_given(self@, name@, parsed_view(version)) is None,
            },
    {
        let v = match version {
            Ok(v) => v,
            Err(_) => {
                return None;
            },
        };
        let l = match self.packages.get(name) {
            Some(l) => l,
            None => {
                return None;
            },
        };
        let ghost s = entries_of(self@, name@);
        let mut i: usize = 0;
        while i < l.entries.len()
            invariant
                i <= l.entries@.len(),
                s == view_each(l.entries@),
                s == entries_of(self@, name@),
                parsed_view(version) == Ok::<VersionView, Seq<char>>(v@),
                exactly(s, v@, 0) == exactly(s, v@, i as int),
            decreases l.entries@.len() - i,
        {
            assert(s[i as int] == l.entries@[i as int]@);
            if l.entries[i].version.equals(&v) {
                return Some(&l.entries[i]);
            }
            i += 1;
        }
        None
    }

    /// The entry of a package with a given version; see [`exact`].
    pub fn find_exact(&self, name: &str, version: &str) -> (r: Option<&CranPackageEntry>)
        ensures
            match r {
                Some(e) => exact(self@, name@, version@) == Some(e@),
                None => exact(self@, name@, version@) is None,
            },
    {
        self.find_version(name, Version::parse(normalize_version(version).as_str()))
    }
}

/// The views of references to entries.
pub open spec fn entry_refs(s: Seq<&CranPackageEntry>) -> Seq<EntryView> {
    s.map_values(|e: &CranPackageEntry| e@)
}

/// The entries of the packages named, in that order.
pub open spec fn all_entries_upto(m: Map<Seq<char>, Seq<EntryView>>, names: Seq<Seq<char>>) -> Seq<EntryView>
    decreases names.len(),
{
    if names.len() == 0 {
        seq![]
    } else {
        all_entries_upto(m, names.drop_last()) + m[names.last()]
    }
}

fn copy_constraints(v: &Vec<DepConstraint>) -> (r: Vec<DepConstraint>)
    ensures
        view_each(r@) == view_each(v@),
{
    let mut r: Vec<DepConstraint> = Vec::new();
    let mut i: usize = 0;
    while i < v.len()
        invariant
            i <= v@.len(),
            view_each(r@) == view_each(v@).take(i as int),
        decreases v@.len() - i,
    {
        let ghost before = r@;
        let one = DepConstraint {
            name: v[i].name.as_str().to_owned(),
            req: match &v[i].req {
                Some(q) => Some(q.copy()),
                None => None,
            },
        };
        assert(one@ == v@[i as int]@);
        r.push(one);
        assert(view_each(r@) == view_each(before).push(v@[i as int]@));
        i += 1;
        assert(view_each(r@) == view_each(v@).take(i as int));
    }
    assert(view_each(v@).take(i as int) == view_each(v@));
    r
}

/// A copy of an entry.
pub fn copy_entry(e: &CranPackageEntry) -> (r: CranPackageEntry)
    ensures
        r@ == e@,
{
    CranPackageEntry {
        name: e.name.as_str().to_owned(),
        version: e.version.copy(),
        raw_version: e.raw_version.as_str().to_owned(),
        depends: copy_constraints(&e.depends),
        imports: copy_constraints(&e.imports),
        linking_to: copy_constraints(&e.linking_to),
        md5sum: e.md5sum.as_str().to_owned(),
        system_requirements: copy_opt(&e.system_requirements),
        path: copy_opt(&e.path),
        built: match &e.built {
            Some(b) => Some(
                BuiltInfo {
                    r_version: b.r_version.as_str().to_owned(),
                    platform: b.platform.as_str().to_owned(),
                    date: b.date.as_str().to_owned(),
                    os_family: b.os_family.as_str().to_owned(),
                },
            ),
            None => None,
        },
    }
}

/// The index of the records given; blank ones and those that are no entry are
/// passed over.
pub open spec fn index_of_blocks(blocks: Seq<Seq<char>>) -> Map<Seq<char>, Seq<EntryView>>
    decreases blocks.len(),
{
    if blocks.len() == 0 {
        Map::empty()
    } else {
        let m = index_of_blocks(blocks.drop_last());
        let block = trim(blocks.last());
        if block.len() == 0 {
            m
        } else {
            match entry_of(block) {
                Some(e) => with_entry(m, e),
                None => m,
            }
        }
    }
}

/// The index in a text whose records are separated by blank lines.
pub open spec fn index_of_text(text: Seq<char>) -> Map<Seq<char>, Seq<EntryView>> {
    index_of_blocks(split_text(text, "\n\n"@))
}

/// The index in the text of a `PACKAGES` file; see [`index_of_text`].
pub fn parse_packages_gz(text: &str) -> (r: Result<CranIndex, UvrError>)
    ensures
        r matches Ok(index) && index@ == index_of_text(text@),
{
    let cs = chars_of(text);
    let sep = chars_of("\n\n");
    proof {
        reveal_strlit("\n\n");
    }
    let ps = pieces_text(cs.as_slice(), sep.as_slice());
    let ghost all = split_text(text@, "\n\n"@);
    let mut index = CranIndex::new();
    let mut i: usize = 0;
    assert(all.take(0) == Seq::<Seq<char>>::empty());
    while i < ps.len()
        invariant
            i <= ps@.len(),
            slice_views(ps@) == all,
            index@ == index_of_blocks(all.take(i as int)),
        decreases ps@.len() - i,
    {
        let block = trimmed(ps[i]);
        proof {
            assert(slice_views(ps@)[i as int] == ps@[i as int]@);
            assert(all.take(i + 1).drop_last() == all.take(i as int));
        }
        if block.len() > 0 {
            if let Some(entry) = parse_dcf_block(string_of(block).as_str()) {
                index.insert(entry);
            }
        }
        i += 1;
    }
    assert(all.take(i as int) == all);
    Ok(index)
}

/// A repository laid out like CRAN.
pub struct CranRegistry {
    index: CranIndex,
    src_base: String,
    source: PackageSource,
}

/// A repository as a mathematical value.
pub struct RegistryView {
    pub index: Map<Seq<char>, Seq<EntryView>>,
    pub src_base: Seq<char>,
    pub source: SourceView,
}

impl View for CranRegistry {
    type V = RegistryView;

    closed spec fn view(&self) -> RegistryView {
        RegistryView { index: self.index@, src_base: self.src_base@, source: self.source@ }
    }
}

/// What a repository says of a package of which it has chosen the entry. The
/// address is that of a source package at the top of the repository.
pub open spec fn info_of(e: EntryView, src_base: Seq<char>, source: SourceView) -> PackageInfoView {
    PackageInfoView {
        name: e.name,
        version: e.version,
        source,
        checksum: if e.md5sum.len() == 0 {
            None
        } else {
            Some("md5:"@ + e.md5sum)
        },
        requires: entry_deps(e),
        url: src_base + "/"@ + e.name + "_"@ + e.raw_version + ".tar.gz"@,
        raw_version: Some(e.raw_version),
        system_requirements: e.system_requirements,
    }
}

/// The address of the binary of a package, where the entry of exactly that version
/// is a build that runs on the machine.
pub open spec fn binary_at(reg: RegistryView, entry: Option<EntryView>, host: TripleView, r_minor: Seq<char>) -> Option<
    Seq<char>,
> {
    match entry {
        Some(e) => match e.built {
            Some(b) => if runs_on(b, host, r_minor) {
                Some(tarball_at(reg.src_base, e))
            } else {
                None
            },
            None => None,
        },
        None => None,
    }
}

/// What any entry of an index needs.
pub open spec fn index_needs(m: Map<Seq<char>, Seq<EntryView>>) -> Set<DepView> {
    Set::new(
        |d: DepView|
            exists|n: Seq<char>, i: int, k: int|
                #![trigger entry_deps(m[n][i])[k]]
                m.contains_key(n) && 0 <= i < m[n].len() && 0 <= k < entry_deps(m[n][i]).len() && entry_deps(m[n][i])[k]
                    == d,
    )
}

impl CranRegistry {
    /// A repository with its index, the address below which its packages lie, and
    /// what the lock file calls it.
    pub fn new(index: CranIndex, src_base: &str, source: PackageSource) -> (r: Self)
        ensures
            r@ == (RegistryView { index: index@, src_base: src_base@, source: source@ }),
    {
        CranRegistry { index, src_base: src_base.to_owned(), source }
    }

    /// A repository for trying things out.
    pub fn for_test(index: CranIndex, src_base: String) -> (r: Self)
        ensures
            r@ == (RegistryView { index: index@, src_base: src_base@, source: SourceView::Custom { name: "test"@ } }),
    {
        CranRegistry { index, src_base, source: PackageSource::Custom { name: "test".to_owned() } }
    }

    /// Whether some entry is a build that runs on the machine.
    pub fn is_binary_capable(&self, host: &HostTriple, r_minor: &str) -> (r: bool)
        ensures
            r == exists|n: Seq<char>, i: int|
                #![trigger self@.index[n][i]]
                self@.index.contains_key(n) && 0 <= i < self@.index[n].len() && (self@.index[n][i].built matches Some(b)
                    && runs_on(b, host@, r_minor@)),
    {
        let m: &TextMap<EntryList> = &self.index.packages;
        let n: usize = m.len();
        proof {
            m.keys_in_order();
        }
        let mut i: usize = 0;
        while i < n
            invariant
                i <= n,
                *m == self.index.packages,
                n == m.keys().len(),
                m@ == self@.index,
                m@.dom() == m.keys().to_set(),
                forall|j: int, k: int|
                    #![trigger m@[m.keys()[j]][k]]
                    0 <= j < i && 0 <= k < m@[m.keys()[j]].len() ==> !(m@[m.keys()[j]][k].built matches Some(b) && runs_on(
                        b,
                        host@,
                        r_minor@,
                    )),
            decreases n - i,
        {
            let l: &EntryList = m.value_at(i);
            let ghost key = m.keys()[i as int];
            let ghost s = m@[key];
            let mut k: usize = 0;
            while k < l.entries.len()
                invariant
                    k <= l.entries@.len(),
                    i < n,
                    n == m.keys().len(),
                    m@ == self@.index,
                    m@.dom() == m.keys().to_set(),
                    key == m.keys()[i as int],
                    s == m@[key],
                    s == view_each(l.entries@),
                    forall|j: int|
                        0 <= j < k ==> !((#[trigger] s[j]).built matches Some(b) && runs_on(b, host@, r_minor@)),
                decreases l.entries@.len() - k,
            {
                assert(s[k as int] == l.entries@[k as int]@);
                if let Some(b) = &l.entries[k].built {
                    if b.matches_host(host, r_minor) {
                        proof {
                            assert(m.keys().contains(key));
                            assert(self@.index[key][k as int] == s[k as int]);
                        }
                        return true;
                    }
                }
                k += 1;
            }
            assert(forall|j: int|
                0 <= j < s.len() ==> !((#[trigger] m@[m.keys()[i as int]][j]).built matches Some(b) && runs_on(
                    b,
                    host@,
                    r_minor@,
                )));
            i += 1;
        }
        proof {
            assert forall|x: Seq<char>, k: int|
                #![trigger self@.index[x][k]]
                self@.index.contains_key(x) && 0 <= k < self@.index[x].len() implies !(self@.index[x][k].built matches Some(
                b,
            ) && runs_on(b, host@, r_minor@)) by {
                assert(m@.dom().contains(x));
                let j = m.keys().index_of(x);
                assert(m@[m.keys()[j]][k] == self@.index[x][k]);
            }
        }
        false
    }

    /// The address of the binary of a package, given the entry found for it; see
    /// [`binary_at`].
    pub fn binary_url_of(&self, entry: Option<&CranPackageEntry>, host: &HostTriple, r_minor: &str) -> (r: Option<String>)
        ensures
            ({
                let e = match entry {
                    Some(e) => Some(e@),
                    None => None,
                };
                opt_view(r) == binary_at(self@, e, host@, r_minor@)
            }),
    {
        match entry {
            Some(e) => match &e.built {
                Some(b) => if b.matches_host(host, r_minor) {
                    Some(e.tarball_url_with_base(self.src_base.as_str()))
                } else {
                    None
                },
                None => None,
            },
            None => None,
        }
    }

    /// The address of the binary of a package in a given version, where there is one
    /// that runs on the machine.
    pub fn binary_url_for(&self, name: &str, version: &str, host: &HostTriple, r_minor: &str) -> (r: Option<String>)
        ensures
            opt_view(r) == binary_at(self@, exact(self@.index, name@, version@), host@, r_minor@),
    {
        self.binary_url_of(self.index.find_exact(name, version), host, r_minor)
    }

    /// What the repository says of a package, given the entry chosen for it; see
    /// [`info_of`].
    pub fn package_info(&self, entry: &CranPackageEntry) -> (r: PackageInfo)
        ensures
            r@ == info_of(entry@, self@.src_base, self@.source),
    {
        let checksum = if entry.md5sum.as_str().is_empty() {
            None
        } else {
            Some("md5:".to_owned().concat(entry.md5sum.as_str()))
        };
        PackageInfo {
            name: entry.name.as_str().to_owned(),
            version: entry.version.copy(),
            source: self.source.copy(),
            checksum,
            requires: entry.requires_as_deps(),
            url: self.src_base.as_str().to_owned().concat("/").concat(entry.name.as_str()).concat("_").concat(
                entry.raw_version.as_str(),
            ).concat(".tar.gz"),
            raw_version: Some(entry.raw_version.as_str().to_owned()),
            system_requirements: copy_opt(&entry.system_requirements),
        }
    }

    /// The index of the repository.
    pub fn index(&self) -> (r: &CranIndex)
        ensures
            r@ == self@.index,
    {
        &self.index
    }
}

impl PackageRegistry for CranRegistry {
    open spec fn answer(&self, name: Seq<char>, constraint: Option<Seq<char>>) -> Result<PackageInfoView, ErrorView> {
        match best(self@.index, name, constraint) {
            Ok(e) => Ok(info_of(e, self@.src_base, self@.source)),
            Err(e) => Err(e),
        }
    }

    open spec fn needed(&self) -> Set<DepView> {
        index_needs(self@.index)
    }

    proof fn needed_is_finite(&self) {
        self.index.packages.keys_are_finite();
        lemma_index_needs_finite(self@.index);
        assert forall|name: Seq<char>, constraint: Option<Seq<char>>, i: int|
            (self.answer(name, constraint) matches Ok(info) && 0 <= i < info.requires.len()) implies self.needed().contains(
            #[trigger] self.answer(name, constraint)->Ok_0.requires[i],
        ) by {
            lemma_best_is_entry(self@.index, name, constraint);
            let m = self@.index;
            let e = best(m, name, constraint)->Ok_0;
            let k = m[name].index_of(e);
            assert(entry_deps(m[name][k])[i] == self.answer(name, constraint)->Ok_0.requires[i]);
        }
    }

    fn resolve_package(&self, name: &str, constraint: Option<&str>) -> (r: Result<PackageInfo, UvrError>) {
        match self.index.get_best(name, constraint) {
            Ok(entry) => Ok(self.package_info(entry)),
            Err(e) => Err(e),
        }
    }
}

proof fn lemma_admitted(s: Seq<EntryView>, req: Option<Seq<char>>, i: int)
    requires
        0 <= i <= s.len(),
    ensures
        i <= admitted(s, req, i) <= s.len(),
        admitted(s, req, i) < s.len() ==> req is None || admits(req->0, s[admitted(s, req, i)].version),
        forall|j: int| i <= j < admitted(s, req, i) ==> req is Some && !admits(req->0, (#[trigger] s[j]).version),
    decreases s.len() - i,
{
    if i < s.len() && !(req is None || admits(req->0, s[i].version)) {
        lemma_admitted(s, req, i + 1);
    }
}

proof fn lemma_best_is_entry(m: Map<Seq<char>, Seq<EntryView>>, name: Seq<char>, constraint: Option<Seq<char>>)
    ensures
        best(m, name, constraint) matches Ok(e) ==> m.contains_key(name) && m[name].contains(e) && (is_real(constraint)
            ==> (requirement(constraint->0) matches Ok(req) && admits(req, e.version))),
{
    if m.contains_key(name) {
        if let Ok(req) = wanted(constraint) {
            lemma_admitted(m[name], req, 0);
        }
    }
}

/// What an entry needs is finite, and so is what the entries of finitely many
/// packages need.
proof fn lemma_needs_of_names(m: Map<Seq<char>, Seq<EntryView>>, names: Set<Seq<char>>)
    requires
        names.finite(),
    ensures
        needs_of_names(m, names).finite(),
    decreases names.len(),
{
    let all = needs_of_names(m, names);
    if names.len() == 0 {
        assert(all =~= Set::empty());
    } else {
        let x = names.choose();
        lemma_needs_of_names(m, names.remove(x));
        lemma_needs_of_list(m[x]);
        let both = needs_of_names(m, names.remove(x)).union(needs_of_list(m[x]));
        assert(all.subset_of(both)) by {
            assert forall|d: DepView| all.contains(d) implies both.contains(d) by {
                let n = choose|n: Seq<char>| names.contains(n) && #[trigger] needs_of_list(m[n]).contains(d);
                if n != x {
                    assert(names.remove(x).contains(n));
                }
            }
        }
        vstd::set_lib::lemma_len_subset(all, both);
    }
}

spec fn needs_of_names(m: Map<Seq<char>, Seq<EntryView>>, names: Set<Seq<char>>) -> Set<DepView> {
    Set::new(|d: DepView| exists|n: Seq<char>| names.contains(n) && #[trigger] needs_of_list(m[n]).contains(d))
}

spec fn needs_of_list(s: Seq<EntryView>) -> Set<DepView> {
    Set::new(|d: DepView| exists|i: int| 0 <= i < s.len() && entry_deps(#[trigger] s[i]).contains(d))
}

proof fn lemma_needs_of_list(s: Seq<EntryView>)
    ensures
        needs_of_list(s).finite(),
    decreases s.len(),
{
    let all = needs_of_list(s);
    if s.len() == 0 {
        assert(all =~= Set::empty());
    } else {
        lemma_needs_of_list(s.drop_last());
        let both = needs_of_list(s.drop_last()).union(entry_deps(s.last()).to_set());
        assert(all.subset_of(both)) by {
            assert forall|d: DepView| all.contains(d) implies both.contains(d) by {
                let i = choose|i: int| 0 <= i < s.len() && entry_deps(#[trigger] s[i]).contains(d);
                if i < s.len() - 1 {
                    assert(s.drop_last()[i] == s[i]);
                }
            }
        }
        vstd::set_lib::lemma_len_subset(all, both);
    }
}

pub(crate) proof fn lemma_index_needs_finite(m: Map<Seq<char>, Seq<EntryView>>)
    requires
        m.dom().finite(),
    ensures
        index_needs(m).finite(),
{
    lemma_needs_of_names(m, m.dom());
    let all = needs_of_names(m, m.dom());
    assert(index_needs(m).subset_of(all)) by {
        assert forall|d: DepView| index_needs(m).contains(d) implies all.contains(d) by {
            let (n, i, k) = choose|n: Seq<char>, i: int, k: int|
                #![trigger entry_deps(m[n][i])[k]]
                m.contains_key(n) && 0 <= i < m[n].len() && 0 <= k < entry_deps(m[n][i]).len() && entry_deps(m[n][i])[k]
                    == d;
            assert(entry_deps(m[n][i]).contains(d));
            assert(needs_of_list(m[n]).contains(d));
        }
    }
    vstd::set_lib::lemma_len_subset(index_needs(m), all);
}

/// The entry chosen for a requirement satisfies it, and no entry of the package
/// that satisfies it is newer.
pub proof fn best_is_newest_admitted(m: Map<Seq<char>, Seq<EntryView>>, name: Seq<char>, constraint: Option<Seq<char>>)
    requires
        is_index(m),
    ensures
        best(m, name, constraint) matches Ok(e) ==> {
            let req = wanted(constraint)->Ok_0;
            &&& m.contains_key(name) && m[name].contains(e)
            &&& req is Some ==> admits(req->0, e.version)
            &&& forall|j: int|
                0 <= j < m[name].len() && (req is None || admits(req->0, (#[trigger] m[name][j]).version)) ==> !older(
                    e.version,
                    m[name][j].version,
                ) || m[name][j] == e
        },
{
    lemma_best_is_entry(m, name, constraint);
    if let Ok(e) = best(m, name, constraint) {
        let req = wanted(constraint)->Ok_0;
        let s = m[name];
        lemma_admitted(s, req, 0);
        let k = admitted(s, req, 0);
        assert(newest_first(s));
        assert forall|j: int|
            0 <= j < s.len() && (req is None || admits(req->0, (#[trigger] s[j]).version)) implies !older(
            e.version,
            s[j].version,
        ) || s[j] == e by {
            if j > k {
                assert(!older(s[k].version, s[j].version));
            }
        }
    }
}

/// A repository laid out like CRAN keeps to the requirements put to it.
pub proof fn cran_registry_is_honest(reg: CranRegistry)
    ensures
        crate::resolver::laws::is_honest(reg),
{
    assert forall|name: Seq<char>, c: Seq<char>|
        is_real(Some(c)) && (#[trigger] reg.answer(name, Some(c))) is Ok implies crate::resolver::solve::meets(
        c,
        reg.answer(name, Some(c))->Ok_0.version,
    ) by {
        lemma_best_is_entry(reg@.index, name, Some(c));
    }
}

} // verus!

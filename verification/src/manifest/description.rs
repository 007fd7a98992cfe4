//! Manifests made from `DESCRIPTION` files.
use vstd::prelude::*;

use crate::dcf::{dcf_fields, parse_dcf_fields};
use crate::error::{outcome, ErrorView, UvrError};
use crate::manifest::remotes::{dependency_on, pair_views, parse_remotes_field_rich, remote_source_target, remotes_of,
    target_of, RemoteEntry, RemoteEntryView, RemoteSource, RemoteView};
use crate::manifest::{spec_version_req, DependencySpec, DetailedDep, DetailedView, Manifest, ManifestView, ProjectMeta,
    SpecView};
use crate::order::view_each;
use crate::registry::cran::{field, get_field};
use crate::text::{char_is_whitespace, chars_of, find_char, index_of, is_whitespace, last_index_of, opt_view, part,
    pieces, rfind_char, same_str, slice_views, split, string_of, strip_prefix, strip_suffix, trim, trimmed,
    without_prefix, without_suffix};
use crate::text_map::TextMap;

verus! {

/// What a manifest says of each of its dependencies.
pub type Specs = Map<Seq<char>, SpecView>;

/// A text without white space.
pub open spec fn without_space(s: Seq<char>) -> Seq<char> {
    s.filter(|c: char| !is_whitespace(c))
}

fn space_removed(s: &[char]) -> (r: String)
    ensures
        r@ == without_space(s@),
{
    let mut out: Vec<char> = Vec::new();
    let n: usize = s.len();
    let mut i: usize = 0;
    let ghost keep = |c: char| !is_whitespace(c);
    assert(s@.take(0).filter(keep) == Seq::<char>::empty()) by {
        reveal(Seq::filter);
    }
    while i < n
        invariant
            i <= n,
            n == s@.len(),
            keep == (|c: char| !is_whitespace(c)),
            out@ == s@.take(i as int).filter(keep),
        decreases n - i,
    {
        proof {
            reveal(Seq::filter);
            assert(s@.take(i + 1).drop_last() == s@.take(i as int));
        }
        if !char_is_whitespace(s[i]) {
            out.push(s[i]);
        }
        i += 1;
    }
    assert(s@.take(i as int) == s@);
    string_of(out.as_slice())
}

/// The end of what stands in brackets: the last closing bracket, or the end.
pub open spec fn bracket_end(entry: Seq<char>) -> int {
    let j = rfind_char(entry, ')', entry.len() as int);
    if j < 0 {
        entry.len() as int
    } else {
        j
    }
}

/// An opening bracket is not behind the last closing one.
pub open spec fn brackets_in_order(entry: Seq<char>) -> bool {
    let k = find_char(entry, '(', 0);
    k < entry.len() ==> k < bracket_end(entry)
}

/// What stands between the first opening bracket and the last closing one, without
/// white space.
pub open spec fn in_brackets(entry: Seq<char>) -> Seq<char> {
    without_space(trim(entry.subrange(find_char(entry, '(', 0) + 1, bracket_end(entry))))
}

/// In each entry of a field the brackets are in order.
pub open spec fn well_bracketed(field: Seq<char>) -> bool {
    forall|i: int| 0 <= i < split(field, ',').len() ==> brackets_in_order(trim(#[trigger] split(field, ',')[i]))
}

fn brackets_are_in_order(entry: &[char]) -> (r: bool)
    ensures
        r == brackets_in_order(entry@),
{
    let k: usize = index_of(entry, '(', 0);
    if k >= entry.len() {
        return true;
    }
    match last_index_of(entry, ')') {
        Some(j) => k < j,
        None => true,
    }
}

/// Whether in each entry of a field the brackets are in order.
pub fn is_well_bracketed(field: &str) -> (r: bool)
    ensures
        r == well_bracketed(field@),
{
    let cs = chars_of(field);
    let ps = pieces(cs.as_slice(), ',');
    let ghost all = split(field@, ',');
    let mut i: usize = 0;
    while i < ps.len()
        invariant
            i <= ps@.len(),
            slice_views(ps@) == all,
            all == split(field@, ','),
            forall|j: int| 0 <= j < i ==> brackets_in_order(trim(#[trigger] all[j])),
        decreases ps@.len() - i,
    {
        assert(all[i as int] == ps@[i as int]@);
        if !brackets_are_in_order(trimmed(ps[i])) {
            return false;
        }
        i += 1;
    }
    true
}

fn bracketed(entry: &[char]) -> (r: String)
    requires
        find_char(entry@, '(', 0) < entry@.len(),
        brackets_in_order(entry@),
    ensures
        r@ == in_brackets(entry@),
{
    let k: usize = index_of(entry, '(', 0);
    let e: usize = match last_index_of(entry, ')') {
        Some(j) => j,
        None => entry.len(),
    };
    space_removed(trimmed(part(entry, k + 1, e)))
}

/// A package and the requirement on its version, `*` where there is none.
pub open spec fn entry_pair(entry: Seq<char>) -> (Seq<char>, SpecView) {
    let k = find_char(entry, '(', 0);
    if k < entry.len() {
        (trim(entry.take(k)), SpecView::Version(in_brackets(entry)))
    } else {
        (entry, SpecView::Version("*"@))
    }
}

/// The packages in the entries of a field with the requirements on their versions.
/// An entry without a name is passed over.
pub open spec fn entry_pairs(entries: Seq<Seq<char>>) -> Seq<(Seq<char>, SpecView)>
    decreases entries.len(),
{
    if entries.len() == 0 {
        seq![]
    } else {
        let front = entry_pairs(entries.drop_last());
        let entry = trim(entries.last());
        if entry.len() == 0 || entry_pair(entry).0.len() == 0 {
            front
        } else {
            front.push(entry_pair(entry))
        }
    }
}

/// The packages in a field with the requirements on their versions; see
/// [`entry_pairs`].
pub fn parse_dep_field(field: &str) -> (r: Vec<(String, DependencySpec)>)
    requires
        well_bracketed(field@),
    ensures
        pair_views(r@) == entry_pairs(split(field@, ',')),
{
    let cs = chars_of(field);
    let ps = pieces(cs.as_slice(), ',');
    let ghost all = split(field@, ',');
    let mut result: Vec<(String, DependencySpec)> = Vec::new();
    let mut i: usize = 0;
    assert(all.take(0) == Seq::<Seq<char>>::empty());
    assert(pair_views(result@) == Seq::<(Seq<char>, SpecView)>::empty());
    while i < ps.len()
        invariant
            i <= ps@.len(),
            slice_views(ps@) == all,
            all == split(field@, ','),
            well_bracketed(field@),
            pair_views(result@) == entry_pairs(all.take(i as int)),
        decreases ps@.len() - i,
    {
        let entry = trimmed(ps[i]);
        proof {
            assert(all[i as int] == ps@[i as int]@);
            assert(brackets_in_order(trim(split(field@, ',')[i as int])));
            assert(all.take(i + 1).drop_last() == all.take(i as int));
        }
        if entry.len() > 0 {
            let k: usize = index_of(entry, '(', 0);
            let (name, version) = if k < entry.len() {
                let before = part(entry, 0, k);
                assert(before@ == entry@.take(k as int));
                (string_of(trimmed(before)), bracketed(entry))
            } else {
                (string_of(entry), "*".to_owned())
            };
            let letters = chars_of(name.as_str());
            if letters.len() > 0 {
                let ghost before = result@;
                let ghost pair = entry_pair(entry@);
                result.push((name, DependencySpec::Version(version)));
                assert(pair_views(result@) == pair_views(before).push(pair));
            }
        }
        i += 1;
    }
    assert(all.take(i as int) == all);
    result
}

/// The entry for R itself.
pub open spec fn is_r_entry(entry: Seq<char>) -> bool {
    match strip_prefix(entry, "R"@) {
        Some(rest) => trim(rest).len() == 0 || trim(rest)[0] == '(',
        None => false,
    }
}

/// The requirement on the version of R in the first entry for R from position `i` on.
pub open spec fn r_requirement(entries: Seq<Seq<char>>, i: int) -> Option<Seq<char>>
    decreases entries.len() - i,
{
    if i >= entries.len() {
        None
    } else {
        let entry = trim(entries[i]);
        if is_r_entry(entry) {
            if find_char(entry, '(', 0) < entry.len() && in_brackets(entry).len() > 0 {
                Some(in_brackets(entry))
            } else {
                None
            }
        } else {
            r_requirement(entries, i + 1)
        }
    }
}

/// The requirement on the version of R in a `Depends` field.
pub fn parse_r_version_from_depends(depends: &str) -> (r: Option<String>)
    requires
        well_bracketed(depends@),
    ensures
        opt_view(r) == r_requirement(split(depends@, ','), 0),
{
    let cs = chars_of(depends);
    let ps = pieces(cs.as_slice(), ',');
    let ghost all = split(depends@, ',');
    let mut i: usize = 0;
    while i < ps.len()
        invariant
            i <= ps@.len(),
            slice_views(ps@) == all,
            all == split(depends@, ','),
            well_bracketed(depends@),
            r_requirement(all, 0) == r_requirement(all, i as int),
        decreases ps@.len() - i,
    {
        let entry = trimmed(ps[i]);
        proof {
            assert(all[i as int] == ps@[i as int]@);
            assert(brackets_in_order(trim(split(depends@, ',')[i as int])));
        }
        if let Some(after) = without_prefix(entry, "R") {
            let rest = trimmed(after);
            if rest.len() == 0 || rest[0] == '(' {
                let k: usize = index_of(entry, '(', 0);
                if k < entry.len() {
                    let version = bracketed(entry);
                    let letters = chars_of(version.as_str());
                    if letters.len() > 0 {
                        return Some(version);
                    }
                }
                return None;
            }
        }
        i += 1;
    }
    None
}

/// The dependencies with those in the list put in one after another. R itself is left
/// out where `skip_r` says so.
pub open spec fn with_pairs(m: Specs, pairs: Seq<(Seq<char>, SpecView)>, skip_r: bool) -> Specs
    decreases pairs.len(),
{
    if pairs.len() == 0 {
        m
    } else {
        let front = with_pairs(m, pairs.drop_last(), skip_r);
        if skip_r && pairs.last().0 == "R"@ {
            front
        } else {
            front.insert(pairs.last().0, pairs.last().1)
        }
    }
}

fn insert_pairs(m: &mut TextMap<DependencySpec>, pairs: Vec<(String, DependencySpec)>, skip_r: bool)
    ensures
        final(m)@ == with_pairs(old(m)@, pair_views(pairs@), skip_r),
{
    let ghost all = pair_views(pairs@);
    let mut i: usize = 0;
    assert(all.take(0) == Seq::<(Seq<char>, SpecView)>::empty());
    while i < pairs.len()
        invariant
            i <= pairs@.len(),
            all == pair_views(pairs@),
            m@ == with_pairs(old(m)@, all.take(i as int), skip_r),
        decreases pairs@.len() - i,
    {
        let p = &pairs[i];
        proof {
            assert(all[i as int] == (pairs@[i as int].0@, pairs@[i as int].1@));
            assert(all.take(i + 1).drop_last() == all.take(i as int));
        }
        if !(skip_r && same_str(p.0.as_str(), "R")) {
            m.insert(p.0.as_str(), p.1.copy());
        }
        i += 1;
    }
    assert(all.take(i as int) == all);
}

/// The dependencies with those of a field of the file put in.
pub open spec fn with_field(m: Specs, fields: Map<Seq<char>, Seq<char>>, key: Seq<char>, skip_r: bool) -> Specs {
    match field(fields, key) {
        Some(f) => with_pairs(m, entry_pairs(split(f, ',')), skip_r),
        None => m,
    }
}

fn insert_field(m: &mut TextMap<DependencySpec>, fields: &TextMap<String>, key: &str, skip_r: bool)
    requires
        field(fields@, key@) matches Some(f) ==> well_bracketed(f),
    ensures
        final(m)@ == with_field(old(m)@, fields@, key@, skip_r),
{
    if let Some(f) = get_field(fields, key) {
        insert_pairs(m, parse_dep_field(f.as_str()), skip_r);
    }
}

/// The dependencies and the development dependencies of a project.
pub struct Dependencies {
    pub main: Specs,
    pub dev: Specs,
}

pub open spec fn is_known(d: Dependencies, name: Seq<char>) -> bool {
    d.main.contains_key(name) || d.dev.contains_key(name)
}

/// The package that a repository is for, where the name of the repository with the
/// suffix given is that of a known package.
pub open spec fn known_without(d: Dependencies, name: Seq<char>, suffix: Seq<char>) -> Option<Seq<char>> {
    match strip_suffix(name, suffix) {
        Some(s) => if s.len() > 0 && is_known(d, s) {
            Some(s)
        } else {
            None
        },
        None => None,
    }
}

/// The known package that a repository is for: the one of its name, else the one of
/// its name without a suffix that stands for R.
pub open spec fn known_package(d: Dependencies, name: Seq<char>) -> Option<Seq<char>> {
    if is_known(d, name) {
        Some(name)
    } else if known_without(d, name, "-r"@) is Some {
        known_without(d, name, "-r"@)
    } else if known_without(d, name, "_r"@) is Some {
        known_without(d, name, "_r"@)
    } else if known_without(d, name, ".r"@) is Some {
        known_without(d, name, ".r"@)
    } else if known_without(d, name, "-R"@) is Some {
        known_without(d, name, "-R"@)
    } else if known_without(d, name, "_R"@) is Some {
        known_without(d, name, "_R"@)
    } else {
        known_without(d, name, ".R"@)
    }
}

fn match_without_suffix(
    url_pkg: &str,
    suffix: &str,
    dependencies: &TextMap<DependencySpec>,
    dev_dependencies: &TextMap<DependencySpec>,
) -> (r: Option<String>)
    ensures
        opt_view(r) == known_without(Dependencies { main: dependencies@, dev: dev_dependencies@ }, url_pkg@, suffix@),
{
    let cs = chars_of(url_pkg);
    match without_suffix(cs.as_slice(), suffix) {
        Some(s) => {
            let name = string_of(s);
            if s.len() > 0 && (dependencies.contains_key(name.as_str()) || dev_dependencies.contains_key(name.as_str())) {
                Some(name)
            } else {
                None
            }
        },
        None => None,
    }
}

/// The known package that a repository is for; see [`known_package`].
pub fn match_remote_pkg_name(
    url_pkg: &str,
    dependencies: &TextMap<DependencySpec>,
    dev_dependencies: &TextMap<DependencySpec>,
) -> (r: Option<String>)
    ensures
        opt_view(r) == known_package(Dependencies { main: dependencies@, dev: dev_dependencies@ }, url_pkg@),
{
    if dependencies.contains_key(url_pkg) || dev_dependencies.contains_key(url_pkg) {
        return Some(url_pkg.to_owned());
    }
    if let Some(n) = match_without_suffix(url_pkg, "-r", dependencies, dev_dependencies) {
        return Some(n);
    }
    if let Some(n) = match_without_suffix(url_pkg, "_r", dependencies, dev_dependencies) {
        return Some(n);
    }
    if let Some(n) = match_without_suffix(url_pkg, ".r", dependencies, dev_dependencies) {
        return Some(n);
    }
    if let Some(n) = match_without_suffix(url_pkg, "-R", dependencies, dev_dependencies) {
        return Some(n);
    }
    if let Some(n) = match_without_suffix(url_pkg, "_R", dependencies, dev_dependencies) {
        return Some(n);
    }
    match_without_suffix(url_pkg, ".R", dependencies, dev_dependencies)
}

/// The package that a source is for. A directory of a repository must be that of a
/// known package, unless the source gives the package a name.
pub open spec fn package_of(d: Dependencies, s: RemoteView) -> Result<Seq<char>, ErrorView> {
    if s.explicit_name {
        Ok(s.name)
    } else {
        match known_package(d, s.name) {
            Some(n) => Ok(n),
            None => if s.subdirectory is Some {
                Err(
                    ErrorView::ManifestParse(
                        "unaliased nested Remotes entry for '"@ + s.repository
                            + "' cannot be matched to an Imports, Depends, or Suggests package. Add an explicit binding such as `PackageName="@
                            + target_of(s) + "`."@,
                    ),
                )
            } else {
                Ok(s.name)
            },
        }
    }
}

fn resolve_package_name(
    source: &RemoteSource,
    dependencies: &TextMap<DependencySpec>,
    dev_dependencies: &TextMap<DependencySpec>,
) -> (r: Result<String, UvrError>)
    ensures
        match r {
            Ok(n) => package_of(Dependencies { main: dependencies@, dev: dev_dependencies@ }, source@) == Ok::<
                Seq<char>,
                ErrorView,
            >(n@),
            Err(e) => package_of(Dependencies { main: dependencies@, dev: dev_dependencies@ }, source@) == Err::<
                Seq<char>,
                ErrorView,
            >(e@),
        },
{
    if source.explicit_name {
        return Ok(source.name.as_str().to_owned());
    }
    match match_remote_pkg_name(source.name.as_str(), dependencies, dev_dependencies) {
        Some(n) => Ok(n),
        None => if source.subdirectory.is_some() {
            Err(
                UvrError::ManifestParse(
                    "unaliased nested Remotes entry for '".to_owned().concat(source.repository.as_str()).concat(
                        "' cannot be matched to an Imports, Depends, or Suggests package. Add an explicit binding such as `PackageName=",
                    ).concat(remote_source_target(source).as_str()).concat("`."),
                ),
            )
        } else {
            Ok(source.name.as_str().to_owned())
        },
    }
}

/// The dependency on a source. The requirement that the package had stays.
pub open spec fn sourced(m: Specs, name: Seq<char>, s: RemoteView) -> SpecView {
    let old_version = if m.contains_key(name) {
        spec_version_req(m[name])
    } else {
        None
    };
    SpecView::Detailed(
        DetailedView {
            version: if old_version is Some && old_version->0 != "*"@ {
                old_version
            } else {
                None
            },
            ..dependency_on(s)
        },
    )
}

fn sourced_spec(m: &TextMap<DependencySpec>, name: &str, source: &RemoteSource) -> (r: DependencySpec)
    ensures
        r@ == sourced(m@, name@, source@),
{
    let version = match m.get(name) {
        Some(s) => match s.version_req() {
            Some(v) => if same_str(v, "*") {
                None
            } else {
                Some(v.to_owned())
            },
            None => None,
        },
        None => None,
    };
    match source.dependency_spec() {
        DependencySpec::Detailed(d) => DependencySpec::Detailed(
            DetailedDep {
                version,
                bioc: d.bioc,
                git: d.git,
                exact: d.exact,
                rev: d.rev,
                subdirectory: d.subdirectory,
            },
        ),
        other => other,
    }
}

/// The dependencies with one that comes from a source. It stays among the development
/// dependencies where it is one.
pub open spec fn with_source(d: Dependencies, name: Seq<char>, s: RemoteView) -> Dependencies {
    if d.dev.contains_key(name) {
        Dependencies { main: d.main, dev: d.dev.insert(name, sourced(d.dev, name, s)) }
    } else {
        Dependencies { main: d.main.insert(name, sourced(d.main, name, s)), dev: d.dev }
    }
}

/// The dependencies after an entry of the `Remotes` field.
pub open spec fn with_remote(d: Dependencies, e: RemoteEntryView) -> Result<Dependencies, ErrorView> {
    match e {
        RemoteEntryView::Source(s) => match package_of(d, s) {
            Ok(name) => Ok(with_source(d, name, s)),
            Err(e) => Err(e),
        },
        RemoteEntryView::Unsupported { entry, reason, bound } => if bound {
            Err(
                ErrorView::ManifestParse(
                    "unsupported bound Remotes entry '"@ + entry + "': "@ + reason
                        + ". Correct or remove the alias; nested GitHub remotes must use `PackageName=owner/repo:path`."@,
                ),
            )
        } else {
            Ok(d)
        },
    }
}

/// The dependencies after the entries of the `Remotes` field, up to the first that is
/// an error.
pub open spec fn with_remotes(d: Dependencies, entries: Seq<RemoteEntryView>) -> Result<Dependencies, ErrorView>
    decreases entries.len(),
{
    if entries.len() == 0 {
        Ok(d)
    } else {
        match with_remotes(d, entries.drop_last()) {
            Ok(front) => with_remote(front, entries.last()),
            Err(e) => Err(e),
        }
    }
}

proof fn lemma_with_remotes_fails(d: Dependencies, entries: Seq<RemoteEntryView>, k: int)
    requires
        0 <= k <= entries.len(),
        with_remotes(d, entries.take(k)) is Err,
    ensures
        with_remotes(d, entries) == with_remotes(d, entries.take(k)),
    decreases entries.len() - k,
{
    if k < entries.len() {
        assert(entries.take(k + 1).drop_last() == entries.take(k));
        lemma_with_remotes_fails(d, entries, k + 1);
    } else {
        assert(entries.take(k) == entries);
    }
}

fn apply_remotes(
    dependencies: &mut TextMap<DependencySpec>,
    dev_dependencies: &mut TextMap<DependencySpec>,
    entries: &Vec<RemoteEntry>,
) -> (r: Result<(), UvrError>)
    ensures
        ({
            let d = Dependencies { main: old(dependencies)@, dev: old(dev_dependencies)@ };
            match r {
                Ok(_) => with_remotes(d, view_each(entries@)) == Ok::<Dependencies, ErrorView>(
                    Dependencies { main: final(dependencies)@, dev: final(dev_dependencies)@ },
                ),
                Err(e) => with_remotes(d, view_each(entries@)) == Err::<Dependencies, ErrorView>(e@),
            }
        }),
{
    let ghost all = view_each(entries@);
    let ghost d = Dependencies { main: old(dependencies)@, dev: old(dev_dependencies)@ };
    let mut i: usize = 0;
    assert(all.take(0) == Seq::<RemoteEntryView>::empty());
    while i < entries.len()
        invariant
            i <= entries@.len(),
            all == view_each(entries@),
            d == (Dependencies { main: old(dependencies)@, dev: old(dev_dependencies)@ }),
            with_remotes(d, all.take(i as int)) == Ok::<Dependencies, ErrorView>(
                Dependencies { main: dependencies@, dev: dev_dependencies@ },
            ),
        decreases entries@.len() - i,
    {
        proof {
            assert(all[i as int] == entries@[i as int]@);
            assert(all.take(i + 1).drop_last() == all.take(i as int));
        }
        match &entries[i] {
            RemoteEntry::Source(source) => {
                let name = match resolve_package_name(source, &*dependencies, &*dev_dependencies) {
                    Ok(n) => n,
                    Err(e) => {
                        proof {
                            lemma_with_remotes_fails(d, all, i + 1);
                        }
                        return Err(e);
                    },
                };
                if dev_dependencies.contains_key(name.as_str()) {
                    let spec = sourced_spec(&*dev_dependencies, name.as_str(), source);
                    dev_dependencies.insert(name.as_str(), spec);
                } else {
                    let spec = sourced_spec(&*dependencies, name.as_str(), source);
                    dependencies.insert(name.as_str(), spec);
                }
            },
            RemoteEntry::Unsupported { entry, reason, bound } => {
                if *bound {
                    let text = "unsupported bound Remotes entry '".to_owned().concat(entry.as_str()).concat("': ").concat(
                        reason.as_str(),
                    ).concat(
                        ". Correct or remove the alias; nested GitHub remotes must use `PackageName=owner/repo:path`.",
                    );
                    proof {
                        lemma_with_remotes_fails(d, all, i + 1);
                    }
                    return Err(UvrError::ManifestParse(text));
                }
            },
        }
        i += 1;
    }
    assert(all.take(i as int) == all);
    Ok(())
}

/// The dependencies that a `DESCRIPTION` file declares, without regard to their
/// sources.
pub open spec fn declared(fields: Map<Seq<char>, Seq<char>>) -> Dependencies {
    Dependencies {
        main: with_field(with_field(Map::empty(), fields, "Imports"@, false), fields, "Depends"@, true),
        dev: with_field(Map::empty(), fields, "Suggests"@, false),
    }
}

/// The dependencies that a `DESCRIPTION` file declares, with their sources.
pub open spec fn described(fields: Map<Seq<char>, Seq<char>>) -> Result<Dependencies, ErrorView> {
    match field(fields, "Remotes"@) {
        Some(f) => with_remotes(declared(fields), remotes_of(split(f, ','))),
        None => Ok(declared(fields)),
    }
}

/// The manifest that a `DESCRIPTION` file amounts to.
pub open spec fn manifest_of(fields: Map<Seq<char>, Seq<char>>) -> Result<ManifestView, ErrorView> {
    match described(fields) {
        Err(e) => Err(e),
        Ok(d) => Ok(
            ManifestView {
                name: match field(fields, "Package"@) {
                    Some(n) => n,
                    None => seq![],
                },
                r_version: match field(fields, "Depends"@) {
                    Some(f) => r_requirement(split(f, ','), 0),
                    None => None,
                },
                bioc_version: None,
                description: field(fields, "Title"@),
                bare: false,
                dependencies: d.main,
                dev_dependencies: d.dev,
                sources: seq![],
                activate: None,
            },
        ),
    }
}

/// In the fields that name packages the brackets are in order.
pub open spec fn fields_well_bracketed(fields: Map<Seq<char>, Seq<char>>) -> bool {
    &&& (field(fields, "Imports"@) matches Some(f) ==> well_bracketed(f))
    &&& (field(fields, "Depends"@) matches Some(f) ==> well_bracketed(f))
    &&& (field(fields, "Suggests"@) matches Some(f) ==> well_bracketed(f))
}

fn field_is_well_bracketed(fields: &TextMap<String>, key: &str) -> (r: bool)
    ensures
        r == (field(fields@, key@) matches Some(f) ==> well_bracketed(f)),
{
    match get_field(fields, key) {
        Some(f) => is_well_bracketed(f.as_str()),
        None => true,
    }
}

/// Whether in the fields of a `DESCRIPTION` file that name packages the brackets are
/// in order.
pub fn description_is_well_bracketed(content: &str) -> (r: bool)
    ensures
        r == fields_well_bracketed(dcf_fields(content@)),
{
    let fields = parse_dcf_fields(content);
    field_is_well_bracketed(&fields, "Imports") && field_is_well_bracketed(&fields, "Depends")
        && field_is_well_bracketed(&fields, "Suggests")
}

impl Manifest {
    /// The manifest that a `DESCRIPTION` file amounts to. `Imports` and `Depends` are
    /// its dependencies, `Suggests` its development dependencies, and `Remotes` says
    /// where they come from.
    pub fn from_description_str(content: &str) -> (r: Result<Manifest, UvrError>)
        requires
            fields_well_bracketed(dcf_fields(content@)),
        ensures
            outcome(r) == manifest_of(dcf_fields(content@)),
    {
        let fields = parse_dcf_fields(content);
        let name = match get_field(&fields, "Package") {
            Some(n) => n,
            None => String::new(),
        };
        let r_version = match get_field(&fields, "Depends") {
            Some(f) => parse_r_version_from_depends(f.as_str()),
            None => None,
        };
        let mut dependencies: TextMap<DependencySpec> = TextMap::new();
        let mut dev_dependencies: TextMap<DependencySpec> = TextMap::new();
        insert_field(&mut dependencies, &fields, "Imports", false);
        insert_field(&mut dependencies, &fields, "Depends", true);
        insert_field(&mut dev_dependencies, &fields, "Suggests", false);
        if let Some(f) = get_field(&fields, "Remotes") {
            let entries = parse_remotes_field_rich(f.as_str());
            match apply_remotes(&mut dependencies, &mut dev_dependencies, &entries) {
                Ok(()) => {},
                Err(e) => {
                    return Err(e);
                },
            }
        }
        let m = Manifest {
            project: ProjectMeta {
                name,
                r_version,
                bioc_version: None,
                description: get_field(&fields, "Title"),
                bare: false,
            },
            dependencies,
            dev_dependencies,
            sources: Vec::new(),
            activate: None,
        };
        assert(m@.sources == Seq::<(Seq<char>, Seq<char>)>::empty());
        Ok(m)
    }
}

} // verus!

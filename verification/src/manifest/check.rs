//! Checks of the dependencies that a manifest declares.
use vstd::prelude::*;

use crate::error::{ErrorView, UvrError};
use crate::manifest::{DependencySpec, DetailedDep, DetailedView, Manifest, ManifestView, SpecView};
use crate::registry::forgejo::{forgejo_parts, parse_forgejo_parts};
use crate::registry::github::{is_repo_spec, is_valid_github_repo_spec};
use crate::registry::gitlab::{gitlab_parts, parse_gitlab_parts};
use crate::subdirectory::{is_subdirectory, refused_subdirectory, validate};
use crate::text::{chars_of, debug_form, debug_text, has_prefix, join, join_strings, opt_view, same_str, starts_with,
    string_of, trim, trimmed, views};
use crate::text_map::{in_order, TextMap};

verus! {

/// What is said of a dependency, before what is wrong with it.
pub open spec fn about(name: Seq<char>, section: Seq<char>) -> Seq<char> {
    "dependency `"@ + name + "` in ["@ + section + "]: "@
}

fn about_text(name: &str, section: &str) -> (r: String)
    ensures
        r@ == about(name@, section@),
{
    "dependency `".to_owned().concat(name).concat("` in [").concat(section).concat("]: ")
}

/// A git source with the reference asked for.
pub open spec fn with_rev(git: Seq<char>, rev: Option<Seq<char>>) -> Seq<char> {
    match rev {
        Some(r) => git + "@"@ + r,
        None => git,
    }
}

fn with_rev_text(git: &str, rev: &Option<String>) -> (r: String)
    ensures
        r@ == with_rev(git@, opt_view(*rev)),
{
    match rev {
        Some(v) => git.to_owned().concat("@").concat(v.as_str()),
        None => git.to_owned(),
    }
}

/// A git source that can be followed, on any of the servers.
pub open spec fn is_git_source(git: Seq<char>, spec: Seq<char>) -> bool {
    if starts_with(git, "forgejo::"@) {
        forgejo_parts(spec) is Some
    } else if starts_with(git, "gitlab::"@) {
        gitlab_parts(spec) is Some
    } else {
        is_repo_spec(spec)
    }
}

fn git_source_is_valid(git: &[char], spec: &str) -> (r: bool)
    ensures
        r == is_git_source(git@, spec@),
{
    if has_prefix(git, "forgejo::") {
        parse_forgejo_parts(spec).is_some()
    } else if has_prefix(git, "gitlab::") {
        parse_gitlab_parts(spec).is_some()
    } else {
        is_valid_github_repo_spec(spec)
    }
}

/// What is wrong with a dependency that must have the name it is declared under: that
/// needs a git source, one that can be followed.
pub open spec fn exact_fault(name: Seq<char>, section: Seq<char>, d: DetailedView) -> Option<Seq<char>> {
    if !d.exact {
        None
    } else if d.git is None || trim(d.git->0).len() == 0 {
        Some(about(name, section) + "`exact = true` requires a `git` source."@)
    } else {
        let git = trim(d.git->0);
        let spec = with_rev(git, d.rev);
        if is_git_source(git, spec) {
            None
        } else {
            Some(
                about(name, section) + "`exact = true` requires a valid supported git source and revision, got `"@ + spec
                    + "`."@,
            )
        }
    }
}

/// What is wrong with a dependency in a directory of its repository: that needs a
/// repository on GitHub, and a directory that leads down from its root.
pub open spec fn directory_fault(name: Seq<char>, section: Seq<char>, d: DetailedView) -> Option<Seq<char>> {
    match d.subdirectory {
        None => None,
        Some(path) => match d.git {
            None => Some(about(name, section) + "`subdirectory` requires a `git` source."@),
            Some(git) => {
                let spec = with_rev(git, d.rev);
                if starts_with(git, "forgejo::"@) || starts_with(git, "gitlab::"@) {
                    Some(
                        about(name, section)
                            + "`subdirectory` is only supported for GitHub sources (`git = \"owner/repo\"`), not `"@ + git
                            + "`."@,
                    )
                } else if !is_repo_spec(spec) {
                    Some(
                        about(name, section) + "`"@ + spec
                            + "` is not a valid GitHub source for a `subdirectory` package. Expected `git = \"owner/repo\"` with an optional `rev = \"revision\"`."@,
                    )
                } else if !is_subdirectory(path) {
                    Some(about(name, section) + refused_subdirectory(path))
                } else {
                    None
                }
            },
        },
    }
}

/// What is wrong with a dependency.
pub open spec fn fault_of(name: Seq<char>, section: Seq<char>, s: SpecView) -> Option<Seq<char>> {
    match s {
        SpecView::Version(_) => None,
        SpecView::Detailed(d) => if exact_fault(name, section, d) is Some {
            exact_fault(name, section, d)
        } else {
            directory_fault(name, section, d)
        },
    }
}

fn find_exact_fault(name: &str, section: &str, dep: &DetailedDep) -> (r: Option<String>)
    ensures
        opt_view(r) == exact_fault(name@, section@, dep@),
{
    if !dep.exact {
        return None;
    }
    let given = match &dep.git {
        Some(g) => chars_of(g.as_str()),
        None => Vec::new(),
    };
    let git = trimmed(given.as_slice());
    if dep.git.is_none() || git.len() == 0 {
        return Some(about_text(name, section).concat("`exact = true` requires a `git` source."));
    }
    let source = string_of(git);
    let spec = with_rev_text(source.as_str(), &dep.rev);
    if git_source_is_valid(git, spec.as_str()) {
        None
    } else {
        Some(
            about_text(name, section).concat(
                "`exact = true` requires a valid supported git source and revision, got `",
            ).concat(spec.as_str()).concat("`."),
        )
    }
}

fn find_directory_fault(name: &str, section: &str, dep: &DetailedDep) -> (r: Option<String>)
    ensures
        opt_view(r) == directory_fault(name@, section@, dep@),
{
    let path = match &dep.subdirectory {
        Some(p) => p,
        None => {
            return None;
        },
    };
    let git = match &dep.git {
        Some(g) => g,
        None => {
            return Some(about_text(name, section).concat("`subdirectory` requires a `git` source."));
        },
    };
    let cs = chars_of(git.as_str());
    if has_prefix(cs.as_slice(), "forgejo::") || has_prefix(cs.as_slice(), "gitlab::") {
        return Some(
            about_text(name, section).concat(
                "`subdirectory` is only supported for GitHub sources (`git = \"owner/repo\"`), not `",
            ).concat(git.as_str()).concat("`."),
        );
    }
    let spec = with_rev_text(git.as_str(), &dep.rev);
    if !is_valid_github_repo_spec(spec.as_str()) {
        return Some(
            about_text(name, section).concat("`").concat(spec.as_str()).concat(
                "` is not a valid GitHub source for a `subdirectory` package. Expected `git = \"owner/repo\"` with an optional `rev = \"revision\"`.",
            ),
        );
    }
    match validate(path.as_str()) {
        Ok(()) => None,
        Err(e) => Some(about_text(name, section).concat(e.as_str())),
    }
}

/// What a check for faults comes to.
pub open spec fn verdict_of(fault: Option<Seq<char>>) -> Result<(), ErrorView> {
    match fault {
        Some(f) => Err(ErrorView::ManifestParse(f)),
        None => Ok(()),
    }
}

/// The outcome of a check, as a mathematical value.
pub open spec fn checked(r: Result<(), UvrError>) -> Result<(), ErrorView> {
    match r {
        Ok(()) => Ok(()),
        Err(e) => Err(e@),
    }
}

/// Checks a dependency that is declared as a table; see [`exact_fault`] and
/// [`directory_fault`].
pub fn validate_detailed_dependency(name: &str, section: &str, dep: &DetailedDep) -> (r: Result<(), UvrError>)
    ensures
        checked(r) == verdict_of(fault_of(name@, section@, SpecView::Detailed(dep@))),
{
    if let Some(f) = find_exact_fault(name, section, dep) {
        return Err(UvrError::ManifestParse(f));
    }
    if let Some(f) = find_directory_fault(name, section, dep) {
        return Err(UvrError::ManifestParse(f));
    }
    Ok(())
}

/// What is wrong with the first of the dependencies from position `i` on that has a
/// fault.
pub open spec fn first_fault(m: Map<Seq<char>, SpecView>, names: Seq<Seq<char>>, section: Seq<char>, i: int) -> Option<
    Seq<char>,
>
    decreases names.len() - i,
{
    if i >= names.len() {
        None
    } else if fault_of(names[i], section, m[names[i]]) is Some {
        fault_of(names[i], section, m[names[i]])
    } else {
        first_fault(m, names, section, i + 1)
    }
}

/// What is wrong with a manifest: the dependencies are looked at before the development
/// dependencies, each in the order of their names.
pub open spec fn manifest_fault(m: ManifestView) -> Option<Seq<char>> {
    let f = first_fault(m.dependencies, in_order(m.dependencies.dom()), "dependencies"@, 0);
    if f is Some {
        f
    } else {
        first_fault(m.dev_dependencies, in_order(m.dev_dependencies.dom()), "dev-dependencies"@, 0)
    }
}

fn validate_section(deps: &TextMap<DependencySpec>, section: &str) -> (r: Result<(), UvrError>)
    ensures
        checked(r) == verdict_of(first_fault(deps@, in_order(deps@.dom()), section@, 0)),
{
    let n: usize = deps.len();
    let ghost names = deps.keys();
    proof {
        deps.keys_in_order();
    }
    let mut i: usize = 0;
    while i < n
        invariant
            i <= n,
            n == names.len(),
            names == deps.keys(),
            names == in_order(deps@.dom()),
            first_fault(deps@, names, section@, 0) == first_fault(deps@, names, section@, i as int),
        decreases n - i,
    {
        let name = deps.key_at(i);
        let spec: &DependencySpec = deps.value_at(i);
        if let DependencySpec::Detailed(d) = spec {
            match validate_detailed_dependency(name, section, d) {
                Ok(()) => {},
                Err(e) => {
                    return Err(e);
                },
            }
        }
        i += 1;
    }
    Ok(())
}

impl Manifest {
    /// Checks the dependencies of a manifest; see [`manifest_fault`].
    pub fn validate_detailed_dependencies(&self) -> (r: Result<(), UvrError>)
        ensures
            checked(r) == verdict_of(manifest_fault(self@)),
    {
        match validate_section(&self.dependencies, "dependencies") {
            Ok(()) => validate_section(&self.dev_dependencies, "dev-dependencies"),
            Err(e) => Err(e),
        }
    }
}

/// A value of a TOML document, as far as the check of its sections reads it.
pub enum TomlView {
    Text,
    /// The keys of a table with their values, in order.
    Table(Seq<(Seq<char>, TomlView)>),
    Other,
}

/// A value of a TOML document, as the `toml` crate holds it.
#[verifier::external_type_specification]
#[verifier::external_body]
pub struct ExTomlValue(toml::Value);

/// What a TOML value holds: whether it is a text, and for a table its keys and values, in
/// the order in which the table is walked.
pub uninterp spec fn toml_tree(v: toml::Value) -> TomlView;

/// The value that a text in the TOML format stands for, or what is wrong with the text.
pub uninterp spec fn toml_document(text: Seq<char>) -> Result<TomlView, Seq<char>>;

/// Calls `toml::from_str` for a `toml::Value`. The claim is that the result is a function
/// of the text alone: what the value holds, or the message of the error. Nothing is said
/// of the format itself.
#[verifier::external_body]
fn read_toml(text: &str) -> (r: Result<toml::Value, String>)
    ensures
        match r {
            Ok(v) => toml_document(text@) == Ok::<TomlView, Seq<char>>(toml_tree(v)),
            Err(e) => toml_document(text@) == Err::<TomlView, Seq<char>>(e@),
        },
{
    toml::from_str(text).map_err(|e: toml::de::Error| e.to_string())
}

/// Calls `toml::Value::as_table` and walks the table: the keys with their values, where
/// the value is a table.
#[verifier::external_body]
fn table_entries(v: &toml::Value) -> (r: Option<Vec<(String, &toml::Value)>>)
    ensures
        match toml_tree(*v) {
            TomlView::Table(t) => r is Some && entry_trees(r->0@) == t,
            _ => r is None,
        },
{
    v.as_table().map(|t| t.iter().map(|(k, x)| (k.to_owned(), x)).collect())
}

/// Calls `toml::Value::is_str`: whether the value is a text.
#[verifier::external_body]
fn is_text(v: &toml::Value) -> (r: bool)
    ensures
        r == (toml_tree(*v) is Text),
{
    v.is_str()
}

/// Keys with what their values hold.
pub open spec fn entry_trees(s: Seq<(String, &toml::Value)>) -> Seq<(Seq<char>, TomlView)> {
    s.map_values(|e: (String, &toml::Value)| (e.0@, toml_tree(*e.1)))
}

/// A key that a dependency in the form of a table can have.
pub open spec fn is_dep_key(k: Seq<char>) -> bool {
    k == "version"@ || k == "bioc"@ || k == "git"@ || k == "exact"@ || k == "rev"@ || k == "subdirectory"@
}

fn is_valid_dep_key(k: &str) -> (r: bool)
    ensures
        r == is_dep_key(k@),
{
    same_str(k, "version") || same_str(k, "bioc") || same_str(k, "git") || same_str(k, "exact") || same_str(k, "rev")
        || same_str(k, "subdirectory")
}

/// The first key at or after position `i` that a dependency cannot have, or the length.
pub open spec fn strange_key(t: Seq<(Seq<char>, TomlView)>, i: int) -> int
    decreases t.len() - i,
{
    if i >= t.len() {
        t.len() as int
    } else if !is_dep_key(t[i].0) {
        i
    } else {
        strange_key(t, i + 1)
    }
}

fn strange_position(t: &Vec<(String, &toml::Value)>) -> (r: usize)
    ensures
        r == strange_key(entry_trees(t@), 0),
        r <= t@.len(),
{
    let ghost all = entry_trees(t@);
    let mut i: usize = 0;
    while i < t.len() && is_valid_dep_key(t[i].0.as_str())
        invariant
            i <= t@.len(),
            all == entry_trees(t@),
            strange_key(all, 0) == strange_key(all, i as int),
        decreases t@.len() - i,
    {
        assert(all[i as int].0 == t@[i as int].0@);
        i += 1;
    }
    proof {
        if i < t@.len() {
            assert(all[i as int].0 == t@[i as int].0@);
        }
    }
    i
}

/// All the keys of a table that a dependency cannot have.
pub open spec fn strange_keys(t: Seq<(Seq<char>, TomlView)>) -> Seq<Seq<char>>
    decreases t.len(),
{
    if t.len() == 0 {
        seq![]
    } else if is_dep_key(t.last().0) {
        strange_keys(t.drop_last())
    } else {
        strange_keys(t.drop_last()).push(t.last().0)
    }
}

/// The rest of the name of a package that was taken apart at its dots: in each table the
/// first key that a dependency cannot have.
pub open spec fn nested_names(t: Seq<(Seq<char>, TomlView)>) -> Seq<Seq<char>>
    decreases t,
{
    let k = strange_key(t, 0);
    if 0 <= k < t.len() {
        let rest: Seq<Seq<char>> = match t[k].1 {
            TomlView::Table(inner) => nested_names(inner),
            _ => seq![],
        };
        seq![t[k].0] + rest
    } else {
        seq![]
    }
}

fn push_nested_names(t: &Vec<(String, &toml::Value)>, out: &mut Vec<String>)
    ensures
        views(final(out)@) == views(old(out)@) + nested_names(entry_trees(t@)),
    decreases entry_trees(t@),
{
    let ghost all = entry_trees(t@);
    let k: usize = strange_position(t);
    if k >= t.len() {
        assert(views(out@) == views(out@) + nested_names(all));
        return;
    }
    let ghost before = views(out@);
    let ghost prev = out@;
    assert(all[k as int] == (t@[k as int].0@, toml_tree(*t@[k as int].1)));
    out.push(t[k].0.as_str().to_owned());
    assert(views(out@) == views(prev).push(t@[k as int].0@));
    match table_entries(t[k].1) {
        Some(inner) => {
            assert(decreases_to!(all => all[k as int]));
            assert(decreases_to!(all[k as int] => all[k as int].1));
            push_nested_names(&inner, out);
            assert(views(out@) == before + nested_names(all));
        },
        None => {
            assert(views(out@) == before + nested_names(all));
        },
    }
}

/// A list of texts in the form that Rust has for debugging.
pub open spec fn debug_list(names: Seq<Seq<char>>) -> Seq<char> {
    "["@ + join(names.map_values(|n: Seq<char>| debug_text(n)), ", "@) + "]"@
}

/// What is said of the key of a package that was taken apart at its dots.
pub open spec fn dotted_key(key: Seq<char>, section: Seq<char>, unknown: Seq<Seq<char>>, full: Seq<char>) -> Seq<char> {
    "dependency `"@ + key + "` in ["@ + section + "] contains dotted sub-key(s): "@ + debug_list(unknown)
        + ".\n\nThis is caused by a dotted TOML key: `["@ + section + "."@ + full + "]` is parsed by TOML as package `"@ + key
        + "` with nested sub-keys, not as package `"@ + full + "`.\n\nIf you meant to declare package `"@ + full
        + "`, use a quoted key in the flat ["@ + section + "] table:\n\n\t["@ + section + "]\n\t\""@ + full
        + "\" = \"*\"\n\nOr run: uvr add "@ + full
}

/// The first entry from position `i` on with the key, or the length.
pub open spec fn find_key(t: Seq<(Seq<char>, TomlView)>, key: Seq<char>, i: int) -> int
    decreases t.len() - i,
{
    if i >= t.len() {
        t.len() as int
    } else if t[i].0 == key {
        i
    } else {
        find_key(t, key, i + 1)
    }
}

/// What is wrong with the form of a dependency: a name that was taken apart at its dots,
/// or a directory that is no text.
pub open spec fn form_fault(key: Seq<char>, section: Seq<char>, item: TomlView) -> Option<Seq<char>> {
    match item {
        TomlView::Table(t) => if strange_keys(t).len() > 0 {
            let full = join(seq![key] + nested_names(t), "."@);
            Some(dotted_key(key, section, strange_keys(t), full))
        } else {
            let k = find_key(t, "subdirectory"@, 0);
            if 0 <= k < t.len() && !(t[k].1 is Text) {
                Some(about(key, section) + "`subdirectory` must be a string."@)
            } else {
                None
            }
        },
        _ => None,
    }
}

/// What is wrong with the form of the first dependency from position `i` on that has a
/// fault.
pub open spec fn section_fault(entries: Seq<(Seq<char>, TomlView)>, section: Seq<char>, i: int) -> Option<Seq<char>>
    decreases entries.len() - i,
{
    if i >= entries.len() {
        None
    } else if form_fault(entries[i].0, section, entries[i].1) is Some {
        form_fault(entries[i].0, section, entries[i].1)
    } else {
        section_fault(entries, section, i + 1)
    }
}

fn unknown_keys(t: &Vec<(String, &toml::Value)>) -> (r: Vec<String>)
    ensures
        views(r@) == strange_keys(entry_trees(t@)),
{
    let ghost all = entry_trees(t@);
    let mut out: Vec<String> = Vec::new();
    let mut i: usize = 0;
    assert(all.take(0) == Seq::<(Seq<char>, TomlView)>::empty());
    assert(views(out@) == Seq::<Seq<char>>::empty());
    while i < t.len()
        invariant
            i <= t@.len(),
            all == entry_trees(t@),
            views(out@) == strange_keys(all.take(i as int)),
        decreases t@.len() - i,
    {
        proof {
            assert(all[i as int].0 == t@[i as int].0@);
            assert(all.take(i + 1).drop_last() == all.take(i as int));
        }
        if !is_valid_dep_key(t[i].0.as_str()) {
            let ghost before = out@;
            out.push(t[i].0.as_str().to_owned());
            assert(views(out@) == views(before).push(t@[i as int].0@));
        }
        i += 1;
    }
    assert(all.take(i as int) == all);
    out
}

/// Where a key stands in a table, or the length.
fn key_position(t: &Vec<(String, &toml::Value)>, key: &str) -> (r: usize)
    ensures
        r == find_key(entry_trees(t@), key@, 0),
        r <= t@.len(),
{
    let ghost all = entry_trees(t@);
    let mut k: usize = 0;
    while k < t.len() && !same_str(t[k].0.as_str(), key)
        invariant
            k <= t@.len(),
            all == entry_trees(t@),
            find_key(all, key@, 0) == find_key(all, key@, k as int),
        decreases t@.len() - k,
    {
        assert(all[k as int].0 == t@[k as int].0@);
        k += 1;
    }
    proof {
        if k < t@.len() {
            assert(all[k as int].0 == t@[k as int].0@);
        }
    }
    k
}

fn debug_list_text(names: &Vec<String>) -> (r: String)
    ensures
        r@ == debug_list(views(names@)),
{
    let ghost all = views(names@).map_values(|n: Seq<char>| debug_text(n));
    let mut out: Vec<String> = Vec::new();
    let mut i: usize = 0;
    assert(views(out@) == all.take(0));
    while i < names.len()
        invariant
            i <= names@.len(),
            all == views(names@).map_values(|n: Seq<char>| debug_text(n)),
            views(out@) == all.take(i as int),
        decreases names@.len() - i,
    {
        let ghost before = out@;
        out.push(debug_form(names[i].as_str()));
        proof {
            assert(views(names@)[i as int] == names@[i as int]@);
            assert(views(out@) == views(before).push(all[i as int]));
            assert(all.take(i + 1) == all.take(i as int).push(all[i as int]));
        }
        i += 1;
    }
    assert(all.take(i as int) == all);
    "[".to_owned().concat(join_strings(&out, ", ").as_str()).concat("]")
}

fn dotted_key_text(key: &str, section: &str, unknown: &Vec<String>, full: &str) -> (r: String)
    ensures
        r@ == dotted_key(key@, section@, views(unknown@), full@),
{
    "dependency `".to_owned().concat(key).concat("` in [").concat(section).concat(
        "] contains dotted sub-key(s): ",
    ).concat(debug_list_text(unknown).as_str()).concat(".\n\nThis is caused by a dotted TOML key: `[").concat(
        section,
    ).concat(".").concat(full).concat("]` is parsed by TOML as package `").concat(key).concat(
        "` with nested sub-keys, not as package `",
    ).concat(full).concat("`.\n\nIf you meant to declare package `").concat(full).concat(
        "`, use a quoted key in the flat [",
    ).concat(section).concat("] table:\n\n\t[").concat(section).concat("]\n\t\"").concat(full).concat(
        "\" = \"*\"\n\nOr run: uvr add ",
    ).concat(full)
}

fn find_form_fault(key: &str, section: &str, item: &toml::Value) -> (r: Option<String>)
    ensures
        opt_view(r) == form_fault(key@, section@, toml_tree(*item)),
{
    let t = match table_entries(item) {
        Some(t) => t,
        None => {
            return None;
        },
    };
    let ghost all = entry_trees(t@);
    let unknown = unknown_keys(&t);
    assert(views(unknown@).len() == unknown@.len());
    if unknown.len() > 0 {
        let mut parts: Vec<String> = Vec::new();
        parts.push(key.to_owned());
        assert(views(parts@) == seq![key@]);
        push_nested_names(&t, &mut parts);
        let full = join_strings(&parts, ".");
        return Some(dotted_key_text(key, section, &unknown, full.as_str()));
    }
    let k: usize = key_position(&t, "subdirectory");
    if k < t.len() {
        assert(all[k as int].1 == toml_tree(*t@[k as int].1));
        if is_text(t[k].1) {
            None
        } else {
            Some(about_text(key, section).concat("`subdirectory` must be a string."))
        }
    } else {
        None
    }
}

/// The entries of a section, none where it is missing or no table.
pub open spec fn entries_of_section(document: TomlView, section: Seq<char>) -> Seq<(Seq<char>, TomlView)> {
    match document {
        TomlView::Table(d) => {
            let k = find_key(d, section, 0);
            if 0 <= k < d.len() {
                match d[k].1 {
                    TomlView::Table(t) => t,
                    _ => seq![],
                }
            } else {
                seq![]
            }
        },
        _ => seq![],
    }
}

/// What is wrong with the form of the sections of a manifest: the dependencies are looked
/// at before the development dependencies, each in order.
pub open spec fn sections_fault(document: TomlView) -> Option<Seq<char>> {
    let f = section_fault(entries_of_section(document, "dependencies"@), "dependencies"@, 0);
    if f is Some {
        f
    } else {
        section_fault(entries_of_section(document, "dev-dependencies"@), "dev-dependencies"@, 0)
    }
}

fn find_section_fault(document: &toml::Value, section: &str) -> (r: Option<String>)
    ensures
        opt_view(r) == section_fault(entries_of_section(toml_tree(*document), section@), section@, 0),
{
    let d = match table_entries(document) {
        Some(d) => d,
        None => {
            return None;
        },
    };
    let k: usize = key_position(&d, section);
    if k >= d.len() {
        return None;
    }
    assert(entry_trees(d@)[k as int].1 == toml_tree(*d@[k as int].1));
    let entries = match table_entries(d[k].1) {
        Some(t) => t,
        None => {
            return None;
        },
    };
    let ghost all = entry_trees(entries@);
    let mut i: usize = 0;
    while i < entries.len()
        invariant
            i <= entries@.len(),
            all == entry_trees(entries@),
            all == entries_of_section(toml_tree(*document), section@),
            section_fault(all, section@, 0) == section_fault(all, section@, i as int),
        decreases entries@.len() - i,
    {
        assert(all[i as int] == (entries@[i as int].0@, toml_tree(*entries@[i as int].1)));
        let f = find_form_fault(entries[i].0.as_str(), section, entries[i].1);
        if f.is_some() {
            return f;
        }
        i += 1;
    }
    None
}

/// Checks the form of the sections of a document that declare dependencies, given the
/// document; see [`sections_fault`].
pub fn check_document(document: &toml::Value) -> (r: Result<(), UvrError>)
    ensures
        checked(r) == verdict_of(sections_fault(toml_tree(*document))),
{
    if let Some(f) = find_section_fault(document, "dependencies") {
        return Err(UvrError::ManifestParse(f));
    }
    if let Some(f) = find_section_fault(document, "dev-dependencies") {
        return Err(UvrError::ManifestParse(f));
    }
    Ok(())
}

/// Checks the text of a manifest before it is read: it has to be in the TOML format, and
/// its sections in good form.
pub fn check_text(text: &str) -> (r: Result<(), UvrError>)
    ensures
        checked(r) == (match toml_document(text@) {
            Ok(d) => verdict_of(sections_fault(d)),
            Err(e) => Err(ErrorView::ManifestParse(e)),
        }),
{
    match read_toml(text) {
        Ok(d) => check_document(&d),
        Err(e) => Err(UvrError::ManifestParse(e)),
    }
}

proof fn lemma_strange(t: Seq<(Seq<char>, TomlView)>, i: int)
    requires
        0 <= i < t.len(),
        !is_dep_key(t[i].0),
    ensures
        strange_keys(t).len() > 0,
    decreases t.len(),
{
    if i < t.len() - 1 {
        assert(t.drop_last()[i] == t[i]);
        lemma_strange(t.drop_last(), i);
    }
}

/// A dependency whose name was taken apart at its dots is never taken for a package of
/// the first part of its name.
pub proof fn dotted_keys_are_refused(key: Seq<char>, section: Seq<char>, t: Seq<(Seq<char>, TomlView)>, i: int)
    requires
        0 <= i < t.len(),
        !is_dep_key(t[i].0),
    ensures
        form_fault(key, section, TomlView::Table(t)) is Some,
{
    lemma_strange(t, i);
}

} // verus!

//! The `Remotes` field of a `DESCRIPTION` file: where packages come from that are not
//! taken from a registry.
use vstd::prelude::*;

use crate::error::{ErrorView, UvrError};
use crate::manifest::{DependencySpec, DetailedDep, DetailedView, SpecView};
use crate::order::view_each;
use crate::package_name::{is_package_name, is_valid};
use crate::registry::forgejo::{forgejo_parts, parse_forgejo_parts};
use crate::registry::github::{is_git_ref, is_repo_spec, is_valid_git_ref, is_valid_github_repo_spec};
use crate::registry::gitlab::{gitlab_parts, parse_gitlab_parts};
use crate::subdirectory::{is_subdirectory, refused_subdirectory, validate};
use crate::text::{chars_of, contains_text, copy_opt, cut_once, find_char, has_char, has_text, index_of, opt_view, part, pieces,
    slice_views, split, split_once, string_of, strip_prefix, trim, trimmed, without_prefix};

verus! {

/// The kinds of servers that hold git repositories.
#[derive(Debug, Clone, Copy, PartialEq, Eq, Hash, Structural)]
pub enum RemoteProvider {
    GitHub,
    Forgejo,
    Gitlab,
}

/// A package in a git repository.
#[derive(Debug, Clone, PartialEq, Eq)]
pub struct RemoteSource {
    pub name: String,
    /// The name was given, not taken from the address.
    pub explicit_name: bool,
    pub provider: RemoteProvider,
    pub repository: String,
    pub requested_ref: Option<String>,
    /// The directory of the package in the repository.
    pub subdirectory: Option<String>,
}

/// A package in a git repository as a mathematical value.
pub struct RemoteView {
    pub name: Seq<char>,
    pub explicit_name: bool,
    pub provider: RemoteProvider,
    pub repository: Seq<char>,
    pub requested_ref: Option<Seq<char>>,
    pub subdirectory: Option<Seq<char>>,
}

impl View for RemoteSource {
    type V = RemoteView;

    open spec fn view(&self) -> RemoteView {
        RemoteView {
            name: self.name@,
            explicit_name: self.explicit_name,
            provider: self.provider,
            repository: self.repository@,
            requested_ref: opt_view(self.requested_ref),
            subdirectory: opt_view(self.subdirectory),
        }
    }
}

/// An entry of a `Remotes` field.
#[derive(Debug, Clone, PartialEq, Eq)]
pub enum RemoteEntry {
    Source(RemoteSource),
    /// An entry that cannot be followed. A bound one names the package it is for, or a
    /// directory, so it cannot be passed over.
    Unsupported { entry: String, reason: String, bound: bool },
}

/// An entry of a `Remotes` field as a mathematical value.
pub enum RemoteEntryView {
    Source(RemoteView),
    Unsupported { entry: Seq<char>, reason: Seq<char>, bound: bool },
}

impl View for RemoteEntry {
    type V = RemoteEntryView;

    open spec fn view(&self) -> RemoteEntryView {
        match *self {
            RemoteEntry::Source(s) => RemoteEntryView::Source(s@),
            RemoteEntry::Unsupported { entry, reason, bound } => RemoteEntryView::Unsupported {
                entry: entry@,
                reason: reason@,
                bound,
            },
        }
    }
}

/// The repository with its provider in front, but for GitHub.
pub open spec fn git_spec_of(s: RemoteView) -> Seq<char> {
    match s.provider {
        RemoteProvider::GitHub => s.repository,
        RemoteProvider::Forgejo => "forgejo::"@ + s.repository,
        RemoteProvider::Gitlab => "gitlab::"@ + s.repository,
    }
}

/// The dependency on a package in a git repository.
pub open spec fn dependency_on(s: RemoteView) -> DetailedView {
    DetailedView {
        version: None,
        bioc: None,
        git: Some(git_spec_of(s)),
        exact: s.explicit_name,
        rev: s.requested_ref,
        subdirectory: s.subdirectory,
    }
}

/// The repository with the directory and the reference behind it.
pub open spec fn target_of(s: RemoteView) -> Seq<char> {
    git_spec_of(s) + (match s.subdirectory {
        Some(d) => ":"@ + d,
        None => seq![],
    }) + (match s.requested_ref {
        Some(r) => "@"@ + r,
        None => seq![],
    })
}

impl RemoteSource {
    /// The repository with its provider in front; see [`git_spec_of`].
    pub fn git_spec(&self) -> (r: String)
        ensures
            r@ == git_spec_of(self@),
    {
        match self.provider {
            RemoteProvider::GitHub => self.repository.as_str().to_owned(),
            RemoteProvider::Forgejo => "forgejo::".to_owned().concat(self.repository.as_str()),
            RemoteProvider::Gitlab => "gitlab::".to_owned().concat(self.repository.as_str()),
        }
    }

    /// The dependency on the package.
    pub fn dependency_spec(&self) -> (r: DependencySpec)
        ensures
            r@ == SpecView::Detailed(dependency_on(self@)),
    {
        DependencySpec::Detailed(
            DetailedDep {
                version: None,
                bioc: None,
                git: Some(self.git_spec()),
                exact: self.explicit_name,
                rev: copy_opt(&self.requested_ref),
                subdirectory: copy_opt(&self.subdirectory),
            },
        )
    }
}

/// The repository with the directory and the reference behind it.
pub fn remote_source_target(source: &RemoteSource) -> (r: String)
    ensures
        r@ == target_of(source@),
{
    let mut target = source.git_spec();
    let ghost base = target@;
    match &source.subdirectory {
        Some(d) => {
            target = target.concat(":").concat(d.as_str());
            assert(target@ == base + (":"@ + d@));
        },
        None => {
            assert(base == base + Seq::<char>::empty());
        },
    }
    let ghost base = target@;
    match &source.requested_ref {
        Some(g) => {
            target = target.concat("@").concat(g.as_str());
            assert(target@ == base + ("@"@ + g@));
        },
        None => {
            assert(base == base + Seq::<char>::empty());
        },
    }
    target
}

/// An optional name in front of an equals sign, and the target behind it. An equals
/// sign behind a slash belongs to the target.
pub open spec fn alias_and_target(body: Seq<char>) -> Result<(Option<Seq<char>>, Seq<char>), Seq<char>> {
    match split_once(body, '=') {
        None => Ok((None, trim(body))),
        Some((left, right)) => if left.contains('/') {
            Ok((None, trim(body)))
        } else if !is_package_name(trim(left)) {
            Err("'"@ + trim(left) + "' is not a valid explicit package alias"@)
        } else if !right.contains('/') {
            Err("the bound alias '"@ + trim(left) + "' has a malformed remote target"@)
        } else {
            Ok((Some(trim(left)), trim(right)))
        },
    }
}

fn split_remote_alias<'a>(body: &'a [char]) -> (r: Result<(Option<String>, &'a [char]), String>)
    ensures
        match r {
            Ok((n, t)) => alias_and_target(body@) == Ok::<(Option<Seq<char>>, Seq<char>), Seq<char>>((opt_view(n), t@)),
            Err(e) => alias_and_target(body@) == Err::<(Option<Seq<char>>, Seq<char>), Seq<char>>(e@),
        },
{
    let (left, right) = match cut_once(body, '=') {
        Some((l, g)) => (l, g),
        None => {
            return Ok((None, trimmed(body)));
        },
    };
    if has_char(left, '/') {
        return Ok((None, trimmed(body)));
    }
    let name = string_of(trimmed(left));
    if !is_valid(name.as_str()) {
        return Err("'".to_owned().concat(name.as_str()).concat("' is not a valid explicit package alias"));
    }
    if !has_char(right, '/') {
        return Err("the bound alias '".to_owned().concat(name.as_str()).concat("' has a malformed remote target"));
    }
    Ok((Some(name), trimmed(right)))
}

/// The provider that a text names at its start, and what follows.
pub open spec fn provider_and_rest(text: Seq<char>) -> Option<(RemoteProvider, Seq<char>)> {
    if let Some(b) = strip_prefix(text, "github::"@) {
        Some((RemoteProvider::GitHub, b))
    } else if let Some(b) = strip_prefix(text, "forgejo::"@) {
        Some((RemoteProvider::Forgejo, b))
    } else if let Some(b) = strip_prefix(text, "gitlab::"@) {
        Some((RemoteProvider::Gitlab, b))
    } else {
        None
    }
}

fn split_provider<'a>(text: &'a [char]) -> (r: Option<(RemoteProvider, &'a [char])>)
    ensures
        match r {
            Some((p, b)) => provider_and_rest(text@) == Some((p, b@)),
            None => provider_and_rest(text@) is None,
        },
{
    if let Some(b) = without_prefix(text, "github::") {
        return Some((RemoteProvider::GitHub, b));
    }
    if let Some(b) = without_prefix(text, "forgejo::") {
        return Some((RemoteProvider::Forgejo, b));
    }
    if let Some(b) = without_prefix(text, "gitlab::") {
        return Some((RemoteProvider::Gitlab, b));
    }
    None
}

/// What an entry names: the provider, the target and the name given to the package.
/// The name stands before or behind the provider. An entry for an unknown provider
/// is passed over, unless it gives the package a name.
pub open spec fn entry_parts(entry: Seq<char>) -> Result<Option<(RemoteProvider, Seq<char>, Option<Seq<char>>)>, Seq<char>> {
    match provider_and_rest(entry) {
        Some((provider, body)) => match alias_and_target(body) {
            Ok((name, target)) => Ok(Some((provider, target, name))),
            Err(e) => Err(e),
        },
        None => match alias_and_target(entry) {
            Err(e) => Err(e),
            Ok((name, target)) => match provider_and_rest(target) {
                Some((provider, body)) => Ok(Some((provider, body, name))),
                None => if !contains_text(target, "::"@) {
                    Ok(Some((RemoteProvider::GitHub, target, name)))
                } else if name is Some {
                    Err("the bound alias uses an unsupported remote provider"@)
                } else {
                    Ok(None)
                },
            },
        },
    }
}

/// What an entry names, as a mathematical value.
pub open spec fn parts_view(p: Result<Option<(RemoteProvider, &[char], Option<String>)>, String>) -> Result<
    Option<(RemoteProvider, Seq<char>, Option<Seq<char>>)>,
    Seq<char>,
> {
    match p {
        Ok(Some((p, t, n))) => Ok(Some((p, t@, opt_view(n)))),
        Ok(None) => Ok(None),
        Err(e) => Err(e@),
    }
}

fn split_remote_prefix_and_alias<'a>(entry: &'a [char]) -> (r: Result<
    Option<(RemoteProvider, &'a [char], Option<String>)>,
    String,
>)
    ensures
        parts_view(r) == entry_parts(entry@),
{
    match split_provider(entry) {
        Some((provider, body)) => match split_remote_alias(body) {
            Ok((name, target)) => Ok(Some((provider, target, name))),
            Err(e) => Err(e),
        },
        None => match split_remote_alias(entry) {
            Err(e) => Err(e),
            Ok((name, target)) => match split_provider(target) {
                Some((provider, body)) => Ok(Some((provider, body, name))),
                None => if !has_text(target, "::") {
                    Ok(Some((RemoteProvider::GitHub, target, name)))
                } else if name.is_some() {
                    Err("the bound alias uses an unsupported remote provider".to_owned())
                } else {
                    Ok(None)
                },
            },
        },
    }
}

/// A target without its reference or fragment.
pub open spec fn path_of(target: Seq<char>) -> Seq<char> {
    let a = find_char(target, '@', 0);
    let h = find_char(target, '#', 0);
    trim(
        target.take(
            if a < h {
                a
            } else {
                h
            },
        ),
    )
}

fn path_part<'a>(target: &'a [char]) -> (r: &'a [char])
    ensures
        r@ == path_of(target@),
{
    let a: usize = index_of(target, '@', 0);
    let h: usize = index_of(target, '#', 0);
    let e: usize = if a < h {
        a
    } else {
        h
    };
    let p = part(target, 0, e);
    assert(p@ == target@.take(e as int));
    trimmed(p)
}

/// The path and the reference of a target; none where the reference is malformed.
pub open spec fn path_and_ref(target: Seq<char>) -> Option<(Seq<char>, Option<Seq<char>>)> {
    match split_once(target, '@') {
        Some((p, r)) => if is_git_ref(trim(r)) {
            Some((trim(p), Some(trim(r))))
        } else {
            None
        },
        None => Some((trim(target), None)),
    }
}

fn split_path_and_ref<'a>(target: &'a [char]) -> (r: Option<(&'a [char], Option<String>)>)
    ensures
        match r {
            Some((p, g)) => path_and_ref(target@) == Some((p@, opt_view(g))),
            None => path_and_ref(target@) is None,
        },
{
    match cut_once(target, '@') {
        Some((p, g)) => {
            let git_ref = string_of(trimmed(g));
            if is_valid_git_ref(git_ref.as_str()) {
                Some((trimmed(p), Some(git_ref)))
            } else {
                None
            }
        },
        None => Some((trimmed(target), None)),
    }
}

/// An entry on GitHub is bound where it gives the package a name or names a
/// directory of the repository.
pub open spec fn github_is_bound(explicit: bool, target: Seq<char>) -> bool {
    explicit || (match split_once(path_of(target), '/') {
        Some((_, tail)) => tail.contains('/') || tail.contains(':'),
        None => false,
    })
}

pub fn github_remote_is_bound(explicit_name: bool, target: &[char]) -> (r: bool)
    ensures
        r == github_is_bound(explicit_name, target@),
{
    if explicit_name {
        return true;
    }
    match cut_once(path_part(target), '/') {
        Some((_, tail)) => has_char(tail, '/') || has_char(tail, ':'),
        None => false,
    }
}

/// An entry on another server is bound where it gives the package a name or names
/// what may be a directory of the repository.
pub open spec fn other_is_bound(provider: RemoteProvider, explicit: bool, target: Seq<char>) -> bool {
    explicit || (match split_once(path_of(target), '/') {
        Some((_, project)) => project.contains(':') || (provider == RemoteProvider::Forgejo && split(project, '/').len()
            > 2),
        None => false,
    })
}

pub fn non_github_remote_is_bound(provider: RemoteProvider, explicit_name: bool, target: &[char]) -> (r: bool)
    ensures
        r == other_is_bound(provider, explicit_name, target@),
{
    if explicit_name {
        return true;
    }
    match cut_once(path_part(target), '/') {
        Some((_, project)) => {
            if has_char(project, ':') {
                return true;
            }
            let ps = pieces(project, '/');
            assert(slice_views(ps@).len() == ps@.len());
            provider == RemoteProvider::Forgejo && ps.len() > 2
        },
        None => false,
    }
}

/// An entry that cannot be followed.
pub open spec fn unsupported(entry: Seq<char>, reason: Seq<char>, bound: bool) -> RemoteEntryView {
    RemoteEntryView::Unsupported { entry, reason, bound }
}

fn unsupported_remote(entry: &[char], reason: &str, bound: bool) -> (r: RemoteEntry)
    ensures
        r@ == unsupported(entry@, reason@, bound),
{
    RemoteEntry::Unsupported { entry: string_of(entry), reason: reason.to_owned(), bound }
}

/// The repository and the directory in `owner/repo`, `owner/repo/directory` or
/// `owner/repo:directory` behind the owner; none where a colon follows a directory.
pub open spec fn repo_and_directory(tail: Seq<char>) -> Option<(Seq<char>, Option<Seq<char>>)> {
    match split_once(tail, ':') {
        Some((repo, dir)) => if repo.contains('/') {
            None
        } else {
            Some((repo, Some(dir)))
        },
        None => match split_once(tail, '/') {
            Some((repo, dir)) => Some((repo, Some(dir))),
            None => Some((tail, None)),
        },
    }
}

fn split_repo_and_directory<'a>(tail: &'a [char]) -> (r: Option<(&'a [char], Option<&'a [char]>)>)
    ensures
        match r {
            Some((p, Some(d))) => repo_and_directory(tail@) == Some((p@, Some(d@))),
            Some((p, None)) => repo_and_directory(tail@) == Some((p@, None::<Seq<char>>)),
            None => repo_and_directory(tail@) is None,
        },
{
    match cut_once(tail, ':') {
        Some((repo, dir)) => if has_char(repo, '/') {
            None
        } else {
            Some((repo, Some(dir)))
        },
        None => match cut_once(tail, '/') {
            Some((repo, dir)) => Some((repo, Some(dir))),
            None => Some((tail, None)),
        },
    }
}

/// The name of a package: the one given, else that of its directory, else that of
/// its repository.
pub open spec fn github_name(name: Option<Seq<char>>, repo: Seq<char>, dir: Option<Seq<char>>) -> Seq<char> {
    match (name, dir) {
        (Some(n), _) => n,
        (None, Some(d)) => split(d, '/').last(),
        (None, None) => repo,
    }
}

/// What an entry on GitHub stands for, once its path has been taken apart.
pub open spec fn github_source(
    entry: Seq<char>,
    owner: Seq<char>,
    repo: Seq<char>,
    dir: Option<Seq<char>>,
    git_ref: Option<Seq<char>>,
    name: Option<Seq<char>>,
    bound: bool,
) -> RemoteEntryView {
    let repository = owner + "/"@ + repo;
    if !is_repo_spec(repository) {
        unsupported(entry, "the GitHub owner/repository path is malformed"@, bound)
    } else if dir is Some && !is_subdirectory(dir->0) {
        unsupported(entry, refused_subdirectory(dir->0), true)
    } else {
        RemoteEntryView::Source(
            RemoteView {
                name: github_name(name, repo, dir),
                explicit_name: name is Some,
                provider: RemoteProvider::GitHub,
                repository,
                requested_ref: git_ref,
                subdirectory: dir,
            },
        )
    }
}

/// What an entry on GitHub stands for. One that has no slash and gives no name is no
/// entry.
pub open spec fn github_remote(entry: Seq<char>, target: Seq<char>, name: Option<Seq<char>>) -> Option<RemoteEntryView> {
    let bound = github_is_bound(name is Some, target);
    if target.contains('#') {
        Some(unsupported(entry, "GitHub pull-request revisions (`#<number>`) are not supported"@, bound))
    } else {
        match path_and_ref(target) {
            None => Some(unsupported(entry, "the GitHub revision is empty, malformed, or unsupported"@, bound)),
            Some((path, git_ref)) => match split_once(path, '/') {
                None => if name is Some {
                    Some(unsupported(entry, "expected a GitHub owner/repository path"@, true))
                } else {
                    None
                },
                Some((owner, tail)) => match repo_and_directory(tail) {
                    None => Some(
                        unsupported(entry, "the canonical colon form is owner/repository:subdirectory"@, true),
                    ),
                    Some((repo, dir)) => Some(github_source(entry, owner, repo, dir, git_ref, name, bound)),
                },
            },
        }
    }
}

/// The view of an optional entry.
pub open spec fn opt_entry(e: Option<RemoteEntry>) -> Option<RemoteEntryView> {
    match e {
        Some(e) => Some(e@),
        None => None,
    }
}

/// What an entry on GitHub stands for; see [`github_remote`].
pub fn parse_github_remote(entry: &[char], target: &[char], explicit_name: Option<String>) -> (r: Option<RemoteEntry>)
    ensures
        opt_entry(r) == github_remote(entry@, target@, opt_view(explicit_name)),
{
    let bound = github_remote_is_bound(explicit_name.is_some(), target);
    if has_char(target, '#') {
        return Some(
            unsupported_remote(entry, "GitHub pull-request revisions (`#<number>`) are not supported", bound),
        );
    }
    let (path, requested_ref) = match split_path_and_ref(target) {
        Some(p) => p,
        None => {
            return Some(
                unsupported_remote(entry, "the GitHub revision is empty, malformed, or unsupported", bound),
            );
        },
    };
    let (owner, tail) = match cut_once(path, '/') {
        Some(p) => p,
        None => {
            if explicit_name.is_some() {
                return Some(unsupported_remote(entry, "expected a GitHub owner/repository path", true));
            }
            return None;
        },
    };
    let (repo, dir) = match split_repo_and_directory(tail) {
        Some(p) => p,
        None => {
            return Some(
                unsupported_remote(entry, "the canonical colon form is owner/repository:subdirectory", true),
            );
        },
    };
    let repository = string_of(owner).concat("/").concat(string_of(repo).as_str());
    if !is_valid_github_repo_spec(repository.as_str()) {
        return Some(unsupported_remote(entry, "the GitHub owner/repository path is malformed", bound));
    }
    let subdirectory = match dir {
        Some(d) => {
            let path = string_of(d);
            match validate(path.as_str()) {
                Ok(()) => Some(path),
                Err(e) => {
                    return Some(unsupported_remote(entry, e.as_str(), true));
                },
            }
        },
        None => None,
    };
    let explicit = explicit_name.is_some();
    let name = match explicit_name {
        Some(n) => n,
        None => match dir {
            Some(d) => {
                let ps = pieces(d, '/');
                let n: usize = ps.len();
                assert(slice_views(ps@)[n - 1] == ps@[n - 1]@);
                string_of(ps[n - 1])
            },
            None => string_of(repo),
        },
    };
    Some(
        RemoteEntry::Source(
            RemoteSource {
                name,
                explicit_name: explicit,
                provider: RemoteProvider::GitHub,
                repository,
                requested_ref,
                subdirectory,
            },
        ),
    )
}

/// The path and the reference of a target on another server, or what is said where
/// it has none that can be followed.
pub open spec fn other_path_and_ref(target: Seq<char>, provider: Seq<char>) -> Result<
    (Seq<char>, Option<Seq<char>>),
    Seq<char>,
> {
    if target.contains('#') {
        Err(provider + " `#` revision and pull-request forms are not supported"@)
    } else {
        match path_and_ref(target) {
            Some(p) => Ok(p),
            None => Err("the "@ + provider + " revision is empty, malformed, or unsupported"@),
        }
    }
}

fn parse_remote_path_and_ref<'a>(target: &'a [char], provider: &str) -> (r: Result<(&'a [char], Option<String>), String>)
    ensures
        match r {
            Ok((p, g)) => other_path_and_ref(target@, provider@) == Ok::<(Seq<char>, Option<Seq<char>>), Seq<char>>(
                (p@, opt_view(g)),
            ),
            Err(e) => other_path_and_ref(target@, provider@) == Err::<(Seq<char>, Option<Seq<char>>), Seq<char>>(e@),
        },
{
    if has_char(target, '#') {
        return Err(provider.to_owned().concat(" `#` revision and pull-request forms are not supported"));
    }
    match split_path_and_ref(target) {
        Some(p) => Ok(p),
        None => Err("the ".to_owned().concat(provider).concat(" revision is empty, malformed, or unsupported")),
    }
}

/// What an entry on a Forgejo server stands for.
pub open spec fn forgejo_remote(entry: Seq<char>, target: Seq<char>, name: Option<Seq<char>>) -> RemoteEntryView {
    let bound = other_is_bound(RemoteProvider::Forgejo, name is Some, target);
    match other_path_and_ref(target, "Forgejo"@) {
        Err(reason) => unsupported(entry, reason, bound),
        Ok((path, git_ref)) => match forgejo_parts(path) {
            None => unsupported(
                entry,
                "the Forgejo target is malformed or uses an unsupported package directory"@,
                bound,
            ),
            Some(p) => RemoteEntryView::Source(
                RemoteView {
                    name: match name {
                        Some(n) => n,
                        None => p.repo,
                    },
                    explicit_name: name is Some,
                    provider: RemoteProvider::Forgejo,
                    repository: p.host + "/"@ + p.owner + "/"@ + p.repo,
                    requested_ref: git_ref,
                    subdirectory: None,
                },
            ),
        },
    }
}

/// What an entry on a Forgejo server stands for; see [`forgejo_remote`].
pub fn parse_forgejo_remote(entry: &[char], body: &[char], explicit_name: Option<String>) -> (r: RemoteEntry)
    ensures
        r@ == forgejo_remote(entry@, body@, opt_view(explicit_name)),
{
    let bound = non_github_remote_is_bound(RemoteProvider::Forgejo, explicit_name.is_some(), body);
    let (path, requested_ref) = match parse_remote_path_and_ref(body, "Forgejo") {
        Ok(p) => p,
        Err(e) => {
            return unsupported_remote(entry, e.as_str(), bound);
        },
    };
    let path = string_of(path);
    let parsed = match parse_forgejo_parts(path.as_str()) {
        Some(p) => p,
        None => {
            return unsupported_remote(
                entry,
                "the Forgejo target is malformed or uses an unsupported package directory",
                bound,
            );
        },
    };
    let repository = parsed.host.as_str().to_owned().concat("/").concat(parsed.owner.as_str()).concat("/").concat(
        parsed.repo.as_str(),
    );
    let explicit = explicit_name.is_some();
    let name = match explicit_name {
        Some(n) => n,
        None => parsed.repo,
    };
    RemoteEntry::Source(
        RemoteSource {
            name,
            explicit_name: explicit,
            provider: RemoteProvider::Forgejo,
            repository,
            requested_ref,
            subdirectory: None,
        },
    )
}

/// What an entry on a GitLab server stands for.
pub open spec fn gitlab_remote(entry: Seq<char>, target: Seq<char>, name: Option<Seq<char>>) -> RemoteEntryView {
    let bound = other_is_bound(RemoteProvider::Gitlab, name is Some, target);
    if contains_text(path_of(target), "/-/"@) {
        unsupported(
            entry,
            "GitLab package directories (`/-/<path>`) are unsupported; package-directory targets are only supported on GitHub"@,
            true,
        )
    } else {
        match other_path_and_ref(target, "GitLab"@) {
            Err(reason) => unsupported(entry, reason, bound),
            Ok((path, git_ref)) => match gitlab_parts(path) {
                None => unsupported(
                    entry,
                    "the GitLab target is malformed or uses an unsupported package directory"@,
                    bound,
                ),
                Some(p) => RemoteEntryView::Source(
                    RemoteView {
                        name: match name {
                            Some(n) => n,
                            None => split(p.project_path, '/').last(),
                        },
                        explicit_name: name is Some,
                        provider: RemoteProvider::Gitlab,
                        repository: p.host + "/"@ + p.project_path,
                        requested_ref: git_ref,
                        subdirectory: None,
                    },
                ),
            },
        }
    }
}

/// What an entry on a GitLab server stands for; see [`gitlab_remote`].
pub fn parse_gitlab_remote(entry: &[char], body: &[char], explicit_name: Option<String>) -> (r: RemoteEntry)
    ensures
        r@ == gitlab_remote(entry@, body@, opt_view(explicit_name)),
{
    if has_text(path_part(body), "/-/") {
        return unsupported_remote(
            entry,
            "GitLab package directories (`/-/<path>`) are unsupported; package-directory targets are only supported on GitHub",
            true,
        );
    }
    let bound = non_github_remote_is_bound(RemoteProvider::Gitlab, explicit_name.is_some(), body);
    let (path, requested_ref) = match parse_remote_path_and_ref(body, "GitLab") {
        Ok(p) => p,
        Err(e) => {
            return unsupported_remote(entry, e.as_str(), bound);
        },
    };
    let path = string_of(path);
    let parsed = match parse_gitlab_parts(path.as_str()) {
        Some(p) => p,
        None => {
            return unsupported_remote(
                entry,
                "the GitLab target is malformed or uses an unsupported package directory",
                bound,
            );
        },
    };
    let repository = parsed.host.as_str().to_owned().concat("/").concat(parsed.project_path.as_str());
    let explicit = explicit_name.is_some();
    let name = match explicit_name {
        Some(n) => n,
        None => parsed.project_name(),
    };
    RemoteEntry::Source(
        RemoteSource {
            name,
            explicit_name: explicit,
            provider: RemoteProvider::Gitlab,
            repository,
            requested_ref,
            subdirectory: None,
        },
    )
}

/// What an entry of a `Remotes` field stands for.
pub open spec fn remote_of(entry: Seq<char>) -> Option<RemoteEntryView> {
    match entry_parts(entry) {
        Err(reason) => Some(unsupported(entry, reason, true)),
        Ok(None) => None,
        Ok(Some((provider, target, name))) => match provider {
            RemoteProvider::GitHub => github_remote(entry, target, name),
            RemoteProvider::Forgejo => Some(forgejo_remote(entry, target, name)),
            RemoteProvider::Gitlab => Some(gitlab_remote(entry, target, name)),
        },
    }
}

/// What an entry of a `Remotes` field stands for; see [`remote_of`].
pub fn parse_remote(entry: &[char]) -> (r: Option<RemoteEntry>)
    ensures
        opt_entry(r) == remote_of(entry@),
{
    match split_remote_prefix_and_alias(entry) {
        Err(reason) => Some(unsupported_remote(entry, reason.as_str(), true)),
        Ok(None) => None,
        Ok(Some((provider, target, name))) => match provider {
            RemoteProvider::GitHub => parse_github_remote(entry, target, name),
            RemoteProvider::Forgejo => Some(parse_forgejo_remote(entry, target, name)),
            RemoteProvider::Gitlab => Some(parse_gitlab_remote(entry, target, name)),
        },
    }
}

/// What the entries of a `Remotes` field stand for, in order.
pub open spec fn remotes_of(entries: Seq<Seq<char>>) -> Seq<RemoteEntryView>
    decreases entries.len(),
{
    if entries.len() == 0 {
        seq![]
    } else {
        let front = remotes_of(entries.drop_last());
        let entry = trim(entries.last());
        if entry.len() == 0 {
            front
        } else {
            match remote_of(entry) {
                Some(e) => front.push(e),
                None => front,
            }
        }
    }
}

/// The entries of a `Remotes` field, separated by commas.
pub fn parse_remotes_field_rich(field: &str) -> (r: Vec<RemoteEntry>)
    ensures
        view_each(r@) == remotes_of(split(field@, ',')),
{
    let cs = chars_of(field);
    let ps = pieces(cs.as_slice(), ',');
    let ghost all = split(field@, ',');
    let mut result: Vec<RemoteEntry> = Vec::new();
    let mut i: usize = 0;
    assert(all.take(0) == Seq::<Seq<char>>::empty());
    assert(view_each(result@) == Seq::<RemoteEntryView>::empty());
    while i < ps.len()
        invariant
            i <= ps@.len(),
            slice_views(ps@) == all,
            view_each(result@) == remotes_of(all.take(i as int)),
        decreases ps@.len() - i,
    {
        let entry = trimmed(ps[i]);
        proof {
            assert(slice_views(ps@)[i as int] == ps@[i as int]@);
            assert(all.take(i + 1).drop_last() == all.take(i as int));
        }
        if entry.len() > 0 {
            if let Some(e) = parse_remote(entry) {
                let ghost before = result@;
                result.push(e);
                assert(view_each(result@) == view_each(before).push(e@));
            }
        }
        i += 1;
    }
    assert(all.take(i as int) == all);
    result
}

/// The entries of a `Remotes` field that can be followed, each with the name of its
/// package.
pub open spec fn followed(entries: Seq<RemoteEntryView>) -> Seq<(Seq<char>, SpecView)>
    decreases entries.len(),
{
    if entries.len() == 0 {
        seq![]
    } else {
        let front = followed(entries.drop_last());
        match entries.last() {
            RemoteEntryView::Source(s) => front.push((s.name, SpecView::Detailed(dependency_on(s)))),
            RemoteEntryView::Unsupported { .. } => front,
        }
    }
}

/// Names with the dependencies they stand for.
pub open spec fn pair_views(v: Seq<(String, DependencySpec)>) -> Seq<(Seq<char>, SpecView)> {
    v.map_values(|p: (String, DependencySpec)| (p.0@, p.1@))
}

/// The entries of a `Remotes` field that can be followed; see [`followed`].
pub fn parse_remotes_field(field: &str) -> (r: Vec<(String, DependencySpec)>)
    ensures
        pair_views(r@) == followed(remotes_of(split(field@, ','))),
{
    let entries = parse_remotes_field_rich(field);
    let ghost all = view_each(entries@);
    let mut result: Vec<(String, DependencySpec)> = Vec::new();
    let mut i: usize = 0;
    assert(all.take(0) == Seq::<RemoteEntryView>::empty());
    assert(pair_views(result@) == Seq::<(Seq<char>, SpecView)>::empty());
    while i < entries.len()
        invariant
            i <= entries@.len(),
            all == view_each(entries@),
            pair_views(result@) == followed(all.take(i as int)),
        decreases entries@.len() - i,
    {
        proof {
            assert(all[i as int] == entries@[i as int]@);
            assert(all.take(i + 1).drop_last() == all.take(i as int));
        }
        if let RemoteEntry::Source(s) = &entries[i] {
            let ghost before = result@;
            result.push((s.name.as_str().to_owned(), s.dependency_spec()));
            assert(pair_views(result@) == pair_views(before).push((s@.name, SpecView::Detailed(dependency_on(s@)))));
        }
        i += 1;
    }
    assert(all.take(i as int) == all);
    result
}

/// A package, its repository and the reference asked for.
pub type CompatibleRemote = (String, String, Option<String>);

/// A package, its repository and the reference asked for, as mathematical values.
pub type TupleView = (Seq<char>, Seq<char>, Option<Seq<char>>);

pub open spec fn tuple_views(v: Seq<CompatibleRemote>) -> Seq<TupleView> {
    v.map_values(|t: CompatibleRemote| (t.0@, t.1@, opt_view(t.2)))
}

/// The entries as triples. One with a directory or one that is bound and cannot be
/// followed has no triple, and the first such is an error.
pub open spec fn compatible(entries: Seq<RemoteEntryView>) -> Result<Seq<TupleView>, ErrorView>
    decreases entries.len(),
{
    if entries.len() == 0 {
        Ok(seq![])
    } else {
        match compatible(entries.drop_last()) {
            Err(e) => Err(e),
            Ok(front) => match entries.last() {
                RemoteEntryView::Source(s) => if s.subdirectory is Some {
                    Err(
                        ErrorView::Other(
                            "legacy Remotes tuple cannot represent nested package '"@ + s.name + "' from '"@ + target_of(s)
                                + "'; use the rich RemoteEntry resolver API"@,
                        ),
                    )
                } else {
                    Ok(front.push((s.name, git_spec_of(s), s.requested_ref)))
                },
                RemoteEntryView::Unsupported { entry, reason, bound } => if bound {
                    Err(
                        ErrorView::Other(
                            "legacy Remotes tuple cannot represent unsupported bound entry '"@ + entry + "': "@ + reason
                                + "; use the rich RemoteEntry resolver API"@,
                        ),
                    )
                } else {
                    Ok(front)
                },
            },
        }
    }
}

proof fn lemma_compatible_fails(entries: Seq<RemoteEntryView>, k: int)
    requires
        0 <= k <= entries.len(),
        compatible(entries.take(k)) is Err,
    ensures
        compatible(entries) == compatible(entries.take(k)),
    decreases entries.len() - k,
{
    if k < entries.len() {
        assert(entries.take(k + 1).drop_last() == entries.take(k));
        lemma_compatible_fails(entries, k + 1);
    } else {
        assert(entries.take(k) == entries);
    }
}

/// The entries as triples; see [`compatible`].
pub fn compatible_remote_entries(entries: Vec<RemoteEntry>) -> (r: Result<Vec<CompatibleRemote>, UvrError>)
    ensures
        match r {
            Ok(v) => compatible(view_each(entries@)) == Ok::<Seq<TupleView>, ErrorView>(tuple_views(v@)),
            Err(e) => compatible(view_each(entries@)) == Err::<Seq<TupleView>, ErrorView>(e@),
        },
{
    let ghost all = view_each(entries@);
    let mut result: Vec<CompatibleRemote> = Vec::new();
    let mut i: usize = 0;
    assert(all.take(0) == Seq::<RemoteEntryView>::empty());
    assert(tuple_views(result@) == Seq::<TupleView>::empty());
    while i < entries.len()
        invariant
            i <= entries@.len(),
            all == view_each(entries@),
            compatible(all.take(i as int)) == Ok::<Seq<TupleView>, ErrorView>(tuple_views(result@)),
        decreases entries@.len() - i,
    {
        proof {
            assert(all[i as int] == entries@[i as int]@);
            assert(all.take(i + 1).drop_last() == all.take(i as int));
        }
        match &entries[i] {
            RemoteEntry::Source(s) => {
                if s.subdirectory.is_some() {
                    let text = "legacy Remotes tuple cannot represent nested package '".to_owned().concat(
                        s.name.as_str(),
                    ).concat("' from '").concat(remote_source_target(s).as_str()).concat(
                        "'; use the rich RemoteEntry resolver API",
                    );
                    proof {
                        lemma_compatible_fails(all, i + 1);
                    }
                    return Err(UvrError::Other(text));
                }
                let ghost before = result@;
                result.push((s.name.as_str().to_owned(), s.git_spec(), copy_opt(&s.requested_ref)));
                assert(tuple_views(result@) == tuple_views(before).push((s@.name, git_spec_of(s@), s@.requested_ref)));
            },
            RemoteEntry::Unsupported { entry, reason, bound } => {
                if *bound {
                    let text = "legacy Remotes tuple cannot represent unsupported bound entry '".to_owned().concat(
                        entry.as_str(),
                    ).concat("': ").concat(reason.as_str()).concat("; use the rich RemoteEntry resolver API");
                    proof {
                        lemma_compatible_fails(all, i + 1);
                    }
                    return Err(UvrError::Other(text));
                }
            },
        }
        i += 1;
    }
    assert(all.take(i as int) == all);
    Ok(result)
}

/// An entry that gives its package a name is never passed over, and never taken for
/// another package: it is followed under that name, or it is bound.
pub proof fn named_entries_are_bound(entry: Seq<char>)
    ensures
        match entry_parts(entry) {
            Ok(Some((_, _, Some(name)))) => match remote_of(entry) {
                Some(RemoteEntryView::Source(s)) => s.explicit_name && s.name == name && dependency_on(s).exact,
                Some(RemoteEntryView::Unsupported { bound, .. }) => bound,
                None => false,
            },
            Err(_) => remote_of(entry) matches Some(RemoteEntryView::Unsupported { bound, .. }) && bound,
            _ => true,
        },
{
}

/// A package in a directory of its repository is on GitHub, and the directory leads
/// down from the root of the repository.
pub proof fn directories_lead_down(entry: Seq<char>)
    ensures
        remote_of(entry) matches Some(RemoteEntryView::Source(s)) ==> (s.subdirectory is Some ==> s.provider
            == RemoteProvider::GitHub && is_subdirectory(s.subdirectory->0)),
{
}

/// An entry on GitHub that names a directory and cannot be followed is bound.
pub proof fn directories_are_bound(entry: Seq<char>, target: Seq<char>, name: Option<Seq<char>>)
    requires
        github_is_bound(name is Some, target),
    ensures
        github_remote(entry, target, name) matches Some(RemoteEntryView::Unsupported { bound, .. }) ==> bound,
{
}

} // verus!

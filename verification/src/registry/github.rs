//! Packages in repositories on GitHub.
use vstd::prelude::*;

use crate::dcf::{dcf_fields, parse_dcf_fields};
use crate::error::{ErrorView, UvrError};
use crate::lockfile::{PackageSource, SourceView};
use crate::order::view_each;
use crate::registry::cran::{deps_in, field, get_deps, get_field, parsed_view, push_deps};
use crate::registry::{Dep, DepView, PackageInfo, PackageInfoView};
use crate::resolver::requirement::{normal_version, normalize_version};
use crate::resolver::solve::non_base;
use crate::text::{char_is_alphanumeric, chars_of, contains_text, cut_last, cut_once, has_text, is_alphanumeric, pieces,
    rsplit_once, slice_views, split, split_once, string_of, trim, trim_char, trimmed, trimmed_char};
use crate::text_map::TextMap;
use crate::version::{semver_version, Version, VersionView};

verus! {

/// The parts of `user/repo@ref`. Without a reference it is `HEAD`.
pub open spec fn github_parts(spec: Seq<char>) -> Option<(Seq<char>, Seq<char>, Seq<char>)> {
    let (path, git_ref) = match rsplit_once(spec, '@') {
        Some((p, r)) => (p, r),
        None => (spec, "HEAD"@),
    };
    match split_once(path, '/') {
        Some((user, repo)) => Some((user, repo, git_ref)),
        None => None,
    }
}

/// The parts of `user/repo@ref`; see [`github_parts`].
pub fn parse_github_spec(spec: &str) -> (r: Option<(String, String, String)>)
    ensures
        match r {
            Some((u, p, g)) => github_parts(spec@) == Some((u@, p@, g@)),
            None => github_parts(spec@) is None,
        },
{
    let cs = chars_of(spec);
    let s = cs.as_slice();
    let (path, git_ref) = match cut_last(s, '@') {
        Some((p, g)) => (p, string_of(g)),
        None => (s, "HEAD".to_owned()),
    };
    match cut_once(path, '/') {
        Some((user, repo)) => Some((string_of(user), string_of(repo), git_ref)),
        None => None,
    }
}

/// A name of an owner or a repository: ASCII letters, digits, dots, hyphens and
/// underscores.
pub open spec fn is_segment(s: Seq<char>) -> bool {
    s.len() > 0 && forall|i: int| 0 <= i < s.len() ==> is_segment_char(#[trigger] s[i])
}

pub open spec fn is_segment_char(c: char) -> bool {
    is_alphanumeric(c) || c == '.' || c == '-' || c == '_'
}

/// Whether a name of an owner or a repository can be that; see [`is_segment`].
pub fn segment_is_valid(s: &[char]) -> (r: bool)
    ensures
        r == is_segment(s@),
{
    let n: usize = s.len();
    if n == 0 {
        return false;
    }
    let mut i: usize = 0;
    while i < n
        invariant
            i <= n,
            n == s@.len(),
            forall|j: int| 0 <= j < i ==> is_segment_char(#[trigger] s@[j]),
        decreases n - i,
    {
        let c = s[i];
        if !(char_is_alphanumeric(c) || c == '.' || c == '-' || c == '_') {
            assert(!is_segment_char(s@[i as int]));
            return false;
        }
        i += 1;
    }
    true
}

pub open spec fn is_ref_char(c: char) -> bool {
    is_segment_char(c) || c == '/' || c == '+'
}

/// A branch, tag or commit: ASCII letters, digits and `.`, `-`, `_`, `/`, `+`,
/// without a hyphen at its start or two dots in a row.
pub open spec fn is_git_ref(s: Seq<char>) -> bool {
    &&& s.len() > 0
    &&& s[0] != '-'
    &&& !contains_text(s, ".."@)
    &&& forall|i: int| 0 <= i < s.len() ==> is_ref_char(#[trigger] s[i])
}

/// Whether a branch, tag or commit can be named so; see [`is_git_ref`].
pub fn is_valid_git_ref(git_ref: &str) -> (r: bool)
    ensures
        r == is_git_ref(git_ref@),
{
    let cs = chars_of(git_ref);
    let n: usize = cs.len();
    if n == 0 || cs[0] == '-' || has_text(cs.as_slice(), "..") {
        return false;
    }
    let mut i: usize = 0;
    while i < n
        invariant
            i <= n,
            n == cs@.len(),
            cs@ == git_ref@,
            forall|j: int| 0 <= j < i ==> is_ref_char(#[trigger] cs@[j]),
        decreases n - i,
    {
        let c = cs[i];
        if !(char_is_alphanumeric(c) || c == '.' || c == '-' || c == '_' || c == '/' || c == '+') {
            assert(!is_ref_char(git_ref@[i as int]));
            return false;
        }
        i += 1;
    }
    true
}

/// `owner/repo`.
pub open spec fn is_repository(path: Seq<char>) -> bool {
    let p = split(path, '/');
    p.len() == 2 && is_segment(p[0]) && is_segment(p[1])
}

/// `owner/repo` or `owner/repo@ref`.
pub open spec fn is_repo_spec(spec: Seq<char>) -> bool {
    match split_once(spec, '@') {
        Some((path, r)) => is_repository(path) && is_git_ref(r),
        None => is_repository(spec),
    }
}

fn repository_is_valid(path: &[char]) -> (r: bool)
    ensures
        r == is_repository(path@),
{
    let ps = pieces(path, '/');
    assert(slice_views(ps@) == split(path@, '/'));
    if ps.len() != 2 {
        return false;
    }
    assert(slice_views(ps@)[0] == ps@[0]@ && slice_views(ps@)[1] == ps@[1]@);
    segment_is_valid(ps[0]) && segment_is_valid(ps[1])
}

/// Whether the text names a repository on GitHub; see [`is_repo_spec`].
pub fn is_valid_github_repo_spec(spec: &str) -> (r: bool)
    ensures
        r == is_repo_spec(spec@),
{
    let cs = chars_of(spec);
    match cut_once(cs.as_slice(), '@') {
        Some((path, git_ref)) => {
            let g = string_of(git_ref);
            repository_is_valid(path) && is_valid_git_ref(g.as_str())
        },
        None => repository_is_valid(cs.as_slice()),
    }
}

/// The packages that a `DESCRIPTION` file imports or depends on, without those that
/// come with R.
pub open spec fn description_deps(fields: Map<Seq<char>, Seq<char>>) -> Seq<DepView> {
    non_base(deps_in(fields, "Imports"@)) + non_base(deps_in(fields, "Depends"@))
}

/// The packages that a `DESCRIPTION` file imports or depends on; see
/// [`description_deps`].
pub fn parse_description_deps(fields: &TextMap<String>) -> (r: Vec<Dep>)
    ensures
        view_each(r@) == description_deps(fields@),
{
    let mut deps: Vec<Dep> = Vec::new();
    let imports = get_deps(fields, "Imports");
    push_deps(&mut deps, &imports);
    let depends = get_deps(fields, "Depends");
    push_deps(&mut deps, &depends);
    deps
}

/// The version that a `DESCRIPTION` file states, `0.0.0` where it states none.
pub open spec fn stated_version(fields: Map<Seq<char>, Seq<char>>) -> Seq<char> {
    match field(fields, "Version"@) {
        Some(v) => v,
        None => "0.0.0"@,
    }
}

/// A version that was read, 0.0.0 where it could not be.
pub open spec fn version_or_zero(v: Result<VersionView, Seq<char>>) -> VersionView {
    match v {
        Ok(v) => v,
        Err(_) => VersionView { major: 0, minor: 0, patch: 0, pre: seq![], build: seq![] },
    }
}

/// What is known of a package at a commit of a repository. Its name is that of the
/// repository where the `DESCRIPTION` file has none.
pub open spec fn package_at_commit(
    fields: Map<Seq<char>, Seq<char>>,
    version: Result<VersionView, Seq<char>>,
    repo: Seq<char>,
    source: SourceView,
    commit: Seq<char>,
    url: Seq<char>,
) -> PackageInfoView {
    PackageInfoView {
        name: match field(fields, "Package"@) {
            Some(n) => n,
            None => repo,
        },
        version: version_or_zero(version),
        source,
        checksum: Some("git:"@ + commit),
        requires: description_deps(fields),
        url,
        raw_version: None,
        system_requirements: None,
    }
}

/// What is known of a package at a commit, its version having been read.
pub fn described_package(
    fields: &TextMap<String>,
    version: Result<Version, String>,
    repo: &str,
    source: PackageSource,
    commit_sha: &str,
    url: String,
) -> (r: PackageInfo)
    ensures
        r@ == package_at_commit(fields@, parsed_view(version), repo@, source@, commit_sha@, url@),
{
    let name = match get_field(fields, "Package") {
        Some(n) => n,
        None => repo.to_owned(),
    };
    let v = match version {
        Ok(v) => v,
        Err(_) => Version::new(0, 0, 0),
    };
    PackageInfo {
        name,
        version: v,
        source,
        checksum: Some("git:".to_owned().concat(commit_sha)),
        requires: parse_description_deps(fields),
        url,
        raw_version: None,
        system_requirements: None,
    }
}

/// The version that a `DESCRIPTION` file states, read.
pub fn described_version(fields: &TextMap<String>) -> (r: Result<Version, String>)
    ensures
        parsed_view(r) == semver_version(normal_version(stated_version(fields@))),
{
    let stated = match get_field(fields, "Version") {
        Some(v) => v,
        None => "0.0.0".to_owned(),
    };
    let normal = normalize_version(stated.as_str());
    Version::parse(normal.as_str())
}

/// The address of the name of the commit that a reference stands for.
pub fn commit_url(user: &str, repo: &str, git_ref: &str) -> (r: String)
    ensures
        r@ == "https://api.github.com/repos/"@ + user@ + "/"@ + repo@ + "/commits/"@ + git_ref@,
{
    "https://api.github.com/repos/".to_owned().concat(user).concat("/").concat(repo).concat("/commits/").concat(git_ref)
}

/// The address of the `DESCRIPTION` file at a commit.
pub fn description_url(user: &str, repo: &str, commit_sha: &str) -> (r: String)
    ensures
        r@ == "https://raw.githubusercontent.com/"@ + user@ + "/"@ + repo@ + "/"@ + commit_sha@ + "/DESCRIPTION"@,
{
    "https://raw.githubusercontent.com/".to_owned().concat(user).concat("/").concat(repo).concat("/").concat(
        commit_sha,
    ).concat("/DESCRIPTION")
}

/// The address of the archive of a commit.
pub open spec fn tarball_of_commit(user: Seq<char>, repo: Seq<char>, commit: Seq<char>) -> Seq<char> {
    "https://api.github.com/repos/"@ + user + "/"@ + repo + "/tarball/"@ + commit
}

/// The name of a commit in the reply of the server.
pub fn commit_in_reply(body: &str) -> (r: String)
    ensures
        r@ == trim_char(trim(body@), '"'),
{
    let cs = chars_of(body);
    string_of(trimmed_char(trimmed(cs.as_slice()), '"'))
}

/// What is said when the server does not know the commit.
pub fn commit_refused(user: &str, repo: &str, git_ref: &str, status: &str) -> (r: UvrError)
    ensures
        r@ == ErrorView::Other(
            "GitHub API error for "@ + user@ + "/"@ + repo@ + "@"@ + git_ref@ + ": "@ + status@,
        ),
{
    UvrError::Other(
        "GitHub API error for ".to_owned().concat(user).concat("/").concat(repo).concat("@").concat(git_ref).concat(
            ": ",
        ).concat(status),
    )
}

/// What is said when there is no `DESCRIPTION` file.
pub fn description_refused(user: &str, repo: &str, commit_sha: &str, status: &str) -> (r: UvrError)
    ensures
        r@ == ErrorView::Other(
            "Failed to fetch DESCRIPTION for "@ + user@ + "/"@ + repo@ + "@"@ + commit_sha@ + " (HTTP "@ + status@
                + "). Check that the repository contains a DESCRIPTION file at the root."@,
        ),
{
    UvrError::Other(
        "Failed to fetch DESCRIPTION for ".to_owned().concat(user).concat("/").concat(repo).concat("@").concat(
            commit_sha,
        ).concat(" (HTTP ").concat(status).concat(
            "). Check that the repository contains a DESCRIPTION file at the root.",
        ),
    )
}

/// What is known of a package in a repository on GitHub, from its `DESCRIPTION` file
/// at a commit.
pub fn github_package(description: &str, user: &str, repo: &str, commit_sha: &str) -> (r: PackageInfo)
    ensures
        ({
            let f = dcf_fields(description@);
            r@ == package_at_commit(
                f,
                semver_version(normal_version(stated_version(f))),
                repo@,
                SourceView::GitHub,
                commit_sha@,
                tarball_of_commit(user@, repo@, commit_sha@),
            )
        }),
{
    let fields = parse_dcf_fields(description);
    let version = described_version(&fields);
    let url = "https://api.github.com/repos/".to_owned().concat(user).concat("/").concat(repo).concat("/tarball/").concat(
        commit_sha,
    );
    described_package(&fields, version, repo, PackageSource::GitHub, commit_sha, url)
}

} // verus!

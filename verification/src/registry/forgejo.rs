//! Packages in repositories on Forgejo servers.
use vstd::prelude::*;

use crate::dcf::{dcf_fields, parse_dcf_fields};
use crate::error::{ErrorView, UvrError};
use crate::lockfile::{PackageSource, SourceView};
use crate::manifest::remotes::{followed, pair_views, parse_remotes_field, remotes_of, tuple_views, TupleView};
use crate::manifest::{DependencySpec, SpecView};
use crate::registry::cran::{field, get_field};
use crate::registry::github::{described_package, described_version, is_segment, package_at_commit, segment_is_valid,
    stated_version};
use crate::registry::PackageInfo;
use crate::resolver::requirement::normal_version;
use crate::text::{char_is_alphanumeric, chars_of, copy_opt, cut_last, is_alphanumeric, opt_str, opt_view, part,
    pieces, rsplit_once, slice_views, split, string_of, strip_prefix, trim, trimmed, without_prefix};
use crate::text_map::TextMap;
use crate::version::semver_version;

verus! {

/// A repository on a Forgejo server. Without a reference there is none; who asks
/// the server decides what stands for it.
#[derive(Debug, Clone, PartialEq, Eq)]
pub struct ForgejoSpec {
    pub host: String,
    pub owner: String,
    pub repo: String,
    pub git_ref: Option<String>,
}

/// A repository on a Forgejo server as a mathematical value.
pub struct ForgejoView {
    pub host: Seq<char>,
    pub owner: Seq<char>,
    pub repo: Seq<char>,
    pub git_ref: Option<Seq<char>>,
}

impl View for ForgejoSpec {
    type V = ForgejoView;

    open spec fn view(&self) -> ForgejoView {
        ForgejoView { host: self.host@, owner: self.owner@, repo: self.repo@, git_ref: opt_view(self.git_ref) }
    }
}

pub open spec fn is_host_char(c: char) -> bool {
    is_alphanumeric(c) || c == '.' || c == '-' || c == ':'
}

/// A host with or without a port: ASCII letters, digits, dots, hyphens and colons.
pub open spec fn is_host(s: Seq<char>) -> bool {
    s.len() > 0 && forall|i: int| 0 <= i < s.len() ==> is_host_char(#[trigger] s[i])
}

/// Whether a host can be named so; see [`is_host`].
pub fn host_is_valid(s: &[char]) -> (r: bool)
    ensures
        r == is_host(s@),
{
    let n: usize = s.len();
    if n == 0 {
        return false;
    }
    let mut i: usize = 0;
    while i < n
        invariant
            i <= n,
            n == s@.len(),
            forall|j: int| 0 <= j < i ==> is_host_char(#[trigger] s@[j]),
        decreases n - i,
    {
        let c = s[i];
        if !(char_is_alphanumeric(c) || c == '.' || c == '-' || c == ':') {
            assert(!is_host_char(s@[i as int]));
            return false;
        }
        i += 1;
    }
    true
}

/// The parts of `[forgejo::]host/owner/repo[@ref]`. An empty reference counts as
/// none.
pub open spec fn forgejo_parts(spec: Seq<char>) -> Option<ForgejoView> {
    let body = match strip_prefix(spec, "forgejo::"@) {
        Some(b) => b,
        None => spec,
    };
    let (path, git_ref) = match rsplit_once(body, '@') {
        Some((p, r)) => (
            p,
            if r.len() == 0 {
                None
            } else {
                Some(r)
            },
        ),
        None => (body, None),
    };
    let s = split(path, '/');
    if s.len() == 3 && is_host(s[0]) && is_segment(s[1]) && is_segment(s[2]) {
        Some(ForgejoView { host: s[0], owner: s[1], repo: s[2], git_ref })
    } else {
        None
    }
}

/// The parts of `[forgejo::]host/owner/repo[@ref]`; see [`forgejo_parts`].
pub fn parse_forgejo_parts(spec: &str) -> (r: Option<ForgejoSpec>)
    ensures
        match r {
            Some(f) => forgejo_parts(spec@) == Some(f@),
            None => forgejo_parts(spec@) is None,
        },
{
    let cs = chars_of(spec);
    let body = match without_prefix(cs.as_slice(), "forgejo::") {
        Some(b) => b,
        None => cs.as_slice(),
    };
    let (path, git_ref) = match cut_last(body, '@') {
        Some((p, g)) => (
            p,
            if g.len() == 0 {
                None
            } else {
                Some(string_of(g))
            },
        ),
        None => (body, None),
    };
    let ps = pieces(path, '/');
    assert(slice_views(ps@) == split(path@, '/'));
    if ps.len() != 3 {
        return None;
    }
    assert(slice_views(ps@)[0] == ps@[0]@ && slice_views(ps@)[1] == ps@[1]@ && slice_views(ps@)[2] == ps@[2]@);
    if host_is_valid(ps[0]) && segment_is_valid(ps[1]) && segment_is_valid(ps[2]) {
        Some(ForgejoSpec { host: string_of(ps[0]), owner: string_of(ps[1]), repo: string_of(ps[2]), git_ref })
    } else {
        None
    }
}

/// The parts of `[forgejo::]host/owner/repo[@ref]`, with the reference `HEAD` where
/// there is none.
pub fn parse_forgejo_spec(spec: &str) -> (r: Option<(String, String, String, String)>)
    ensures
        match forgejo_parts(spec@) {
            Some(f) => r matches Some((h, o, p, g)) && h@ == f.host && o@ == f.owner && p@ == f.repo && g@ == (
            match f.git_ref {
                Some(g) => g,
                None => "HEAD"@,
            }),
            None => r is None,
        },
{
    match parse_forgejo_parts(spec) {
        Some(p) => {
            let g = match p.git_ref {
                Some(g) => g,
                None => "HEAD".to_owned(),
            };
            Some((p.host, p.owner, p.repo, g))
        },
        None => None,
    }
}

/// The character of a host in the name of a variable: ASCII letters in upper case,
/// dots and hyphens as underscores.
pub open spec fn variable_char(c: char) -> char {
    if 'a' <= c <= 'z' {
        ((c as u8) - 32) as char
    } else if c == '.' || c == '-' {
        '_'
    } else {
        c
    }
}

/// The environment variable that holds the token for a host. The port plays no part.
pub open spec fn token_variable_name(host: Seq<char>) -> Seq<char> {
    "UVR_FORGEJO_TOKEN_"@ + split(host, ':')[0].map_values(|c: char| variable_char(c))
}

/// The environment variable that holds the token for a host; see
/// [`token_variable_name`].
pub fn token_variable(host: &str) -> (r: String)
    ensures
        r@ == token_variable_name(host@),
{
    let cs = chars_of(host);
    let ps = pieces(cs.as_slice(), ':');
    assert(slice_views(ps@)[0] == ps@[0]@);
    let name = ps[0];
    let ghost mapped = name@.map_values(|c: char| variable_char(c));
    let mut r = "UVR_FORGEJO_TOKEN_".to_owned();
    let n: usize = name.len();
    let mut i: usize = 0;
    while i < n
        invariant
            i <= n,
            n == name@.len(),
            mapped == name@.map_values(|c: char| variable_char(c)),
            r@ == "UVR_FORGEJO_TOKEN_"@ + mapped.take(i as int),
        decreases n - i,
    {
        let c = name[i];
        let d = if 'a' <= c && c <= 'z' {
            ((c as u8) - 32) as char
        } else if c == '.' || c == '-' {
            '_'
        } else {
            c
        };
        r.push(d);
        proof {
            assert(mapped.take(i + 1) == mapped.take(i as int).push(mapped[i as int]));
        }
        i += 1;
    }
    assert(mapped.take(i as int) == mapped);
    r
}

/// A token that a variable holds. White space around it does not count, and what
/// holds nothing else counts as not set.
pub open spec fn token_in(v: Option<Seq<char>>) -> Option<Seq<char>> {
    match v {
        Some(v) => if trim(v).len() == 0 {
            None
        } else {
            Some(trim(v))
        },
        None => None,
    }
}

fn token_of(v: Option<&str>) -> (r: Option<String>)
    ensures
        opt_view(r) == token_in(opt_str(v)),
{
    match v {
        Some(v) => {
            let cs = chars_of(v);
            let t = trimmed(cs.as_slice());
            if t.len() == 0 {
                None
            } else {
                Some(string_of(t))
            }
        },
        None => None,
    }
}

/// The token for a host: that of the variable for the host, else that of the
/// variable `UVR_FORGEJO_TOKEN`.
pub fn forgejo_token(per_host: Option<&str>, shared: Option<&str>) -> (r: Option<String>)
    ensures
        opt_view(r) == (if token_in(opt_str(per_host)) is Some {
            token_in(opt_str(per_host))
        } else {
            token_in(opt_str(shared))
        }),
{
    match token_of(per_host) {
        Some(t) => Some(t),
        None => token_of(shared),
    }
}

/// `host/owner/repo`.
pub open spec fn place(host: Seq<char>, owner: Seq<char>, repo: Seq<char>) -> Seq<char> {
    host + "/"@ + owner + "/"@ + repo
}

fn place_text(host: &str, owner: &str, repo: &str) -> (r: String)
    ensures
        r@ == place(host@, owner@, repo@),
{
    host.to_owned().concat("/").concat(owner).concat("/").concat(repo)
}

/// The address below which the server answers for a repository.
pub open spec fn repo_api(host: Seq<char>, owner: Seq<char>, repo: Seq<char>) -> Seq<char> {
    "https://"@ + host + "/api/v1/repos/"@ + owner + "/"@ + repo
}

fn repo_api_text(host: &str, owner: &str, repo: &str) -> (r: String)
    ensures
        r@ == repo_api(host@, owner@, repo@),
{
    "https://".to_owned().concat(host).concat("/api/v1/repos/").concat(owner).concat("/").concat(repo)
}

/// The address of the list whose first commit is the one that a reference stands for.
pub fn commits_url(host: &str, owner: &str, repo: &str, git_ref: &str) -> (r: String)
    ensures
        r@ == repo_api(host@, owner@, repo@) + "/commits?sha="@ + git_ref@ + "&limit=1"@,
{
    repo_api_text(host, owner, repo).concat("/commits?sha=").concat(git_ref).concat("&limit=1")
}

/// The address of the `DESCRIPTION` file at a commit.
pub fn description_url(host: &str, owner: &str, repo: &str, commit_sha: &str) -> (r: String)
    ensures
        r@ == repo_api(host@, owner@, repo@) + "/raw/DESCRIPTION?ref="@ + commit_sha@,
{
    repo_api_text(host, owner, repo).concat("/raw/DESCRIPTION?ref=").concat(commit_sha)
}

/// The address of the archive of a commit.
pub open spec fn archive_of_commit(host: Seq<char>, owner: Seq<char>, repo: Seq<char>, commit: Seq<char>) -> Seq<char> {
    repo_api(host, owner, repo) + "/archive/"@ + commit + ".tar.gz"@
}

/// What is said when the server refuses, by the status of its reply.
pub open spec fn refusal(
    code: u16,
    status: Seq<char>,
    host: Seq<char>,
    owner: Seq<char>,
    repo: Seq<char>,
    at: Seq<char>,
) -> Seq<char> {
    if code == 401 || code == 403 {
        "Forgejo returned "@ + status + " for "@ + place(host, owner, repo)
            + "; set UVR_FORGEJO_TOKEN_<HOST> if the repo is private."@
    } else if code == 404 {
        "Forgejo repository not found: "@ + place(host, owner, repo) + "@"@ + at
            + ". Check the spec and that the repo exists."@
    } else {
        "Forgejo error for "@ + place(host, owner, repo) + "@"@ + at + ": HTTP "@ + status
    }
}

/// What is said when the server refuses; `status` is the code in words.
pub fn map_forgejo_error(
    code: u16,
    status: &str,
    host: &str,
    owner: &str,
    repo: &str,
    ref_or_sha: &str,
) -> (r: UvrError)
    ensures
        r@ == ErrorView::Other(refusal(code, status@, host@, owner@, repo@, ref_or_sha@)),
{
    let p = place_text(host, owner, repo);
    let text = if code == 401 || code == 403 {
        "Forgejo returned ".to_owned().concat(status).concat(" for ").concat(p.as_str()).concat(
            "; set UVR_FORGEJO_TOKEN_<HOST> if the repo is private.",
        )
    } else if code == 404 {
        "Forgejo repository not found: ".to_owned().concat(p.as_str()).concat("@").concat(ref_or_sha).concat(
            ". Check the spec and that the repo exists.",
        )
    } else {
        "Forgejo error for ".to_owned().concat(p.as_str()).concat("@").concat(ref_or_sha).concat(": HTTP ").concat(status)
    };
    UvrError::Other(text)
}

/// The start of a text: its first 200 characters.
pub open spec fn start_of(text: Seq<char>) -> Seq<char> {
    text.take(
        if text.len() < 200 {
            text.len() as int
        } else {
            200
        },
    )
}

/// The commit that a reference stands for: the first of the commits that the server
/// lists in `body`. `commits` are their names, or why the list could not be read.
pub fn first_commit(
    commits: Result<Vec<String>, String>,
    body: &str,
    host: &str,
    owner: &str,
    repo: &str,
    git_ref: &str,
) -> (r: Result<String, UvrError>)
    ensures
        ({
            let what = "Forgejo "@ + place(host@, owner@, repo@) + "@"@ + git_ref@;
            match commits {
                Err(e) => r matches Err(f) && f@ == ErrorView::Other(
                    what + ": could not parse commit list JSON ("@ + e@ + "). Body: "@ + start_of(body@),
                ),
                Ok(c) => if c@.len() == 0 {
                    r matches Err(f) && f@ == ErrorView::Other(
                        what + ": commit list was empty. The ref may not exist."@,
                    )
                } else {
                    r matches Ok(s) && s@ == c@[0]@
                },
            }
        }),
{
    let what = "Forgejo ".to_owned().concat(place_text(host, owner, repo).as_str()).concat("@").concat(git_ref);
    match commits {
        Err(e) => {
            let cs = chars_of(body);
            let n: usize = if cs.len() < 200 {
                cs.len()
            } else {
                200
            };
            let start = string_of(part(cs.as_slice(), 0, n));
            assert(start@ == start_of(body@));
            Err(
                UvrError::Other(
                    what.concat(": could not parse commit list JSON (").concat(e.as_str()).concat("). Body: ").concat(
                        start.as_str(),
                    ),
                ),
            )
        },
        Ok(c) => if c.len() == 0 {
            Err(UvrError::Other(what.concat(": commit list was empty. The ref may not exist.")))
        } else {
            Ok(c[0].as_str().to_owned())
        },
    }
}

/// A package that another one takes from a git repository: its name, the repository and
/// the reference asked for.
pub type ForgejoRemote = (String, String, Option<String>);

/// The packages that come from a git repository, with the repository and the reference.
pub open spec fn git_bearing(pairs: Seq<(Seq<char>, SpecView)>) -> Seq<TupleView>
    decreases pairs.len(),
{
    if pairs.len() == 0 {
        seq![]
    } else {
        let front = git_bearing(pairs.drop_last());
        match pairs.last().1 {
            SpecView::Detailed(d) => match d.git {
                Some(g) => front.push((pairs.last().0, g, d.rev)),
                None => front,
            },
            SpecView::Version(_) => front,
        }
    }
}

/// The packages that a `DESCRIPTION` file takes from git repositories.
pub open spec fn remotes_in(fields: Map<Seq<char>, Seq<char>>) -> Seq<TupleView> {
    match field(fields, "Remotes"@) {
        Some(f) => git_bearing(followed(remotes_of(split(f, ',')))),
        None => seq![],
    }
}

/// The packages that a `DESCRIPTION` file takes from git repositories; see
/// [`remotes_in`].
pub fn parse_forgejo_remotes(fields: &TextMap<String>) -> (r: Vec<ForgejoRemote>)
    ensures
        tuple_views(r@) == remotes_in(fields@),
{
    let mut out: Vec<ForgejoRemote> = Vec::new();
    assert(tuple_views(out@) == Seq::<TupleView>::empty());
    let f = match get_field(fields, "Remotes") {
        Some(f) => f,
        None => {
            return out;
        },
    };
    let pairs = parse_remotes_field(f.as_str());
    let ghost all = pair_views(pairs@);
    let mut i: usize = 0;
    assert(all.take(0) == Seq::<(Seq<char>, SpecView)>::empty());
    while i < pairs.len()
        invariant
            i <= pairs@.len(),
            all == pair_views(pairs@),
            tuple_views(out@) == git_bearing(all.take(i as int)),
        decreases pairs@.len() - i,
    {
        proof {
            assert(all[i as int] == (pairs@[i as int].0@, pairs@[i as int].1@));
            assert(all.take(i + 1).drop_last() == all.take(i as int));
        }
        if let DependencySpec::Detailed(d) = &pairs[i].1 {
            if let Some(g) = &d.git {
                let ghost before = out@;
                out.push((pairs[i].0.as_str().to_owned(), g.as_str().to_owned(), copy_opt(&d.rev)));
                assert(tuple_views(out@) == tuple_views(before).push((all[i as int].0, g@, opt_view(d.rev))));
            }
        }
        i += 1;
    }
    assert(all.take(i as int) == all);
    out
}

/// What is known of a package in a repository on a Forgejo server, from its
/// `DESCRIPTION` file at a commit, and the packages that it takes from git repositories.
pub fn forgejo_package(description: &str, host: &str, owner: &str, repo: &str, commit_sha: &str) -> (r: (
    PackageInfo,
    Vec<ForgejoRemote>,
))
    ensures
        tuple_views(r.1@) == remotes_in(dcf_fields(description@)),
        ({
            let f = dcf_fields(description@);
            r.0@ == package_at_commit(
                f,
                semver_version(normal_version(stated_version(f))),
                repo@,
                SourceView::Forgejo { host: host@ },
                commit_sha@,
                archive_of_commit(host@, owner@, repo@, commit_sha@),
            )
        }),
{
    let fields = parse_dcf_fields(description);
    let version = described_version(&fields);
    let url = repo_api_text(host, owner, repo).concat("/archive/").concat(commit_sha).concat(".tar.gz");
    let info = described_package(&fields, version, repo, PackageSource::Forgejo { host: host.to_owned() }, commit_sha, url);
    (info, parse_forgejo_remotes(&fields))
}

} // verus!

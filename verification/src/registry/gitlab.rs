//! Packages in projects on GitLab servers.
use vstd::prelude::*;

use crate::registry::forgejo::{host_is_valid, is_host};
use crate::registry::github::{is_segment, segment_is_valid};
use crate::text::{chars_of, cut_last, cut_once, is_text, opt_view, pieces, rsplit_once, slice_views, split, split_once,
    string_of, strip_prefix, without_prefix};

verus! {

/// A project on a GitLab server.
#[derive(Debug, Clone, PartialEq, Eq)]
pub struct GitlabSpec {
    pub host: String,
    /// The groups and the project, separated by slashes.
    pub project_path: String,
    pub git_ref: Option<String>,
}

/// A project on a GitLab server as a mathematical value.
pub struct GitlabView {
    pub host: Seq<char>,
    pub project_path: Seq<char>,
    pub git_ref: Option<Seq<char>>,
}

impl View for GitlabSpec {
    type V = GitlabView;

    open spec fn view(&self) -> GitlabView {
        GitlabView { host: self.host@, project_path: self.project_path@, git_ref: opt_view(self.git_ref) }
    }
}

/// A name of a group or a project. A hyphen alone separates a project from what lies
/// in it.
pub open spec fn is_gitlab_segment(s: Seq<char>) -> bool {
    is_segment(s) && s != "-"@
}

/// At least one group and a project, separated by slashes.
pub open spec fn is_project_path(project: Seq<char>) -> bool {
    let s = split(project, '/');
    s.len() >= 2 && forall|i: int| 0 <= i < s.len() ==> is_gitlab_segment(#[trigger] s[i])
}

/// The parts of `[gitlab::]host/group[/subgroup..]/project[@ref]`. An empty reference
/// counts as none.
pub open spec fn gitlab_parts(spec: Seq<char>) -> Option<GitlabView> {
    let body = match strip_prefix(spec, "gitlab::"@) {
        Some(b) => b,
        None => spec,
    };
    let (path, git_ref) = match rsplit_once(body, '@') {
        Some((p, r)) => (
            p,
            if r.len() == 0 {
                None
            } else {
                Some(r)
            },
        ),
        None => (body, None),
    };
    match split_once(path, '/') {
        None => None,
        Some((host, project)) => {
            if is_host(host) && is_project_path(project) {
                Some(GitlabView { host, project_path: project, git_ref })
            } else {
                None
            }
        },
    }
}

fn segments_are_valid(project: &[char]) -> (r: bool)
    ensures
        r == is_project_path(project@),
{
    let ps = pieces(project, '/');
    let ghost s = split(project@, '/');
    assert(slice_views(ps@) == s);
    if ps.len() < 2 {
        return false;
    }
    let mut i: usize = 0;
    while i < ps.len()
        invariant
            i <= ps@.len(),
            slice_views(ps@) == s,
            s == split(project@, '/'),
            forall|j: int| 0 <= j < i ==> is_gitlab_segment(#[trigger] s[j]),
        decreases ps@.len() - i,
    {
        assert(s[i as int] == ps@[i as int]@);
        if !segment_is_valid(ps[i]) || is_text(ps[i], "-") {
            assert(!is_gitlab_segment(s[i as int]));
            return false;
        }
        i += 1;
    }
    true
}

/// The parts of `[gitlab::]host/group[/subgroup..]/project[@ref]`; see
/// [`gitlab_parts`].
pub fn parse_gitlab_parts(spec: &str) -> (r: Option<GitlabSpec>)
    ensures
        match r {
            Some(g) => gitlab_parts(spec@) == Some(g@),
            None => gitlab_parts(spec@) is None,
        },
{
    let cs = chars_of(spec);
    let body = match without_prefix(cs.as_slice(), "gitlab::") {
        Some(b) => b,
        None => cs.as_slice(),
    };
    let (path, git_ref) = match cut_last(body, '@') {
        Some((p, g)) => (
            p,
            if g.len() == 0 {
                None
            } else {
                Some(string_of(g))
            },
        ),
        None => (body, None),
    };
    match cut_once(path, '/') {
        None => None,
        Some((host, project)) => {
            if host_is_valid(host) && segments_are_valid(project) {
                Some(GitlabSpec { host: string_of(host), project_path: string_of(project), git_ref })
            } else {
                None
            }
        },
    }
}

impl GitlabSpec {
    /// The name of the project without its groups.
    pub fn project_name(&self) -> (r: String)
        ensures
            r@ == split(self@.project_path, '/').last(),
    {
        let cs = chars_of(self.project_path.as_str());
        let ps = pieces(cs.as_slice(), '/');
        let n: usize = ps.len();
        assert(slice_views(ps@)[n - 1] == ps@[n - 1]@);
        string_of(ps[n - 1])
    }
}

} // verus!

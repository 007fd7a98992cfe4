//! How entries of a `Remotes` field are read.
use vstd::prelude::*;

use super::remotes::{
    alias_and_target, compatible, dependency_on, entry_parts, followed, forgejo_remote, git_spec_of,
    github_remote, gitlab_remote, path_and_ref, path_of, provider_and_rest, remote_of, remotes_of, repo_and_directory, target_of,
    RemoteEntryView, RemoteProvider, RemoteView, TupleView,
};
use super::SpecView;
use crate::error::ErrorView;
use crate::package_name::is_package_name;
use crate::registry::forgejo::{is_host, is_host_char};
use crate::registry::git_laws::{
    forgejo_address_is_read, gitlab_address_is_read, groups_have_plain_names, repositories_are_owner_and_name,
};
use crate::registry::github::{is_git_ref, is_ref_char, is_segment, is_segment_char};
use crate::registry::gitlab::{is_gitlab_segment, is_project_path};
use crate::subdirectory::is_subdirectory;
use crate::text::{contains_text, find_char, is_whitespace, split, split_once, stands_at, strip_prefix, trim};
use crate::text_laws::{
    cuts_are_at_the_ends, cutting_undoes_joining, is_blank, nothing_is_left_of_space, pieces_of_both,
    plain_text_is_one_piece, stripping_undoes_adding, trimming_undoes_padding,
};

verus! {

/// A text without white space at its ends.
pub open spec fn is_trimmed(t: Seq<char>) -> bool {
    t.len() > 0 && !is_whitespace(t[0]) && !is_whitespace(t.last())
}

proof fn lemma_trimmed(t: Seq<char>)
    requires
        is_trimmed(t),
    ensures
        trim(t) == t,
{
    let e = Seq::<char>::empty();
    trimming_undoes_padding(e, t, e);
    assert(e + t + e == t);
}

proof fn lemma_uncut(s: Seq<char>, c: char)
    requires
        !s.contains(c),
    ensures
        split_once(s, c) is None,
        find_char(s, c, 0) == s.len(),
{
    cuts_are_at_the_ends(s, c);
    if let Some((a, b)) = split_once(s, c) {
        assert(s[a.len() as int] == c);
    }
    lemma_find_none(s, c, 0);
}

proof fn lemma_find_first(a: Seq<char>, b: Seq<char>, c: char, i: int)
    requires
        !a.contains(c),
        0 <= i <= a.len(),
    ensures
        find_char(a + seq![c] + b, c, i) == a.len(),
    decreases a.len() - i,
{
    let w = a + seq![c] + b;
    if i < a.len() {
        assert(w[i] == a[i] && a.contains(a[i]));
        lemma_find_first(a, b, c, i + 1);
    } else {
        assert(w[i] == c);
    }
}

proof fn lemma_find_none(s: Seq<char>, c: char, i: int)
    requires
        !s.contains(c),
        0 <= i <= s.len(),
    ensures
        find_char(s, c, i) == s.len(),
    decreases s.len() - i,
{
    if i < s.len() {
        assert(s.contains(s[i]));
        lemma_find_none(s, c, i + 1);
    }
}

proof fn lemma_no_provider(s: Seq<char>)
    requires
        !contains_text(s, "::"@),
    ensures
        provider_and_rest(s) is None,
{
    reveal_strlit("::");
    reveal_strlit("github::");
    reveal_strlit("forgejo::");
    reveal_strlit("gitlab::");
    if strip_prefix(s, "github::"@) is Some {
        assert(s.subrange(0, 8)[6] == ':' && s.subrange(0, 8)[7] == ':');
        assert(s.subrange(6, 8) == "::"@);
        assert(stands_at(s, "::"@, 6));
    }
    if strip_prefix(s, "forgejo::"@) is Some {
        assert(s.subrange(0, 9)[7] == ':' && s.subrange(0, 9)[8] == ':');
        assert(s.subrange(7, 9) == "::"@);
        assert(stands_at(s, "::"@, 7));
    }
    if strip_prefix(s, "gitlab::"@) is Some {
        assert(s.subrange(0, 8)[6] == ':' && s.subrange(0, 8)[7] == ':');
        assert(s.subrange(6, 8) == "::"@);
        assert(stands_at(s, "::"@, 6));
    }
}

/// The prefix of a provider.
pub open spec fn prefix_of(p: RemoteProvider) -> Seq<char> {
    match p {
        RemoteProvider::GitHub => "github::"@,
        RemoteProvider::Forgejo => "forgejo::"@,
        RemoteProvider::Gitlab => "gitlab::"@,
    }
}

proof fn lemma_provider(p: RemoteProvider, body: Seq<char>)
    ensures
        provider_and_rest(prefix_of(p) + body) == Some((p, body)),
{
    reveal_strlit("github::");
    reveal_strlit("forgejo::");
    reveal_strlit("gitlab::");
    let s = prefix_of(p) + body;
    stripping_undoes_adding(prefix_of(p), body);
    assert(s[0] == prefix_of(p)[0] && s[2] == prefix_of(p)[2]);
    if p is Forgejo || p is Gitlab {
        if strip_prefix(s, "github::"@) is Some {
            assert(s.subrange(0, 8)[0] == 'g' && s.subrange(0, 8)[3] == 'h');
            assert(s[3] == prefix_of(p)[3]);
        }
    }
    if p is Gitlab {
        if strip_prefix(s, "forgejo::"@) is Some {
            assert(s.subrange(0, 9)[0] == 'f');
        }
    }
}

proof fn lemma_name_is_plain(name: Seq<char>, c: char)
    requires
        is_package_name(name),
        !(crate::text::is_alphanumeric(c) || c == '.'),
    ensures
        !name.contains(c),
{
    if name.contains(c) {
        let i = choose|i: int| 0 <= i < name.len() && name[i] == c;
        assert(crate::text::is_alphanumeric(name[i]) || name[i] == '.');
    }
}

proof fn lemma_alias(name: Seq<char>, target: Seq<char>)
    requires
        is_package_name(name),
        is_trimmed(target),
        target.contains('/'),
    ensures
        alias_and_target(name + seq!['='] + target) == Ok::<(Option<Seq<char>>, Seq<char>), Seq<char>>((Some(name), target)),
        !target.contains('=') ==> alias_and_target(target) == Ok::<(Option<Seq<char>>, Seq<char>), Seq<char>>((None, target)),
{
    lemma_name_is_plain(name, '=');
    lemma_name_is_plain(name, '/');
    cutting_undoes_joining(name, target, '=');
    lemma_trimmed(target);
    assert(is_trimmed(name)) by {
        assert(crate::text::is_alphanumeric(name[0]) || name[0] == '.');
        assert(crate::text::is_alphanumeric(name[name.len() - 1]) || name[name.len() - 1] == '.');
    }
    lemma_trimmed(name);
    if !target.contains('=') {
        lemma_uncut(target, '=');
    }
}

/// An entry names a target, in front of it, if at all, the provider, and in front of the
/// target, if at all, the name of the package and an equals sign. Without a provider the
/// target is on GitHub.
#[verifier::rlimit(40)]
pub proof fn entries_name_provider_and_package(p: RemoteProvider, name: Seq<char>, target: Seq<char>)
    requires
        is_package_name(name),
        is_trimmed(target),
        target.contains('/'),
        !target.contains('='),
        !contains_text(target, "::"@),
    ensures
        entry_parts(target) == Ok::<_, Seq<char>>(Some((RemoteProvider::GitHub, target, None::<Seq<char>>))),
        entry_parts(name + seq!['='] + target) == Ok::<_, Seq<char>>(Some((RemoteProvider::GitHub, target, Some(name)))),
        entry_parts(prefix_of(p) + target) == Ok::<_, Seq<char>>(Some((p, target, None::<Seq<char>>))),
        entry_parts(prefix_of(p) + (name + seq!['='] + target)) == Ok::<_, Seq<char>>(Some((p, target, Some(name)))),
        entry_parts(name + seq!['='] + (prefix_of(p) + target)) == Ok::<_, Seq<char>>(Some((p, target, Some(name)))),
{
    reveal_strlit("::");
    reveal_strlit("github::");
    reveal_strlit("forgejo::");
    reveal_strlit("gitlab::");
    lemma_no_provider(target);
    lemma_provider(p, target);
    lemma_provider(p, name + seq!['='] + target);
    lemma_alias(name, target);
    let named = name + seq!['='] + target;
    lemma_name_is_plain(name, ':');
    assert(!contains_text(named, "::"@)) by {
        if contains_text(named, "::"@) {
            let i = choose|i: int| #[trigger] stands_at(named, "::"@, i);
            assert(named.subrange(i, i + 2)[0] == ':' && named.subrange(i, i + 2)[1] == ':');
            assert(named[i] == ':' && named[i + 1] == ':');
            if i < name.len() {
                assert(name[i] == ':');
            }
            let k = i - name.len() - 1;
            assert(k >= 0);
            assert(target[k] == ':' && target[k + 1] == ':');
            assert(target.subrange(k, k + 2) == "::"@);
            assert(stands_at(target, "::"@, k));
        }
    }
    lemma_no_provider(named);
    let full = prefix_of(p) + target;
    assert(is_trimmed(full)) by {
        assert(full[0] == prefix_of(p)[0]);
        assert(full.last() == target.last());
    }
    assert(full.contains('/')) by {
        let i = choose|i: int| 0 <= i < target.len() && target[i] == '/';
        assert(full[prefix_of(p).len() + i] == '/');
    }
    lemma_alias(name, full);
    let both = name + seq!['='] + full;
    assert(provider_and_rest(both) is None) by {
        lemma_no_prefix_before_equals(name, full);
    }
}

#[verifier::rlimit(40)]
proof fn lemma_no_prefix_before_equals(name: Seq<char>, rest: Seq<char>)
    requires
        is_package_name(name),
    ensures
        provider_and_rest(name + seq!['='] + rest) is None,
{
    reveal_strlit("github::");
    reveal_strlit("forgejo::");
    reveal_strlit("gitlab::");
    let s = name + seq!['='] + rest;
    lemma_name_is_plain(name, ':');
    let n = name.len() as int;
    assert(s[n] == '=');
    assert forall|i: int| 0 <= i <= n implies #[trigger] s[i] != ':' by {
        if i < n {
            assert(name.contains(name[i]));
        }
    }
    if strip_prefix(s, "github::"@) is Some {
        let q = s.subrange(0, 8);
        assert(q == "github::"@ && "github::"@[6] == ':');
        assert(q[6] == ':' && s[6] == ':');
        if n < 6 {
            assert(q[n] == '=' && q[n] == "github::"@[n]);
        }
    }
    if strip_prefix(s, "forgejo::"@) is Some {
        let q = s.subrange(0, 9);
        assert(q == "forgejo::"@ && "forgejo::"@[7] == ':');
        assert(q[7] == ':' && s[7] == ':');
        if n < 7 {
            assert(q[n] == '=' && q[n] == "forgejo::"@[n]);
        }
    }
    if strip_prefix(s, "gitlab::"@) is Some {
        let q = s.subrange(0, 8);
        assert(q == "gitlab::"@ && "gitlab::"@[6] == ':');
        assert(q[6] == ':' && s[6] == ':');
        if n < 6 {
            assert(q[n] == '=' && q[n] == "gitlab::"@[n]);
        }
    }
}

proof fn lemma_segment_has_no(s: Seq<char>, c: char)
    requires
        is_segment(s),
        !is_segment_char(c),
    ensures
        !s.contains(c),
{
    if s.contains(c) {
        let i = choose|i: int| 0 <= i < s.len() && s[i] == c;
        assert(is_segment_char(s[i]));
    }
}

proof fn lemma_ref_has_no(s: Seq<char>, c: char)
    requires
        is_git_ref(s),
        !is_ref_char(c),
    ensures
        !s.contains(c),
{
    if s.contains(c) {
        let i = choose|i: int| 0 <= i < s.len() && s[i] == c;
        assert(is_ref_char(s[i]));
    }
}

proof fn lemma_joined_has_no(a: Seq<char>, b: Seq<char>, sep: char, c: char)
    requires
        !a.contains(c),
        !b.contains(c),
        sep != c,
    ensures
        !(a + seq![sep] + b).contains(c),
{
    let w = a + seq![sep] + b;
    if w.contains(c) {
        let i = choose|i: int| 0 <= i < w.len() && w[i] == c;
        if i < a.len() {
            assert(a[i] == c);
        } else if i > a.len() {
            assert(b[i - a.len() - 1] == c);
        }
    }
}

proof fn lemma_path_and_ref(path: Seq<char>, git_ref: Seq<char>)
    requires
        is_trimmed(path),
        !path.contains('@'),
        !path.contains('#'),
        is_git_ref(git_ref),
    ensures
        path_and_ref(path) == Some((path, None::<Seq<char>>)),
        path_and_ref(path + seq!['@'] + git_ref) == Some((path, Some(git_ref))),
        !(path + seq!['@'] + git_ref).contains('#'),
{
    lemma_trimmed(path);
    lemma_uncut(path, '@');
    cutting_undoes_joining(path, git_ref, '@');
    assert(is_trimmed(git_ref)) by {
        assert(is_ref_char(git_ref[0]));
        assert(is_ref_char(git_ref[git_ref.len() - 1]));
    }
    lemma_trimmed(git_ref);
    lemma_ref_has_no(git_ref, '#');
    lemma_joined_has_no(path, git_ref, '@', '#');
}

proof fn lemma_repository_path(owner: Seq<char>, repo: Seq<char>)
    requires
        is_segment(owner),
        is_segment(repo),
    ensures
        is_trimmed(owner + seq!['/'] + repo),
        !(owner + seq!['/'] + repo).contains('@'),
        !(owner + seq!['/'] + repo).contains('#'),
        split_once(owner + seq!['/'] + repo, '/') == Some((owner, repo)),
{
    let path = owner + seq!['/'] + repo;
    lemma_segment_has_no(owner, '@');
    lemma_segment_has_no(owner, '#');
    lemma_segment_has_no(owner, '/');
    lemma_segment_has_no(repo, '@');
    lemma_segment_has_no(repo, '#');
    lemma_joined_has_no(owner, repo, '/', '@');
    lemma_joined_has_no(owner, repo, '/', '#');
    cutting_undoes_joining(owner, repo, '/');
    assert(path[0] == owner[0]);
    assert(path.last() == repo[repo.len() - 1]);
    assert(is_segment_char(owner[0]));
    assert(is_segment_char(repo[repo.len() - 1]));
}

/// A target on GitHub is an owner and a repository, and behind an at sign the revision.
/// The package goes by the name that it is given, or by that of the repository.
pub proof fn github_targets_are_followed(entry: Seq<char>, owner: Seq<char>, repo: Seq<char>, git_ref: Seq<char>, name: Option<Seq<char>>)
    requires
        is_segment(owner),
        is_segment(repo),
        is_git_ref(git_ref),
    ensures
        ({
            let path = owner + seq!['/'] + repo;
            let s = RemoteView {
                name: match name {
                    Some(n) => n,
                    None => repo,
                },
                explicit_name: name is Some,
                provider: RemoteProvider::GitHub,
                repository: path,
                requested_ref: None,
                subdirectory: None,
            };
            &&& github_remote(entry, path, name) == Some(RemoteEntryView::Source(s))
            &&& github_remote(entry, path + seq!['@'] + git_ref, name) == Some(
                RemoteEntryView::Source(RemoteView { requested_ref: Some(git_ref), ..s }),
            )
        }),
{
    reveal_strlit("/");
    assert("/"@ == seq!['/']);
    let path = owner + seq!['/'] + repo;
    lemma_repository_path(owner, repo);
    lemma_path_and_ref(path, git_ref);
    lemma_segment_has_no(repo, '/');
    lemma_segment_has_no(repo, ':');
    lemma_segment_has_no(owner, '/');
    lemma_segment_has_no(owner, '@');
    lemma_segment_has_no(repo, '@');
    lemma_uncut(repo, '/');
    lemma_uncut(repo, ':');
    repositories_are_owner_and_name(owner, repo, git_ref);
}

/// Behind the repository a directory in it may follow, behind a colon or a slash; the
/// package then goes by the last part of the directory, unless it is given a name.
#[verifier::rlimit(40)]
pub proof fn directories_are_followed(
    entry: Seq<char>,
    owner: Seq<char>,
    repo: Seq<char>,
    dir: Seq<char>,
    git_ref: Seq<char>,
    name: Option<Seq<char>>,
)
    requires
        is_segment(owner),
        is_segment(repo),
        is_git_ref(git_ref),
        is_subdirectory(dir),
        is_trimmed(dir),
        !dir.contains('@'),
        !dir.contains('#'),
        !dir.contains(':'),
    ensures
        ({
            let s = RemoteView {
                name: match name {
                    Some(n) => n,
                    None => split(dir, '/').last(),
                },
                explicit_name: name is Some,
                provider: RemoteProvider::GitHub,
                repository: owner + seq!['/'] + repo,
                requested_ref: None,
                subdirectory: Some(dir),
            };
            let at = RemoteView { requested_ref: Some(git_ref), ..s };
            let colon = owner + seq!['/'] + (repo + seq![':'] + dir);
            let slash = owner + seq!['/'] + (repo + seq!['/'] + dir);
            &&& github_remote(entry, colon, name) == Some(RemoteEntryView::Source(s))
            &&& github_remote(entry, slash, name) == Some(RemoteEntryView::Source(s))
            &&& github_remote(entry, colon + seq!['@'] + git_ref, name) == Some(RemoteEntryView::Source(at))
            &&& github_remote(entry, slash + seq!['@'] + git_ref, name) == Some(RemoteEntryView::Source(at))
        }),
{
    reveal_strlit("/");
    assert("/"@ == seq!['/']);
    lemma_segment_has_no(owner, '@');
    lemma_segment_has_no(owner, '#');
    lemma_segment_has_no(owner, '/');
    lemma_segment_has_no(repo, '@');
    lemma_segment_has_no(repo, '#');
    lemma_segment_has_no(repo, '/');
    lemma_segment_has_no(repo, ':');
    repositories_are_owner_and_name(owner, repo, git_ref);
    let t = repo + seq![':'] + dir;
    let u = repo + seq!['/'] + dir;
    let colon = owner + seq!['/'] + t;
    let slash = owner + seq!['/'] + u;
    lemma_joined_has_no(repo, dir, ':', '@');
    lemma_joined_has_no(repo, dir, ':', '#');
    lemma_joined_has_no(repo, dir, '/', '@');
    lemma_joined_has_no(repo, dir, '/', '#');
    lemma_joined_has_no(repo, dir, '/', ':');
    lemma_joined_has_no(owner, t, '/', '@');
    lemma_joined_has_no(owner, t, '/', '#');
    lemma_joined_has_no(owner, u, '/', '@');
    lemma_joined_has_no(owner, u, '/', '#');
    assert(is_segment_char(owner[0]));
    assert(colon[0] == owner[0] && slash[0] == owner[0]);
    assert(colon.last() == dir.last() && slash.last() == dir.last());
    lemma_path_and_ref(colon, git_ref);
    lemma_path_and_ref(slash, git_ref);
    cutting_undoes_joining(owner, t, '/');
    cutting_undoes_joining(owner, u, '/');
    cutting_undoes_joining(repo, dir, ':');
    cutting_undoes_joining(repo, dir, '/');
    lemma_uncut(u, ':');
    assert(repo_and_directory(t) == Some((repo, Some(dir))));
    assert(repo_and_directory(u) == Some((repo, Some(dir))));
}

/// A target on a Forgejo host is the host, the owner and the repository, and behind an at
/// sign the revision.
#[verifier::rlimit(40)]
pub proof fn forgejo_targets_are_followed(
    entry: Seq<char>,
    host: Seq<char>,
    owner: Seq<char>,
    repo: Seq<char>,
    git_ref: Seq<char>,
    name: Option<Seq<char>>,
)
    requires
        is_host(host),
        !host.contains(':'),
        is_segment(owner),
        is_segment(repo),
        is_git_ref(git_ref),
    ensures
        ({
            let path = host + seq!['/'] + owner + seq!['/'] + repo;
            let s = RemoteView {
                name: match name {
                    Some(n) => n,
                    None => repo,
                },
                explicit_name: name is Some,
                provider: RemoteProvider::Forgejo,
                repository: path,
                requested_ref: None,
                subdirectory: None,
            };
            &&& forgejo_remote(entry, path, name) == RemoteEntryView::Source(s)
            &&& forgejo_remote(entry, path + seq!['@'] + git_ref, name) == RemoteEntryView::Source(
                RemoteView { requested_ref: Some(git_ref), ..s },
            )
        }),
{
    reveal_strlit("/");
    assert("/"@ == seq!['/']);
    let two = host + seq!['/'] + owner;
    let path = two + seq!['/'] + repo;
    lemma_segment_has_no(owner, '@');
    lemma_segment_has_no(owner, '#');
    lemma_segment_has_no(repo, '@');
    lemma_segment_has_no(repo, '#');
    assert(!host.contains('@') && !host.contains('#')) by {
        if host.contains('@') {
            let i = choose|i: int| 0 <= i < host.len() && host[i] == '@';
            assert(is_host_char(host[i]));
        }
        if host.contains('#') {
            let i = choose|i: int| 0 <= i < host.len() && host[i] == '#';
            assert(is_host_char(host[i]));
        }
    }
    lemma_joined_has_no(host, owner, '/', '@');
    lemma_joined_has_no(two, repo, '/', '@');
    lemma_joined_has_no(host, owner, '/', '#');
    lemma_joined_has_no(two, repo, '/', '#');
    assert(is_host_char(host[0]));
    assert(path[0] == host[0]);
    assert(path.last() == repo[repo.len() - 1]);
    assert(is_segment_char(repo[repo.len() - 1]));
    lemma_path_and_ref(path, git_ref);
    lemma_ref_has_no(git_ref, '@');
    lemma_ref_has_no(git_ref, ':');
    forgejo_address_is_read(host, owner, repo, git_ref);
}

/// A target on a GitLab host is the host, the groups and the project, and behind an at sign
/// the revision. A directory within the project is not supported.
#[verifier::rlimit(40)]
pub proof fn gitlab_targets_are_followed(
    entry: Seq<char>,
    host: Seq<char>,
    group: Seq<char>,
    project: Seq<char>,
    git_ref: Seq<char>,
    name: Option<Seq<char>>,
)
    requires
        is_host(host),
        !host.contains(':'),
        is_project_path(group) || is_gitlab_segment(group),
        is_gitlab_segment(project),
        is_git_ref(git_ref),
    ensures
        ({
            let path = host + seq!['/'] + (group + seq!['/'] + project);
            let s = RemoteView {
                name: match name {
                    Some(n) => n,
                    None => project,
                },
                explicit_name: name is Some,
                provider: RemoteProvider::Gitlab,
                repository: path,
                requested_ref: None,
                subdirectory: None,
            };
            &&& !contains_text(path, "/-/"@) ==> gitlab_remote(entry, path, name) == RemoteEntryView::Source(s)
            &&& !contains_text(path, "/-/"@) ==> gitlab_remote(entry, path + seq!['@'] + git_ref, name)
                == RemoteEntryView::Source(RemoteView { requested_ref: Some(git_ref), ..s })
            &&& contains_text(path, "/-/"@) ==> gitlab_remote(entry, path, name) is Unsupported
        }),
{
    reveal_strlit("/");
    assert("/"@ == seq!['/']);
    let whole = group + seq!['/'] + project;
    let path = host + seq!['/'] + whole;
    lemma_segment_has_no(project, '@');
    lemma_segment_has_no(project, '#');
    groups_have_plain_names(group, '@');
    groups_have_plain_names(group, '#');
    assert(!host.contains('@') && !host.contains('#')) by {
        if host.contains('@') {
            let i = choose|i: int| 0 <= i < host.len() && host[i] == '@';
            assert(is_host_char(host[i]));
        }
        if host.contains('#') {
            let i = choose|i: int| 0 <= i < host.len() && host[i] == '#';
            assert(is_host_char(host[i]));
        }
    }
    lemma_joined_has_no(group, project, '/', '@');
    lemma_joined_has_no(host, whole, '/', '@');
    lemma_joined_has_no(group, project, '/', '#');
    lemma_joined_has_no(host, whole, '/', '#');
    assert(is_host_char(host[0]));
    assert(path[0] == host[0]);
    assert(path.last() == project[project.len() - 1]);
    assert(is_segment_char(project[project.len() - 1]));
    lemma_path_and_ref(path, git_ref);
    lemma_ref_has_no(git_ref, '@');
    lemma_ref_has_no(git_ref, ':');
    lemma_trimmed(path);
    assert(path_of(path) == path && path_of(path + seq!['@'] + git_ref) == path) by {
        let at = path + seq!['@'] + git_ref;
        lemma_find_none(path, '@', 0);
        lemma_find_none(path, '#', 0);
        lemma_find_none(at, '#', 0);
        lemma_find_first(path, git_ref, '@', 0);
        assert(path.take(path.len() as int) == path);
        assert(at.take(path.len() as int) == path);
    }
    gitlab_address_is_read(host, group, project, git_ref);
}

/// What a remote is called in a manifest tells its provider, and its repository without
/// loss.
pub proof fn providers_are_told_apart(s: RemoteView)
    ensures
        s.provider is GitHub ==> git_spec_of(s) == s.repository,
        !(s.provider is GitHub) ==> provider_and_rest(git_spec_of(s)) == Some((s.provider, s.repository)),
        target_of(s) == git_spec_of(s) + (if s.subdirectory is Some {
            seq![':'] + s.subdirectory->0
        } else {
            seq![]
        }) + (if s.requested_ref is Some {
            seq!['@'] + s.requested_ref->0
        } else {
            seq![]
        }),
        ({
            let d = dependency_on(s);
            &&& d.git == Some(git_spec_of(s))
            &&& d.rev == s.requested_ref
            &&& d.subdirectory == s.subdirectory
            &&& d.exact == s.explicit_name
            &&& d.version is None
            &&& d.bioc is None
        }),
{
    reveal_strlit(":");
    reveal_strlit("@");
    assert(":"@ == seq![':']);
    assert("@"@ == seq!['@']);
    if !(s.provider is GitHub) {
        lemma_provider(s.provider, s.repository);
    }
}

proof fn lemma_remotes_concat(a: Seq<Seq<char>>, b: Seq<Seq<char>>)
    ensures
        remotes_of(a + b) == remotes_of(a) + remotes_of(b),
    decreases b.len(),
{
    if b.len() == 0 {
        assert(a + b == a);
        assert(remotes_of(b) == Seq::<RemoteEntryView>::empty());
    } else {
        assert((a + b).drop_last() == a + b.drop_last());
        lemma_remotes_concat(a, b.drop_last());
        assert(remotes_of(a + b) == remotes_of(a) + remotes_of(b));
    }
}

/// A field names the remotes in front of a comma and those behind it; blank entries name
/// none, and white space round an entry does not count.
#[verifier::rlimit(40)]
pub proof fn commas_part_remotes(a: Seq<char>, b: Seq<char>, x: Seq<char>, t: Seq<char>, y: Seq<char>)
    requires
        is_blank(x),
        is_blank(y),
        is_trimmed(t),
        !t.contains(','),
    ensures
        remotes_of(split(a + seq![','] + b, ',')) == remotes_of(split(a, ',')) + remotes_of(split(b, ',')),
        remotes_of(split(x, ',')).len() == 0,
        remotes_of(split(x + t + y, ',')) == (match remote_of(t) {
            Some(e) => seq![e],
            None => seq![],
        }),
{
    pieces_of_both(a, b, ',');
    lemma_remotes_concat(split(a, ','), split(b, ','));
    lemma_blank_has_no_comma(x);
    lemma_blank_has_no_comma(y);
    let e = Seq::<Seq<char>>::empty();
    assert(remotes_of(e) == Seq::<RemoteEntryView>::empty());
    plain_text_is_one_piece(x, ',');
    nothing_is_left_of_space(x);
    assert(seq![x].drop_last() == e);
    let w = x + t + y;
    assert(!w.contains(',')) by {
        if w.contains(',') {
            let i = choose|i: int| 0 <= i < w.len() && w[i] == ',';
            if i < x.len() {
                assert(x[i] == ',');
            } else if i < x.len() + t.len() {
                assert(t[i - x.len()] == ',');
            } else {
                assert(y[i - x.len() - t.len()] == ',');
            }
        }
    }
    plain_text_is_one_piece(w, ',');
    assert(seq![w].drop_last() == e);
    assert(seq![w].last() == w);
    trimming_undoes_padding(x, t, y);
    if let Some(r) = remote_of(t) {
        assert(remotes_of(seq![w]) == seq![r]);
    } else {
        assert(remotes_of(seq![w]) == Seq::<RemoteEntryView>::empty());
    }
}

proof fn lemma_blank_has_no_comma(x: Seq<char>)
    requires
        is_blank(x),
    ensures
        !x.contains(','),
{
    if x.contains(',') {
        let i = choose|i: int| 0 <= i < x.len() && x[i] == ',';
        assert(is_whitespace(x[i]));
    }
}

/// The entries that can be followed are followed, in their order, and the others are not.
pub proof fn sources_are_followed(entries: Seq<RemoteEntryView>, s: RemoteView, entry: Seq<char>, reason: Seq<char>, bound: bool)
    ensures
        followed(entries.push(RemoteEntryView::Source(s))) == followed(entries).push(
            (s.name, SpecView::Detailed(dependency_on(s))),
        ),
        followed(entries.push(RemoteEntryView::Unsupported { entry, reason, bound })) == followed(entries),
        followed(Seq::<RemoteEntryView>::empty()).len() == 0,
{
    assert(entries.push(RemoteEntryView::Source(s)).drop_last() == entries);
    assert(entries.push(RemoteEntryView::Unsupported { entry, reason, bound }).drop_last() == entries);
}

/// Remotes have the older form if none is in a directory and none that cannot be followed
/// is bound; else that is an error. Those that are not bound are passed over.
pub proof fn older_form_of_remotes(entries: Seq<RemoteEntryView>, s: RemoteView, entry: Seq<char>, reason: Seq<char>)
    ensures
        compatible(Seq::<RemoteEntryView>::empty()) == Ok::<Seq<TupleView>, ErrorView>(seq![]),
        compatible(entries) is Err ==> compatible(entries.push(RemoteEntryView::Source(s))) is Err,
        compatible(entries) matches Ok(front) ==> {
            &&& s.subdirectory is None ==> compatible(entries.push(RemoteEntryView::Source(s))) == Ok::<Seq<TupleView>, ErrorView>(
                front.push((s.name, git_spec_of(s), s.requested_ref)),
            )
            &&& s.subdirectory is Some ==> compatible(entries.push(RemoteEntryView::Source(s))) is Err
            &&& compatible(entries.push(RemoteEntryView::Unsupported { entry, reason, bound: false })) == Ok::<
                Seq<TupleView>,
                ErrorView,
            >(front)
            &&& compatible(entries.push(RemoteEntryView::Unsupported { entry, reason, bound: true })) is Err
        },
{
    assert(entries.push(RemoteEntryView::Source(s)).drop_last() == entries);
    assert(entries.push(RemoteEntryView::Unsupported { entry, reason, bound: false }).drop_last() == entries);
    assert(entries.push(RemoteEntryView::Unsupported { entry, reason, bound: true }).drop_last() == entries);
}

} // verus!

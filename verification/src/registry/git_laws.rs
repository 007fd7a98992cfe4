//! What the addresses of repositories and the descriptions in them say.
use vstd::prelude::*;

use super::cran::{dep_field, deps_in};
use super::cran_laws::only_base_packages_are_left_out;
use super::forgejo::{forgejo_parts, git_bearing, is_host, token_in, token_variable_name, ForgejoView};
use super::github::{
    description_deps, github_parts, is_git_ref, is_ref_char, is_repo_spec, is_repository, is_segment,
    is_segment_char, package_at_commit, stated_version,
};
use super::gitlab::{gitlab_parts, is_gitlab_segment, is_project_path, GitlabView};
use super::DepView;
use crate::lockfile::SourceView;
use crate::manifest::remotes::TupleView;
use crate::manifest::SpecView;
use crate::resolver::solve::{is_base, non_base};
use crate::text::{contains_text, is_alphanumeric, split, split_once, stands_at, starts_with, strip_prefix};
use crate::text_laws::{
    cuts_are_at_the_ends, cutting_undoes_joining, is_blank, nothing_is_left_of_space,
    pieces_make_the_text, pieces_of_both, plain_text_is_one_piece, stripping_undoes_adding,
    trimming_undoes_padding,
};
use crate::version::VersionView;

verus! {

/// An address names the user in front of the first slash, the repository behind it, and
/// the revision behind the last at sign; without one it is that of the newest revision.
pub proof fn github_address_is_read(user: Seq<char>, repo: Seq<char>, git_ref: Seq<char>)
    requires
        !user.contains('/'),
        !git_ref.contains('@'),
    ensures
        github_parts(user + seq!['/'] + repo + seq!['@'] + git_ref) == Some((user, repo, git_ref)),
        !user.contains('@') && !repo.contains('@') ==> github_parts(user + seq!['/'] + repo) == Some((user, repo, "HEAD"@)),
        !user.contains('@') ==> github_parts(user) is None,
{
    let path = user + seq!['/'] + repo;
    cutting_undoes_joining(path, git_ref, '@');
    cutting_undoes_joining(user, repo, '/');
    if !user.contains('@') && !repo.contains('@') {
        lemma_not_in_joined(user, repo, '/', '@');
        lemma_uncut(path, '@');
    }
    if !user.contains('@') {
        lemma_uncut(user, '@');
        lemma_uncut(user, '/');
    }
}

proof fn lemma_uncut(s: Seq<char>, c: char)
    requires
        !s.contains(c),
    ensures
        split_once(s, c) is None,
        crate::text::rsplit_once(s, c) is None,
{
    cuts_are_at_the_ends(s, c);
    if let Some((a, b)) = split_once(s, c) {
        assert(s[a.len() as int] == c);
    }
    if let Some((a, b)) = crate::text::rsplit_once(s, c) {
        assert(s[a.len() as int] == c);
    }
}

proof fn lemma_not_in_joined(a: Seq<char>, b: Seq<char>, sep: char, c: char)
    requires
        !a.contains(c),
        !b.contains(c),
        sep != c,
    ensures
        !(a + seq![sep] + b).contains(c),
{
    let w = a + seq![sep] + b;
    if w.contains(c) {
        let i = choose|i: int| 0 <= i < w.len() && w[i] == c;
        if i < a.len() {
            assert(a[i] == c);
        } else if i > a.len() {
            assert(b[i - a.len() - 1] == c);
        }
    }
}

proof fn lemma_segment_has_no(s: Seq<char>, c: char)
    requires
        is_segment(s),
        !is_segment_char(c),
    ensures
        !s.contains(c),
{
    if s.contains(c) {
        let i = choose|i: int| 0 <= i < s.len() && s[i] == c;
        assert(is_segment_char(s[i]));
    }
}

/// An owner and a repository between which a slash stands are a repository if and only if
/// both are plain names; behind an at sign a revision may follow. Names are made of ASCII
/// letters and digits, dots, hyphens and underscores.
pub proof fn repositories_are_owner_and_name(owner: Seq<char>, repo: Seq<char>, git_ref: Seq<char>)
    requires
        !owner.contains('/'),
        !owner.contains('@'),
        !repo.contains('/'),
        !repo.contains('@'),
    ensures
        is_repo_spec(owner + seq!['/'] + repo) <==> is_segment(owner) && is_segment(repo),
        is_repo_spec(owner + seq!['/'] + repo + seq!['@'] + git_ref) <==> is_segment(owner) && is_segment(repo) && is_git_ref(
            git_ref,
        ),
        !is_repo_spec(owner),
{
    let path = owner + seq!['/'] + repo;
    lemma_not_in_joined(owner, repo, '/', '@');
    lemma_uncut(path, '@');
    lemma_uncut(owner, '@');
    cutting_undoes_joining(path, git_ref, '@');
    pieces_of_both(owner, repo, '/');
    plain_text_is_one_piece(owner, '/');
    plain_text_is_one_piece(repo, '/');
    assert(split(path, '/') == seq![owner, repo]);
}

/// A name with one more part is none.
pub proof fn deeper_paths_are_no_repositories(a: Seq<char>, b: Seq<char>, c: Seq<char>)
    ensures
        !is_repository(a + seq!['/'] + b + seq!['/'] + c),
{
    let ab = a + seq!['/'] + b;
    pieces_of_both(a, b, '/');
    pieces_of_both(ab, c, '/');
    pieces_make_the_text(a, '/');
    pieces_make_the_text(b, '/');
    pieces_make_the_text(c, '/');
}

/// Two texts make a plain name together if and only if each is one, and one character is a
/// name if and only if it is a letter, a digit, a dot, a hyphen or an underscore.
pub proof fn names_are_made_of_plain_characters(a: Seq<char>, b: Seq<char>, c: char)
    requires
        a.len() > 0,
        b.len() > 0,
    ensures
        is_segment(a + b) <==> is_segment(a) && is_segment(b),
        is_segment(seq![c]) <==> is_alphanumeric(c) || c == '.' || c == '-' || c == '_',
        !is_segment(Seq::<char>::empty()),
{
    let w = a + b;
    if is_segment(w) {
        assert forall|i: int| 0 <= i < a.len() implies is_segment_char(#[trigger] a[i]) by {
            assert(is_segment_char(w[i]));
        }
        assert forall|i: int| 0 <= i < b.len() implies is_segment_char(#[trigger] b[i]) by {
            assert(is_segment_char(w[a.len() + i]));
        }
    }
    if is_segment(a) && is_segment(b) {
        assert forall|i: int| 0 <= i < w.len() implies is_segment_char(#[trigger] w[i]) by {
            if i < a.len() {
                assert(is_segment_char(a[i]));
            } else {
                assert(is_segment_char(b[i - a.len()]));
            }
        }
    }
    if is_segment(seq![c]) {
        assert(is_segment_char(seq![c][0]));
    }
}

/// A revision does not begin with a hyphen, has no two dots in a row, and holds nothing but
/// plain characters, slashes and plus signs; what is like that is a revision.
#[verifier::rlimit(40)]
pub proof fn revisions_are_harmless(s: Seq<char>, a: Seq<char>, b: Seq<char>, c: char)
    ensures
        !is_git_ref(Seq::<char>::empty()),
        !is_git_ref(seq!['-'] + s),
        !is_git_ref(a + seq!['.', '.'] + b),
        !(is_alphanumeric(c) || c == '.' || c == '-' || c == '_' || c == '/' || c == '+') ==> !is_git_ref(a + seq![c] + b),
        is_segment(s) && s[0] != '-' && !s.contains('.') ==> is_git_ref(s),
        is_git_ref(a) && is_git_ref(b) ==> is_git_ref(a + seq!['/'] + b),
{
    reveal_strlit("..");
    assert(".."@ == seq!['.', '.']);
    assert((seq!['-'] + s)[0] == '-');
    let w = a + seq!['.', '.'] + b;
    assert(w.subrange(a.len() as int, a.len() as int + 2) == ".."@);
    assert(stands_at(w, ".."@, a.len() as int));
    let v = a + seq![c] + b;
    assert(v[a.len() as int] == c);
    if is_git_ref(v) {
        assert(is_ref_char(v[a.len() as int]));
    }
    if is_segment(s) && s[0] != '-' && !s.contains('.') {
        if contains_text(s, ".."@) {
            let i = choose|i: int| #[trigger] stands_at(s, ".."@, i);
            assert(s.subrange(i, i + 2)[0] == '.');
            assert(s[i] == '.');
        }
        assert forall|i: int| 0 <= i < s.len() implies is_ref_char(#[trigger] s[i]) by {
            assert(is_segment_char(s[i]));
        }
    }
    if is_git_ref(a) && is_git_ref(b) {
        let u = a + seq!['/'] + b;
        assert(u[0] == a[0]);
        if contains_text(u, ".."@) {
            let i = choose|i: int| #[trigger] stands_at(u, ".."@, i);
            assert(u.subrange(i, i + 2)[0] == '.');
            assert(u.subrange(i, i + 2)[1] == '.');
            assert(u[i] == '.' && u[i + 1] == '.');
            if i + 1 < a.len() {
                assert(a.subrange(i, i + 2) == ".."@);
                assert(stands_at(a, ".."@, i));
            } else {
                let k = i - a.len() - 1;
                assert(k >= 0);
                assert(b[k] == '.' && b[k + 1] == '.');
                assert(b.subrange(k, k + 2) == ".."@);
                assert(stands_at(b, ".."@, k));
            }
        }
        assert forall|i: int| 0 <= i < u.len() implies is_ref_char(#[trigger] u[i]) by {
            if i < a.len() {
                assert(is_ref_char(a[i]));
            } else if i > a.len() {
                assert(is_ref_char(b[i - a.len() - 1]));
            }
        }
    }
}

proof fn lemma_no_prefix(s: Seq<char>, p: Seq<char>, c: char)
    requires
        p.contains(c),
        !s.contains(c),
    ensures
        strip_prefix(s, p) is None,
{
    if strip_prefix(s, p) is Some {
        let i = choose|i: int| 0 <= i < p.len() && p[i] == c;
        assert(s.subrange(0, p.len() as int)[i] == c);
        assert(s[i] == c);
    }
}

/// An address on a Forgejo host names the host, the owner and the repository, and behind
/// an at sign the revision; the prefix may be there or not.
#[verifier::rlimit(40)]
pub proof fn forgejo_address_is_read(host: Seq<char>, owner: Seq<char>, repo: Seq<char>, git_ref: Seq<char>)
    requires
        is_host(host),
        !host.contains(':'),
        is_segment(owner),
        is_segment(repo),
        git_ref.len() > 0,
        !git_ref.contains('@'),
        !git_ref.contains(':'),
    ensures
        ({
            let path = host + seq!['/'] + owner + seq!['/'] + repo;
            let plain = ForgejoView { host, owner, repo, git_ref: None };
            let at = ForgejoView { host, owner, repo, git_ref: Some(git_ref) };
            &&& forgejo_parts(path) == Some(plain)
            &&& forgejo_parts("forgejo::"@ + path) == Some(plain)
            &&& forgejo_parts(path + seq!['@']) == Some(plain)
            &&& forgejo_parts(path + seq!['@'] + git_ref) == Some(at)
            &&& forgejo_parts("forgejo::"@ + (path + seq!['@'] + git_ref)) == Some(at)
        }),
{
    reveal_strlit("forgejo::");
    let e = Seq::<char>::empty();
    let two = host + seq!['/'] + owner;
    let path = two + seq!['/'] + repo;
    lemma_segment_has_no(owner, '@');
    lemma_segment_has_no(owner, '/');
    lemma_segment_has_no(owner, ':');
    lemma_segment_has_no(repo, '@');
    lemma_segment_has_no(repo, '/');
    lemma_segment_has_no(repo, ':');
    lemma_host_has_no(host, '@');
    lemma_host_has_no(host, '/');
    lemma_not_in_joined(host, owner, '/', '@');
    lemma_not_in_joined(two, repo, '/', '@');
    lemma_not_in_joined(host, owner, '/', ':');
    lemma_not_in_joined(two, repo, '/', ':');
    lemma_not_in_joined(path, git_ref, '@', ':');
    lemma_not_in_joined(path, e, '@', ':');
    assert("forgejo::"@[7] == ':');
    lemma_no_prefix(path, "forgejo::"@, ':');
    lemma_no_prefix(path + seq!['@'] + e, "forgejo::"@, ':');
    lemma_no_prefix(path + seq!['@'] + git_ref, "forgejo::"@, ':');
    stripping_undoes_adding("forgejo::"@, path);
    stripping_undoes_adding("forgejo::"@, path + seq!['@'] + git_ref);
    lemma_uncut(path, '@');
    cutting_undoes_joining(path, git_ref, '@');
    cutting_undoes_joining(path, e, '@');
    assert(path + seq!['@'] + e == path + seq!['@']);
    plain_text_is_one_piece(host, '/');
    plain_text_is_one_piece(owner, '/');
    plain_text_is_one_piece(repo, '/');
    pieces_of_both(host, owner, '/');
    pieces_of_both(two, repo, '/');
    assert(split(path, '/') == seq![host, owner, repo]);
}

proof fn lemma_host_has_no(s: Seq<char>, c: char)
    requires
        is_host(s),
        !super::forgejo::is_host_char(c),
    ensures
        !s.contains(c),
{
    if s.contains(c) {
        let i = choose|i: int| 0 <= i < s.len() && s[i] == c;
        assert(super::forgejo::is_host_char(s[i]));
    }
}

/// What is read from an address on a Forgejo host is three parts that are a host and two
/// plain names.
pub proof fn only_forgejo_addresses_are_read(spec: Seq<char>)
    ensures
        forgejo_parts(spec) matches Some(f) ==> is_host(f.host) && is_segment(f.owner) && is_segment(f.repo) && (f.git_ref matches Some(
            r,
        ) ==> r.len() > 0 && !r.contains('@')),
{
    let body = match strip_prefix(spec, "forgejo::"@) {
        Some(b) => b,
        None => spec,
    };
    cuts_are_at_the_ends(body, '@');
}

/// An address on a GitLab host names the host, and behind the first slash the path of the
/// project, which has at least two parts; behind an at sign the revision.
#[verifier::rlimit(40)]
pub proof fn gitlab_address_is_read(host: Seq<char>, group: Seq<char>, project: Seq<char>, git_ref: Seq<char>)
    requires
        is_host(host),
        !host.contains(':'),
        is_project_path(group) || is_gitlab_segment(group),
        is_gitlab_segment(project),
        git_ref.len() > 0,
        !git_ref.contains('@'),
        !git_ref.contains(':'),
    ensures
        ({
            let whole = group + seq!['/'] + project;
            let path = host + seq!['/'] + whole;
            let plain = GitlabView { host, project_path: whole, git_ref: None };
            let at = GitlabView { host, project_path: whole, git_ref: Some(git_ref) };
            &&& gitlab_parts("gitlab::"@ + path) == Some(plain)
            &&& gitlab_parts(path) == Some(plain)
            &&& gitlab_parts("gitlab::"@ + (path + seq!['@'] + git_ref)) == Some(at)
            &&& split(whole, '/').last() == project
        }),
{
    let whole = group + seq!['/'] + project;
    let path = host + seq!['/'] + whole;
    stripping_undoes_adding("gitlab::"@, path);
    stripping_undoes_adding("gitlab::"@, path + seq!['@'] + git_ref);
    assert(!starts_with(path, "gitlab::"@)) by {
        reveal_strlit("gitlab::");
        if starts_with(path, "gitlab::"@) {
            let k = host.len() as int;
            assert(path.subrange(0, 8)[6] == ':');
            assert(path[k] == '/');
            if k < 8 {
                assert(path.subrange(0, 8)[k] == '/');
            }
            assert(host[6] == ':');
        }
    }
    lemma_segment_has_no(project, '/');
    lemma_segment_has_no(project, '@');
    lemma_host_has_no(host, '@');
    lemma_host_has_no(host, '/');
    pieces_of_both(group, project, '/');
    pieces_make_the_text(group, '/');
    plain_text_is_one_piece(project, '/');
    let s = split(whole, '/');
    let g = split(group, '/');
    assert(s == g + seq![project]);
    if !is_project_path(group) {
        lemma_segment_has_no(group, '/');
        plain_text_is_one_piece(group, '/');
    }
    assert forall|i: int| 0 <= i < s.len() implies is_gitlab_segment(#[trigger] s[i]) by {
        if i < g.len() {
            assert(s[i] == g[i]);
            assert(is_gitlab_segment(g[i]));
        }
    }
    groups_have_plain_names(group, '@');
    lemma_not_in_joined(group, project, '/', '@');
    lemma_not_in_joined(host, whole, '/', '@');
    lemma_uncut(path, '@');
    cutting_undoes_joining(path, git_ref, '@');
    cutting_undoes_joining(host, whole, '/');
}

/// A group of projects is named by plain characters and slashes.
pub proof fn groups_have_plain_names(group: Seq<char>, c: char)
    requires
        is_project_path(group) || is_gitlab_segment(group),
        !is_segment_char(c),
        c != '/',
    ensures
        !group.contains(c),
{
    if is_project_path(group) {
        let g = split(group, '/');
        assert forall|i: int| 0 <= i < g.len() implies !(#[trigger] g[i]).contains(c) by {
            assert(is_gitlab_segment(g[i]));
            lemma_segment_has_no(g[i], c);
        }
        pieces_make_the_text(group, '/');
        lemma_join_has_no(g, c);
    } else {
        lemma_segment_has_no(group, c);
    }
}

proof fn lemma_join_has_no(parts: Seq<Seq<char>>, c: char)
    requires
        c != '/',
        forall|i: int| 0 <= i < parts.len() ==> !(#[trigger] parts[i]).contains(c),
    ensures
        !crate::text::join(parts, seq!['/']).contains(c),
    decreases parts.len(),
{
    if parts.len() > 1 {
        let front = parts.drop_last();
        assert forall|i: int| 0 <= i < front.len() implies !(#[trigger] front[i]).contains(c) by {
            assert(front[i] == parts[i]);
        }
        lemma_join_has_no(front, c);
        assert(!parts[parts.len() - 1].contains(c));
        lemma_not_in_joined(crate::text::join(front, seq!['/']), parts.last(), '/', c);
    } else if parts.len() == 1 {
        assert(!parts[0].contains(c));
    }
}

/// What is read from an address on a GitLab host is a host and a path of at least two
/// parts, none of which is a hyphen.
pub proof fn only_gitlab_addresses_are_read(spec: Seq<char>)
    ensures
        gitlab_parts(spec) matches Some(g) ==> is_host(g.host) && split(g.project_path, '/').len() >= 2 && (forall|i: int|
            0 <= i < split(g.project_path, '/').len() ==> is_segment(#[trigger] split(g.project_path, '/')[i]) && split(
                g.project_path,
                '/',
            )[i] != "-"@),
{
    if let Some(g) = gitlab_parts(spec) {
        let s = split(g.project_path, '/');
        assert forall|i: int| 0 <= i < s.len() implies is_segment(#[trigger] s[i]) && s[i] != "-"@ by {
            assert(is_gitlab_segment(s[i]));
        }
    }
}

/// A package at a commit needs what its description imports and depends on, but for what
/// comes with R, and nothing else.
#[verifier::rlimit(40)]
pub proof fn description_states_what_is_needed(fields: Map<Seq<char>, Seq<char>>, d: DepView)
    ensures
        description_deps(fields).contains(d) <==> !is_base(d.name) && ((fields.contains_key("Imports"@) && dep_field(
            fields["Imports"@],
        ).contains(d)) || (fields.contains_key("Depends"@) && dep_field(fields["Depends"@]).contains(d))),
{
    let a = deps_in(fields, "Imports"@);
    let b = deps_in(fields, "Depends"@);
    only_base_packages_are_left_out(a);
    only_base_packages_are_left_out(b);
    let x = non_base(a);
    let y = non_base(b);
    if x.contains(d) {
        let i = choose|i: int| 0 <= i < x.len() && x[i] == d;
        assert((x + y)[i] == d);
    }
    if y.contains(d) {
        let i = choose|i: int| 0 <= i < y.len() && y[i] == d;
        assert((x + y)[x.len() + i] == d);
    }
    if (x + y).contains(d) {
        let i = choose|i: int| 0 <= i < (x + y).len() && (x + y)[i] == d;
        if i < x.len() {
            assert(x[i] == d);
        } else {
            assert(y[i - x.len()] == d);
        }
    }
    assert(x.contains(d) <==> a.contains(d) && !is_base(d.name));
    assert(y.contains(d) <==> b.contains(d) && !is_base(d.name));
}

/// A package at a commit goes by the name in its description, or by that of the
/// repository; its checksum is the commit; and where its version is absent or cannot be
/// read, it is zero.
pub proof fn package_at_a_commit(fields: Map<Seq<char>, Seq<char>>, v: VersionView, why: Seq<char>, repo: Seq<char>, source: SourceView, commit: Seq<char>, url: Seq<char>)
    ensures
        ({
            let p = package_at_commit(fields, Ok(v), repo, source, commit, url);
            let q = package_at_commit(fields, Err(why), repo, source, commit, url);
            &&& fields.contains_key("Package"@) ==> p.name == fields["Package"@]
            &&& !fields.contains_key("Package"@) ==> p.name == repo
            &&& p.version == v
            &&& q.version.major == 0 && q.version.minor == 0 && q.version.patch == 0 && q.version.pre.len() == 0
                && q.version.build.len() == 0
            &&& p.source == source
            &&& p.url == url
            &&& p.checksum is Some && strip_prefix(p.checksum->0, "git:"@) == Some(commit)
            &&& p.raw_version is None
            &&& p.system_requirements is None
            &&& p.requires == description_deps(fields)
        }),
        fields.contains_key("Version"@) ==> stated_version(fields) == fields["Version"@],
        !fields.contains_key("Version"@) ==> stated_version(fields) == "0.0.0"@,
{
    stripping_undoes_adding("git:"@, commit);
}

/// The variable for the token of a host does not depend on the port. Each letter of the
/// host stands in it as a capital, and dots and hyphens as underscores.
pub proof fn token_variable_of_a_host(host: Seq<char>, port: Seq<char>)
    requires
        !host.contains(':'),
    ensures
        token_variable_name(host + seq![':'] + port) == token_variable_name(host),
        ({
            let v = strip_prefix(token_variable_name(host), "UVR_FORGEJO_TOKEN_"@);
            &&& v is Some
            &&& v->0.len() == host.len()
            &&& forall|i: int|
                0 <= i < host.len() ==> {
                    let c = #[trigger] host[i];
                    &&& c == '.' || c == '-' ==> v->0[i] == '_'
                    &&& 'a' <= c <= 'z' ==> v->0[i] as u32 + 32 == c as u32
                    &&& !(c == '.' || c == '-' || 'a' <= c <= 'z') ==> v->0[i] == c
                }
        }),
{
    plain_text_is_one_piece(host, ':');
    pieces_of_both(host, port, ':');
    pieces_make_the_text(port, ':');
    assert(split(host + seq![':'] + port, ':')[0] == host);
    let m = host.map_values(|c: char| super::forgejo::variable_char(c));
    stripping_undoes_adding("UVR_FORGEJO_TOKEN_"@, m);
    assert forall|i: int| 0 <= i < host.len() implies {
        let c = #[trigger] host[i];
        &&& c == '.' || c == '-' ==> m[i] == '_'
        &&& 'a' <= c <= 'z' ==> m[i] as u32 + 32 == c as u32
        &&& !(c == '.' || c == '-' || 'a' <= c <= 'z') ==> m[i] == c
    } by {
        assert(m[i] == super::forgejo::variable_char(host[i]));
    }
}

/// A token is taken without white space round it; one of white space alone is none.
pub proof fn blank_tokens_are_none(a: Seq<char>, t: Seq<char>, b: Seq<char>)
    requires
        is_blank(a),
        is_blank(b),
        t.len() > 0,
        !crate::text::is_whitespace(t[0]),
        !crate::text::is_whitespace(t.last()),
    ensures
        token_in(None) is None,
        token_in(Some(a)) is None,
        token_in(Some(a + t + b)) == Some(t),
{
    nothing_is_left_of_space(a);
    trimming_undoes_padding(a, t, b);
}

/// The remotes that lie in repositories are taken, with their address and revision.
#[verifier::rlimit(40)]
pub proof fn repositories_among_remotes(pairs: Seq<(Seq<char>, SpecView)>, t: TupleView)
    ensures
        git_bearing(pairs).contains(t) <==> exists|i: int|
            0 <= i < pairs.len() && (#[trigger] pairs[i]).0 == t.0 && (pairs[i].1 matches SpecView::Detailed(d) && d.git == Some(t.1)
                && d.rev == t.2),
    decreases pairs.len(),
{
    if pairs.len() > 0 {
        let front = pairs.drop_last();
        let x = pairs.last();
        repositories_among_remotes(front, t);
        let before = git_bearing(front);
        if exists|i: int|
            0 <= i < front.len() && (#[trigger] front[i]).0 == t.0 && (front[i].1 matches SpecView::Detailed(d) && d.git == Some(t.1)
                && d.rev == t.2) {
            let i = choose|i: int|
                0 <= i < front.len() && (#[trigger] front[i]).0 == t.0 && (front[i].1 matches SpecView::Detailed(d) && d.git
                    == Some(t.1) && d.rev == t.2);
            assert(pairs[i] == front[i]);
        }
        if exists|i: int|
            0 <= i < pairs.len() && (#[trigger] pairs[i]).0 == t.0 && (pairs[i].1 matches SpecView::Detailed(d) && d.git == Some(t.1)
                && d.rev == t.2) {
            let i = choose|i: int|
                0 <= i < pairs.len() && (#[trigger] pairs[i]).0 == t.0 && (pairs[i].1 matches SpecView::Detailed(d) && d.git
                    == Some(t.1) && d.rev == t.2);
            if i < front.len() {
                assert(pairs[i] == front[i]);
            }
        }
        assert(pairs[pairs.len() - 1] == x);
        match x.1 {
            SpecView::Detailed(d) => {
                if let Some(g) = d.git {
                    let y = (x.0, g, d.rev);
                    if before.contains(t) {
                        let i = choose|i: int| 0 <= i < before.len() && before[i] == t;
                        assert(before.push(y)[i] == t);
                    }
                    assert(before.push(y)[before.len() as int] == y);
                    if before.push(y).contains(t) && t != y {
                        let i = choose|i: int| 0 <= i < before.push(y).len() && before.push(y)[i] == t;
                        assert(before[i] == t);
                    }
                }
            },
            SpecView::Version(_) => {},
        }
    }
}

} // verus!

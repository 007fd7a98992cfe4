//! What is promised of lock files, pins, settings and names.
use vstd::prelude::*;

use crate::env_vars::{host_of, name_of, repos_in, set_value, switch, EnvRepoView};
use crate::lockfile::{find_package, source_label, LockedView, SourceView};
use crate::package_name::is_package_name;
use crate::project::{first_pin, first_project, pinned_in, ManifestSource, PinFile, ProjectFiles};
use crate::r_env::{all_vars, lib_in_front, libs_user, separator, Inherited, REnv};
use crate::r_version::manager::is_install_name;
use crate::r_version::openmp::{original_profile, ORIG_SITE_PROFILE_VAR};
use crate::signal::{without_pid, ActiveView};
use crate::subdirectory::{is_step, is_subdirectory};
use crate::text::{
    contains_text, decimal, decimal_is_read_back, is_digit, is_letter, is_alphanumeric, is_whitespace,
    lower, opt_view, same_ignoring_case, split, split_once, stands_at, strip_prefix, trim,
};
use crate::text_laws::{
    cuts_are_at_the_ends, cutting_undoes_joining, is_blank, nothing_is_left_of_space,
    padding_does_not_count, pieces_of_both, plain_text_is_one_piece, stripping_undoes_adding,
    trimming_undoes_padding,
};
use crate::version::{version_text, VersionView};

verus! {

proof fn lemma_find_package(s: Seq<LockedView>, name: Seq<char>, i: int)
    requires
        0 <= i <= s.len(),
    ensures
        i <= find_package(s, name, i) <= s.len(),
        find_package(s, name, i) < s.len() ==> same_ignoring_case(s[find_package(s, name, i)].name, name),
        forall|j: int| i <= j < find_package(s, name, i) ==> !same_ignoring_case((#[trigger] s[j]).name, name),
    decreases s.len() - i,
{
    if i < s.len() && !same_ignoring_case(s[i].name, name) {
        lemma_find_package(s, name, i + 1);
    }
}

/// A package is found under its name in any case, and it is the first that has it; where no
/// package has it none is found.
pub proof fn packages_are_found_in_any_case(s: Seq<LockedView>, name: Seq<char>, written: Seq<char>, j: int)
    requires
        same_ignoring_case(name, written),
    ensures
        find_package(s, name, 0) == find_package(s, written, 0),
        0 <= j < s.len() && same_ignoring_case(s[j].name, name) && (forall|k: int|
            0 <= k < j ==> !same_ignoring_case((#[trigger] s[k]).name, name)) ==> find_package(s, name, 0) == j,
        (forall|k: int| 0 <= k < s.len() ==> !same_ignoring_case((#[trigger] s[k]).name, name)) ==> find_package(s, name, 0) == s.len(),
{
    lemma_find_package(s, name, 0);
    lemma_find_package(s, written, 0);
    let a = find_package(s, name, 0);
    let b = find_package(s, written, 0);
    if a < b {
        assert(!same_ignoring_case(s[a].name, written));
    }
    if b < a {
        assert(!same_ignoring_case(s[b].name, name));
    }
}

/// The sources of packages are told apart by their labels.
pub proof fn labels_tell_sources_apart(a: SourceView, b: SourceView)
    ensures
        source_label(a) == source_label(b) <==> (a is Cran && b is Cran) || (a is Bioconductor && b is Bioconductor) || (a is GitHub
            && b is GitHub) || (a is Local && b is Local) || (a is Custom && b is Custom) || (a is Forgejo && b is Forgejo),
{
    reveal_strlit("cran");
    reveal_strlit("bioconductor");
    reveal_strlit("github");
    reveal_strlit("local");
    reveal_strlit("custom");
    reveal_strlit("forgejo");
    assert("cran"@.len() == 4 && "bioconductor"@.len() == 12 && "github"@.len() == 6 && "local"@.len() == 5 && "custom"@.len() == 6
        && "forgejo"@.len() == 7);
    assert("github"@[0] == 'g' && "custom"@[0] == 'c');
}

proof fn lemma_first_project(dirs: Seq<ProjectFiles>, i: int)
    requires
        0 <= i <= dirs.len(),
    ensures
        match first_project(dirs, i) {
            Some((k, s)) => i <= k < dirs.len() && (dirs[k].has_manifest || dirs[k].has_description) && (s == ManifestSource::Toml
                <==> dirs[k].has_manifest) && forall|j: int|
                i <= j < k ==> !(#[trigger] dirs[j]).has_manifest && !dirs[j].has_description,
            None => forall|j: int| i <= j < dirs.len() ==> !(#[trigger] dirs[j]).has_manifest && !dirs[j].has_description,
        },
    decreases dirs.len() - i,
{
    if i < dirs.len() && !dirs[i].has_manifest && !dirs[i].has_description {
        lemma_first_project(dirs, i + 1);
    }
}

/// A project is in the nearest directory that has a manifest or a description, and it has
/// the manifest where both are there; without such a directory there is none.
pub proof fn nearest_project_is_found(dirs: Seq<ProjectFiles>)
    ensures
        match first_project(dirs, 0) {
            Some((k, s)) => 0 <= k < dirs.len() && (dirs[k].has_manifest || dirs[k].has_description) && (s == ManifestSource::Toml
                <==> dirs[k].has_manifest) && forall|j: int|
                0 <= j < k ==> !(#[trigger] dirs[j]).has_manifest && !dirs[j].has_description,
            None => forall|j: int| 0 <= j < dirs.len() ==> !(#[trigger] dirs[j]).has_manifest && !dirs[j].has_description,
        },
{
    lemma_first_project(dirs, 0);
}

/// A pin is the text of its file without white space round it; a blank file pins nothing.
pub proof fn pins_are_trimmed(a: Seq<char>, v: Seq<char>, b: Seq<char>)
    requires
        is_blank(a),
        is_blank(b),
        v.len() > 0,
        !is_whitespace(v[0]),
        !is_whitespace(v.last()),
    ensures
        pinned_in(a + v + b) == Some(v),
        pinned_in(a) is None,
{
    trimming_undoes_padding(a, v, b);
    nothing_is_left_of_space(a);
}

proof fn lemma_first_pin_shift(f: PinFile, files: Seq<PinFile>, i: int)
    requires
        0 <= i <= files.len(),
    ensures
        first_pin(seq![f] + files, i + 1) == first_pin(files, i),
    decreases files.len() - i,
{
    if i < files.len() {
        assert((seq![f] + files)[i + 1] == files[i]);
        lemma_first_pin_shift(f, files, i + 1);
    }
}

/// The pin of the nearest directory that has one counts. A file that is absent or blank is
/// passed over, and one that cannot be read ends the search.
pub proof fn nearest_pin_counts(f: PinFile, files: Seq<PinFile>)
    ensures
        f is Absent ==> first_pin(seq![f] + files, 0) == first_pin(files, 0),
        f is Unreadable ==> first_pin(seq![f] + files, 0) is None,
        f matches PinFile::Content(c) ==> (match pinned_in(c@) {
            Some(v) => first_pin(seq![f] + files, 0) == Some(v),
            None => first_pin(seq![f] + files, 0) == first_pin(files, 0),
        }),
        first_pin(Seq::<PinFile>::empty(), 0) is None,
{
    assert((seq![f] + files)[0] == f);
    lemma_first_pin_shift(f, files, 0);
}

/// A variable counts as set if it holds more than white space, and then has its whole
/// value.
pub proof fn blank_settings_do_not_count(v: Seq<char>, blank: Seq<char>)
    requires
        is_blank(blank),
        trim(v).len() > 0,
    ensures
        set_value(None) is None,
        set_value(Some(blank)) is None,
        set_value(Some(v)) == Some(v),
{
    nothing_is_left_of_space(blank);
}

/// A switch is on or off by one of these words, in any case and with white space round it,
/// and by no other.
pub proof fn switches_are_words(a: Seq<char>, v: Seq<char>, b: Seq<char>, w: Seq<char>)
    requires
        is_blank(a),
        is_blank(b),
    ensures
        switch(a + v + b) == switch(v),
        lower(trim(v)) == lower(trim(w)) ==> switch(v) == switch(w),
        switch(v) == Some(true) <==> seq!["1"@, "on"@, "true"@, "yes"@].contains(lower(trim(v))),
        switch(v) == Some(false) <==> seq!["0"@, "off"@, "false"@, "no"@].contains(lower(trim(v))),
{
    reveal_strlit("1");
    reveal_strlit("0");
    reveal_strlit("on");
    reveal_strlit("off");
    reveal_strlit("true");
    reveal_strlit("false");
    reveal_strlit("yes");
    reveal_strlit("no");
    padding_does_not_count(a, v, b);
    let x = seq!["1"@, "on"@, "true"@, "yes"@];
    let y = seq!["0"@, "off"@, "false"@, "no"@];
    assert(x[0] == "1"@ && x[1] == "on"@ && x[2] == "true"@ && x[3] == "yes"@);
    assert(y[0] == "0"@ && y[1] == "off"@ && y[2] == "false"@ && y[3] == "no"@);
    assert("1"@[0] == '1' && "0"@[0] == '0');
    assert("on"@[0] == 'o' && "on"@[1] == 'n' && "no"@[0] == 'n');
    assert("off"@.len() == 3 && "yes"@.len() == 3 && "off"@[0] == 'o' && "yes"@[0] == 'y');
    assert("true"@.len() == 4 && "false"@.len() == 5);
}

/// The host of an address stands between the scheme, if there is one, and the path; the
/// port is not part of it.
#[verifier::rlimit(40)]
pub proof fn host_of_an_address(host: Seq<char>, port: Seq<char>, path: Seq<char>)
    requires
        !host.contains('/'),
        !host.contains(':'),
        !port.contains('/'),
    ensures
        host_of("https://"@ + host) == host,
        host_of("https://"@ + (host + seq!['/'] + path)) == host,
        host_of("https://"@ + (host + seq![':'] + port + seq!['/'] + path)) == host,
        host_of("http://"@ + (host + seq!['/'] + path)) == host,
        host_of("http://"@ + (host + seq![':'] + port)) == host,
        host_of(host) == host,
{
    reveal_strlit("https://");
    reveal_strlit("http://");
    let a = host + seq!['/'] + path;
    let hp = host + seq![':'] + port;
    let b = hp + seq!['/'] + path;
    stripping_undoes_adding("https://"@, host);
    stripping_undoes_adding("https://"@, a);
    stripping_undoes_adding("https://"@, b);
    stripping_undoes_adding("http://"@, a);
    stripping_undoes_adding("http://"@, hp);
    lemma_not_https(a);
    lemma_not_https(hp);
    assert(!hp.contains('/')) by {
        if hp.contains('/') {
            let i = choose|i: int| 0 <= i < hp.len() && hp[i] == '/';
            if i < host.len() {
                assert(host[i] == '/');
            } else if i > host.len() {
                assert(port[i - host.len() - 1] == '/');
            }
        }
    }
    cutting_undoes_joining(host, path, '/');
    cutting_undoes_joining(hp, path, '/');
    lemma_uncut(host, '/');
    lemma_uncut(hp, '/');
    plain_text_is_one_piece(host, ':');
    pieces_of_both(host, port, ':');
    assert(split(hp, ':')[0] == host);
    assert("https://"@[5] == ':' && "http://"@[4] == ':');
    if strip_prefix(host, "https://"@) is Some {
        assert(host.subrange(0, 8)[5] == ':');
        assert(host[5] == ':');
    }
    if strip_prefix(host, "http://"@) is Some {
        assert(host.subrange(0, 7)[4] == ':');
        assert(host[4] == ':');
    }
}

proof fn lemma_not_https(rest: Seq<char>)
    ensures
        strip_prefix("http://"@ + rest, "https://"@) is None,
{
    reveal_strlit("https://");
    reveal_strlit("http://");
    let s = "http://"@ + rest;
    if strip_prefix(s, "https://"@) is Some {
        assert(s.subrange(0, 8)[4] == 's');
        assert(s[4] == ':');
    }
}

proof fn lemma_uncut(s: Seq<char>, c: char)
    requires
        !s.contains(c),
    ensures
        split_once(s, c) is None,
{
    cuts_are_at_the_ends(s, c);
    if let Some((a, b)) = split_once(s, c) {
        assert(s[a.len() as int] == c);
    }
}

proof fn lemma_repos_concat(a: Seq<Seq<char>>, b: Seq<Seq<char>>)
    ensures
        repos_in(a + b) == repos_in(a) + repos_in(b),
    decreases b.len(),
{
    if b.len() == 0 {
        assert(a + b == a);
        assert(repos_in(b) == Seq::<EnvRepoView>::empty());
    } else {
        assert((a + b).drop_last() == a + b.drop_last());
        lemma_repos_concat(a, b.drop_last());
        assert(repos_in(a + b) == repos_in(a) + repos_in(b));
    }
}

/// A list names the repositories in front of a comma and those behind it, each by its
/// address without white space round it; blank entries name none.
pub proof fn commas_part_repositories(a: Seq<char>, b: Seq<char>, x: Seq<char>, url: Seq<char>, y: Seq<char>)
    requires
        is_blank(x),
        is_blank(y),
        url.len() > 0,
        !is_whitespace(url[0]),
        !is_whitespace(url.last()),
        !url.contains(','),
    ensures
        repos_in(split(a + seq![','] + b, ',')) == repos_in(split(a, ',')) + repos_in(split(b, ',')),
        repos_in(seq![x]).len() == 0,
        repos_in(seq![x + url + y]) == seq![EnvRepoView { name: name_of(url), url }],
{
    pieces_of_both(a, b, ',');
    lemma_repos_concat(split(a, ','), split(b, ','));
    let e = Seq::<Seq<char>>::empty();
    assert(repos_in(e) == Seq::<EnvRepoView>::empty());
    nothing_is_left_of_space(x);
    trimming_undoes_padding(x, url, y);
    assert(seq![x].drop_last() == e && seq![x].last() == x);
    let w = x + url + y;
    assert(seq![w].drop_last() == e && seq![w].last() == w);
    assert(repos_in(seq![w]) == seq![EnvRepoView { name: name_of(url), url }]);
}

/// The libraries of an R are the one that was asked for, if any, that of the project, and
/// the further ones, if any, in this order.
pub proof fn libraries_are_in_order(e: REnv)
    ensures
        ({
            let sep = if e.windows {
                seq![';']
            } else {
                seq![':']
            };
            let extra = match e.extra_libs {
                Some(x) => trim(x@),
                None => seq![],
            };
            &&& e.with_library is None && extra.len() == 0 ==> libs_user(e) == e.library@
            &&& e.with_library is Some && extra.len() == 0 ==> libs_user(e) == e.with_library->0@ + sep + e.library@
            &&& e.with_library is None && extra.len() > 0 ==> libs_user(e) == e.library@ + sep + extra
            &&& e.with_library is Some && extra.len() > 0 ==> libs_user(e) == e.with_library->0@ + sep + e.library@ + sep + extra
        }),
{
    reveal_strlit(";");
    reveal_strlit(":");
    assert(";"@ == seq![';']);
    assert(":"@ == seq![':']);
}

/// The variables of an R name its libraries, and put the directory of its own libraries in
/// front of what the environment had; that for the loader of R itself is set only where the
/// library is there.
pub proof fn own_libraries_come_first(e: REnv, i: Inherited, lib: Seq<char>, value: Seq<char>)
    ensures
        ({
            let v = all_vars(e, i, lib);
            &&& v.contains(("R_LIBS_USER"@, libs_user(e)))
            &&& v.contains(("LD_LIBRARY_PATH"@, lib_in_front(lib, opt_view(i.ld_library_path), e.windows)))
            &&& v.contains(("DYLD_LIBRARY_PATH"@, lib_in_front(lib, opt_view(i.dyld_library_path), e.windows)))
            &&& i.libr_present ==> v.contains(("R_LD_LIBRARY_PATH"@, lib_in_front(lib, opt_view(i.r_ld_library_path), e.windows)))
            &&& e.site_profile matches Some(p) ==> v.contains(("R_PROFILE"@, p@))
            &&& e.site_profile matches Some(p) ==> v.contains(
                (ORIG_SITE_PROFILE_VAR@, original_profile(p@, opt_view(i.r_profile), e.windows)),
            )
            &&& v.len() == 7 + (if i.libr_present {
                1int
            } else {
                0
            }) + (if e.site_profile is Some {
                2int
            } else {
                0
            })
        }),
        lib.len() > 0 && value.len() > 0 ==> lib_in_front(lib, Some(value), e.windows) == lib + separator(e.windows) + value,
        lib_in_front(lib, None, e.windows) == lib,
        lib_in_front(lib, Some(Seq::<char>::empty()), e.windows) == lib,
        lib.len() == 0 ==> lib_in_front(lib, Some(value), e.windows) == value,
{
    let v = all_vars(e, i, lib);
    assert(v[0] == ("R_LIBS_USER"@, libs_user(e)));
    assert(v[3] == ("DYLD_LIBRARY_PATH"@, lib_in_front(lib, opt_view(i.dyld_library_path), e.windows)));
    assert(v[4] == ("LD_LIBRARY_PATH"@, lib_in_front(lib, opt_view(i.ld_library_path), e.windows)));
    if i.libr_present {
        assert(v[7] == ("R_LD_LIBRARY_PATH"@, lib_in_front(lib, opt_view(i.r_ld_library_path), e.windows)));
        if let Some(p) = e.site_profile {
            assert(v[8] == ("R_PROFILE"@, p@));
            assert(v[9] == (ORIG_SITE_PROFILE_VAR@, original_profile(p@, opt_view(i.r_profile), e.windows)));
        }
    } else {
        if let Some(p) = e.site_profile {
            assert(v[7] == ("R_PROFILE"@, p@));
            assert(v[8] == (ORIG_SITE_PROFILE_VAR@, original_profile(p@, opt_view(i.r_profile), e.windows)));
        }
    }
    if lib.len() == 0 {
        assert(lib == Seq::<char>::empty());
    }
}

/// Nothing comes into the builds that run by the end of one.
pub proof fn no_build_comes_in(s: Seq<ActiveView>, pid: u32, a: ActiveView)
    ensures
        without_pid(s, pid).contains(a) ==> s.contains(a),
        without_pid(s, pid).len() <= s.len(),
        (forall|i: int| 0 <= i < s.len() ==> (#[trigger] s[i]).pid != pid) ==> without_pid(s, pid) == s,
    decreases s.len(),
{
    reveal(Seq::filter);
    if s.len() > 0 {
        let front = s.drop_last();
        no_build_comes_in(front, pid, a);
        let w = without_pid(front, pid);
        if front.contains(a) {
            let i = choose|i: int| 0 <= i < front.len() && front[i] == a;
            assert(s[i] == a);
        }
        assert(s[s.len() - 1] == s.last());
        if w.push(s.last()).contains(a) && a != s.last() {
            let i = choose|i: int| 0 <= i < w.push(s.last()).len() && w.push(s.last())[i] == a;
            assert(w[i] == a);
        }
        if forall|i: int| 0 <= i < s.len() ==> (#[trigger] s[i]).pid != pid {
            assert forall|i: int| 0 <= i < front.len() implies (#[trigger] front[i]).pid != pid by {
                assert(s[i].pid != pid);
            }
            assert(s[s.len() - 1].pid != pid);
        }
    }
}

/// The name of a package begins with a letter, has at least two characters, does not end
/// with a dot, and holds letters, digits and dots only; what is like that is a name.
#[verifier::rlimit(40)]
pub proof fn names_of_packages(name: Seq<char>, c: char, first: char)
    requires
        is_package_name(name),
    ensures
        is_letter(first) ==> is_package_name(seq![first] + name),
        !is_letter(first) ==> !is_package_name(seq![first] + name),
        is_alphanumeric(c) ==> is_package_name(name.push(c)),
        !is_alphanumeric(c) ==> !is_package_name(name.push(c)),
        !(is_alphanumeric(c) || c == '.') ==> !is_package_name(name + seq![c] + name),
        is_package_name(name + seq!['.'] + name),
        !is_package_name(seq![first]),
        !is_package_name(Seq::<char>::empty()),
{
    let a = seq![first] + name;
    assert(a[0] == first && a.last() == name.last());
    assert forall|i: int| 1 <= i < a.len() implies #[trigger] a[i] == name[i - 1] by {}
    if is_letter(first) {
        assert forall|i: int| 0 <= i < a.len() implies is_alphanumeric(#[trigger] a[i]) || a[i] == '.' by {
            if i > 0 {
                assert(is_alphanumeric(name[i - 1]) || name[i - 1] == '.');
            }
        }
    }
    let b = name.push(c);
    assert(b[name.len() as int] == c);
    if is_alphanumeric(c) {
        assert forall|i: int| 0 <= i < b.len() implies is_alphanumeric(#[trigger] b[i]) || b[i] == '.' by {
            if i < name.len() {
                assert(is_alphanumeric(name[i]) || name[i] == '.');
            }
        }
    }
    let d = name + seq![c] + name;
    assert(d[name.len() as int] == c);
    let e = name + seq!['.'] + name;
    assert(e[0] == name[0] && e.last() == name.last());
    assert forall|i: int| 0 <= i < e.len() implies is_alphanumeric(#[trigger] e[i]) || e[i] == '.' by {
        if i < name.len() {
            assert(is_alphanumeric(name[i]) || name[i] == '.');
        } else if i > name.len() {
            assert(is_alphanumeric(name[i - name.len() - 1]) || name[i - name.len() - 1] == '.');
        }
    }
}

/// A directory in a repository is a sequence of names with slashes between them: two of
/// them one below the other are one, a name is one unless it is empty or one of the two
/// that stand for a place, and a backslash is in none.
pub proof fn directories_are_steps(a: Seq<char>, b: Seq<char>, name: Seq<char>)
    requires
        !name.contains('/'),
    ensures
        is_subdirectory(a + seq!['/'] + b) <==> is_subdirectory(a) && is_subdirectory(b),
        is_subdirectory(name) <==> name.len() > 0 && name != "."@ && name != ".."@ && !name.contains('\\'),
        !is_subdirectory(Seq::<char>::empty()),
        !is_subdirectory(seq!['/'] + a),
        !is_subdirectory(a + seq!['/']),
{
    let e = Seq::<char>::empty();
    let w = a + seq!['/'] + b;
    lemma_steps(a, b);
    plain_text_is_one_piece(name, '/');
    assert(split(name, '/')[0] == name);
    plain_text_is_one_piece(e, '/');
    assert(split(e, '/')[0] == e);
    lemma_steps(e, a);
    assert(e + seq!['/'] + a == seq!['/'] + a);
    lemma_steps(a, e);
    assert(a + seq!['/'] + e == a + seq!['/']);
    assert(!is_subdirectory(e)) by {
        assert(!is_step(split(e, '/')[0]));
    }
    if is_subdirectory(name) {
        assert(is_step(split(name, '/')[0]));
    }
}

#[verifier::rlimit(40)]
proof fn lemma_steps(a: Seq<char>, b: Seq<char>)
    ensures
        is_subdirectory(a + seq!['/'] + b) <==> is_subdirectory(a) && is_subdirectory(b),
{
    let w = a + seq!['/'] + b;
    pieces_of_both(a, b, '/');
    let x = split(a, '/');
    let y = split(b, '/');
    let z = split(w, '/');
    assert(z == x + y);
    if w.contains('\\') {
        let i = choose|i: int| 0 <= i < w.len() && w[i] == '\\';
        if i < a.len() {
            assert(a[i] == '\\');
        } else {
            assert(b[i - a.len() - 1] == '\\');
        }
    }
    if a.contains('\\') {
        let i = choose|i: int| 0 <= i < a.len() && a[i] == '\\';
        assert(w[i] == '\\');
    }
    if b.contains('\\') {
        let i = choose|i: int| 0 <= i < b.len() && b[i] == '\\';
        assert(w[a.len() + 1 + i] == '\\');
    }
    if is_subdirectory(w) {
        assert forall|i: int| 0 <= i < x.len() implies is_step(#[trigger] x[i]) by {
            assert(is_step(z[i]));
        }
        assert forall|i: int| 0 <= i < y.len() implies is_step(#[trigger] y[i]) by {
            assert(is_step(z[x.len() + i]));
        }
    }
    if is_subdirectory(a) && is_subdirectory(b) {
        assert forall|i: int| 0 <= i < z.len() implies is_step(#[trigger] z[i]) by {
            if i < x.len() {
                assert(is_step(x[i]));
            } else {
                assert(is_step(y[i - x.len()]));
            }
        }
    }
}

/// The name of an installation that may be removed cannot lead to another place.
#[verifier::rlimit(40)]
pub proof fn removable_names_stay_below(a: Seq<char>, b: Seq<char>)
    ensures
        !is_install_name(a + seq!['/'] + b),
        !is_install_name(a + seq!['\\'] + b),
        !is_install_name(a + seq!['.', '.'] + b),
        !is_install_name(seq!['.'] + a),
        !is_install_name(Seq::<char>::empty()),
        a.len() > 0 && !a.contains('/') && !a.contains('\\') && !a.contains('.') ==> is_install_name(a),
        is_install_name(a) && is_install_name(b) ==> is_install_name(a + seq!['-'] + b),
{
    reveal_strlit("..");
    assert(".."@ == seq!['.', '.']);
    let w = a + seq!['/'] + b;
    assert(w[a.len() as int] == '/');
    let x = a + seq!['\\'] + b;
    assert(x[a.len() as int] == '\\');
    let y = a + seq!['.', '.'] + b;
    assert(y.subrange(a.len() as int, a.len() as int + 2) == ".."@);
    assert(stands_at(y, ".."@, a.len() as int));
    assert((seq!['.'] + a)[0] == '.');
    if a.len() > 0 && !a.contains('/') && !a.contains('\\') && !a.contains('.') {
        assert(a.contains(a[0]));
        if contains_text(a, ".."@) {
            let i = choose|i: int| #[trigger] stands_at(a, ".."@, i);
            assert(a.subrange(i, i + 2)[0] == '.');
            assert(a[i] == '.');
        }
    }
    if is_install_name(a) && is_install_name(b) {
        let z = a + seq!['-'] + b;
        assert(z[0] == a[0]);
        if z.contains('/') {
            let i = choose|i: int| 0 <= i < z.len() && z[i] == '/';
            if i < a.len() {
                assert(a[i] == '/');
            } else {
                assert(b[i - a.len() - 1] == '/');
            }
        }
        if z.contains('\\') {
            let i = choose|i: int| 0 <= i < z.len() && z[i] == '\\';
            if i < a.len() {
                assert(a[i] == '\\');
            } else {
                assert(b[i - a.len() - 1] == '\\');
            }
        }
        if contains_text(z, ".."@) {
            let i = choose|i: int| #[trigger] stands_at(z, ".."@, i);
            assert(z.subrange(i, i + 2)[0] == '.' && z.subrange(i, i + 2)[1] == '.');
            assert(z[i] == '.' && z[i + 1] == '.');
            if i + 1 < a.len() {
                assert(a.subrange(i, i + 2) == ".."@);
                assert(stands_at(a, ".."@, i));
            } else {
                let k = i - a.len() - 1;
                assert(k >= 0);
                assert(b[k] == '.' && b[k + 1] == '.');
                assert(b.subrange(k, k + 2) == ".."@);
                assert(stands_at(b, ".."@, k));
            }
        }
    }
}

proof fn lemma_digits_have_no(n: nat, c: char)
    requires
        !is_digit(c),
    ensures
        !decimal(n).contains(c),
{
    decimal_is_read_back(n);
    let d = decimal(n);
    if d.contains(c) {
        let i = choose|i: int| 0 <= i < d.len() && d[i] == c;
        assert(is_digit(d[i]));
    }
}

/// The text of a version holds its three numbers, and behind them its tag, if it has one:
/// versions without build data that differ in one of these have different texts.
#[verifier::rlimit(40)]
pub proof fn texts_tell_versions_apart(v: VersionView, w: VersionView)
    requires
        v.build.len() == 0,
        w.build.len() == 0,
        version_text(v) == version_text(w),
    ensures
        v.major == w.major,
        v.minor == w.minor,
        v.patch == w.patch,
        v.pre == w.pre,
{
    reveal_strlit(".");
    reveal_strlit("-");
    assert("."@ == seq!['.'] && "-"@ == seq!['-']);
    let vp = decimal(v.patch as nat) + (if v.pre.len() > 0 {
        seq!['-'] + v.pre
    } else {
        seq![]
    });
    let wp = decimal(w.patch as nat) + (if w.pre.len() > 0 {
        seq!['-'] + w.pre
    } else {
        seq![]
    });
    let vm = decimal(v.minor as nat) + seq!['.'] + vp;
    let wm = decimal(w.minor as nat) + seq!['.'] + wp;
    assert(version_text(v) == decimal(v.major as nat) + seq!['.'] + vm);
    assert(version_text(w) == decimal(w.major as nat) + seq!['.'] + wm);
    lemma_digits_have_no(v.major as nat, '.');
    lemma_digits_have_no(w.major as nat, '.');
    lemma_digits_have_no(v.minor as nat, '.');
    lemma_digits_have_no(w.minor as nat, '.');
    lemma_digits_have_no(v.patch as nat, '-');
    lemma_digits_have_no(w.patch as nat, '-');
    cutting_undoes_joining(decimal(v.major as nat), vm, '.');
    cutting_undoes_joining(decimal(w.major as nat), wm, '.');
    cutting_undoes_joining(decimal(v.minor as nat), vp, '.');
    cutting_undoes_joining(decimal(w.minor as nat), wp, '.');
    decimal_is_read_back(v.major as nat);
    decimal_is_read_back(w.major as nat);
    decimal_is_read_back(v.minor as nat);
    decimal_is_read_back(w.minor as nat);
    decimal_is_read_back(v.patch as nat);
    decimal_is_read_back(w.patch as nat);
    assert(vp == wp);
    let x = decimal(v.patch as nat);
    let y = decimal(w.patch as nat);
    if v.pre.len() > 0 {
        assert(vp == x + seq!['-'] + v.pre);
        cutting_undoes_joining(x, v.pre, '-');
    } else {
        assert(vp == x);
        lemma_uncut(x, '-');
    }
    if w.pre.len() > 0 {
        assert(wp == y + seq!['-'] + w.pre);
        cutting_undoes_joining(y, w.pre, '-');
    } else {
        assert(wp == y);
        lemma_uncut(y, '-');
    }
    if v.pre.len() == 0 {
        assert(v.pre == w.pre);
    }
}

} // verus!

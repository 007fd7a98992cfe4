//! Which records of an index count, for Bioconductor and for builds.
use vstd::prelude::*;

use super::bioconductor::{bioc_answer, entries_by_name, release_for, with_subrepo, BiocPackages, BiocView};
use super::cran::{entry_deps, entry_of, wanted, EntryView};
use super::index_fetch::{
    base_of, lossy_text, meta_of_lines, next_index, text_of, unpacked, IndexActionView, IndexEventView,
    IndexJobView, IndexPhaseView, MetaView, ReplyView,
};
use super::p3m::{
    binaries_of, binary_of, build_at, builds_dir, codename, last_line, linux_arch, platform_view,
    repo_prefix, with_record, Binaries, PlatformView, RepoView,
};
use crate::error::ErrorView;
use crate::lockfile::SourceView;
use crate::r_version::host::Platform;
use crate::resolver::requirement::{admits, normal_version, requirement};
use crate::resolver::solve::is_real;
use crate::text::{char_end, decimal, lines, starts_with, strip_prefix, trim};
use crate::text_laws::stripping_undoes_adding;

verus! {

/// Two releases of Bioconductor go with each series of R from 4.0 to 4.4, and the second
/// of them is used; any other R has the newest release.
pub proof fn releases_go_with_series(major: nat, minor: nat)
    ensures
        major == 4 && minor <= 4 ==> release_for(major, minor) == "3."@ + decimal((12 + 2 * minor) as nat),
        major != 4 || minor > 4 ==> release_for(major, minor) == "3."@ + decimal(21),
{
    reveal_strlit("3.");
    reveal_strlit("3.12");
    reveal_strlit("3.14");
    reveal_strlit("3.16");
    reveal_strlit("3.18");
    reveal_strlit("3.20");
    reveal_strlit("3.21");
    reveal_with_fuel(decimal, 3);
    assert("3.12"@ == "3."@ + decimal(12));
    assert("3.14"@ == "3."@ + decimal(14));
    assert("3.16"@ == "3."@ + decimal(16));
    assert("3.18"@ == "3."@ + decimal(18));
    assert("3.20"@ == "3."@ + decimal(20));
    assert("3.21"@ == "3."@ + decimal(21));
}

/// Of the records of one package the last counts.
pub proof fn last_record_of_a_package_counts(blocks: Seq<Seq<char>>, i: int)
    requires
        0 <= i < blocks.len(),
        trim(blocks[i]).len() > 0,
        entry_of(trim(blocks[i])) is Some,
        forall|j: int|
            i < j < blocks.len() && entry_of(trim(#[trigger] blocks[j])) is Some ==> entry_of(trim(blocks[j]))->0.name
                != entry_of(trim(blocks[i]))->0.name,
    ensures
        ({
            let e = entry_of(trim(blocks[i]))->0;
            entries_by_name(blocks).contains_key(e.name) && entries_by_name(blocks)[e.name] == e
        }),
    decreases blocks.len(),
{
    if i < blocks.len() - 1 {
        let front = blocks.drop_last();
        assert(front[i] == blocks[i]);
        assert forall|j: int| i < j < front.len() && entry_of(trim(#[trigger] front[j])) is Some implies entry_of(
            trim(front[j]),
        )->0.name != entry_of(trim(front[i]))->0.name by {
            assert(front[j] == blocks[j]);
        }
        last_record_of_a_package_counts(front, i);
        assert(blocks[blocks.len() - 1] == blocks.last());
    }
}

/// Every package of such an index is that of a record, under its own name.
pub proof fn packages_come_from_records(blocks: Seq<Seq<char>>, name: Seq<char>)
    requires
        entries_by_name(blocks).contains_key(name),
    ensures
        entries_by_name(blocks)[name].name == name,
        exists|i: int| 0 <= i < blocks.len() && entry_of(trim(#[trigger] blocks[i])) == Some(entries_by_name(blocks)[name]),
    decreases blocks.len(),
{
    let front = blocks.drop_last();
    let m = entries_by_name(front);
    let b = trim(blocks.last());
    if b.len() > 0 && entry_of(b) is Some && entry_of(b)->0.name == name {
        assert(blocks[blocks.len() - 1] == blocks.last());
    } else {
        assert(m.contains_key(name));
        packages_come_from_records(front, name);
        let i = choose|i: int| 0 <= i < front.len() && entry_of(trim(#[trigger] front[i])) == Some(m[name]);
        assert(front[i] == blocks[i]);
    }
}

/// A further index adds the packages that are not there yet, and changes none.
pub proof fn further_indexes_only_add(p: BiocPackages, m: Map<Seq<char>, EntryView>, subrepo: Seq<char>, name: Seq<char>)
    ensures
        with_subrepo(p, m, subrepo).contains_key(name) <==> p.contains_key(name) || m.contains_key(name),
        p.contains_key(name) ==> with_subrepo(p, m, subrepo)[name] == p[name],
        !p.contains_key(name) && m.contains_key(name) ==> with_subrepo(p, m, subrepo)[name] == (m[name], subrepo),
{
}

/// A package of a release is found where the requirement on it says nothing or admits its
/// version, and says what its entry says; else the answer tells why not.
pub proof fn release_answers(v: BiocView, name: Seq<char>, constraint: Option<Seq<char>>)
    ensures
        !v.packages.contains_key(name) ==> bioc_answer(v, name, constraint, wanted(constraint)) == Err::<
            super::PackageInfoView,
            ErrorView,
        >(ErrorView::PackageNotFound(name)),
        v.packages.contains_key(name) ==> {
            let e = v.packages[name].0;
            let a = bioc_answer(v, name, constraint, wanted(constraint));
            &&& constraint is None ==> a is Ok
            &&& is_real(constraint) ==> match requirement(constraint->0) {
                Ok(q) => (a is Ok <==> admits(q, e.version)) && (a is Err ==> a->Err_0 == ErrorView::NoMatchingVersion {
                    package: name,
                    constraint: constraint->0,
                }),
                Err(f) => a is Err && a->Err_0 == f,
            }
            &&& a matches Ok(i) ==> {
                &&& i.name == e.name
                &&& i.version == e.version
                &&& i.raw_version == Some(e.raw_version)
                &&& i.source == SourceView::Bioconductor
                &&& i.system_requirements == e.system_requirements
                &&& i.requires == entry_deps(e)
                &&& i.checksum is None <==> e.md5sum.len() == 0
                &&& i.checksum matches Some(c) ==> strip_prefix(c, "md5:"@) == Some(e.md5sum)
                &&& i.url == "https://bioconductor.org/packages/"@ + v.release + seq!['/'] + v.packages[name].1 + "/src/contrib/"@
                    + e.name + seq!['_'] + e.raw_version + ".tar.gz"@
            }
        },
{
    reveal_strlit("/");
    reveal_strlit("_");
    assert("/"@ == seq!['/']);
    assert("_"@ == seq!['_']);
    if v.packages.contains_key(name) {
        stripping_undoes_adding("md5:"@, v.packages[name].0.md5sum);
    }
}

/// Builds for macOS and Windows are there whatever the distribution; on Linux they are
/// where the distribution has a name on the server, and the name, the processor and the
/// version of R are part of what is asked for.
pub proof fn builds_are_per_platform(p: Platform, slug: Option<Seq<char>>, r_minor: Seq<char>)
    ensures
        p is MacOsArm64 || p is MacOsX86_64 || p is WindowsX86_64 ==> platform_view(p, slug, r_minor) is Some && !platform_view(
            p,
            slug,
            r_minor,
        )->0.is_linux && platform_view(p, slug, r_minor)->0.linux_codename is None && platform_view(p, slug, r_minor)->0.user_agent is None,
        p is LinuxX86_64 || p is LinuxArm64 ==> (platform_view(p, slug, r_minor) is Some <==> slug is Some && codename(slug->0) is Some),
        (p is LinuxX86_64 || p is LinuxArm64) && platform_view(p, slug, r_minor) is Some ==> {
            let i = platform_view(p, slug, r_minor)->0;
            i.is_linux && i.linux_codename == codename(slug->0) && i.user_agent is Some && i.pkg_ext == "tar.gz"@
        },
        platform_view(Platform::WindowsX86_64, slug, r_minor)->0.pkg_ext == "zip"@,
        platform_view(Platform::MacOsArm64, slug, r_minor)->0.pkg_ext == "tgz"@,
        platform_view(Platform::MacOsX86_64, slug, r_minor)->0.pkg_ext == "tgz"@,
        platform_view(Platform::MacOsArm64, slug, r_minor)->0.url_segment != platform_view(Platform::MacOsX86_64, slug, r_minor)->0.url_segment,
        linux_arch(Platform::LinuxArm64) != linux_arch(Platform::LinuxX86_64),
{
    reveal_strlit("macosx/big-sur-arm64");
    reveal_strlit("macosx/big-sur-x86_64");
    reveal_strlit("aarch64");
    reveal_strlit("x86_64");
    assert("macosx/big-sur-arm64"@.len() != "macosx/big-sur-x86_64"@.len());
    assert("aarch64"@.len() != "x86_64"@.len());
}

/// The address of a build begins with the directory in which the index of builds lies and
/// ends with the name, the version and the ending of builds for the platform.
pub proof fn builds_lie_beside_their_index(repo: RepoView, info: PlatformView, r_minor: Seq<char>, name: Seq<char>, version: Seq<char>)
    ensures
        strip_prefix(build_at(repo, info, r_minor, name, version), builds_dir(repo, info, r_minor)) == Some(
            name + seq!['_'] + version + seq!['.'] + info.pkg_ext,
        ),
        starts_with(builds_dir(repo, info, r_minor), repo_prefix(repo, info)),
        !info.is_linux ==> builds_dir(repo, info, r_minor) == repo_prefix(repo, info) + "/bin/"@ + info.url_segment + "/contrib/"@
            + r_minor + seq!['/'],
        info.is_linux ==> builds_dir(repo, info, r_minor) == repo_prefix(repo, info) + "/src/contrib/"@,
{
    reveal_strlit("_");
    reveal_strlit(".");
    reveal_strlit("/");
    assert("_"@ == seq!['_']);
    assert("."@ == seq!['.']);
    assert("/"@ == seq!['/']);
    let tail = name + seq!['_'] + version + seq!['.'] + info.pkg_ext;
    let dir = builds_dir(repo, info, r_minor);
    assert(build_at(repo, info, r_minor, name, version) == dir + tail);
    stripping_undoes_adding(dir, tail);
    let prefix = repo_prefix(repo, info);
    if info.is_linux {
        stripping_undoes_adding(prefix, "/src/contrib/"@);
    } else {
        let rest = "/bin/"@ + info.url_segment + "/contrib/"@ + r_minor + "/"@;
        assert(dir == prefix + rest);
        stripping_undoes_adding(prefix, rest);
    }
}

/// Of the lines of a record the last that begins with a word counts for it.
pub proof fn last_line_counts(ls: Seq<Seq<char>>, prefix: Seq<char>, v: Seq<char>, other: Seq<char>)
    requires
        !starts_with(other, prefix),
    ensures
        last_line(ls.push(prefix + v), prefix) == Some(trim(v)),
        last_line(ls.push(other), prefix) == last_line(ls, prefix),
        last_line(Seq::<Seq<char>>::empty(), prefix) is None,
{
    stripping_undoes_adding(prefix, v);
    assert(ls.push(prefix + v).drop_last() == ls);
    assert(ls.push(prefix + v).last() == prefix + v);
    assert(ls.push(other).drop_last() == ls);
    assert(ls.push(other).last() == other);
}

/// A record with a name and a version makes the package known under its name with the
/// version in its normal form and the address of its build; the others stay as they are. A
/// record without one of them changes nothing.
pub proof fn builds_are_noted(m: Binaries, block: Seq<char>, repo: RepoView, info: PlatformView, r_minor: Seq<char>, other: Seq<char>)
    ensures
        ({
            let n = last_line(lines(block), "Package: "@);
            let v = last_line(lines(block), "Version: "@);
            let after = with_record(m, block, repo, info, r_minor);
            &&& n is None || v is None ==> after == m
            &&& n is Some && v is Some ==> {
                &&& binary_of(after, n->0, normal_version(v->0)) == Some(build_at(repo, info, r_minor, n->0, v->0))
                &&& forall|w: Seq<char>| w != normal_version(v->0) ==> (#[trigger] binary_of(after, n->0, w)) is None
                &&& other != n->0 ==> forall|w: Seq<char>| #[trigger] binary_of(after, other, w) == binary_of(m, other, w)
            }
        }),
{
}

/// Every record counts, and of those of one package the last.
pub proof fn last_build_of_a_package_counts(
    blocks: Seq<Seq<char>>,
    repo: RepoView,
    info: PlatformView,
    r_minor: Seq<char>,
    i: int,
    name: Seq<char>,
    version: Seq<char>,
)
    requires
        0 <= i < blocks.len(),
        trim(blocks[i]).len() > 0,
        last_line(lines(trim(blocks[i])), "Package: "@) == Some(name),
        last_line(lines(trim(blocks[i])), "Version: "@) == Some(version),
        forall|j: int| i < j < blocks.len() ==> last_line(lines(trim(#[trigger] blocks[j])), "Package: "@) != Some(name),
    ensures
        binary_of(binaries_of(blocks, repo, info, r_minor), name, normal_version(version)) == Some(
            build_at(repo, info, r_minor, name, version),
        ),
    decreases blocks.len(),
{
    let front = blocks.drop_last();
    let m = binaries_of(front, repo, info, r_minor);
    let b = trim(blocks.last());
    if i < blocks.len() - 1 {
        assert(front[i] == blocks[i]);
        assert forall|j: int| i < j < front.len() implies last_line(lines(trim(#[trigger] front[j])), "Package: "@) != Some(name) by {
            assert(front[j] == blocks[j]);
        }
        last_build_of_a_package_counts(front, repo, info, r_minor, i, name, version);
        assert(blocks[blocks.len() - 1] == blocks.last());
        builds_are_noted(m, b, repo, info, r_minor, name);
    } else {
        builds_are_noted(m, b, repo, info, r_minor, name);
    }
}

/// Of the lines about an index the last of each kind counts, and lines of other kinds do
/// not.
pub proof fn last_line_about_an_index_counts(ls: Seq<Seq<char>>, v: Seq<char>, other: Seq<char>)
    requires
        !starts_with(other, "etag: "@),
        !starts_with(other, "last-modified: "@),
    ensures
        meta_of_lines(ls.push("etag: "@ + v)) == (MetaView { etag: Some(v), ..meta_of_lines(ls) }),
        meta_of_lines(ls.push("last-modified: "@ + v)) == (MetaView { last_modified: Some(v), ..meta_of_lines(ls) }),
        meta_of_lines(ls.push(other)) == meta_of_lines(ls),
{
    reveal_strlit("etag: ");
    reveal_strlit("last-modified: ");
    stripping_undoes_adding("etag: "@, v);
    stripping_undoes_adding("last-modified: "@, v);
    let w = "last-modified: "@ + v;
    assert(w[0] == 'l');
    if strip_prefix(w, "etag: "@) is Some {
        assert(w.subrange(0, 6)[0] == 'e');
    }
    assert(ls.push("etag: "@ + v).drop_last() == ls && ls.push("etag: "@ + v).last() == "etag: "@ + v);
    assert(ls.push(w).drop_last() == ls && ls.push(w).last() == w);
    assert(ls.push(other).drop_last() == ls && ls.push(other).last() == other);
}

/// An index is fetched where there is no copy of it or a fresh one is asked for; else the
/// server is asked whether it has changed, if something is known of the copy.
pub proof fn copies_are_used(j: IndexJobView, meta: MetaView, any: Option<MetaView>)
    ensures
        j.force_refresh ==> next_index(j, IndexPhaseView::Looking, IndexEventView::Copy { there: true, meta: any }) == (
            IndexPhaseView::Downloading,
            IndexActionView::Download,
        ),
        next_index(j, IndexPhaseView::Looking, IndexEventView::Copy { there: false, meta: any }) == (
            IndexPhaseView::Downloading,
            IndexActionView::Download,
        ),
        !j.force_refresh ==> next_index(j, IndexPhaseView::Looking, IndexEventView::Copy { there: true, meta: Some(meta) }) == (
            IndexPhaseView::Asking,
            IndexActionView::Ask(meta),
        ),
        !j.force_refresh ==> next_index(j, IndexPhaseView::Looking, IndexEventView::Copy { there: true, meta: None }) == (
            IndexPhaseView::ReadingCopy,
            IndexActionView::ReadCopy,
        ),
{
}

/// A new index that can be unpacked and read is kept, and its text is what is used; one
/// that cannot is an error. A server that does not answer with one, where there is no copy,
/// is an error too.
pub proof fn new_indexes_are_used(j: IndexJobView, body: Seq<u8>, data: Seq<u8>, meta: MetaView, reason: Seq<char>, written: bool)
    requires
        unpacked(body) == Ok::<Seq<u8>, ErrorView>(data),
    ensures
        ({
            let reply = IndexEventView::Reply(ReplyView::Success { body, meta });
            let text = if j.strict {
                text_of(data)
            } else {
                Ok(lossy_text(data))
            };
            let first = next_index(j, IndexPhaseView::Downloading, reply);
            &&& next_index(j, IndexPhaseView::Asking, reply) == first
            &&& text matches Ok(t) ==> first == (IndexPhaseView::Keeping { text: t, meta }, IndexActionView::Keep(data))
            &&& text matches Err(e) ==> first == (IndexPhaseView::Ended, IndexActionView::Fail(e))
            &&& text matches Ok(t) ==> (next_index(j, first.0, IndexEventView::Kept(written)).1 matches IndexActionView::Use {
                text,
                meta: kept,
            } && text == t && (written ==> kept == Some(meta)))
            &&& text matches Ok(t) ==> next_index(j, IndexPhaseView::ReadingCopy, IndexEventView::CopyRead(data)).1
                == (IndexActionView::Use { text: t, meta: None })
        }),
        next_index(j, IndexPhaseView::Downloading, IndexEventView::Reply(ReplyView::Refused { status: reason })).1 is Fail,
        next_index(j, IndexPhaseView::Downloading, IndexEventView::Reply(ReplyView::NotModified)).1 is Fail,
        next_index(j, IndexPhaseView::Downloading, IndexEventView::Reply(ReplyView::Failed { reason })).1 == IndexActionView::Fail(
            ErrorView::Network(reason),
        ),
        next_index(j, IndexPhaseView::Downloading, IndexEventView::Reply(ReplyView::Broken { reason })).1 == IndexActionView::Fail(
            ErrorView::Network(reason),
        ),
        next_index(j, IndexPhaseView::Asking, IndexEventView::Reply(ReplyView::Broken { reason })).1 is Fail,
        next_index(j, IndexPhaseView::ReadingCopy, IndexEventView::CopyUnreadable { reason }).1 == IndexActionView::Fail(
            ErrorView::Io(reason),
        ),
{
}

proof fn lemma_char_end(s: Seq<char>, n: nat)
    requires
        s.len() == 0 || s.last() != '/',
    ensures
        char_end(s + Seq::new(n, |i: int| '/'), '/', (s.len() + n) as int) == s.len(),
    decreases n,
{
    let w = s + Seq::new(n, |i: int| '/');
    if n > 0 {
        let m = (n - 1) as nat;
        let v = s + Seq::new(m, |i: int| '/');
        lemma_char_end(s, m);
        assert(w[s.len() + n - 1] == '/');
        lemma_char_end_of_prefix(v, w, (s.len() + m) as int);
    } else {
        assert(w == s);
        if s.len() > 0 {
            assert(s[s.len() - 1] == s.last());
        }
    }
}

proof fn lemma_char_end_of_prefix(v: Seq<char>, w: Seq<char>, j: int)
    requires
        0 <= j <= v.len() <= w.len(),
        forall|i: int| 0 <= i < v.len() ==> v[i] == w[i],
    ensures
        char_end(v, '/', j) == char_end(w, '/', j),
    decreases j,
{
    if j > 0 && v[j - 1] == '/' {
        lemma_char_end_of_prefix(v, w, j - 1);
    }
}

/// Slashes at the end of the address of a repository do not count.
pub proof fn slashes_at_the_end_do_not_count(url: Seq<char>, n: nat)
    requires
        url.len() == 0 || url.last() != '/',
    ensures
        base_of(url + Seq::new(n, |i: int| '/')) == url,
        base_of(url) == url,
{
    lemma_char_end(url, n);
    lemma_char_end(url, 0);
    let w = url + Seq::new(n, |i: int| '/');
    assert(w.subrange(0, url.len() as int) == url);
    assert(url + Seq::new(0, |i: int| '/') == url);
    assert(url.subrange(0, url.len() as int) == url);
}

} // verus!

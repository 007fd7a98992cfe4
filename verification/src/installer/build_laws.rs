//! How builds are run and watched, how packages are fetched and unpacked.
use vstd::prelude::*;

use super::binary_install::{
    built_among, built_line, leads_out, library_change, library_changes, move_step, text_or_nothing,
    wait_after, MoveStep, TarEntryView,
};
use super::cache_laws::checksums_are_compared;
use super::download::{
    archived, copy_verdict, download_verdict, is_commit, is_digest, next_download, CopyVerdict, DownloadActionView,
    DownloadEventView, DownloadJobView, DownloadPhaseView,
};
use super::r_cmd_install::{
    build_vars, build_verdict, combined, digits_end, in_front, profile_vars, rtools_path, seconds_in,
    timeout_of, unit_seconds, unix_vars, windows_vars, BuildEnd, BuildHost, RtoolsDir, VarView,
};
use super::unpack::{
    next_unpack, EntryPart, UnpackActionView, UnpackEventView, UnpackJobView, UnpackPhaseView,
};
use crate::checksum::{hex_text, md5, md5_checksum, sha256, sha256_checksum};
use crate::error::ErrorView;
use crate::paths::{last_name, slashed};
use crate::registry::cran::built_of;
use crate::registry::index_fetch::lossy_text;
use crate::text::{
    contains_text, decimal, decimal_is_read_back, decimal_parses, ends_with, is_digit, is_letter,
    is_whitespace, lines, opt_view, rfind_text, rsplit_once, rsplit_once_text, split, stands_at,
    starts_with, trim, words,
};
use crate::text_laws::{
    cutting_undoes_joining, is_blank, nothing_is_left_of_space, pieces_of_both, plain_text_is_one_piece,
    stripping_undoes_adding, trimming_undoes_padding,
};

verus! {

proof fn lemma_digits_end(d: Seq<char>, rest: Seq<char>, i: int)
    requires
        crate::text::all_digits(d),
        rest.len() > 0 ==> !is_digit(rest[0]),
        0 <= i <= d.len(),
    ensures
        digits_end(d + rest, i) == d.len(),
    decreases d.len() - i,
{
    let w = d + rest;
    if i < d.len() {
        assert(w[i] == d[i]);
        assert(is_digit(d[i]));
        lemma_digits_end(d, rest, i + 1);
    } else if rest.len() > 0 {
        assert(w[i] == rest[0]);
    }
}

/// A time is a number and a unit, with white space between them or not: seconds, minutes or
/// hours in one of these words, and seconds without a unit. One that is too long for a
/// clock is none.
#[verifier::rlimit(40)]
pub proof fn times_are_read(a: Seq<char>, n: nat, gap: Seq<char>, unit: Seq<char>, b: Seq<char>)
    requires
        is_blank(a),
        is_blank(gap),
        is_blank(b),
        n <= u64::MAX,
        unit.len() > 0,
        !is_whitespace(unit[0]),
        !is_whitespace(unit.last()),
        !is_digit(unit[0]),
    ensures
        seconds_in(a + decimal(n) + b) == Some(n),
        ({
            let text = a + (decimal(n) + gap + unit) + b;
            &&& seq!["s"@, "sec"@, "secs"@, "second"@, "seconds"@].contains(unit) ==> seconds_in(text) == Some(n)
            &&& seq!["m"@, "min"@, "mins"@, "minute"@, "minutes"@].contains(unit) && 60 * n <= u64::MAX ==> seconds_in(text) == Some(
                (60 * n) as nat,
            )
            &&& seq!["h"@, "hr"@, "hrs"@, "hour"@, "hours"@].contains(unit) && 3600 * n <= u64::MAX ==> seconds_in(text) == Some(
                (3600 * n) as nat,
            )
            &&& seq!["m"@, "min"@, "mins"@, "minute"@, "minutes"@].contains(unit) && 60 * n > u64::MAX ==> seconds_in(text) is None
            &&& seq!["h"@, "hr"@, "hrs"@, "hour"@, "hours"@].contains(unit) && 3600 * n > u64::MAX ==> seconds_in(text) is None
            &&& unit_seconds(unit) is None ==> seconds_in(text) is None
        }),
{
    let e = Seq::<char>::empty();
    let d = decimal(n);
    decimal_is_read_back(n);
    decimal_parses(n, u64::MAX as nat);
    lemma_digit_is_no_space(d);
    trimming_undoes_padding(a, d, b);
    lemma_digits_end(d, e, 0);
    assert(d + e == d);
    assert(d.take(d.len() as int) == d);
    assert(d.skip(d.len() as int) == e);
    nothing_is_left_of_space(e);
    reveal_strlit("");
    assert(""@ == e);
    assert(n * 1 == n);
    let t = d + gap + unit;
    assert(t[0] == d[0] && t.last() == unit.last());
    trimming_undoes_padding(a, t, b);
    let rest = gap + unit;
    assert(t == d + rest);
    if gap.len() > 0 {
        assert(rest[0] == gap[0]);
        assert(is_whitespace(gap[0]));
    } else {
        assert(rest[0] == unit[0]);
    }
    lemma_digits_end(d, rest, 0);
    assert(t.take(d.len() as int) == d);
    assert(t.skip(d.len() as int) == rest);
    trimming_undoes_padding(gap, unit, e);
    assert(gap + unit + e == rest);
    lemma_units(unit);
    assert(n * 60 == 60 * n && n * 3600 == 3600 * n) by (nonlinear_arith);
}

proof fn lemma_digit_is_no_space(d: Seq<char>)
    requires
        d.len() > 0,
        crate::text::all_digits(d),
    ensures
        !is_whitespace(d[0]),
        !is_whitespace(d.last()),
{
    assert(is_digit(d[0]));
    assert(is_digit(d[d.len() - 1]));
}

#[verifier::rlimit(40)]
proof fn lemma_units(unit: Seq<char>)
    ensures
        seq!["s"@, "sec"@, "secs"@, "second"@, "seconds"@].contains(unit) ==> unit_seconds(unit) == Some(1nat),
        seq!["m"@, "min"@, "mins"@, "minute"@, "minutes"@].contains(unit) ==> unit_seconds(unit) == Some(60nat),
        seq!["h"@, "hr"@, "hrs"@, "hour"@, "hours"@].contains(unit) ==> unit_seconds(unit) == Some(3600nat),
{
    reveal_strlit("");
    reveal_strlit("s");
    reveal_strlit("sec");
    reveal_strlit("secs");
    reveal_strlit("second");
    reveal_strlit("seconds");
    reveal_strlit("m");
    reveal_strlit("min");
    reveal_strlit("mins");
    reveal_strlit("minute");
    reveal_strlit("minutes");
    reveal_strlit("h");
    reveal_strlit("hr");
    reveal_strlit("hrs");
    reveal_strlit("hour");
    reveal_strlit("hours");
    let s = seq!["s"@, "sec"@, "secs"@, "second"@, "seconds"@];
    let m = seq!["m"@, "min"@, "mins"@, "minute"@, "minutes"@];
    let h = seq!["h"@, "hr"@, "hrs"@, "hour"@, "hours"@];
    assert(s[0] == "s"@ && s[1] == "sec"@ && s[2] == "secs"@ && s[3] == "second"@ && s[4] == "seconds"@);
    assert(m[0] == "m"@ && m[1] == "min"@ && m[2] == "mins"@ && m[3] == "minute"@ && m[4] == "minutes"@);
    assert(h[0] == "h"@ && h[1] == "hr"@ && h[2] == "hrs"@ && h[3] == "hour"@ && h[4] == "hours"@);
    assert("s"@[0] == 's' && "sec"@[0] == 's' && "secs"@[0] == 's' && "second"@[0] == 's' && "seconds"@[0] == 's');
    assert("m"@[0] == 'm' && "min"@[0] == 'm' && "mins"@[0] == 'm' && "minute"@[0] == 'm' && "minutes"@[0] == 'm');
    assert("h"@[0] == 'h' && "hr"@[0] == 'h' && "hrs"@[0] == 'h' && "hour"@[0] == 'h' && "hours"@[0] == 'h');
    assert(""@.len() == 0);
}

/// A limit that is given counts before that of the environment, and where neither can be
/// used builds have half an hour.
pub proof fn limits_in_order(d: u64, env: Seq<char>, seconds: nat)
    ensures
        timeout_of(Some(d), Some(env)) == d,
        timeout_of(Some(d), None) == d,
        seconds_in(env) == Some(seconds) ==> timeout_of(None, Some(env)) == seconds,
        seconds_in(env) is None ==> timeout_of(None, Some(env)) == 30 * 60,
        timeout_of(None, None) == 30 * 60,
{
}

/// Of what a build printed to both of its outputs nothing is lost but white space alone.
pub proof fn outputs_are_combined(a: Seq<char>, b: Seq<char>, blank: Seq<char>)
    requires
        is_blank(blank),
        trim(a).len() > 0,
        trim(b).len() > 0,
    ensures
        combined(a, b) == a + seq!['\n'] + b,
        combined(a, blank) == a,
        combined(blank, b) == b,
        combined(blank, blank).len() == 0,
{
    reveal_strlit("\n");
    assert("\n"@ == seq!['\n']);
    nothing_is_left_of_space(blank);
}

/// A build has succeeded if and only if it ended in time and without an error.
pub proof fn builds_succeed_in_time(end: BuildEnd, package: Seq<char>, timeout: nat)
    ensures
        build_verdict(end, package, timeout) is Ok <==> !end.timed_out && end.success,
{
}

proof fn lemma_rtools_shift(d: RtoolsDir, dirs: Seq<RtoolsDir>, i: int)
    requires
        0 <= i <= dirs.len(),
    ensures
        rtools_path(seq![d] + dirs, i + 1) == rtools_path(dirs, i),
    decreases dirs.len() - i,
{
    if i < dirs.len() {
        assert((seq![d] + dirs)[i + 1] == dirs[i]);
        lemma_rtools_shift(d, dirs, i + 1);
    }
}

/// The tools of the first directory that is there are used, and of no other.
pub proof fn first_tools_are_used(d: RtoolsDir, dirs: Seq<RtoolsDir>)
    ensures
        !d.exists ==> rtools_path(seq![d] + dirs, 0) == rtools_path(dirs, 0),
        d.exists ==> rtools_path(seq![d] + dirs, 0) == (match opt_view(d.usr_bin) {
            Some(u) => u + seq![';'],
            None => seq![],
        }) + (match opt_view(d.mingw_bin) {
            Some(u) => u + seq![';'],
            None => seq![],
        }),
        rtools_path(Seq::<RtoolsDir>::empty(), 0).len() == 0,
{
    reveal_strlit(";");
    assert(";"@ == seq![';']);
    assert((seq![d] + dirs)[0] == d);
    lemma_rtools_shift(d, dirs, 0);
}

proof fn lemma_in_concat(a: Seq<VarView>, b: Seq<VarView>, x: VarView)
    ensures
        a.contains(x) || b.contains(x) ==> (a + b).contains(x),
{
    if a.contains(x) {
        let i = choose|i: int| 0 <= i < a.len() && a[i] == x;
        assert((a + b)[i] == x);
    }
    if b.contains(x) {
        let i = choose|i: int| 0 <= i < b.len() && b[i] == x;
        assert((a + b)[a.len() + i] == x);
    }
}

/// A build never reads the profile of the user. On Windows the tools stand in front of the
/// path; elsewhere the libraries and programs of the R stand in front of what the
/// environment had.
#[verifier::rlimit(40)]
pub proof fn builds_use_the_right_r(h: BuildHost, lib: Seq<char>, bin: Seq<char>)
    ensures
        !h.windows ==> build_vars(h, lib, Some(bin)).contains(("R_PROFILE_USER"@, "/dev/null"@)),
        h.windows ==> build_vars(h, lib, Some(bin)).contains(("R_PROFILE_USER"@, "NUL"@)),
        h.site_profile matches Some(p) ==> build_vars(h, lib, Some(bin)).contains(("R_PROFILE"@, p@)),
        !h.windows ==> {
            let v = build_vars(h, lib, Some(bin));
            &&& v.contains(("LD_LIBRARY_PATH"@, in_front(lib, opt_view(h.ld_library_path))))
            &&& v.contains(("DYLD_LIBRARY_PATH"@, in_front(lib, opt_view(h.dyld_library_path))))
            &&& v.contains(("PATH"@, in_front(bin, opt_view(h.path))))
            &&& h.libr_present ==> v.contains(("R_LD_LIBRARY_PATH"@, in_front(lib, opt_view(h.r_ld_library_path))))
        },
        h.windows && rtools_path(h.rtools@, 0).len() > 0 && h.path is Some ==> build_vars(h, lib, Some(bin)).contains(
            ("PATH"@, rtools_path(h.rtools@, 0) + h.path->0@),
        ),
{
    let v = build_vars(h, lib, Some(bin));
    let user = if h.windows {
        "NUL"@
    } else {
        "/dev/null"@
    };
    let p = profile_vars(h);
    let rest = if h.windows {
        windows_vars(h)
    } else {
        unix_vars(h, lib, Some(bin))
    };
    let first = seq![("R_PROFILE_USER"@, user)];
    assert(v == first + p + rest);
    assert(v[0] == ("R_PROFILE_USER"@, user));
    if let Some(q) = h.site_profile {
        assert(v[1] == ("R_PROFILE"@, q@));
    }
    assert forall|x: VarView| rest.contains(x) implies #[trigger] v.contains(x) by {
        lemma_in_concat(first + p, rest, x);
    }
    if !h.windows {
        assert(rest[0] == ("DYLD_LIBRARY_PATH"@, in_front(lib, opt_view(h.dyld_library_path))));
        assert(rest[1] == ("LD_LIBRARY_PATH"@, in_front(lib, opt_view(h.ld_library_path))));
        assert(rest.contains(rest[0]) && rest.contains(rest[1]));
        if h.libr_present {
            assert(rest[2] == ("R_LD_LIBRARY_PATH"@, in_front(lib, opt_view(h.r_ld_library_path))));
            assert(rest[3] == ("PATH"@, in_front(bin, opt_view(h.path))));
            assert(rest.contains(rest[2]) && rest.contains(rest[3]));
        } else {
            assert(rest[2] == ("PATH"@, in_front(bin, opt_view(h.path))));
            assert(rest.contains(rest[2]));
        }
    } else if rtools_path(h.rtools@, 0).len() > 0 && h.path is Some {
        assert(rest[0] == ("PATH"@, rtools_path(h.rtools@, 0) + h.path->0@));
        assert(rest.contains(rest[0]));
    }
}

/// A directory is put in front of a list with a colon between, and alone where the list is
/// empty.
pub proof fn directories_are_put_in_front(dir: Seq<char>, list: Seq<char>)
    ensures
        list.len() > 0 ==> in_front(dir, Some(list)) == dir + seq![':'] + list,
        in_front(dir, Some(Seq::<char>::empty())) == dir,
        in_front(dir, None) == dir,
{
    reveal_strlit(":");
    assert(":"@ == seq![':']);
}

proof fn lemma_rfind_text(s: Seq<char>, p: Seq<char>, k: int, i: int)
    requires
        0 <= k <= i,
        stands_at(s, p, k),
        forall|j: int| k < j <= i ==> !stands_at(s, p, j),
    ensures
        rfind_text(s, p, i) == k,
    decreases i,
{
    if i > k {
        lemma_rfind_text(s, p, k, i - 1);
    }
}

#[verifier::rlimit(40)]
proof fn lemma_contrib_not_later(base: Seq<char>, file: Seq<char>, j: int)
    requires
        !file.contains('/'),
        base.len() < j,
    ensures
        !stands_at(base + "/src/contrib/"@ + file, "/src/contrib/"@, j),
{
    reveal_strlit("/src/contrib/");
    let p = "/src/contrib/"@;
    let url = base + p + file;
    let k = base.len() as int;
    if stands_at(url, p, j) {
        let q = url.subrange(j, j + 13);
        assert(q == p);
        assert(p[0] == '/' && p[1] == 's' && p[4] == '/' && p[5] == 'c');
        assert(q[0] == url[j] && q[1] == url[j + 1] && q[4] == url[j + 4]);
        if j >= k + 13 {
            assert(url[j] == file[j - k - 13]);
            assert(file.contains(file[j - k - 13]));
        } else if j == k + 12 {
            assert(url[j + 4] == file[3]);
            assert(file.contains(file[3]));
        } else if j == k + 4 {
            assert(url[j + 1] == p[5]);
        } else {
            assert(url[j] == p[j - k]);
            assert(p[1] != '/' && p[2] != '/' && p[3] != '/' && p[5] != '/' && p[6] != '/' && p[7] != '/' && p[8] != '/');
            assert(p[9] != '/' && p[10] != '/' && p[11] != '/');
        }
    }
}

proof fn lemma_contrib_is_last(base: Seq<char>, file: Seq<char>)
    requires
        !file.contains('/'),
    ensures
        rsplit_once_text(base + "/src/contrib/"@ + file, "/src/contrib/"@) == Some((base, file)),
{
    let p = "/src/contrib/"@;
    let n = p.len() as int;
    let url = base + p + file;
    let k = base.len() as int;
    assert(url.subrange(k, k + n) == p);
    assert(stands_at(url, p, k));
    assert forall|j: int| k < j <= url.len() implies !stands_at(url, p, j) by {
        lemma_contrib_not_later(base, file, j);
    }
    lemma_rfind_text(url, p, k, url.len() as int);
    assert(url.subrange(0, k) == base);
    assert(url.subrange(k + n, url.len() as int) == file);
}

proof fn lemma_file_of_package(package: Seq<char>, version: Seq<char>)
    requires
        !package.contains('/'),
        !version.contains('/'),
        !version.contains('_'),
    ensures
        ({
            let file = package + seq!['_'] + version + ".tar.gz"@;
            &&& !file.contains('/')
            &&& ends_with(file, ".tar.gz"@)
            &&& rsplit_once(file, '_') == Some((package, version + ".tar.gz"@))
        }),
{
    reveal_strlit(".tar.gz");
    let file = package + seq!['_'] + version + ".tar.gz"@;
    if file.contains('/') {
        let i = choose|i: int| 0 <= i < file.len() && file[i] == '/';
        if i < package.len() {
            assert(package[i] == '/');
        } else if i > package.len() && i < package.len() + 1 + version.len() {
            assert(version[i - package.len() - 1] == '/');
        }
    }
    let front = package + seq!['_'] + version;
    assert(file.subrange(front.len() as int, file.len() as int) == ".tar.gz"@);
    let tail = version + ".tar.gz"@;
    assert(file == package + seq!['_'] + tail);
    if tail.contains('_') {
        let i = choose|i: int| 0 <= i < tail.len() && tail[i] == '_';
        if i < version.len() {
            assert(version[i] == '_');
        }
    }
    cutting_undoes_joining(package, tail, '_');
}

/// A source package of CRAN that is no longer offered is looked for in the archive, in the
/// directory of its name and under the same file name.
pub proof fn old_packages_are_in_the_archive(base: Seq<char>, package: Seq<char>, version: Seq<char>)
    requires
        package.len() > 0,
        !package.contains('/'),
        !version.contains('/'),
        !version.contains('_'),
        !contains_text(base + "/src/contrib/"@ + (package + seq!['_'] + version + ".tar.gz"@), "/src/contrib/Archive/"@),
    ensures
        archived(base + "/src/contrib/"@ + (package + seq!['_'] + version + ".tar.gz"@)) == Some(
            base + "/src/contrib/Archive/"@ + package + seq!['/'] + (package + seq!['_'] + version + ".tar.gz"@),
        ),
{
    reveal_strlit("/");
    assert("/"@ == seq!['/']);
    let file = package + seq!['_'] + version + ".tar.gz"@;
    lemma_file_of_package(package, version);
    lemma_contrib_is_last(base, file);
}

/// What is in the archive already, and what is no source package, has no other place.
#[verifier::rlimit(40)]
pub proof fn nothing_else_is_archived(url: Seq<char>)
    ensures
        contains_text(url, "/src/contrib/Archive/"@) ==> archived(url) is None,
        rsplit_once_text(url, "/src/contrib/"@) is None ==> archived(url) is None,
        archived(url) matches Some(a) ==> archived(a) is None,
        archived(url) is Some ==> ends_with(url, ".tar.gz"@),
        archived(url) matches Some(a) ==> split(a, '/').last() == split(url, '/').last(),
{
    if let Some(a) = archived(url) {
        let (base, file) = rsplit_once_text(url, "/src/contrib/"@)->0;
        let (package, tail) = rsplit_once(file, '_')->0;
        let p = "/src/contrib/Archive/"@;
        assert(a == base + p + package + "/"@ + file);
        assert(a.subrange(base.len() as int, (base.len() + p.len()) as int) == p);
        assert(stands_at(a, p, base.len() as int));
        let q = "/src/contrib/"@;
        reveal_strlit("/src/contrib/");
        reveal_strlit(".tar.gz");
        reveal_strlit("/");
        assert("/"@ == seq!['/']);
        let k = url.len() - file.len();
        lemma_text_found_stands(url, q, url.len() as int);
        assert(url.subrange(k, url.len() as int) == file);
        assert(url.subrange(url.len() - 7, url.len() as int) == file.subrange(file.len() - 7, file.len() as int));
        assert(url.subrange(k - q.len(), k) == q);
        let before = url.subrange(0, k - 1);
        assert(url[k - 1] == url.subrange(k - q.len(), k)[q.len() - 1]);
        assert(url == before + seq!['/'] + file);
        plain_text_is_one_piece(file, '/');
        pieces_of_both(before, file, '/');
        pieces_of_both(base + p + package, file, '/');
    }
}

proof fn lemma_text_found_stands(s: Seq<char>, p: Seq<char>, i: int)
    ensures
        rfind_text(s, p, i) >= 0 ==> stands_at(s, p, rfind_text(s, p, i)),
    decreases i + 1,
{
    if i >= 0 && !stands_at(s, p, i) {
        lemma_text_found_stands(s, p, i - 1);
    }
}

/// A copy of a package at a commit is held against the checksum kept beside it, round which
/// space does not count; it is used if and only if it has that checksum.
#[verifier::rlimit(40)]
pub proof fn copies_of_commits_are_compared(commit: Seq<char>, a: Seq<char>, kept: Seq<char>, b: Seq<char>, data: Seq<u8>, package: Seq<char>)
    requires
        is_blank(a),
        is_blank(b),
        is_digest(kept),
        !is_whitespace(kept.last()),
    ensures
        ({
            let v = copy_verdict(Some("git:"@ + commit), Some(a + kept + b), data, package);
            &&& v == CopyVerdict::Use <==> kept == sha256_checksum(data) || kept == md5_checksum(data)
            &&& v != CopyVerdict::Use ==> v == CopyVerdict::ReplaceWithSidecar
        }),
{
    reveal_strlit("sha256:");
    reveal_strlit("md5:");
    reveal_strlit("git:");
    let c = "git:"@ + commit;
    assert(c.subrange(0, 4) == "git:"@);
    assert(c[0] == 'g');
    assert(!is_digest(c)) by {
        if starts_with(c, "md5:"@) {
            assert(c.subrange(0, 4)[0] == 'm');
        }
        if starts_with(c, "sha256:"@) {
            assert(c.subrange(0, 7)[0] == 's');
        }
    }
    assert(kept[0] == 'm' || kept[0] == 's') by {
        if starts_with(kept, "md5:"@) {
            assert(kept.subrange(0, 4)[0] == 'm');
        } else {
            assert(kept.subrange(0, 7)[0] == 's');
        }
    }
    trimming_undoes_padding(a, kept, b);
    checksums_are_compared(kept, data, package);
}

/// Data is accepted without a checksum, with its own one, and with one of a kind that is
/// not known; for a commit a digest of the data is kept.
pub proof fn good_data_is_accepted(data: Seq<u8>, package: Seq<char>, commit: Seq<char>)
    ensures
        ({
            let s = hex_text(sha256(data));
            let m = hex_text(md5(data));
            &&& download_verdict(None, s, m, package) == Ok::<Option<Seq<char>>, ErrorView>(None)
            &&& download_verdict(Some(sha256_checksum(data)), s, m, package) == Ok::<Option<Seq<char>>, ErrorView>(None)
            &&& download_verdict(Some(md5_checksum(data)), s, m, package) == Ok::<Option<Seq<char>>, ErrorView>(None)
            &&& download_verdict(Some("git:"@ + commit), s, m, package) == Ok::<Option<Seq<char>>, ErrorView>(Some(sha256_checksum(data)))
        }),
        copy_verdict(None, None, data, package) == CopyVerdict::Use,
        copy_verdict(Some("git:"@ + commit), None, data, package) == CopyVerdict::Use,
        copy_verdict(Some(sha256_checksum(data)), None, data, package) == CopyVerdict::Use,
        copy_verdict(Some(md5_checksum(data)), None, data, package) == CopyVerdict::Use,
{
    reveal_strlit("sha256:");
    reveal_strlit("md5:");
    reveal_strlit("git:");
    let x = sha256_checksum(data);
    let y = md5_checksum(data);
    let g = "git:"@ + commit;
    stripping_undoes_adding("sha256:"@, hex_text(sha256(data)));
    stripping_undoes_adding("md5:"@, hex_text(md5(data)));
    stripping_undoes_adding("git:"@, commit);
    assert(y[0] == 'm' && g[0] == 'g');
    if starts_with(y, "sha256:"@) {
        assert(y.subrange(0, 7)[0] == 's');
    }
    if starts_with(g, "sha256:"@) {
        assert(g.subrange(0, 7)[0] == 's');
    }
    if starts_with(g, "md5:"@) {
        assert(g.subrange(0, 4)[0] == 'm');
    }
    crate::checksum::own_checksum_is_accepted(data, package);
}

/// A download goes on from each phase to the next: what is not there is asked for, what is
/// refused is asked for in the archive, what is answered is received, what is good is moved
/// into its place, and what is lost is an error.
pub proof fn downloading_goes_on(j: DownloadJobView, sidecar: Option<Seq<char>>, data: Seq<u8>, reason: Seq<char>)
    ensures
        next_download(j, DownloadPhaseView::Looking, DownloadEventView::Copy { there: false, sidecar }).1 == (DownloadActionView::Ask {
            url: j.attempt.url,
            remove_copy: false,
            remove_sidecar: false,
        }),
        j.attempt.checksum is None ==> next_download(j, DownloadPhaseView::Looking, DownloadEventView::Copy { there: true, sidecar }).1
            == DownloadActionView::UseCopy,
        j.attempt.checksum matches Some(c) && is_digest(c) ==> next_download(
            j,
            DownloadPhaseView::Looking,
            DownloadEventView::Copy { there: true, sidecar },
        ) == (DownloadPhaseView::Reading { sidecar }, DownloadActionView::ReadCopy),
        next_download(j, DownloadPhaseView::Asking, DownloadEventView::Answered) == (
            DownloadPhaseView::Receiving,
            DownloadActionView::Receive,
        ),
        next_download(j, DownloadPhaseView::AskingArchive, DownloadEventView::Answered) == (
            DownloadPhaseView::Receiving,
            DownloadActionView::Receive,
        ),
        archived(j.attempt.url) matches Some(a) ==> next_download(
            j,
            DownloadPhaseView::Asking,
            DownloadEventView::Refused { reason },
        ) == (
            DownloadPhaseView::AskingArchive,
            DownloadActionView::Ask { url: a, remove_copy: false, remove_sidecar: false },
        ),
        archived(j.attempt.url) is None ==> next_download(j, DownloadPhaseView::Asking, DownloadEventView::Refused { reason }).1
            == DownloadActionView::Fail(ErrorView::Network(reason)),
        next_download(j, DownloadPhaseView::AskingArchive, DownloadEventView::Refused { reason }).1 == DownloadActionView::Fail(
            ErrorView::Network(reason),
        ),
        next_download(j, DownloadPhaseView::Receiving, DownloadEventView::Lost { reason }).1 == DownloadActionView::Fail(
            ErrorView::Network(reason),
        ),
        next_download(j, DownloadPhaseView::Receiving, DownloadEventView::NotWritten { reason }).1 == DownloadActionView::Fail(
            ErrorView::Io(reason),
        ),
        j.attempt.checksum is None ==> next_download(j, DownloadPhaseView::Receiving, DownloadEventView::Received(data)) == (
            DownloadPhaseView::Moving,
            DownloadActionView::Move { sidecar: None },
        ),
        j.attempt.checksum == Some(sha256_checksum(data)) ==> next_download(
            j,
            DownloadPhaseView::Receiving,
            DownloadEventView::Received(data),
        ) == (DownloadPhaseView::Moving, DownloadActionView::Move { sidecar: None }),
        next_download(j, DownloadPhaseView::Moving, DownloadEventView::Moved) == (DownloadPhaseView::Ended, DownloadActionView::Done),
        next_download(j, DownloadPhaseView::Moving, DownloadEventView::NotMoved { reason }).1 is Fail,
{
    good_data_is_accepted(data, j.name, Seq::<char>::empty());
}

/// A copy that is there and has the checksum it is held against is used; any other is
/// removed, with the checksum kept beside it where that is what it was held against, and the
/// package is asked for anew. A copy for a commit is read only where such a checksum is kept.
pub proof fn copies_are_used_or_replaced(j: DownloadJobView, sidecar: Option<Seq<char>>, data: Seq<u8>, reason: Seq<char>)
    ensures
        ({
            let (p, a) = next_download(j, DownloadPhaseView::Reading { sidecar }, DownloadEventView::CopyRead(data));
            let v = copy_verdict(j.attempt.checksum, sidecar, data, j.name);
            &&& a is UseCopy <==> v == CopyVerdict::Use
            &&& v != CopyVerdict::Use ==> p == DownloadPhaseView::Asking && a == (DownloadActionView::Ask {
                url: j.attempt.url,
                remove_copy: true,
                remove_sidecar: v == CopyVerdict::ReplaceWithSidecar,
            })
        }),
        next_download(j, DownloadPhaseView::Reading { sidecar }, DownloadEventView::CopyUnreadable { reason }).1
            == DownloadActionView::Fail(ErrorView::Io(reason)),
        j.attempt.checksum matches Some(c) ==> (is_commit(c) && !is_digest(c) ==> {
            let (p, a) = next_download(j, DownloadPhaseView::Looking, DownloadEventView::Copy { there: true, sidecar });
            &&& sidecar is Some ==> p == (DownloadPhaseView::Reading { sidecar }) && a is ReadCopy
            &&& sidecar is None ==> a is UseCopy
        }),
{
}

/// A package that could not be moved is copied, moved again after a while, or given up, as
/// the failure says; an entry that could not be unpacked ends it.
pub proof fn moving_goes_on(j: UnpackJobView, attempt: u32, raw: Option<i32>, reason: Seq<char>, path: Seq<char>, part: EntryPart)
    ensures
        next_unpack(j, UnpackPhaseView::Moving { attempt }, UnpackEventView::Moved) == (UnpackPhaseView::Ended, UnpackActionView::Done),
        ({
            let (p, a) = next_unpack(
                j,
                UnpackPhaseView::Moving { attempt },
                UnpackEventView::NotMoved { raw_os_error: raw, reason },
            );
            match move_step(raw, reason, j.windows, attempt) {
                MoveStep::Copy => p is Copying && a is Copy,
                MoveStep::Retry(ms) => p == (UnpackPhaseView::Moving { attempt: (attempt + 1) as u32 }) && a
                    == UnpackActionView::MoveAfter(ms),
                MoveStep::GiveUp => p is Ended && a is Fail,
            }
        }),
        next_unpack(j, UnpackPhaseView::Copying, UnpackEventView::NotMoved { raw_os_error: raw, reason }).1 is Fail,
        next_unpack(j, UnpackPhaseView::Unpacking { path }, UnpackEventView::NotUnpacked { part, reason }).1 is Fail,
{
}

/// Unpacking goes on from each phase to the next, and puts the package into its place only
/// when all of it is unpacked and the package is in it.
pub proof fn unpacking_goes_on(j: UnpackJobView, path: Seq<char>, shown: Seq<char>, reason: Seq<char>)
    ensures
        next_unpack(j, UnpackPhaseView::Opening, UnpackEventView::Opened) == (UnpackPhaseView::Staging, UnpackActionView::Stage),
        next_unpack(j, UnpackPhaseView::Opening, UnpackEventView::FileUnreadable { reason }).1 is Fail,
        next_unpack(j, UnpackPhaseView::Opening, UnpackEventView::NoArchive { reason }).1 is Fail,
        next_unpack(j, UnpackPhaseView::Staging, UnpackEventView::Staged) == (UnpackPhaseView::Reading, UnpackActionView::Read),
        next_unpack(j, UnpackPhaseView::Staging, UnpackEventView::NotStaged { reason }).1 is Fail,
        next_unpack(j, UnpackPhaseView::Reading, UnpackEventView::NoArchive { reason }).1 is Fail,
        next_unpack(j, UnpackPhaseView::Reading, UnpackEventView::EntryUnreadable { reason }).1 is Fail,
        next_unpack(j, UnpackPhaseView::Reading, UnpackEventView::PathInvalid { reason }).1 is Fail,
        leads_out(path, j.windows) ==> next_unpack(j, UnpackPhaseView::Reading, UnpackEventView::Entry { path, shown }).1 is Fail,
        !leads_out(path, j.windows) ==> next_unpack(j, UnpackPhaseView::Reading, UnpackEventView::Entry { path, shown }) == (
            UnpackPhaseView::Unpacking { path },
            UnpackActionView::Unpack { path },
        ),
        next_unpack(j, UnpackPhaseView::Unpacking { path }, UnpackEventView::Unpacked) == (UnpackPhaseView::Reading, UnpackActionView::Read),
        next_unpack(j, UnpackPhaseView::Reading, UnpackEventView::End) == (UnpackPhaseView::Looking, UnpackActionView::Look),
        next_unpack(j, UnpackPhaseView::Looking, UnpackEventView::PackageThere(true)) == (
            UnpackPhaseView::Moving { attempt: 0 },
            UnpackActionView::Replace,
        ),
        next_unpack(j, UnpackPhaseView::Looking, UnpackEventView::PackageThere(false)).1 is Fail,
        next_unpack(j, UnpackPhaseView::Moving { attempt: 0 }, UnpackEventView::Moved) == (UnpackPhaseView::Ended, UnpackActionView::Done),
        next_unpack(j, UnpackPhaseView::Copying, UnpackEventView::Moved) == (UnpackPhaseView::Ended, UnpackActionView::Done),
        next_unpack(j, UnpackPhaseView::Copying, UnpackEventView::NotMoved { raw_os_error: None, reason }).1 is Fail,
{
}

/// A move that failed because the places are on different devices is done by copying. On
/// Windows one that failed because a file is in use is tried again five times, each time
/// after twice as long. Any other is given up.
pub proof fn moves_are_tried_again(raw: Option<i32>, message: Seq<char>, attempt: u32)
    ensures
        contains_text(message, "cross-device"@) ==> move_step(raw, message, true, attempt) == MoveStep::Copy && move_step(
            raw,
            message,
            false,
            attempt,
        ) == MoveStep::Copy,
        move_step(Some(18), message, false, attempt) == MoveStep::Copy,
        !contains_text(message, "cross-device"@) && raw != Some(18i32) ==> move_step(raw, message, false, attempt) == MoveStep::GiveUp,
        !contains_text(message, "cross-device"@) && attempt < 5 && (raw == Some(5i32) || raw == Some(32i32) || raw == Some(33i32))
            ==> move_step(raw, message, true, attempt) is Retry,
        !contains_text(message, "cross-device"@) && attempt >= 5 && raw != Some(18i32) ==> move_step(raw, message, true, attempt)
            == MoveStep::GiveUp,
        !contains_text(message, "cross-device"@) && attempt + 1 < 5 && raw == Some(32i32) ==> move_step(
            raw,
            message,
            true,
            (attempt + 1) as u32,
        )->Retry_0 == 2 * move_step(raw, message, true, attempt)->Retry_0,
        !contains_text(message, "cross-device"@) ==> move_step(Some(32), message, true, 0) == MoveStep::Retry(50),
{
    reveal_with_fuel(wait_after, 6);
}

/// A path leads out where it is absolute, names a drive, or has two dots for one of its
/// parts; one made of other parts does not. On Windows a backslash is a slash.
#[verifier::rlimit(40)]
pub proof fn paths_that_lead_out(a: Seq<char>, b: Seq<char>, name: Seq<char>, rest: Seq<char>, drive: char)
    requires
        !name.contains('/'),
        name.len() > 0,
        name != ".."@,
        rest.len() == 0 || rest[0] != '/',
    ensures
        leads_out(seq!['/'] + a, false),
        leads_out(seq!['/'] + a, true),
        leads_out(seq!['\\'] + a, true),
        leads_out(a + seq!['/'] + ".."@ + seq!['/'] + b, false),
        leads_out(".."@ + seq!['/'] + b, false),
        leads_out(a + seq!['/'] + ".."@, false),
        leads_out(".."@, false),
        is_letter(drive) ==> leads_out(seq![drive, ':'] + a, true),
        !leads_out(name, false),
        !leads_out(rest, false) ==> !leads_out(name + seq!['/'] + rest, false),
        leads_out(rest, false) ==> leads_out(name + seq!['/'] + rest, false),
{
    reveal_strlit("..");
    let up = ".."@;
    assert((seq!['/'] + a)[0] == '/');
    assert(slashed(seq!['/'] + a, true)[0] == '/');
    assert(slashed(seq!['\\'] + a, true)[0] == '/');
    assert(!up.contains('/'));
    plain_text_is_one_piece(up, '/');
    assert(split(up, '/')[0] == up);
    assert(split(up, '/').contains(up));
    pieces_of_both(a, up, '/');
    pieces_of_both(a + seq!['/'] + up, b, '/');
    pieces_of_both(up, b, '/');
    let x = split(a, '/');
    let y = split(b, '/');
    assert((x + seq![up] + y)[x.len() as int] == up);
    assert((x + seq![up])[x.len() as int] == up);
    assert((seq![up] + y)[0] == up);
    let d = seq![drive, ':'] + a;
    assert(d[0] == drive && d[1] == ':');
    plain_text_is_one_piece(name, '/');
    assert(name.contains(name[0]));
    pieces_of_both(name, rest, '/');
    let z = split(rest, '/');
    let w = seq![name] + z;
    assert((name + seq!['/'] + rest)[0] == name[0]);
    if z.contains(up) {
        let i = choose|i: int| 0 <= i < z.len() && z[i] == up;
        assert(w[i + 1] == up);
    }
    if w.contains(up) {
        let i = choose|i: int| 0 <= i < w.len() && w[i] == up;
        assert(z[i - 1] == up);
    }
}

proof fn lemma_built_line_shift(line: Seq<char>, ls: Seq<Seq<char>>, i: int)
    requires
        0 <= i <= ls.len(),
    ensures
        built_line(seq![line] + ls, i + 1) == built_line(ls, i),
    decreases ls.len() - i,
{
    if i < ls.len() {
        assert((seq![line] + ls)[i + 1] == ls[i]);
        lemma_built_line_shift(line, ls, i + 1);
    }
}

/// A description is of a build by its first line about it; other lines do not count.
pub proof fn first_line_about_the_build_counts(v: Seq<char>, other: Seq<char>, ls: Seq<Seq<char>>)
    requires
        !starts_with(other, "Built:"@),
    ensures
        built_line(seq!["Built:"@ + v] + ls, 0) == built_of(trim(v)),
        built_line(seq![other] + ls, 0) == built_line(ls, 0),
        built_line(Seq::<Seq<char>>::empty(), 0) is None,
{
    stripping_undoes_adding("Built:"@, v);
    assert((seq!["Built:"@ + v] + ls)[0] == "Built:"@ + v);
    assert((seq![other] + ls)[0] == other);
    lemma_built_line_shift(other, ls, 0);
}

proof fn lemma_built_among_shift(e: Option<TarEntryView>, rest: Seq<Option<TarEntryView>>, want: Seq<char>, windows: bool, i: int)
    requires
        0 <= i <= rest.len(),
    ensures
        built_among(seq![e] + rest, want, windows, i + 1) == built_among(rest, want, windows, i),
    decreases rest.len() - i,
{
    if i < rest.len() {
        assert((seq![e] + rest)[i + 1] == rest[i]);
        lemma_built_among_shift(e, rest, want, windows, i + 1);
    }
}

/// An archive is of a build by the first entry with the path of the description; entries
/// with other paths, and those that cannot be read, are passed over.
pub proof fn description_in_an_archive(e: TarEntryView, rest: Seq<Option<TarEntryView>>, want: Seq<char>, windows: bool)
    requires
        vstd::utf8::valid_utf8(e.path),
    ensures
        lossy_text(e.path) == want ==> built_among(seq![Some(e)] + rest, want, windows, 0) == built_line(
            lines(text_or_nothing(e.start)),
            0,
        ),
        lossy_text(e.path) != want ==> built_among(seq![Some(e)] + rest, want, windows, 0) == built_among(rest, want, windows, 0),
        built_among(seq![None] + rest, want, windows, 0) == built_among(rest, want, windows, 0),
        built_among(Seq::<Option<TarEntryView>>::empty(), want, windows, 0) is None,
{
    assert((seq![Some(e)] + rest)[0] == Some(e));
    assert((seq![None::<TarEntryView>] + rest)[0] is None);
    lemma_built_among_shift(Some(e), rest, want, windows, 0);
    lemma_built_among_shift(None, rest, want, windows, 0);
}

/// A library of R that a build is linked to is replaced by that of the same name in the
/// directory of the R, unless it is that one already; other libraries stay.
pub proof fn libraries_of_r_are_replaced(line: Seq<char>, dir: Seq<char>, file: Seq<char>, lib: Seq<char>)
    requires
        words(line).len() > 0,
        words(line)[0] == dir + seq!['/'] + file,
        file.len() > 0,
        !file.contains('/'),
        file != "."@,
        file != ".."@,
    ensures
        ({
            let dep = dir + seq!['/'] + file;
            let is_r = contains_text(dep, "R.framework"@) || contains_text(dep, "libR.dylib"@);
            &&& is_r && dir != lib ==> library_change(line, lib) == Some((dep, lib + seq!['/'] + file))
            &&& dir == lib ==> library_change(line, lib) is None
            &&& !is_r ==> library_change(line, lib) is None
        }),
{
    reveal_strlit("/");
    assert("/"@ == seq!['/']);
    let dep = dir + seq!['/'] + file;
    pieces_of_both(dir, file, '/');
    plain_text_is_one_piece(file, '/');
    let p = split(dep, '/');
    assert(p.last() == file);
    assert(last_name(p) == Some(file));
    if dir != lib && dep == lib + seq!['/'] + file {
        assert(dir == dep.take(dep.len() - file.len() - 1));
        assert(lib == dep.take(dep.len() - file.len() - 1));
    }
}

/// The changes are those of the lines, one after another.
pub proof fn every_line_is_looked_at(ls: Seq<Seq<char>>, line: Seq<char>, lib: Seq<char>)
    ensures
        library_changes(ls.push(line), lib) == (match library_change(line, lib) {
            Some(c) => library_changes(ls, lib).push(c),
            None => library_changes(ls, lib),
        }),
        library_changes(Seq::<Seq<char>>::empty(), lib).len() == 0,
{
    assert(ls.push(line).drop_last() == ls);
}

} // verus!

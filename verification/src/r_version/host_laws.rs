//! What is concluded from what is known of a machine.
use vstd::prelude::*;

use super::host::{
    at_least, chosen_slug, distro_label, distro_slug, field_value, first_value, glibc_numbers, is_musl,
    is_published, last_value, libc_verdict, manylinux_repo, names_alpine, platform_of, portable_url, r_numbers, slug_of, target_triple, triple_of, ua_version,
    Platform,
};
use crate::registry::cran_laws::series_of_a_version;
use crate::text::{
    contains_text, decimal, decimal_is_read_back, decimal_parses, is_digit, is_whitespace, lines,
    lines_of_line_and_rest, lower, parse_number, same_ignoring_case, split, starts_with, trim_char, words,
};
use crate::text_laws::{
    pieces_make_the_text, pieces_of_both, plain_text_is_one_piece, removing_a_character,
    stripping_undoes_adding, unbroken_text_is_one_word,
};

verus! {

/// Each machine has one platform, and its processor and system can be told from it.
pub proof fn platforms_are_told_apart(os: Seq<char>, arch: Seq<char>)
    ensures
        platform_of(os, arch) is Some <==> (os == "linux"@ || os == "macos"@ || os == "windows"@) && (arch == "x86_64"@ || (arch
            == "aarch64"@ && os != "windows"@)),
        platform_of(os, arch) matches Some(p) ==> {
            &&& p is LinuxX86_64 || p is LinuxArm64 <==> os == "linux"@
            &&& p is MacOsX86_64 || p is MacOsArm64 <==> os == "macos"@
            &&& p is WindowsX86_64 <==> os == "windows"@
            &&& p is LinuxArm64 || p is MacOsArm64 <==> arch == "aarch64"@
            &&& starts_with(target_triple(p), arch)
        },
{
    reveal_strlit("linux");
    reveal_strlit("macos");
    reveal_strlit("windows");
    reveal_strlit("x86_64");
    reveal_strlit("aarch64");
    reveal_strlit("aarch64-apple-darwin");
    reveal_strlit("x86_64-apple-darwin");
    reveal_strlit("x86_64-unknown-linux-gnu");
    reveal_strlit("aarch64-unknown-linux-gnu");
    reveal_strlit("x86_64-pc-windows-msvc");
    assert("linux"@[0] == 'l' && "macos"@[0] == 'm' && "windows"@[0] == 'w');
    assert("x86_64"@[0] == 'x' && "aarch64"@[0] == 'a');
    assert("aarch64-apple-darwin"@.subrange(0, 7) == "aarch64"@);
    assert("aarch64-unknown-linux-gnu"@.subrange(0, 7) == "aarch64"@);
    assert("x86_64-apple-darwin"@.subrange(0, 6) == "x86_64"@);
    assert("x86_64-unknown-linux-gnu"@.subrange(0, 6) == "x86_64"@);
    assert("x86_64-pc-windows-msvc"@.subrange(0, 6) == "x86_64"@);
}

/// The address of an R names its version: it is another for another version, and below the
/// same root for all. Which C library the machine has matters on Linux and nowhere else.
#[verifier::rlimit(40)]
pub proof fn address_of_r_names_the_version(p: Platform, v: Seq<char>, w: Seq<char>, musl: bool)
    ensures
        portable_url(p, v, musl) == portable_url(p, w, musl) ==> v == w,
        starts_with(portable_url(p, v, musl), "https://cdn.posit.co/r/"@),
        p is LinuxX86_64 || p is LinuxArm64 <==> portable_url(p, v, true) != portable_url(p, v, false),
{
    reveal_strlit("musllinux_1_2");
    reveal_strlit("manylinux_2_34");
    let root = "https://cdn.posit.co/r/"@;
    let id = super::host::portable_id(musl);
    match p {
        Platform::MacOsArm64 => {
            lemma_middle(root + "macos/R-"@, v, w, "-macos-arm64.tar.gz"@);
            assert(portable_url(p, v, musl) =~= root + ("macos/R-"@ + v + "-macos-arm64.tar.gz"@));
            lemma_starts(root, "macos/R-"@ + v + "-macos-arm64.tar.gz"@, portable_url(p, v, musl));
        },
        Platform::MacOsX86_64 => {
            lemma_middle(root + "macos/R-"@, v, w, "-macos.tar.gz"@);
            assert(portable_url(p, v, musl) =~= root + ("macos/R-"@ + v + "-macos.tar.gz"@));
            lemma_starts(root, "macos/R-"@ + v + "-macos.tar.gz"@, portable_url(p, v, musl));
        },
        Platform::LinuxX86_64 => {
            let tail = "-"@ + id + ".tar.gz"@;
            lemma_middle(root + id + "/R-"@, v, w, tail);
            assert(portable_url(p, v, musl) == root + id + "/R-"@ + v + tail);
            assert(portable_url(p, w, musl) == root + id + "/R-"@ + w + tail);
            assert(portable_url(p, v, musl) =~= root + (id + "/R-"@ + v + tail));
            lemma_starts(root, id + "/R-"@ + v + tail, portable_url(p, v, musl));
            assert(portable_url(p, v, true).len() != portable_url(p, v, false).len());
        },
        Platform::LinuxArm64 => {
            let tail = "-"@ + id + "-arm64.tar.gz"@;
            lemma_middle(root + id + "/R-"@, v, w, tail);
            assert(portable_url(p, v, musl) == root + id + "/R-"@ + v + tail);
            assert(portable_url(p, w, musl) == root + id + "/R-"@ + w + tail);
            assert(portable_url(p, v, musl) =~= root + (id + "/R-"@ + v + tail));
            lemma_starts(root, id + "/R-"@ + v + tail, portable_url(p, v, musl));
            assert(portable_url(p, v, true).len() != portable_url(p, v, false).len());
        },
        Platform::WindowsX86_64 => {
            lemma_middle(root + "windows/R-"@, v, w, "-windows.zip"@);
            assert(portable_url(p, v, musl) =~= root + ("windows/R-"@ + v + "-windows.zip"@));
            lemma_starts(root, "windows/R-"@ + v + "-windows.zip"@, portable_url(p, v, musl));
        },
    }
}

proof fn lemma_middle(a: Seq<char>, v: Seq<char>, w: Seq<char>, b: Seq<char>)
    ensures
        a + v + b == a + w + b ==> v == w,
{
    if a + v + b == a + w + b {
        assert((a + v + b).len() == (a + w + b).len());
        assert(v == (a + v + b).subrange(a.len() as int, (a.len() + v.len()) as int));
        assert(w == (a + w + b).subrange(a.len() as int, (a.len() + w.len()) as int));
    }
}

proof fn lemma_starts(a: Seq<char>, b: Seq<char>, s: Seq<char>)
    requires
        s =~= a + b,
    ensures
        starts_with(s, a),
{
    assert(s.subrange(0, a.len() as int) == a);
}

/// Versions are in order by their first number, among equal ones by the second, and then
/// by the third.
pub proof fn versions_are_in_order(v: (u32, u32, u32), w: (u32, u32, u32), x: (u32, u32, u32))
    ensures
        at_least(v, v),
        at_least(v, w) || at_least(w, v),
        at_least(v, w) && at_least(w, v) ==> v == w,
        at_least(v, w) && at_least(w, x) ==> at_least(v, x),
        v.0 > w.0 ==> at_least(v, w),
        v.0 == w.0 && v.1 > w.1 ==> at_least(v, w),
        v.0 == w.0 && v.1 == w.1 && v.2 > w.2 ==> at_least(v, w),
{
}

/// For Linux every version is published; for other systems those from 4.1.0 on are, and for
/// Windows 3.6.3 besides.
pub proof fn published_versions(p: Platform, v: (u32, u32, u32), w: (u32, u32, u32))
    ensures
        p is LinuxX86_64 || p is LinuxArm64 ==> is_published(p, v),
        is_published(p, (4, 1, 0)),
        is_published(p, v) && v != (3u32, 6u32, 3u32) && at_least(w, v) ==> is_published(p, w),
        !(p is LinuxX86_64 || p is LinuxArm64) && v.0 < 4 && is_published(p, v) ==> p is WindowsX86_64 && v == (3u32, 6u32, 3u32),
        !(p is LinuxX86_64 || p is LinuxArm64) ==> !is_published(p, (4, 0, v.2)),
        is_published(Platform::WindowsX86_64, (3, 6, 3)),
{
}

/// A machine has musl where it is Alpine, or where the loader says so in any case; where it
/// says that it is of the GNU C library, or where a loader of that library is there, it has
/// not; else it has where a loader of musl is there.
pub proof fn musl_is_told_by_its_loader(alpine: bool, ldd: Option<Seq<char>>, glibc_loader: bool, musl_loader: bool)
    ensures
        is_musl(true, ldd, glibc_loader, musl_loader),
        ldd matches Some(out) && contains_text(lower(out), "musl"@) ==> is_musl(alpine, ldd, glibc_loader, musl_loader),
        ldd is None ==> is_musl(false, ldd, glibc_loader, musl_loader) == (musl_loader && !glibc_loader),
        ldd matches Some(out) && !contains_text(lower(out), "musl"@) && (contains_text(lower(out), "glibc"@) || contains_text(
            lower(out),
            "gnu libc"@,
        )) ==> !is_musl(false, ldd, glibc_loader, musl_loader),
        ldd matches Some(out) && !contains_text(lower(out), "musl"@) && !contains_text(lower(out), "glibc"@) && !contains_text(
            lower(out),
            "gnu libc"@,
        ) ==> is_musl(false, ldd, glibc_loader, musl_loader) == (musl_loader && !glibc_loader),
{
}

/// Of the lines that set a name the last counts, without the quotes round its value, and
/// other lines do not.
pub proof fn last_setting_counts(ls: Seq<Seq<char>>, prefix: Seq<char>, v: Seq<char>, other: Seq<char>)
    requires
        !starts_with(other, prefix),
    ensures
        last_value(ls.push(prefix + v), prefix) == trim_char(v, '"'),
        last_value(ls.push(other), prefix) == last_value(ls, prefix),
        last_value(Seq::<Seq<char>>::empty(), prefix).len() == 0,
{
    stripping_undoes_adding(prefix, v);
    assert(ls.push(prefix + v).drop_last() == ls);
    assert(ls.push(prefix + v).last() == prefix + v);
    assert(ls.push(other).drop_last() == ls);
    assert(ls.push(other).last() == other);
}

proof fn lemma_first_value_shift(line: Seq<char>, ls: Seq<Seq<char>>, prefix: Seq<char>, i: int)
    requires
        0 <= i <= ls.len(),
    ensures
        first_value(seq![line] + ls, prefix, i + 1) == first_value(ls, prefix, i),
    decreases ls.len() - i,
{
    if i < ls.len() {
        assert((seq![line] + ls)[i + 1] == ls[i]);
        lemma_first_value_shift(line, ls, prefix, i + 1);
    }
}

/// Of the lines that set a name the first counts where the first is asked for.
pub proof fn first_setting_counts(ls: Seq<Seq<char>>, prefix: Seq<char>, v: Seq<char>, other: Seq<char>)
    requires
        !starts_with(other, prefix),
    ensures
        first_value(seq![prefix + v] + ls, prefix, 0) == trim_char(v, '"'),
        first_value(seq![other] + ls, prefix, 0) == first_value(ls, prefix, 0),
{
    stripping_undoes_adding(prefix, v);
    assert((seq![prefix + v] + ls)[0] == prefix + v);
    assert((seq![other] + ls)[0] == other);
    lemma_first_value_shift(other, ls, prefix, 0);
}

/// How a distribution and its release are called: Ubuntu and SUSE without the dots of the
/// release, the relatives of Red Hat by the first part of it and all the same, Alpine by the
/// first two parts, Debian and CentOS by the whole of it, and any other by its own name.
#[verifier::rlimit(40)]
pub proof fn distributions_are_named(a: Seq<char>, b: Seq<char>, c: Seq<char>, id: Seq<char>)
    requires
        !a.contains('.'),
        !b.contains('.'),
    ensures
        ({
            let two = a + seq!['.'] + b;
            &&& distro_slug("ubuntu"@, two) == "ubuntu-"@ + a + b
            &&& distro_slug("opensuse-leap"@, two) == "opensuse-"@ + a + b
            &&& distro_slug("sles"@, two) == "opensuse-"@ + a + b
            &&& distro_slug("rhel"@, two) == "rhel-"@ + a
            &&& distro_slug("rhel"@, a) == "rhel-"@ + a
            &&& distro_slug("rocky"@, c) == distro_slug("rhel"@, c)
            &&& distro_slug("almalinux"@, c) == distro_slug("rhel"@, c)
            &&& distro_slug("ol"@, c) == distro_slug("rhel"@, c)
            &&& distro_slug("debian"@, c) == "debian-"@ + c
            &&& distro_slug("centos"@, c) == "centos-"@ + c
            &&& distro_slug("alpine"@, two + seq!['.'] + c) == "alpine-"@ + two
            &&& distro_slug(Seq::<char>::empty(), c) == "unknown"@
        }),
        !seq![
            "ubuntu"@, "debian"@, "centos"@, "rhel"@, "rocky"@, "almalinux"@, "ol"@, "opensuse-leap"@, "sles"@, "alpine"@,
            Seq::<char>::empty(),
        ].contains(id) ==> distro_slug(id, Seq::<char>::empty()) == id && (c.len() > 0 ==> distro_slug(id, c) == id + seq!['-'] + c),
{
    reveal_strlit("ubuntu");
    reveal_strlit("debian");
    reveal_strlit("centos");
    reveal_strlit("rhel");
    reveal_strlit("rocky");
    reveal_strlit("almalinux");
    reveal_strlit("ol");
    reveal_strlit("opensuse-leap");
    reveal_strlit("sles");
    reveal_strlit("alpine");
    reveal_strlit(".");
    reveal_strlit("");
    reveal_strlit("-");
    assert("-"@ == seq!['-']);
    assert("."@ == seq!['.']);
    assert(""@ == Seq::<char>::empty());
    assert("ubuntu"@[0] == 'u' && "debian"@[0] == 'd' && "centos"@[0] == 'c' && "rhel"@[0] == 'r' && "rhel"@[1] == 'h');
    assert("rocky"@[0] == 'r' && "rocky"@[1] == 'o' && "almalinux"@[0] == 'a' && "almalinux"@[2] == 'm' && "ol"@[0] == 'o' && "ol"@[1] == 'l');
    assert("opensuse-leap"@[1] == 'p' && "opensuse-leap"@[0] == 'o' && "sles"@[0] == 's' && "alpine"@[2] == 'p' && "alpine"@[0] == 'a');
    let two = a + seq!['.'] + b;
    removing_a_character(a, b, '.');
    removing_a_character(b, b, '.');
    plain_text_is_one_piece(a, '.');
    plain_text_is_one_piece(b, '.');
    pieces_of_both(a, b, '.');
    assert(split(two, '.') == seq![a, b]);
    series_of_a_version(a, b, c);
    assert("ubuntu-"@ + (a + b) == "ubuntu-"@ + a + b);
    assert("opensuse-"@ + (a + b) == "opensuse-"@ + a + b);
    let known = seq![
        "ubuntu"@, "debian"@, "centos"@, "rhel"@, "rocky"@, "almalinux"@, "ol"@, "opensuse-leap"@, "sles"@, "alpine"@,
        Seq::<char>::empty(),
    ];
    assert(known[0] == "ubuntu"@ && known[1] == "debian"@ && known[2] == "centos"@ && known[3] == "rhel"@ && known[4] == "rocky"@);
    assert(known[5] == "almalinux"@ && known[6] == "ol"@ && known[7] == "opensuse-leap"@ && known[8] == "sles"@ && known[9] == "alpine"@);
    assert(known[10] == Seq::<char>::empty());
    if !known.contains(id) && id.len() == 0 {
        assert(id == known[10]);
    }
}

/// The distribution and its release are read from the last lines that name them, the
/// distribution in lower case; without such a text they are not known.
pub proof fn distribution_is_read(content: Seq<char>)
    ensures
        slug_of(None) == "unknown"@,
        slug_of(Some(content)) == distro_slug(lower(last_value(lines(content), "ID="@)), last_value(lines(content), "VERSION_ID="@)),
{
}

/// On Linux the C library is musl on Alpine and that of GNU elsewhere; the processor and the
/// system are those of the platform, whatever the distribution.
pub proof fn triple_follows_the_platform(content: Option<Seq<char>>, p: Platform)
    ensures
        ({
            let t = triple_of(content, p);
            &&& p is LinuxArm64 || p is MacOsArm64 <==> t.arch == "aarch64"@
            &&& !(p is LinuxArm64 || p is MacOsArm64) <==> t.arch == "x86_64"@
            &&& p is LinuxX86_64 || p is LinuxArm64 <==> t.os == "linux"@
            &&& p is WindowsX86_64 <==> t.os == "windows"@
            &&& p is MacOsArm64 || p is MacOsX86_64 <==> t.os == "darwin"@
            &&& t.os == "linux"@ ==> (t.abi == "musl"@ <==> (content matches Some(c) && lower(first_value(lines(c), "ID="@, 0))
                == "alpine"@))
            &&& t.os == "linux"@ && t.abi != "musl"@ ==> t.abi == "gnu"@
            &&& t.os != "linux"@ ==> t == triple_of(None, p)
        }),
{
    reveal_strlit("aarch64");
    reveal_strlit("x86_64");
    reveal_strlit("linux");
    reveal_strlit("windows");
    reveal_strlit("darwin");
    reveal_strlit("musl");
    reveal_strlit("gnu");
    assert("aarch64"@.len() != "x86_64"@.len());
    assert("linux"@.len() == 5 && "windows"@.len() == 7 && "darwin"@.len() == 6);
    assert("musl"@.len() != "gnu"@.len());
}

proof fn lemma_decimal_is_plain(n: nat)
    ensures
        decimal(n).len() > 0,
        !decimal(n).contains('.'),
        forall|j: int| 0 <= j < decimal(n).len() ==> !is_whitespace(#[trigger] decimal(n)[j]),
{
    decimal_is_read_back(n);
    let d = decimal(n);
    assert forall|j: int| 0 <= j < d.len() implies !is_whitespace(#[trigger] d[j]) && d[j] != '.' by {
        assert(is_digit(d[j]));
    }
}

/// The version of the C library is the number at the end of what it says of itself; two
/// texts with the same last word say the same.
pub proof fn glibc_version_is_the_last_word(s: Seq<char>, t: Seq<char>, a: nat, b: nat)
    requires
        a <= u32::MAX,
        b <= u32::MAX,
    ensures
        words(s).len() > 0 && words(t).len() > 0 && words(s).last() == words(t).last() ==> glibc_numbers(s) == glibc_numbers(t),
        words(s).len() == 0 ==> glibc_numbers(s) is None,
        glibc_numbers(decimal(a) + seq!['.'] + decimal(b)) == Some((a, b)),
        glibc_numbers(decimal(a)) == Some((a, 0nat)),
{
    let x = decimal(a);
    let y = decimal(b);
    let w = x + seq!['.'] + y;
    lemma_decimal_is_plain(a);
    lemma_decimal_is_plain(b);
    assert forall|j: int| 0 <= j < w.len() implies !is_whitespace(#[trigger] w[j]) by {
        if j < x.len() {
            assert(!is_whitespace(x[j]));
        } else if j > x.len() {
            assert(!is_whitespace(y[j - x.len() - 1]));
        }
    }
    unbroken_text_is_one_word(w);
    unbroken_text_is_one_word(x);
    plain_text_is_one_piece(x, '.');
    plain_text_is_one_piece(y, '.');
    pieces_of_both(x, y, '.');
    assert(split(w, '.') == seq![x, y]);
    decimal_parses(a, u32::MAX as nat);
    decimal_parses(b, u32::MAX as nat);
}

/// An R runs on Linux where the GNU C library is 2.34 or newer, or its version is not
/// known, or the machine has another; builds for many distributions are there from 2.28 on,
/// and only where the version is known.
pub proof fn old_libraries_are_refused(linux: bool, musl: bool, major: u32, minor: u32)
    ensures
        libc_verdict(linux, musl, None) is Ok,
        !linux || musl ==> libc_verdict(linux, musl, Some((major, minor))) is Ok,
        linux && !musl ==> (libc_verdict(linux, musl, Some((major, minor))) is Ok <==> 100 * major as int >= 300 || (major == 2
            && minor >= 34)),
        manylinux_repo(linux, musl, None) is None,
        !linux || musl ==> manylinux_repo(linux, musl, Some((major, minor))) is None,
        linux && !musl ==> (manylinux_repo(linux, musl, Some((major, minor))) is Some <==> major >= 3 || (major == 2 && minor >= 28)),
        manylinux_repo(linux, musl, Some((major, minor))) is Some ==> manylinux_repo(linux, musl, Some((major, minor)))
            == Some("manylinux_2_28"@),
{
}

/// A version of two parts is completed by a zero; others are sent as they are.
pub proof fn versions_are_completed(a: Seq<char>, b: Seq<char>, c: Seq<char>)
    requires
        !a.contains('.'),
        !b.contains('.'),
    ensures
        ua_version(a) == a,
        ua_version(a + seq!['.'] + b) == a + seq!['.'] + b + seq!['.', '0'],
        ua_version(a + seq!['.'] + b + seq!['.'] + c) == a + seq!['.'] + b + seq!['.'] + c,
{
    reveal_strlit(".0");
    assert(".0"@ == seq!['.', '0']);
    let two = a + seq!['.'] + b;
    plain_text_is_one_piece(a, '.');
    plain_text_is_one_piece(b, '.');
    pieces_of_both(a, b, '.');
    pieces_of_both(two, c, '.');
    pieces_make_the_text(c, '.');
}

/// The numbers of an R version are those between its dots: a part that is missing or no
/// number is zero, what stands behind the third does not count, and without a number in
/// front there are none.
#[verifier::rlimit(40)]
pub proof fn numbers_of_a_version(a: nat, b: nat, c: nat, rest: Seq<char>, junk: Seq<char>)
    requires
        a <= u32::MAX,
        b <= u32::MAX,
        c <= u32::MAX,
        !junk.contains('.'),
        parse_number(junk, u32::MAX as nat) is None,
    ensures
        ({
            let x = decimal(a);
            let xy = x + seq!['.'] + decimal(b);
            let xyz = xy + seq!['.'] + decimal(c);
            &&& r_numbers(x) == Some((a, 0nat, 0nat))
            &&& r_numbers(xy) == Some((a, b, 0nat))
            &&& r_numbers(xyz) == Some((a, b, c))
            &&& r_numbers(xyz + seq!['.'] + rest) == Some((a, b, c))
            &&& r_numbers(x + seq!['.'] + junk) == Some((a, 0nat, 0nat))
            &&& r_numbers(xy + seq!['.'] + junk) == Some((a, b, 0nat))
            &&& r_numbers(junk) is None
            &&& r_numbers(junk + seq!['.'] + rest) is None
        }),
{
    let x = decimal(a);
    let y = decimal(b);
    let z = decimal(c);
    let xy = x + seq!['.'] + y;
    let xyz = xy + seq!['.'] + z;
    lemma_decimal_is_plain(a);
    lemma_decimal_is_plain(b);
    lemma_decimal_is_plain(c);
    decimal_parses(a, u32::MAX as nat);
    decimal_parses(b, u32::MAX as nat);
    decimal_parses(c, u32::MAX as nat);
    plain_text_is_one_piece(x, '.');
    plain_text_is_one_piece(y, '.');
    plain_text_is_one_piece(z, '.');
    plain_text_is_one_piece(junk, '.');
    pieces_of_both(x, y, '.');
    pieces_of_both(xy, z, '.');
    pieces_of_both(xyz, rest, '.');
    pieces_of_both(x, junk, '.');
    pieces_of_both(xy, junk, '.');
    pieces_of_both(junk, rest, '.');
    assert(split(xy, '.') == seq![x, y]);
    assert(split(xyz, '.') == seq![x, y, z]);
    assert(split(x + seq!['.'] + junk, '.') == seq![x, junk]);
    assert(split(xy + seq!['.'] + junk, '.') == seq![x, y, junk]);
}

/// A line that sets the name of the distribution to Alpine, in whatever case and with or
/// without quotes, is enough; lines that set other names do not count, nor do other
/// distributions.
pub proof fn alpine_is_recognised(v: Seq<char>, other: Seq<char>, rest: Seq<char>)
    requires
        !v.contains('\n'),
        v.len() > 0 && v.last() != '\r',
        !other.contains('\n'),
        !starts_with(other, "ID="@),
        !other.contains('\r'),
    ensures
        names_alpine(("ID="@ + v).push('\n') + rest) <==> lower(trim_char(v, '"')) == lower("alpine"@) || names_alpine(rest),
        names_alpine(other.push('\n') + rest) <==> names_alpine(rest),
{
    reveal_strlit("ID=");
    let line = "ID="@ + v;
    assert(!line.contains('\n')) by {
        if line.contains('\n') {
            let i = choose|i: int| 0 <= i < line.len() && line[i] == '\n';
            if i >= 3 {
                assert(v[i - 3] == '\n');
            }
        }
    }
    lines_of_line_and_rest(line, rest);
    lines_of_line_and_rest(other, rest);
    assert(line.last() == v.last());
    if other.len() > 0 {
        assert(other[other.len() - 1] == other.last());
        assert(other.contains(other.last()));
    }
    stripping_undoes_adding("ID="@, v);
    lemma_one_more_line(line, rest, line.push('\n') + rest);
    lemma_one_more_line(other, rest, other.push('\n') + rest);
}

proof fn lemma_one_more_line(line: Seq<char>, rest: Seq<char>, whole: Seq<char>)
    requires
        lines(whole) == seq![line] + lines(rest),
    ensures
        names_alpine(whole) <==> (field_value(line, "ID="@) matches Some(v) && same_ignoring_case(v, "alpine"@)) || names_alpine(rest),
{
    let l = lines(whole);
    let r = lines(rest);
    assert(l[0] == line);
    if names_alpine(rest) {
        let i = choose|i: int|
            0 <= i < r.len() && (field_value(#[trigger] r[i], "ID="@) matches Some(v) && same_ignoring_case(v, "alpine"@));
        assert(l[i + 1] == r[i]);
    }
    if names_alpine(whole) {
        let i = choose|i: int|
            0 <= i < l.len() && (field_value(#[trigger] l[i], "ID="@) matches Some(v) && same_ignoring_case(v, "alpine"@));
        if i > 0 {
            assert(r[i - 1] == l[i]);
        }
    }
}

/// A machine is described by the name of its distribution and, where there is one, the
/// release; a distribution without a name is unknown. What has been set by hand comes before
/// what is read.
pub proof fn distributions_are_described(c: Seq<char>, pinned: Seq<char>, content: Option<Seq<char>>)
    ensures
        distro_label(None) == "unknown"@,
        ({
            let name = last_value(lines(c), "NAME="@);
            let release = last_value(lines(c), "VERSION_ID="@);
            &&& name.len() == 0 ==> distro_label(Some(c)) == "unknown"@
            &&& name.len() > 0 && release.len() == 0 ==> distro_label(Some(c)) == name
            &&& name.len() > 0 && release.len() > 0 ==> distro_label(Some(c)) == name + seq![' '] + release
        }),
        chosen_slug(Some(pinned), content) == pinned,
        chosen_slug(None, content) == slug_of(content),
{
    reveal_strlit(" ");
    assert(" "@ == seq![' ']);
}

} // verus!

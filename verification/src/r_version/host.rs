//! What is known of the machine: its platform, its distribution and its C library.
use vstd::prelude::*;

use crate::error::{ErrorView, UvrError};
use crate::text::{chars_of, contains_text, decimal, decimal_string, equals_ignoring_case, has_text, is_text, join,
    join_slices, lines, lines_of, lower, lowered, parse_number, pieces, read_number, same_ignoring_case, same_str, slice_views,
    split, string_of, strip_prefix, trim_char, trimmed_char, with_text_replaced, without_prefix, words, words_of,
    opt_str, replace_text};

verus! {

/// The platforms for which R is published.
#[derive(Debug, Clone, Copy, PartialEq, Eq, Structural)]
pub enum Platform {
    MacOsArm64,
    MacOsX86_64,
    LinuxX86_64,
    LinuxArm64,
    WindowsX86_64,
}

/// The target triple of a platform.
pub open spec fn target_triple(p: Platform) -> Seq<char> {
    match p {
        Platform::MacOsArm64 => "aarch64-apple-darwin"@,
        Platform::MacOsX86_64 => "x86_64-apple-darwin"@,
        Platform::LinuxX86_64 => "x86_64-unknown-linux-gnu"@,
        Platform::LinuxArm64 => "aarch64-unknown-linux-gnu"@,
        Platform::WindowsX86_64 => "x86_64-pc-windows-msvc"@,
    }
}

/// The name of the portable builds for a C library.
pub open spec fn portable_id(musl: bool) -> Seq<char> {
    if musl {
        "musllinux_1_2"@
    } else {
        "manylinux_2_34"@
    }
}

/// Where the portable build of a version of R is found. On Linux it depends on
/// whether the C library is musl.
pub open spec fn portable_url(p: Platform, version: Seq<char>, musl: bool) -> Seq<char> {
    let root = "https://cdn.posit.co/r/"@;
    match p {
        Platform::MacOsArm64 => root + "macos/R-"@ + version + "-macos-arm64.tar.gz"@,
        Platform::MacOsX86_64 => root + "macos/R-"@ + version + "-macos.tar.gz"@,
        Platform::LinuxX86_64 => root + portable_id(musl) + "/R-"@ + version + "-"@ + portable_id(musl) + ".tar.gz"@,
        Platform::LinuxArm64 => root + portable_id(musl) + "/R-"@ + version + "-"@ + portable_id(musl) + "-arm64.tar.gz"@,
        Platform::WindowsX86_64 => root + "windows/R-"@ + version + "-windows.zip"@,
    }
}

/// The platform of a system and a processor, where R is published for it.
pub open spec fn platform_of(os: Seq<char>, arch: Seq<char>) -> Option<Platform> {
    if os == "macos"@ && arch == "aarch64"@ {
        Some(Platform::MacOsArm64)
    } else if os == "macos"@ && arch == "x86_64"@ {
        Some(Platform::MacOsX86_64)
    } else if os == "linux"@ && arch == "x86_64"@ {
        Some(Platform::LinuxX86_64)
    } else if os == "linux"@ && arch == "aarch64"@ {
        Some(Platform::LinuxArm64)
    } else if os == "windows"@ && arch == "x86_64"@ {
        Some(Platform::WindowsX86_64)
    } else {
        None
    }
}

impl Platform {
    /// The platform of a system and a processor; see [`platform_of`].
    pub fn detect(os: &str, arch: &str) -> (r: Result<Platform, UvrError>)
        ensures
            match r {
                Ok(p) => platform_of(os@, arch@) == Some(p),
                Err(e) => platform_of(os@, arch@) is None && e@ == ErrorView::UnsupportedPlatform(
                    os@ + "/"@ + arch@,
                ),
            },
    {
        let arm = same_str(arch, "aarch64");
        let intel = same_str(arch, "x86_64");
        proof {
            reveal_strlit("aarch64");
            reveal_strlit("x86_64");
            reveal_strlit("macos");
            reveal_strlit("linux");
            reveal_strlit("windows");
            assert("aarch64"@.len() != "x86_64"@.len());
            assert("macos"@[0] != "linux"@[0]);
            assert("macos"@[0] != "windows"@[0]);
            assert("linux"@[0] != "windows"@[0]);
        }
        if same_str(os, "macos") && arm {
            Ok(Platform::MacOsArm64)
        } else if same_str(os, "macos") && intel {
            Ok(Platform::MacOsX86_64)
        } else if same_str(os, "linux") && intel {
            Ok(Platform::LinuxX86_64)
        } else if same_str(os, "linux") && arm {
            Ok(Platform::LinuxArm64)
        } else if same_str(os, "windows") && intel {
            Ok(Platform::WindowsX86_64)
        } else {
            Err(UvrError::UnsupportedPlatform(os.to_owned().concat("/").concat(arch)))
        }
    }

    /// The target triple of the platform.
    pub fn rust_target_triple(&self) -> (r: &'static str)
        ensures
            r@ == target_triple(*self),
    {
        match self {
            Platform::MacOsArm64 => "aarch64-apple-darwin",
            Platform::MacOsX86_64 => "x86_64-apple-darwin",
            Platform::LinuxX86_64 => "x86_64-unknown-linux-gnu",
            Platform::LinuxArm64 => "aarch64-unknown-linux-gnu",
            Platform::WindowsX86_64 => "x86_64-pc-windows-msvc",
        }
    }

    pub fn is_windows(&self) -> (r: bool)
        ensures
            r == (*self is WindowsX86_64),
    {
        match self {
            Platform::WindowsX86_64 => true,
            _ => false,
        }
    }

    pub fn is_macos(&self) -> (r: bool)
        ensures
            r == (*self is MacOsArm64 || *self is MacOsX86_64),
    {
        match self {
            Platform::MacOsArm64 => true,
            Platform::MacOsX86_64 => true,
            _ => false,
        }
    }

    /// Where the portable build of `version` is found. `musl` says whether the C
    /// library is musl, which matters on Linux only.
    pub fn download_url(&self, version: &str, musl: bool) -> (r: String)
        ensures
            r@ == portable_url(*self, version@, musl),
    {
        let root = "https://cdn.posit.co/r/".to_owned();
        let id = linux_portable_id(musl);
        match self {
            Platform::MacOsArm64 => root.concat("macos/R-").concat(version).concat("-macos-arm64.tar.gz"),
            Platform::MacOsX86_64 => root.concat("macos/R-").concat(version).concat("-macos.tar.gz"),
            Platform::LinuxX86_64 => root.concat(id).concat("/R-").concat(version).concat("-").concat(id).concat(
                ".tar.gz",
            ),
            Platform::LinuxArm64 => root.concat(id).concat("/R-").concat(version).concat("-").concat(id).concat(
                "-arm64.tar.gz",
            ),
            Platform::WindowsX86_64 => root.concat("windows/R-").concat(version).concat("-windows.zip"),
        }
    }
}

/// The name of the portable builds for the C library.
pub fn linux_portable_id(musl: bool) -> (r: &'static str)
    ensures
        r@ == portable_id(musl),
{
    if musl {
        "musllinux_1_2"
    } else {
        "manylinux_2_34"
    }
}

/// A channel that is rebuilt all the time, not a release.
pub open spec fn is_channel(s: Seq<char>) -> bool {
    s == "devel"@ || s == "next"@
}

/// Whether `s` names a rolling channel and not a release.
pub fn is_rolling_channel(s: &str) -> (r: bool)
    ensures
        r == is_channel(s@),
{
    let cs = chars_of(s);
    is_text(cs.as_slice(), "devel") || is_text(cs.as_slice(), "next")
}

/// `v` is not before `w`.
pub open spec fn at_least(v: (u32, u32, u32), w: (u32, u32, u32)) -> bool {
    v.0 > w.0 || (v.0 == w.0 && (v.1 > w.1 || (v.1 == w.1 && v.2 >= w.2)))
}

/// The platforms and versions for which a portable build exists: all on Linux, from
/// 4.1.0 on elsewhere, and 3.6.3 on Windows.
pub open spec fn is_published(p: Platform, v: (u32, u32, u32)) -> bool {
    match p {
        Platform::LinuxX86_64 => true,
        Platform::LinuxArm64 => true,
        Platform::WindowsX86_64 => v == (3u32, 6u32, 3u32) || at_least(v, (4, 1, 0)),
        Platform::MacOsArm64 => at_least(v, (4, 1, 0)),
        Platform::MacOsX86_64 => at_least(v, (4, 1, 0)),
    }
}

fn not_before(v: (u32, u32, u32), w: (u32, u32, u32)) -> (r: bool)
    ensures
        r == at_least(v, w),
{
    v.0 > w.0 || (v.0 == w.0 && (v.1 > w.1 || (v.1 == w.1 && v.2 >= w.2)))
}

/// Whether a portable build of `version` exists for `platform`.
pub fn portable_publishes(platform: Platform, version: (u32, u32, u32)) -> (r: bool)
    ensures
        r == is_published(platform, version),
{
    if platform.is_macos() {
        not_before(version, (4, 1, 0))
    } else if platform.is_windows() {
        (version.0 == 3 && version.1 == 6 && version.2 == 3) || not_before(version, (4, 1, 0))
    } else {
        true
    }
}

/// What is published for a platform, in words, where it is not everything.
pub open spec fn availability(p: Platform) -> Option<Seq<char>> {
    match p {
        Platform::LinuxX86_64 => None,
        Platform::LinuxArm64 => None,
        Platform::WindowsX86_64 => Some("R 3.6.3, or R 4.1.0 or newer"@),
        Platform::MacOsArm64 => Some("R 4.1.0 or newer"@),
        Platform::MacOsX86_64 => Some("R 4.1.0 or newer"@),
    }
}

/// What is published for `platform`, in words, where it is not everything.
pub fn portable_availability(platform: Platform) -> (r: Option<&'static str>)
    ensures
        opt_str(r) == availability(platform),
{
    if platform.is_macos() {
        Some("R 4.1.0 or newer")
    } else if platform.is_windows() {
        Some("R 3.6.3, or R 4.1.0 or newer")
    } else {
        None
    }
}

/// Whether the C library is musl, by what has been found: a mark of Alpine settles
/// it, then what `ldd` says of itself, then the loader of glibc, and last that of
/// musl.
pub open spec fn is_musl(alpine: bool, ldd: Option<Seq<char>>, glibc_loader: bool, musl_loader: bool) -> bool {
    let says_musl = ldd matches Some(out) && contains_text(lower(out), "musl"@);
    let says_glibc = ldd matches Some(out) && (contains_text(lower(out), "gnu libc"@) || contains_text(
        lower(out),
        "glibc"@,
    ));
    alpine || says_musl || (!says_glibc && !glibc_loader && musl_loader)
}

/// Whether the C library is musl; see [`is_musl`]. That a loader of musl is
/// installed does not mean that the machine runs on it.
pub fn musl_from_signals(alpine: bool, ldd: Option<&str>, glibc_loader: bool, musl_loader: bool) -> (r: bool)
    ensures
        r == is_musl(alpine, opt_str(ldd), glibc_loader, musl_loader),
{
    if alpine {
        return true;
    }
    if let Some(out) = ldd {
        let cs = chars_of(out);
        let low = lowered(cs.as_slice());
        if has_text(low.as_slice(), "musl") {
            return true;
        }
        if has_text(low.as_slice(), "gnu libc") || has_text(low.as_slice(), "glibc") {
            return false;
        }
    }
    if glibc_loader {
        return false;
    }
    musl_loader
}

/// The value of a line `PREFIXvalue`, without quotes, where the line has the prefix.
pub open spec fn field_value(line: Seq<char>, prefix: Seq<char>) -> Option<Seq<char>> {
    match strip_prefix(line, prefix) {
        Some(v) => Some(trim_char(v, '"')),
        None => None,
    }
}

/// The value of the last line with the prefix, or the empty text.
pub open spec fn last_value(ls: Seq<Seq<char>>, prefix: Seq<char>) -> Seq<char>
    decreases ls.len(),
{
    if ls.len() == 0 {
        seq![]
    } else {
        match field_value(ls.last(), prefix) {
            Some(v) => v,
            None => last_value(ls.drop_last(), prefix),
        }
    }
}

/// The value of the first line with the prefix at or after line `i`, or the empty
/// text.
pub open spec fn first_value(ls: Seq<Seq<char>>, prefix: Seq<char>, i: int) -> Seq<char>
    decreases ls.len() - i,
{
    if i >= ls.len() {
        seq![]
    } else {
        match field_value(ls[i], prefix) {
            Some(v) => v,
            None => first_value(ls, prefix, i + 1),
        }
    }
}

fn read_field(line: &[char], prefix: &str) -> (r: Option<String>)
    ensures
        match r {
            Some(v) => field_value(line@, prefix@) == Some(v@),
            None => field_value(line@, prefix@) is None,
        },
{
    match without_prefix(line, prefix) {
        Some(v) => Some(string_of(trimmed_char(v, '"'))),
        None => None,
    }
}

fn read_last(content: &[char], prefix: &str) -> (r: String)
    ensures
        r@ == last_value(lines(content@), prefix@),
{
    let ls = lines_of(content);
    let ghost all = lines(content@);
    let mut r: String = String::new();
    let mut i: usize = 0;
    assert(all.take(0) == Seq::<Seq<char>>::empty());
    while i < ls.len()
        invariant
            i <= ls@.len(),
            slice_views(ls@) == all,
            r@ == last_value(all.take(i as int), prefix@),
        decreases ls@.len() - i,
    {
        proof {
            assert(slice_views(ls@)[i as int] == ls@[i as int]@);
            assert(all.take(i + 1).drop_last() == all.take(i as int));
        }
        if let Some(v) = read_field(ls[i], prefix) {
            r = v;
        }
        i += 1;
    }
    assert(all.take(i as int) == all);
    r
}

fn read_first(content: &[char], prefix: &str) -> (r: String)
    ensures
        r@ == first_value(lines(content@), prefix@, 0),
{
    let ls = lines_of(content);
    let ghost all = lines(content@);
    let mut i: usize = 0;
    while i < ls.len()
        invariant
            i <= ls@.len(),
            slice_views(ls@) == all,
            all == lines(content@),
            first_value(all, prefix@, 0) == first_value(all, prefix@, i as int),
        decreases ls@.len() - i,
    {
        assert(slice_views(ls@)[i as int] == ls@[i as int]@);
        if let Some(v) = read_field(ls[i], prefix) {
            return v;
        }
        i += 1;
    }
    String::new()
}

/// Whether the content of an `os-release` file is that of Alpine.
pub open spec fn names_alpine(content: Seq<char>) -> bool {
    exists|i: int|
        0 <= i < lines(content).len() && (field_value(#[trigger] lines(content)[i], "ID="@) matches Some(v)
            && same_ignoring_case(v, "alpine"@))
}

/// Whether a line of the content of an `os-release` file identifies Alpine.
pub fn os_release_is_alpine(content: &str) -> (r: bool)
    ensures
        r == names_alpine(content@),
{
    let cs = chars_of(content);
    let ls = lines_of(cs.as_slice());
    let alpine = chars_of("alpine");
    let ghost all = lines(content@);
    let mut i: usize = 0;
    while i < ls.len()
        invariant
            i <= ls@.len(),
            slice_views(ls@) == all,
            alpine@ == "alpine"@,
            all == lines(content@),
            forall|j: int|
                0 <= j < i ==> !(field_value(#[trigger] all[j], "ID="@) matches Some(v) && same_ignoring_case(
                    v,
                    "alpine"@,
                )),
        decreases ls@.len() - i,
    {
        assert(slice_views(ls@)[i as int] == ls@[i as int]@);
        if let Some(v) = without_prefix(ls[i], "ID=") {
            if equals_ignoring_case(trimmed_char(v, '"'), alpine.as_slice()) {
                assert(field_value(all[i as int], "ID="@) is Some);
                return true;
            }
        }
        i += 1;
    }
    false
}

/// What `os-release` says of the distribution: its name in lower case, and its
/// version. Of several lines the last counts.
#[derive(Debug, Clone, PartialEq, Eq)]
pub struct OsRelease {
    pub id: String,
    pub version_id: String,
}

impl OsRelease {
    /// Reads the content of an `os-release` file.
    pub fn parse(content: &str) -> (r: OsRelease)
        ensures
            r.id@ == lower(last_value(lines(content@), "ID="@)),
            r.version_id@ == last_value(lines(content@), "VERSION_ID="@),
    {
        let cs = chars_of(content);
        let id = chars_of(read_last(cs.as_slice(), "ID=").as_str());
        OsRelease {
            id: string_of(lowered(id.as_slice()).as_slice()),
            version_id: read_last(cs.as_slice(), "VERSION_ID="),
        }
    }
}

/// The two numbers of a version of glibc, from the last word of what `getconf
/// GNU_LIBC_VERSION` prints.
pub open spec fn glibc_numbers(text: Seq<char>) -> Option<(nat, nat)> {
    let w = words(text);
    if w.len() == 0 {
        None
    } else {
        let p = split(w.last(), '.');
        match parse_number(p[0], u32::MAX as nat) {
            None => None,
            Some(major) => if p.len() < 2 {
                Some((major, 0nat))
            } else {
                match parse_number(p[1], u32::MAX as nat) {
                    Some(minor) => Some((major, minor)),
                    None => None,
                }
            },
        }
    }
}

/// The version of glibc in what `getconf GNU_LIBC_VERSION` prints.
pub fn parse_glibc_version(text: &str) -> (r: Option<(u32, u32)>)
    ensures
        match r {
            Some((a, b)) => glibc_numbers(text@) == Some((a as nat, b as nat)),
            None => glibc_numbers(text@) is None,
        },
{
    let cs = chars_of(text);
    let ws = words_of(cs.as_slice());
    if ws.len() == 0 {
        assert(slice_views(ws@).len() == 0);
        return None;
    }
    let w: &[char] = ws[ws.len() - 1];
    assert(slice_views(ws@).last() == w@);
    let ps = pieces(w, '.');
    assert(slice_views(ps@)[0] == ps@[0]@);
    assert(slice_views(ps@).len() == ps@.len());
    match read_number(ps[0], u32::MAX as u64) {
        None => None,
        Some(major) => {
            if ps.len() < 2 {
                Some((major as u32, 0))
            } else {
                assert(slice_views(ps@)[1] == ps@[1]@);
                match read_number(ps[1], u32::MAX as u64) {
                    Some(minor) => Some((major as u32, minor as u32)),
                    None => None,
                }
            }
        },
    }
}

/// `v` is not before `w`.
pub open spec fn pair_at_least(v: (u32, u32), w: (u32, u32)) -> bool {
    v.0 > w.0 || (v.0 == w.0 && v.1 >= w.1)
}

/// What is said where the C library is too old for the portable builds.
pub open spec fn old_glibc_text(major: u32, minor: u32) -> Seq<char> {
    "glibc "@ + decimal(major as nat) + "."@ + decimal(minor as nat)
        + " is too old for portable R builds (need >= 2.34). Distros below this floor — Ubuntu 20.04, RHEL 8, Debian 11 — are not supported by uvr's R installer. Use your system package manager's R, or build R from source."@
}

/// The portable builds run on this machine: always, unless it is Linux with a glibc
/// that is known to be older than 2.34.
pub open spec fn libc_verdict(linux: bool, musl: bool, glibc: Option<(u32, u32)>) -> Result<(), ErrorView> {
    match glibc {
        Some(v) => if linux && !musl && !pair_at_least(v, (2, 34)) {
            Err(ErrorView::UnsupportedPlatform(old_glibc_text(v.0, v.1)))
        } else {
            Ok(())
        },
        None => Ok(()),
    }
}

/// Fails where the C library is too old for the portable builds.
pub fn ensure_libc_supported(linux: bool, musl: bool, glibc: Option<(u32, u32)>) -> (r: Result<(), UvrError>)
    ensures
        crate::error::outcome(r) == libc_verdict(linux, musl, glibc),
{
    if !linux || musl {
        return Ok(());
    }
    if let Some((major, minor)) = glibc {
        if !(major > 2 || (major == 2 && minor >= 34)) {
            let text = "glibc ".to_owned().concat(decimal_string(major as u64).as_str()).concat(".").concat(
                decimal_string(minor as u64).as_str(),
            ).concat(
                " is too old for portable R builds (need >= 2.34). Distros below this floor — Ubuntu 20.04, RHEL 8, Debian 11 — are not supported by uvr's R installer. Use your system package manager's R, or build R from source.",
            );
            return Err(UvrError::UnsupportedPlatform(text));
        }
    }
    Ok(())
}

/// The repository of binaries that run on any Linux with a glibc from 2.28 on.
pub open spec fn manylinux_repo(linux: bool, musl: bool, glibc: Option<(u32, u32)>) -> Option<Seq<char>> {
    match glibc {
        Some(v) => if linux && !musl && pair_at_least(v, (2, 28)) {
            Some("manylinux_2_28"@)
        } else {
            None
        },
        None => None,
    }
}

/// The repository of portable binaries that this machine can use, if any. A glibc
/// whose version is not known is not taken for a new one.
pub fn ppm_manylinux_repo(linux: bool, musl: bool, glibc: Option<(u32, u32)>) -> (r: Option<&'static str>)
    ensures
        opt_str(r) == manylinux_repo(linux, musl, glibc),
{
    if !linux || musl {
        return None;
    }
    match glibc {
        Some((major, minor)) => if major > 2 || (major == 2 && minor >= 28) {
            Some("manylinux_2_28")
        } else {
            None
        },
        None => None,
    }
}

/// The first two parts of a dotted text.
pub open spec fn first_two_parts(v: Seq<char>) -> Seq<char> {
    let p = split(v, '.');
    join(
        if p.len() > 2 {
            p.take(2)
        } else {
            p
        },
        "."@,
    )
}

/// The first two parts of a dotted text: `4.5` of `4.5.1`.
pub fn minor_of(v: &str) -> (r: String)
    ensures
        r@ == first_two_parts(v@),
{
    let cs = chars_of(v);
    let mut ps = pieces(cs.as_slice(), '.');
    let ghost all = ps@;
    if ps.len() > 2 {
        ps.truncate(2);
        assert(slice_views(ps@) == slice_views(all).take(2));
    }
    assert(slice_views(all).len() == all.len());
    join_slices(&ps, ".")
}

/// The first part of a dotted text.
pub fn major_of(v: &str) -> (r: String)
    ensures
        r@ == split(v@, '.')[0],
{
    let cs = chars_of(v);
    let ps = pieces(cs.as_slice(), '.');
    assert(slice_views(ps@)[0] == ps@[0]@);
    string_of(ps[0])
}

/// The name under which binaries for a distribution are published. A distribution
/// for which none are published goes by its own name, which no repository has.
pub open spec fn distro_slug(id: Seq<char>, version: Seq<char>) -> Seq<char> {
    if id == "ubuntu"@ {
        "ubuntu-"@ + replace_text(version, "."@, ""@)
    } else if id == "debian"@ {
        "debian-"@ + version
    } else if id == "centos"@ {
        "centos-"@ + version
    } else if id == "rhel"@ || id == "rocky"@ || id == "almalinux"@ || id == "ol"@ {
        "rhel-"@ + split(version, '.')[0]
    } else if id == "opensuse-leap"@ || id == "sles"@ {
        "opensuse-"@ + replace_text(version, "."@, ""@)
    } else if id == "alpine"@ {
        "alpine-"@ + first_two_parts(version)
    } else if id.len() == 0 {
        "unknown"@
    } else if version.len() == 0 {
        id
    } else {
        id + "-"@ + version
    }
}

/// The name of the distribution by the content of `os-release`, `unknown` where
/// there is none.
pub open spec fn slug_of(content: Option<Seq<char>>) -> Seq<char> {
    match content {
        Some(c) => distro_slug(lower(last_value(lines(c), "ID="@)), last_value(lines(c), "VERSION_ID="@)),
        None => "unknown"@,
    }
}

fn without_dots(v: &str) -> (r: String)
    ensures
        r@ == replace_text(v@, "."@, ""@),
{
    let cs = chars_of(v);
    proof {
        reveal_strlit(".");
    }
    with_text_replaced(cs.as_slice(), ".", "")
}

/// The name of the distribution by the content of `os-release`; see [`distro_slug`].
///
/// Binaries link the shared libraries of the distribution they are built for. So a
/// distribution that is not recognized is not taken for another one.
pub fn detect_posit_distro_slug_from_os_release(content: Option<&str>) -> (r: String)
    ensures
        r@ == slug_of(opt_str(content)),
{
    let c = match content {
        Some(c) => c,
        None => {
            return "unknown".to_owned();
        },
    };
    let os = OsRelease::parse(c);
    let v = os.version_id.as_str();
    let id = chars_of(os.id.as_str());
    let i = id.as_slice();
    if is_text(i, "ubuntu") {
        "ubuntu-".to_owned().concat(without_dots(v).as_str())
    } else if is_text(i, "debian") {
        "debian-".to_owned().concat(v)
    } else if is_text(i, "centos") {
        "centos-".to_owned().concat(v)
    } else if is_text(i, "rhel") || is_text(i, "rocky") || is_text(i, "almalinux") || is_text(i, "ol") {
        "rhel-".to_owned().concat(major_of(v).as_str())
    } else if is_text(i, "opensuse-leap") || is_text(i, "sles") {
        "opensuse-".to_owned().concat(without_dots(v).as_str())
    } else if is_text(i, "alpine") {
        "alpine-".to_owned().concat(minor_of(v).as_str())
    } else if i.len() == 0 {
        "unknown".to_owned()
    } else if v.is_empty() {
        os.id
    } else {
        os.id.concat("-").concat(v)
    }
}

/// The distribution to take binaries for: the one that has been set, else the one
/// that is found.
pub open spec fn chosen_slug(pinned: Option<Seq<char>>, content: Option<Seq<char>>) -> Seq<char> {
    match pinned {
        Some(s) => s,
        None => slug_of(content),
    }
}

/// The name of the distribution: `pinned` where it has been set, else what the
/// content of `os-release` says.
pub fn detect_posit_distro_slug(pinned: Option<&str>, content: Option<&str>) -> (r: String)
    ensures
        r@ == chosen_slug(opt_str(pinned), opt_str(content)),
{
    match pinned {
        Some(s) => s.to_owned(),
        None => detect_posit_distro_slug_from_os_release(content),
    }
}

/// A setting that keeps the first value it is given.
#[derive(Debug)]
pub struct DistroOverride {
    slug: Option<String>,
}

impl View for DistroOverride {
    type V = Option<Seq<char>>;

    closed spec fn view(&self) -> Option<Seq<char>> {
        crate::text::opt_view(self.slug)
    }
}

impl DistroOverride {
    /// No distribution is set.
    pub fn new() -> (r: DistroOverride)
        ensures
            r@ is None,
    {
        DistroOverride { slug: None }
    }

    /// Sets the distribution, unless one is set already.
    pub fn set_posit_distro_override(&mut self, slug: String)
        ensures
            final(self)@ == (match old(self)@ {
                Some(s) => Some(s),
                None => Some(slug@),
            }),
    {
        if self.slug.is_none() {
            self.slug = Some(slug);
        }
    }

    /// Whether a distribution is set.
    pub fn distro_override_is_set(&self) -> (r: bool)
        ensures
            r == (self@ is Some),
    {
        self.slug.is_some()
    }

    /// The distribution that is set.
    pub fn get(&self) -> (r: Option<&str>)
        ensures
            opt_str(r) == self@,
    {
        match &self.slug {
            Some(s) => Some(s.as_str()),
            None => None,
        }
    }
}

/// The parts of a platform triple as R reports it.
#[derive(Debug, Clone, PartialEq, Eq)]
pub struct HostTriple {
    pub arch: String,
    pub vendor: String,
    pub os: String,
    /// The C library, or what stands in its place.
    pub abi: String,
}

/// A platform triple as a mathematical value.
pub struct TripleView {
    pub arch: Seq<char>,
    pub vendor: Seq<char>,
    pub os: Seq<char>,
    pub abi: Seq<char>,
}

impl View for HostTriple {
    type V = TripleView;

    open spec fn view(&self) -> TripleView {
        TripleView { arch: self.arch@, vendor: self.vendor@, os: self.os@, abi: self.abi@ }
    }
}

/// The triple of a machine, by its platform and the content of `os-release`. Alpine
/// is the one Linux taken to run on musl.
pub open spec fn triple_of(content: Option<Seq<char>>, p: Platform) -> TripleView {
    let alpine = content matches Some(c) && lower(first_value(lines(c), "ID="@, 0)) == "alpine"@;
    let linux_abi = if alpine {
        "musl"@
    } else {
        "gnu"@
    };
    match p {
        Platform::LinuxX86_64 => TripleView { arch: "x86_64"@, vendor: "pc"@, os: "linux"@, abi: linux_abi },
        Platform::LinuxArm64 => TripleView { arch: "aarch64"@, vendor: "pc"@, os: "linux"@, abi: linux_abi },
        Platform::MacOsX86_64 => TripleView { arch: "x86_64"@, vendor: "apple"@, os: "darwin"@, abi: "darwin"@ },
        Platform::MacOsArm64 => TripleView { arch: "aarch64"@, vendor: "apple"@, os: "darwin"@, abi: "darwin"@ },
        Platform::WindowsX86_64 => TripleView { arch: "x86_64"@, vendor: "pc"@, os: "windows"@, abi: "msvc"@ },
    }
}

fn triple(arch: &str, vendor: &str, os: &str, abi: &str) -> (r: HostTriple)
    ensures
        r@ == (TripleView { arch: arch@, vendor: vendor@, os: os@, abi: abi@ }),
{
    HostTriple { arch: arch.to_owned(), vendor: vendor.to_owned(), os: os.to_owned(), abi: abi.to_owned() }
}

/// The triple of the machine; see [`triple_of`].
pub fn host_triple_from_os_release(content: Option<&str>, platform: Platform) -> (r: HostTriple)
    ensures
        r@ == triple_of(opt_str(content), platform),
{
    let alpine = match content {
        Some(c) => {
            let cs = chars_of(c);
            let id = chars_of(read_first(cs.as_slice(), "ID=").as_str());
            let low = lowered(id.as_slice());
            is_text(low.as_slice(), "alpine")
        },
        None => false,
    };
    let linux_abi = if alpine {
        "musl"
    } else {
        "gnu"
    };
    match platform {
        Platform::LinuxX86_64 => triple("x86_64", "pc", "linux", linux_abi),
        Platform::LinuxArm64 => triple("aarch64", "pc", "linux", linux_abi),
        Platform::MacOsX86_64 => triple("x86_64", "apple", "darwin", "darwin"),
        Platform::MacOsArm64 => triple("aarch64", "apple", "darwin", "darwin"),
        Platform::WindowsX86_64 => triple("x86_64", "pc", "windows", "msvc"),
    }
}

/// What a request for packages tells of the machine.
#[derive(Debug, Clone)]
pub struct HostInfo {
    pub triple: HostTriple,
    /// The distribution as it calls itself, with its version.
    pub distro_label: String,
    pub r_version: String,
}

/// What a distribution calls itself, by the content of `os-release`.
pub open spec fn distro_label(content: Option<Seq<char>>) -> Seq<char> {
    match content {
        None => "unknown"@,
        Some(c) => {
            let name = last_value(lines(c), "NAME="@);
            let version = last_value(lines(c), "VERSION_ID="@);
            if name.len() == 0 {
                "unknown"@
            } else if version.len() == 0 {
                name
            } else {
                name + " "@ + version
            }
        },
    }
}

/// What requests tell of the machine, by the content of `os-release`.
pub fn host_info_from_os_release(content: Option<&str>, platform: Platform, r_version: &str) -> (r: HostInfo)
    ensures
        r.triple@ == triple_of(opt_str(content), platform),
        r.distro_label@ == distro_label(opt_str(content)),
        r.r_version@ == r_version@,
{
    let triple = host_triple_from_os_release(content, platform);
    let label = match content {
        None => "unknown".to_owned(),
        Some(c) => {
            let cs = chars_of(c);
            let name = read_last(cs.as_slice(), "NAME=");
            let version = read_last(cs.as_slice(), "VERSION_ID=");
            if name.as_str().is_empty() {
                "unknown".to_owned()
            } else if version.as_str().is_empty() {
                name
            } else {
                name.concat(" ").concat(version.as_str())
            }
        },
    };
    HostInfo { triple, distro_label: label, r_version: r_version.to_owned() }
}

/// A version of R in three parts where it has two, else as it is.
pub open spec fn ua_version(v: Seq<char>) -> Seq<char> {
    if split(v, '.').len() == 2 {
        v + ".0"@
    } else {
        v
    }
}

/// The version of R as requests give it: `4.5` becomes `4.5.0`.
pub fn normalize_ua_r_version(v: &str) -> (r: String)
    ensures
        r@ == ua_version(v@),
{
    let cs = chars_of(v);
    let ps = pieces(cs.as_slice(), '.');
    assert(slice_views(ps@).len() == ps@.len());
    if ps.len() == 2 {
        v.to_owned().concat(".0")
    } else {
        v.to_owned()
    }
}

/// How R introduces itself to a server on a machine.
pub open spec fn agent(t: TripleView, r_version: Seq<char>) -> Seq<char> {
    "R ("@ + ua_version(r_version) + " "@ + t.arch + "-"@ + t.vendor + "-"@ + t.os + "-"@ + t.abi + " "@ + t.arch + " "@
        + t.os + "-"@ + t.abi + ")"@
}

/// How R introduces itself to a server: `R (4.5.0 x86_64-pc-linux-gnu x86_64
/// linux-gnu)`.
pub fn user_agent(info: &HostInfo) -> (r: String)
    ensures
        r@ == agent(info.triple@, info.r_version@),
{
    let t = &info.triple;
    "R (".to_owned().concat(normalize_ua_r_version(info.r_version.as_str()).as_str()).concat(" ").concat(
        t.arch.as_str(),
    ).concat("-").concat(t.vendor.as_str()).concat("-").concat(t.os.as_str()).concat("-").concat(t.abi.as_str()).concat(
        " ",
    ).concat(t.arch.as_str()).concat(" ").concat(t.os.as_str()).concat("-").concat(t.abi.as_str()).concat(")")
}

/// A part of a version as a number: zero where there is none, or it is no number.
pub open spec fn number_or_zero(parts: Seq<Seq<char>>, i: int) -> nat {
    if i < parts.len() {
        match parse_number(parts[i], u32::MAX as nat) {
            Some(n) => n,
            None => 0,
        }
    } else {
        0
    }
}

/// The three numbers of a version of R. The first part must be a number; of the next two
/// one that is missing or no number counts as zero, and further parts are left out of
/// account.
pub open spec fn r_numbers(v: Seq<char>) -> Option<(nat, nat, nat)> {
    let p = split(v, '.');
    match parse_number(p[0], u32::MAX as nat) {
        Some(major) => Some((major, number_or_zero(p, 1), number_or_zero(p, 2))),
        None => None,
    }
}

fn part_number(ps: &Vec<&[char]>, i: usize) -> (r: u32)
    ensures
        r == number_or_zero(slice_views(ps@), i as int),
{
    assert(slice_views(ps@).len() == ps@.len());
    if i < ps.len() {
        assert(slice_views(ps@)[i as int] == ps@[i as int]@);
        match read_number(ps[i], u32::MAX as u64) {
            Some(n) => n as u32,
            None => 0,
        }
    } else {
        0
    }
}

/// The three numbers of a version of R; see [`r_numbers`].
pub fn parse_r_version(version: &str) -> (r: Option<(u32, u32, u32)>)
    ensures
        match r {
            Some((a, b, c)) => r_numbers(version@) == Some((a as nat, b as nat, c as nat)),
            None => r_numbers(version@) is None,
        },
{
    let cs = chars_of(version);
    let ps = pieces(cs.as_slice(), '.');
    proof {
        assert(slice_views(ps@).len() == ps@.len());
        assert(slice_views(ps@)[0] == ps@[0]@);
    }
    match read_number(ps[0], u32::MAX as u64) {
        Some(major) => Some((major as u32, part_number(&ps, 1), part_number(&ps, 2))),
        None => None,
    }
}

} // verus!

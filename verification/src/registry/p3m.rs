//! Indexes of packages that are built already: for CRAN on Posit Package Manager,
//! for Bioconductor on its own server.
use vstd::prelude::*;

use crate::r_version::host::{agent, normalize_ua_r_version, ua_version, Platform, TripleView};
use crate::resolver::requirement::{normal_version, normalize_version};
use crate::text::{chars_of, is_text, lines, lines_of, opt_str, opt_view, pieces_text, same_str, slice_views, split_text,
    string_of, strip_prefix, trim, trimmed, without_prefix};
use crate::text_map::TextMap;

verus! {

/// A version that is built, and where the build is found.
#[derive(Debug)]
struct BinaryEntry {
    version: String,
    url: String,
}

impl View for BinaryEntry {
    type V = (Seq<char>, Seq<char>);

    closed spec fn view(&self) -> (Seq<char>, Seq<char>) {
        (self.version@, self.url@)
    }
}

/// For each package the version that is built and where the build is found.
pub type Binaries = Map<Seq<char>, (Seq<char>, Seq<char>)>;

/// An index of packages that are built already.
pub struct P3MBinaryIndex {
    packages: TextMap<BinaryEntry>,
}

impl View for P3MBinaryIndex {
    type V = Binaries;

    closed spec fn view(&self) -> Binaries {
        self.packages@
    }
}

/// The repositories that hold builds.
#[derive(Debug, Clone, PartialEq, Eq)]
pub enum P3MRepo {
    Cran,
    /// A release of Bioconductor.
    Bioc(String),
}

/// A repository of builds as a mathematical value.
pub enum RepoView {
    Cran,
    Bioc(Seq<char>),
}

impl View for P3MRepo {
    type V = RepoView;

    open spec fn view(&self) -> RepoView {
        match *self {
            P3MRepo::Cran => RepoView::Cran,
            P3MRepo::Bioc(r) => RepoView::Bioc(r@),
        }
    }
}

/// How builds are asked for on a platform.
#[derive(Debug, Clone, PartialEq, Eq)]
pub struct PlatformInfo {
    /// The part of an address that names the platform; empty on Linux.
    pub url_segment: String,
    /// The extension of the files.
    pub pkg_ext: String,
    /// The part of the name of the kept index that names the platform.
    pub cache_key: String,
    pub is_linux: bool,
    /// The name of the distribution on the server, on Linux.
    pub linux_codename: Option<String>,
    /// How R has to introduce itself to be given builds, on Linux.
    pub user_agent: Option<String>,
}

/// How builds are asked for, as a mathematical value.
pub struct PlatformView {
    pub url_segment: Seq<char>,
    pub pkg_ext: Seq<char>,
    pub cache_key: Seq<char>,
    pub is_linux: bool,
    pub linux_codename: Option<Seq<char>>,
    pub user_agent: Option<Seq<char>>,
}

impl View for PlatformInfo {
    type V = PlatformView;

    open spec fn view(&self) -> PlatformView {
        PlatformView {
            url_segment: self.url_segment@,
            pkg_ext: self.pkg_ext@,
            cache_key: self.cache_key@,
            is_linux: self.is_linux,
            linux_codename: opt_view(self.linux_codename),
            user_agent: opt_view(self.user_agent),
        }
    }
}

/// The name under which the server knows a distribution for which it has builds.
pub open spec fn codename(slug: Seq<char>) -> Option<Seq<char>> {
    if slug == "ubuntu-2004"@ {
        Some("focal"@)
    } else if slug == "ubuntu-2204"@ {
        Some("jammy"@)
    } else if slug == "ubuntu-2404"@ {
        Some("noble"@)
    } else if slug == "debian-11"@ {
        Some("bullseye"@)
    } else if slug == "debian-12"@ {
        Some("bookworm"@)
    } else if slug == "rhel-7"@ || slug == "centos-7"@ {
        Some("centos7"@)
    } else if slug == "rhel-8"@ || slug == "centos-8"@ {
        Some("centos8"@)
    } else if slug == "rhel-9"@ || slug == "centos-9"@ {
        Some("rhel9"@)
    } else if slug == "opensuse-154"@ {
        Some("opensuse154"@)
    } else if slug == "opensuse-155"@ {
        Some("opensuse155"@)
    } else {
        None
    }
}

/// The name under which the server knows a distribution; see [`codename`].
pub fn ppm_linux_codename(posit_slug: &str) -> (r: Option<&'static str>)
    ensures
        opt_str(r) == codename(posit_slug@),
{
    let cs = chars_of(posit_slug);
    let s = cs.as_slice();
    if is_text(s, "ubuntu-2004") {
        Some("focal")
    } else if is_text(s, "ubuntu-2204") {
        Some("jammy")
    } else if is_text(s, "ubuntu-2404") {
        Some("noble")
    } else if is_text(s, "debian-11") {
        Some("bullseye")
    } else if is_text(s, "debian-12") {
        Some("bookworm")
    } else if is_text(s, "rhel-7") || is_text(s, "centos-7") {
        Some("centos7")
    } else if is_text(s, "rhel-8") || is_text(s, "centos-8") {
        Some("centos8")
    } else if is_text(s, "rhel-9") || is_text(s, "centos-9") {
        Some("rhel9")
    } else if is_text(s, "opensuse-154") {
        Some("opensuse154")
    } else if is_text(s, "opensuse-155") {
        Some("opensuse155")
    } else {
        None
    }
}

/// The name that R on Linux has of its processor.
pub open spec fn linux_arch(p: Platform) -> Seq<char> {
    if p is LinuxArm64 {
        "aarch64"@
    } else {
        "x86_64"@
    }
}

/// How builds are asked for on a platform other than Linux.
pub open spec fn plain_platform(segment: Seq<char>, ext: Seq<char>, key: Seq<char>) -> PlatformView {
    PlatformView {
        url_segment: segment,
        pkg_ext: ext,
        cache_key: key,
        is_linux: false,
        linux_codename: None,
        user_agent: None,
    }
}

/// How R on Linux introduces itself when it asks for an index of builds.
pub open spec fn linux_agent(arch: Seq<char>, r_minor: Seq<char>) -> Seq<char> {
    "R ("@ + ua_version(r_minor) + " "@ + arch + "-pc-linux-gnu "@ + arch + " linux-gnu)"@
}

/// How builds are asked for. There are none for a distribution that the server does
/// not know.
pub open spec fn platform_view(p: Platform, slug: Option<Seq<char>>, r_minor: Seq<char>) -> Option<PlatformView> {
    match p {
        Platform::MacOsArm64 => Some(plain_platform("macosx/big-sur-arm64"@, "tgz"@, "macos-arm64"@)),
        Platform::MacOsX86_64 => Some(plain_platform("macosx/big-sur-x86_64"@, "tgz"@, "macos-x86_64"@)),
        Platform::WindowsX86_64 => Some(plain_platform("windows"@, "zip"@, "windows"@)),
        _ => match slug {
            None => None,
            Some(s) => match codename(s) {
                None => None,
                Some(c) => Some(
                    PlatformView {
                        url_segment: seq![],
                        pkg_ext: "tar.gz"@,
                        cache_key: "linux-"@ + c + "-"@ + linux_arch(p),
                        is_linux: true,
                        linux_codename: Some(c),
                        user_agent: Some(linux_agent(linux_arch(p), r_minor)),
                    },
                ),
            },
        },
    }
}

fn plain(segment: &str, ext: &str, key: &str) -> (r: PlatformInfo)
    ensures
        r@ == plain_platform(segment@, ext@, key@),
{
    PlatformInfo {
        url_segment: segment.to_owned(),
        pkg_ext: ext.to_owned(),
        cache_key: key.to_owned(),
        is_linux: false,
        linux_codename: None,
        user_agent: None,
    }
}

/// How builds are asked for; see [`platform_view`].
pub fn platform_info(platform: Platform, posit_distro_slug: Option<&str>, r_minor: &str) -> (r: Option<PlatformInfo>)
    ensures
        match r {
            Some(i) => platform_view(platform, opt_str(posit_distro_slug), r_minor@) == Some(i@),
            None => platform_view(platform, opt_str(posit_distro_slug), r_minor@) is None,
        },
{
    match platform {
        Platform::MacOsArm64 => Some(plain("macosx/big-sur-arm64", "tgz", "macos-arm64")),
        Platform::MacOsX86_64 => Some(plain("macosx/big-sur-x86_64", "tgz", "macos-x86_64")),
        Platform::WindowsX86_64 => Some(plain("windows", "zip", "windows")),
        _ => {
            let slug = match posit_distro_slug {
                Some(s) => s,
                None => {
                    return None;
                },
            };
            let name = match ppm_linux_codename(slug) {
                Some(c) => c,
                None => {
                    return None;
                },
            };
            let arch = match platform {
                Platform::LinuxArm64 => "aarch64",
                _ => "x86_64",
            };
            let ua = "R (".to_owned().concat(normalize_ua_r_version(r_minor).as_str()).concat(" ").concat(arch).concat(
                "-pc-linux-gnu ",
            ).concat(arch).concat(" linux-gnu)");
            Some(
                PlatformInfo {
                    url_segment: String::new(),
                    pkg_ext: "tar.gz".to_owned(),
                    cache_key: "linux-".to_owned().concat(name).concat("-").concat(arch),
                    is_linux: true,
                    linux_codename: Some(name.to_owned()),
                    user_agent: Some(ua),
                },
            )
        },
    }
}

/// The address below which a repository lies.
pub open spec fn repo_prefix(repo: RepoView, info: PlatformView) -> Seq<char> {
    match repo {
        RepoView::Cran => match info.linux_codename {
            Some(c) => "https://packagemanager.posit.co/cran/__linux__/"@ + c + "/latest"@,
            None => "https://packagemanager.posit.co/cran/latest"@,
        },
        RepoView::Bioc(release) => "https://bioconductor.org/packages/"@ + release + "/bioc"@,
    }
}

/// The directory of the builds in a repository. On Linux they lie where the source
/// packages lie.
pub open spec fn builds_dir(repo: RepoView, info: PlatformView, r_minor: Seq<char>) -> Seq<char> {
    if info.is_linux {
        repo_prefix(repo, info) + "/src/contrib/"@
    } else {
        repo_prefix(repo, info) + "/bin/"@ + info.url_segment + "/contrib/"@ + r_minor + "/"@
    }
}

impl P3MRepo {
    /// The address below which the repository lies.
    pub fn url_prefix(&self, info: &PlatformInfo) -> (r: String)
        ensures
            r@ == repo_prefix(self@, info@),
    {
        match self {
            P3MRepo::Cran => match &info.linux_codename {
                Some(c) => "https://packagemanager.posit.co/cran/__linux__/".to_owned().concat(c.as_str()).concat(
                    "/latest",
                ),
                None => "https://packagemanager.posit.co/cran/latest".to_owned(),
            },
            P3MRepo::Bioc(release) => "https://bioconductor.org/packages/".to_owned().concat(release.as_str()).concat(
                "/bioc",
            ),
        }
    }

    /// The part of the name of the kept index that names the repository.
    pub fn cache_tag(&self) -> (r: String)
        ensures
            r@ == (match self@ {
                RepoView::Cran => "cran"@,
                RepoView::Bioc(release) => "bioc-"@ + release,
            }),
    {
        match self {
            P3MRepo::Cran => "cran".to_owned(),
            P3MRepo::Bioc(release) => "bioc-".to_owned().concat(release.as_str()),
        }
    }

    /// The repository in words.
    pub fn label(&self) -> (r: String)
        ensures
            r@ == (match self@ {
                RepoView::Cran => "CRAN"@,
                RepoView::Bioc(release) => "Bioc "@ + release,
            }),
    {
        match self {
            P3MRepo::Cran => "CRAN".to_owned(),
            P3MRepo::Bioc(release) => "Bioc ".to_owned().concat(release.as_str()),
        }
    }
}

fn builds_directory(repo: &P3MRepo, info: &PlatformInfo, r_minor: &str) -> (r: String)
    ensures
        r@ == builds_dir(repo@, info@, r_minor@),
{
    let prefix = repo.url_prefix(info);
    if info.is_linux {
        prefix.concat("/src/contrib/")
    } else {
        prefix.concat("/bin/").concat(info.url_segment.as_str()).concat("/contrib/").concat(r_minor).concat("/")
    }
}

/// The address of the index of a repository.
pub fn index_url(repo: &P3MRepo, info: &PlatformInfo, r_minor: &str) -> (r: String)
    ensures
        r@ == builds_dir(repo@, info@, r_minor@) + "PACKAGES.gz"@,
{
    builds_directory(repo, info, r_minor).concat("PACKAGES.gz")
}

/// The address of the build of a package.
pub open spec fn build_at(repo: RepoView, info: PlatformView, r_minor: Seq<char>, name: Seq<char>, version: Seq<char>) -> Seq<
    char,
> {
    builds_dir(repo, info, r_minor) + name + "_"@ + version + "."@ + info.pkg_ext
}

/// The address of the build of a package.
pub fn package_url(repo: &P3MRepo, info: &PlatformInfo, r_minor: &str, name: &str, version: &str) -> (r: String)
    ensures
        r@ == build_at(repo@, info@, r_minor@, name@, version@),
{
    builds_directory(repo, info, r_minor).concat(name).concat("_").concat(version).concat(".").concat(
        info.pkg_ext.as_str(),
    )
}

/// The name of the file in which an index is kept for the day.
pub fn cache_file_name(r_minor: &str, info: &PlatformInfo, repo: &P3MRepo, date: &str) -> (r: String)
    ensures
        r@ == "p3m-"@ + r_minor@ + "-"@ + info@.cache_key + "-"@ + (match repo@ {
            RepoView::Cran => "cran"@,
            RepoView::Bioc(release) => "bioc-"@ + release,
        }) + "-"@ + date@ + ".txt"@,
{
    "p3m-".to_owned().concat(r_minor).concat("-").concat(info.cache_key.as_str()).concat("-").concat(
        repo.cache_tag().as_str(),
    ).concat("-").concat(date).concat(".txt")
}

/// What the last line with the prefix says, where there is one.
pub open spec fn last_line(ls: Seq<Seq<char>>, prefix: Seq<char>) -> Option<Seq<char>>
    decreases ls.len(),
{
    if ls.len() == 0 {
        None
    } else {
        match strip_prefix(ls.last(), prefix) {
            Some(v) => Some(trim(v)),
            None => last_line(ls.drop_last(), prefix),
        }
    }
}

fn find_last_line(ls: &Vec<&[char]>, prefix: &str) -> (r: Option<String>)
    ensures
        opt_view(r) == last_line(slice_views(ls@), prefix@),
{
    let ghost all = slice_views(ls@);
    let mut r: Option<String> = None;
    let mut i: usize = 0;
    assert(all.take(0) == Seq::<Seq<char>>::empty());
    while i < ls.len()
        invariant
            i <= ls@.len(),
            all == slice_views(ls@),
            opt_view(r) == last_line(all.take(i as int), prefix@),
        decreases ls@.len() - i,
    {
        proof {
            assert(all[i as int] == ls@[i as int]@);
            assert(all.take(i + 1).drop_last() == all.take(i as int));
        }
        if let Some(v) = without_prefix(ls[i], prefix) {
            r = Some(string_of(trimmed(v)));
        }
        i += 1;
    }
    assert(all.take(i as int) == all);
    r
}

/// The builds with that of one more record, where it has a name and a version. The
/// version is kept in the form of the lock file; the address has it as it is.
pub open spec fn with_record(
    m: Binaries,
    block: Seq<char>,
    repo: RepoView,
    info: PlatformView,
    r_minor: Seq<char>,
) -> Binaries {
    match (last_line(lines(block), "Package: "@), last_line(lines(block), "Version: "@)) {
        (Some(n), Some(v)) => m.insert(n, (normal_version(v), build_at(repo, info, r_minor, n, v))),
        _ => m,
    }
}

/// The builds in the records given.
pub open spec fn binaries_of(blocks: Seq<Seq<char>>, repo: RepoView, info: PlatformView, r_minor: Seq<char>) -> Binaries
    decreases blocks.len(),
{
    if blocks.len() == 0 {
        Map::empty()
    } else {
        let m = binaries_of(blocks.drop_last(), repo, info, r_minor);
        let block = trim(blocks.last());
        if block.len() == 0 {
            m
        } else {
            with_record(m, block, repo, info, r_minor)
        }
    }
}

/// The builds that the text of an index lists.
pub fn parse_index(text: &str, r_minor: &str, info: &PlatformInfo, repo: &P3MRepo) -> (r: P3MBinaryIndex)
    ensures
        r@ == binaries_of(split_text(text@, "\n\n"@), repo@, info@, r_minor@),
{
    let cs = chars_of(text);
    let sep = chars_of("\n\n");
    proof {
        reveal_strlit("\n\n");
    }
    let ps = pieces_text(cs.as_slice(), sep.as_slice());
    let ghost all = split_text(text@, "\n\n"@);
    let mut packages: TextMap<BinaryEntry> = TextMap::new();
    let mut i: usize = 0;
    assert(all.take(0) == Seq::<Seq<char>>::empty());
    while i < ps.len()
        invariant
            i <= ps@.len(),
            slice_views(ps@) == all,
            packages@ == binaries_of(all.take(i as int), repo@, info@, r_minor@),
        decreases ps@.len() - i,
    {
        let block = trimmed(ps[i]);
        proof {
            assert(slice_views(ps@)[i as int] == ps@[i as int]@);
            assert(all.take(i + 1).drop_last() == all.take(i as int));
        }
        if block.len() > 0 {
            let ls = lines_of(block);
            match (find_last_line(&ls, "Package: "), find_last_line(&ls, "Version: ")) {
                (Some(n), Some(v)) => {
                    let url = package_url(repo, info, r_minor, n.as_str(), v.as_str());
                    packages.insert(n.as_str(), BinaryEntry { version: normalize_version(v.as_str()), url });
                },
                _ => {},
            }
        }
        i += 1;
    }
    assert(all.take(i as int) == all);
    P3MBinaryIndex { packages }
}

/// The build of exactly a given version of a package.
pub open spec fn binary_of(m: Binaries, name: Seq<char>, version: Seq<char>) -> Option<Seq<char>> {
    if m.contains_key(name) && m[name].0 == version {
        Some(m[name].1)
    } else {
        None
    }
}

impl P3MBinaryIndex {
    /// The index without builds.
    pub fn empty() -> (r: Self)
        ensures
            r@ == Binaries::empty(),
    {
        P3MBinaryIndex { packages: TextMap::new() }
    }

    /// How many packages there are.
    pub fn len(&self) -> (r: usize)
        ensures
            r == self@.dom().len(),
    {
        let n: usize = self.packages.len();
        proof {
            self.packages.keys_in_order();
            crate::text_map::ascending_has_no_duplicates(self.packages.keys());
            self.packages.keys().unique_seq_to_set();
        }
        n
    }

    /// Where the build of a package is found, if exactly that version is built.
    pub fn binary_url(&self, name: &str, version: &str) -> (r: Option<&str>)
        ensures
            opt_str(r) == binary_of(self@, name@, version@),
    {
        match self.packages.get(name) {
            Some(e) => if same_str(e.version.as_str(), version) {
                Some(e.url.as_str())
            } else {
                None
            },
            None => None,
        }
    }

    /// The builds of two indexes. Where both have a package, the first counts.
    pub fn merge(cran: P3MBinaryIndex, bioc: P3MBinaryIndex) -> (r: P3MBinaryIndex)
        ensures
            r@ == bioc@.union_prefer_right(cran@),
    {
        let P3MBinaryIndex { mut packages } = cran;
        let n: usize = bioc.packages.len();
        let ghost keys = bioc.packages.keys();
        proof {
            bioc.packages.keys_in_order();
        }
        let ghost start = packages@;
        let mut i: usize = 0;
        while i < n
            invariant
                i <= n,
                n == keys.len(),
                keys == bioc.packages.keys(),
                bioc@.dom() == keys.to_set(),
                bioc@ == bioc.packages@,
                packages@.dom() == start.dom().union(keys.take(i as int).to_set()),
                forall|k: Seq<char>| #[trigger]
                    packages@.contains_key(k) ==> packages@[k] == (if start.contains_key(k) {
                        start[k]
                    } else {
                        bioc@[k]
                    }),
            decreases n - i,
        {
            let name = bioc.packages.key_at(i);
            let ghost before = packages@;
            if !packages.contains_key(name) {
                let e: &BinaryEntry = bioc.packages.value_at(i);
                packages.insert(
                    name,
                    BinaryEntry { version: e.version.as_str().to_owned(), url: e.url.as_str().to_owned() },
                );
            }
            proof {
                let a = keys.take(i as int);
                let b = keys.take(i + 1);
                assert(b == a.push(name@));
                assert forall|x: Seq<char>| b.to_set().contains(x) <==> a.to_set().contains(x) || x == name@ by {
                    if a.contains(x) {
                        let k = a.index_of(x);
                        assert(b[k] == x);
                    }
                    assert(b[a.len() as int] == name@);
                }
                assert(packages@.dom() =~= start.dom().union(b.to_set()));
            }
            i += 1;
        }
        proof {
            assert(keys.take(i as int) == keys);
            assert(packages@ =~= bioc@.union_prefer_right(start));
        }
        P3MBinaryIndex { packages }
    }
}

/// Whether the builds for Bioconductor are asked for: there are none for Linux.
pub fn bioc_builds_wanted(info: &PlatformInfo, has_release: bool) -> (r: bool)
    ensures
        r == (has_release && !info@.is_linux),
{
    has_release && !info.is_linux
}

/// The builds that a project can use: those for CRAN where their index was had, and
/// those for Bioconductor, which has none for Linux.
pub fn usable_builds(
    info: &PlatformInfo,
    cran: Option<P3MBinaryIndex>,
    bioc: Option<P3MBinaryIndex>,
) -> (r: P3MBinaryIndex)
    ensures
        ({
            let c = match cran {
                Some(i) => i@,
                None => Binaries::empty(),
            };
            r@ == (match bioc {
                Some(b) => if info.is_linux {
                    c
                } else {
                    b@.union_prefer_right(c)
                },
                None => c,
            })
        }),
{
    let c = match cran {
        Some(i) => i,
        None => P3MBinaryIndex::empty(),
    };
    match bioc {
        Some(b) => if info.is_linux {
            c
        } else {
            P3MBinaryIndex::merge(c, b)
        },
        None => c,
    }
}

/// R introduces itself in the same words when it asks for the index of builds and
/// when it asks for a package.
pub proof fn agents_agree(arch: Seq<char>, r_version: Seq<char>)
    ensures
        linux_agent(arch, r_version) == agent(
            TripleView { arch, vendor: "pc"@, os: "linux"@, abi: "gnu"@ },
            r_version,
        ),
{
    reveal_strlit("R (");
    reveal_strlit(" ");
    reveal_strlit("-");
    reveal_strlit("pc");
    reveal_strlit("linux");
    reveal_strlit("gnu");
    reveal_strlit(")");
    reveal_strlit("-pc-linux-gnu ");
    reveal_strlit(" linux-gnu)");
    assert("-pc-linux-gnu "@ == "-"@ + "pc"@ + "-"@ + "linux"@ + "-"@ + "gnu"@ + " "@);
    assert(" linux-gnu)"@ == " "@ + "linux"@ + "-"@ + "gnu"@ + ")"@);
    assert(linux_agent(arch, r_version) =~= agent(
        TripleView { arch, vendor: "pc"@, os: "linux"@, abi: "gnu"@ },
        r_version,
    ));
}

/// A distribution that goes by its own name is not known to the server, so packages
/// are compiled on it.
pub proof fn alpine_has_no_builds(version: Seq<char>)
    ensures
        codename(crate::r_version::host::distro_slug("alpine"@, version)) is None,
{
    reveal_strlit("alpine");
    reveal_strlit("alpine-");
    reveal_strlit("ubuntu");
    reveal_strlit("debian");
    reveal_strlit("centos");
    reveal_strlit("rhel");
    reveal_strlit("rocky");
    reveal_strlit("almalinux");
    reveal_strlit("ol");
    reveal_strlit("opensuse-leap");
    reveal_strlit("sles");
    reveal_strlit("ubuntu-2004");
    reveal_strlit("ubuntu-2204");
    reveal_strlit("ubuntu-2404");
    reveal_strlit("debian-11");
    reveal_strlit("debian-12");
    reveal_strlit("rhel-7");
    reveal_strlit("centos-7");
    reveal_strlit("rhel-8");
    reveal_strlit("centos-8");
    reveal_strlit("rhel-9");
    reveal_strlit("centos-9");
    reveal_strlit("opensuse-154");
    reveal_strlit("opensuse-155");
    let s = crate::r_version::host::distro_slug("alpine"@, version);
    assert("alpine"@[0] == 'a');
    assert("alpine"@[2] == 'p');
    assert(s[0] == 'a');
}

} // verus!

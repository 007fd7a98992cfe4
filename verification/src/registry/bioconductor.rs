//! Bioconductor, which publishes its packages in four indexes of one release.
use vstd::prelude::*;

use crate::error::{error_message, ErrorView, UvrError};
use crate::lockfile::{PackageSource, SourceView};
use crate::registry::cran::{copy_entry, entry_deps, entry_of, index_needs, lemma_index_needs_finite, parse_dcf_block,
    wanted, CranPackageEntry, EntryView};
use crate::registry::{DepView, PackageInfo, PackageInfoView};
use crate::resolver::laws::is_honest;
use crate::resolver::requirement::{admits, parse_version_req, version_matches_req};
use crate::resolver::solve::{is_real, meets, PackageRegistry};
use crate::text::{chars_of, copy_opt, parse_number, pieces, pieces_text, read_number, same_str, slice_views, split,
    split_text, string_of, trim, trimmed};
use crate::text_map::TextMap;

verus! {

/// The release of Bioconductor that goes with a version of R.
pub open spec fn release_for(major: nat, minor: nat) -> Seq<char> {
    if major == 4 && minor == 4 {
        "3.20"@
    } else if major == 4 && minor == 3 {
        "3.18"@
    } else if major == 4 && minor == 2 {
        "3.16"@
    } else if major == 4 && minor == 1 {
        "3.14"@
    } else if major == 4 && minor == 0 {
        "3.12"@
    } else {
        "3.21"@
    }
}

/// The release of Bioconductor that goes with a version of R.
pub fn bioc_release_for_r(r_major: u64, r_minor: u64) -> (r: &'static str)
    ensures
        r@ == release_for(r_major as nat, r_minor as nat),
{
    if r_major != 4 {
        return "3.21";
    }
    match r_minor {
        4 => "3.20",
        3 => "3.18",
        2 => "3.16",
        1 => "3.14",
        0 => "3.12",
        _ => "3.21",
    }
}

/// The number in a part of a version, 4 where there is none.
pub open spec fn part_number(parts: Seq<Seq<char>>, i: int) -> nat {
    if 0 <= i < parts.len() {
        match parse_number(parts[i], u64::MAX as nat) {
            Some(n) => n,
            None => 4,
        }
    } else {
        4
    }
}

fn number_in_part(parts: &Vec<&[char]>, i: usize) -> (r: u64)
    ensures
        r == part_number(slice_views(parts@), i as int),
{
    if i >= parts.len() {
        return 4;
    }
    assert(slice_views(parts@)[i as int] == parts@[i as int]@);
    match read_number(parts[i], u64::MAX) {
        Some(n) => n,
        None => 4,
    }
}

/// The release of Bioconductor that goes with a version of R, given as text.
pub fn bioc_release_for_version(r_version: &str) -> (r: &'static str)
    ensures
        ({
            let p = split(r_version@, '.');
            r@ == release_for(part_number(p, 0), part_number(p, 1))
        }),
{
    let cs = chars_of(r_version);
    let parts = pieces(cs.as_slice(), '.');
    bioc_release_for_r(number_in_part(&parts, 0), number_in_part(&parts, 1))
}

/// The address of an index of a release.
pub fn subrepo_index_url(bioc_release: &str, subrepo_path: &str) -> (r: String)
    ensures
        r@ == "https://bioconductor.org/packages/"@ + bioc_release@ + "/"@ + subrepo_path@ + "/src/contrib/PACKAGES.gz"@,
{
    "https://bioconductor.org/packages/".to_owned().concat(bioc_release).concat("/").concat(subrepo_path).concat(
        "/src/contrib/PACKAGES.gz",
    )
}

/// The key under which an index of a release is kept.
pub fn subrepo_cache_key(bioc_release: &str, suffix: &str) -> (r: String)
    ensures
        r@ == "bioc-"@ + bioc_release@ + "-"@ + suffix@,
{
    "bioc-".to_owned().concat(bioc_release).concat("-").concat(suffix)
}

/// The entries of the records given, by name. Of records of one name the last counts.
pub open spec fn entries_by_name(blocks: Seq<Seq<char>>) -> Map<Seq<char>, EntryView>
    decreases blocks.len(),
{
    if blocks.len() == 0 {
        Map::empty()
    } else {
        let m = entries_by_name(blocks.drop_last());
        let block = trim(blocks.last());
        if block.len() == 0 {
            m
        } else {
            match entry_of(block) {
                Some(e) => m.insert(e.name, e),
                None => m,
            }
        }
    }
}

/// The entries in the text of an index, by name.
pub fn parse_bioc_text(text: &str) -> (r: TextMap<CranPackageEntry>)
    ensures
        r@ == entries_by_name(split_text(text@, "\n\n"@)),
{
    let cs = chars_of(text);
    let sep = chars_of("\n\n");
    proof {
        reveal_strlit("\n\n");
    }
    let ps = pieces_text(cs.as_slice(), sep.as_slice());
    let ghost all = split_text(text@, "\n\n"@);
    let mut packages: TextMap<CranPackageEntry> = TextMap::new();
    let mut i: usize = 0;
    assert(all.take(0) == Seq::<Seq<char>>::empty());
    while i < ps.len()
        invariant
            i <= ps@.len(),
            slice_views(ps@) == all,
            packages@ == entries_by_name(all.take(i as int)),
        decreases ps@.len() - i,
    {
        let block = trimmed(ps[i]);
        proof {
            assert(slice_views(ps@)[i as int] == ps@[i as int]@);
            assert(all.take(i + 1).drop_last() == all.take(i as int));
        }
        if block.len() > 0 {
            let text = string_of(block);
            if let Some(e) = parse_dcf_block(text.as_str()) {
                let name = e.name.as_str().to_owned();
                packages.insert(name.as_str(), e);
            }
        }
        i += 1;
    }
    assert(all.take(i as int) == all);
    packages
}

/// A package and the index that has it.
struct BiocEntry {
    entry: CranPackageEntry,
    subrepo: String,
}

impl View for BiocEntry {
    type V = (EntryView, Seq<char>);

    closed spec fn view(&self) -> (EntryView, Seq<char>) {
        (self.entry@, self.subrepo@)
    }
}

/// The packages of a release, each with the index that has it.
pub type BiocPackages = Map<Seq<char>, (EntryView, Seq<char>)>;

/// A release of Bioconductor.
pub struct BiocRegistry {
    packages: TextMap<BiocEntry>,
    bioc_release: String,
}

/// A release as a mathematical value.
pub struct BiocView {
    pub packages: BiocPackages,
    pub release: Seq<char>,
}

impl View for BiocRegistry {
    type V = BiocView;

    closed spec fn view(&self) -> BiocView {
        BiocView { packages: self.packages@, release: self.bioc_release@ }
    }
}

/// The packages of one index, each with the path of the index.
pub open spec fn in_subrepo(m: Map<Seq<char>, EntryView>, subrepo: Seq<char>) -> BiocPackages {
    Map::new(|n: Seq<char>| m.contains_key(n), |n: Seq<char>| (m[n], subrepo))
}

/// The packages with those of one more index, which has only those that are new.
pub open spec fn with_subrepo(p: BiocPackages, m: Map<Seq<char>, EntryView>, subrepo: Seq<char>) -> BiocPackages {
    in_subrepo(m, subrepo).union_prefer_right(p)
}

/// The packages with those of one more index, where it could be had.
pub open spec fn with_optional(p: BiocPackages, m: Option<TextMap<CranPackageEntry>>, subrepo: Seq<char>) -> BiocPackages {
    match m {
        Some(m) => with_subrepo(p, m@, subrepo),
        None => p,
    }
}

/// Where a package of a release is downloaded from.
pub open spec fn bioc_url(release: Seq<char>, subrepo: Seq<char>, e: EntryView) -> Seq<char> {
    "https://bioconductor.org/packages/"@ + release + "/"@ + subrepo + "/src/contrib/"@ + e.name + "_"@ + e.raw_version
        + ".tar.gz"@
}

/// What is known of a package of a release.
pub open spec fn bioc_info(release: Seq<char>, subrepo: Seq<char>, e: EntryView) -> PackageInfoView {
    PackageInfoView {
        name: e.name,
        version: e.version,
        source: SourceView::Bioconductor,
        checksum: if e.md5sum.len() == 0 {
            None
        } else {
            Some("md5:"@ + e.md5sum)
        },
        requires: entry_deps(e),
        url: bioc_url(release, subrepo, e),
        raw_version: Some(e.raw_version),
        system_requirements: e.system_requirements,
    }
}

impl BiocRegistry {
    /// A release without packages.
    pub fn new(bioc_release: &str) -> (r: Self)
        ensures
            r@ == (BiocView { packages: Map::empty(), release: bioc_release@ }),
    {
        BiocRegistry { packages: TextMap::new(), bioc_release: bioc_release.to_owned() }
    }

    /// The release.
    pub fn release(&self) -> (r: &str)
        ensures
            r@ == self@.release,
    {
        self.bioc_release.as_str()
    }

    /// Puts a package of an index in, unless there is one of that name.
    pub fn add(&mut self, name: &str, entry: CranPackageEntry, subrepo: &str)
        ensures
            final(self)@ == (BiocView {
                packages: if old(self)@.packages.contains_key(name@) {
                    old(self)@.packages
                } else {
                    old(self)@.packages.insert(name@, (entry@, subrepo@))
                },
                release: old(self)@.release,
            }),
    {
        if !self.packages.contains_key(name) {
            self.packages.insert(name, BiocEntry { entry, subrepo: subrepo.to_owned() });
        }
    }

    /// Puts the packages of an index in. Those that are there already stay.
    pub fn add_subrepo(&mut self, entries: &TextMap<CranPackageEntry>, subrepo: &str)
        ensures
            final(self)@ == (BiocView {
                packages: with_subrepo(old(self)@.packages, entries@, subrepo@),
                release: old(self)@.release,
            }),
    {
        let n: usize = entries.len();
        let ghost keys = entries.keys();
        proof {
            entries.keys_in_order();
        }
        let ghost start = self@.packages;
        let mut i: usize = 0;
        while i < n
            invariant
                i <= n,
                n == keys.len(),
                keys == entries.keys(),
                entries@.dom() == keys.to_set(),
                self@.release == old(self)@.release,
                self@.packages.dom() == start.dom().union(keys.take(i as int).to_set()),
                forall|k: Seq<char>| #[trigger]
                    self@.packages.contains_key(k) ==> self@.packages[k] == (if start.contains_key(k) {
                        start[k]
                    } else {
                        (entries@[k], subrepo@)
                    }),
            decreases n - i,
        {
            let name = entries.key_at(i);
            let e: &CranPackageEntry = entries.value_at(i);
            self.add(name, copy_entry(e), subrepo);
            proof {
                let a = keys.take(i as int);
                let b = keys.take(i + 1);
                assert(b == a.push(name@));
                assert forall|x: Seq<char>| b.to_set().contains(x) <==> a.to_set().contains(x) || x == name@ by {
                    if a.contains(x) {
                        let k = a.index_of(x);
                        assert(b[k] == x);
                    }
                    assert(b[a.len() as int] == name@);
                }
                assert(self@.packages.dom() =~= start.dom().union(b.to_set()));
            }
            i += 1;
        }
        proof {
            assert(keys.take(i as int) == keys);
            assert(self@.packages =~= with_subrepo(start, entries@, subrepo@));
        }
    }

    /// The release made of its four indexes. Without that of the software there is
    /// none; the others are left out where they could not be had. Where two indexes
    /// have a package, the first counts.
    pub fn assemble(
        bioc_release: &str,
        software: Result<TextMap<CranPackageEntry>, UvrError>,
        annotation: Option<TextMap<CranPackageEntry>>,
        experiment: Option<TextMap<CranPackageEntry>>,
        workflows: Option<TextMap<CranPackageEntry>>,
    ) -> (r: Result<BiocRegistry, UvrError>)
        ensures
            match software {
                Ok(m) => r matches Ok(reg) && reg@ == (BiocView {
                    packages: with_optional(
                        with_optional(
                            with_optional(with_subrepo(Map::empty(), m@, "bioc"@), annotation, "data/annotation"@),
                            experiment,
                            "data/experiment"@,
                        ),
                        workflows,
                        "workflows"@,
                    ),
                    release: bioc_release@,
                }),
                Err(e) => r matches Err(f) && f@ == ErrorView::Other(
                    "Failed to fetch Bioconductor "@ + bioc_release@ + " software index: "@ + error_message(e@),
                ),
            },
    {
        let mut reg = BiocRegistry::new(bioc_release);
        match software {
            Ok(m) => reg.add_subrepo(&m, "bioc"),
            Err(e) => {
                return Err(
                    UvrError::Other(
                        "Failed to fetch Bioconductor ".to_owned().concat(bioc_release).concat(
                            " software index: ",
                        ).concat(e.message().as_str()),
                    ),
                );
            },
        }
        if let Some(m) = &annotation {
            reg.add_subrepo(m, "data/annotation");
        }
        if let Some(m) = &experiment {
            reg.add_subrepo(m, "data/experiment");
        }
        if let Some(m) = &workflows {
            reg.add_subrepo(m, "workflows");
        }
        Ok(reg)
    }
}

/// The packages as lists of one entry each.
spec fn as_lists(p: BiocPackages) -> Map<Seq<char>, Seq<EntryView>> {
    Map::new(|n: Seq<char>| p.contains_key(n), |n: Seq<char>| seq![p[n].0])
}

/// What the packages of a release need.
pub closed spec fn bioc_needs(p: BiocPackages) -> Set<DepView> {
    index_needs(as_lists(p))
}

/// What a release says of a package under a requirement that has been read.
pub open spec fn bioc_answer(
    v: BiocView,
    name: Seq<char>,
    constraint: Option<Seq<char>>,
    req: Result<Option<Seq<char>>, ErrorView>,
) -> Result<PackageInfoView, ErrorView> {
    if !v.packages.contains_key(name) {
        Err(ErrorView::PackageNotFound(name))
    } else {
        let (e, subrepo) = v.packages[name];
        match req {
            Err(e) => Err(e),
            Ok(q) => if q is None || admits(q->0, e.version) {
                Ok(bioc_info(v.release, subrepo, e))
            } else {
                Err(ErrorView::NoMatchingVersion { package: name, constraint: constraint->0 })
            },
        }
    }
}

impl PackageRegistry for BiocRegistry {
    open spec fn answer(&self, name: Seq<char>, constraint: Option<Seq<char>>) -> Result<PackageInfoView, ErrorView> {
        bioc_answer(self@, name, constraint, wanted(constraint))
    }

    closed spec fn needed(&self) -> Set<DepView> {
        bioc_needs(self@.packages)
    }

    proof fn needed_is_finite(&self) {
        self.packages.keys_are_finite();
        let m = as_lists(self@.packages);
        assert(m.dom() =~= self@.packages.dom());
        lemma_index_needs_finite(m);
        assert forall|name: Seq<char>, constraint: Option<Seq<char>>, i: int|
            (self.answer(name, constraint) matches Ok(info) && 0 <= i < info.requires.len()) implies self.needed().contains(
            #[trigger] self.answer(name, constraint)->Ok_0.requires[i],
        ) by {
            assert(m[name][0] == self@.packages[name].0);
            assert(entry_deps(m[name][0])[i] == self.answer(name, constraint)->Ok_0.requires[i]);
        }
    }

    fn resolve_package(&self, name: &str, constraint: Option<&str>) -> (r: Result<PackageInfo, UvrError>) {
        let bioc = match self.packages.get(name) {
            Some(b) => b,
            None => {
                return Err(UvrError::PackageNotFound(name.to_owned()));
            },
        };
        let entry = &bioc.entry;
        if let Some(c) = constraint {
            let cs = chars_of(c);
            if !same_str(c, "*") && cs.len() > 0 {
                match parse_version_req(c) {
                    Ok(req) => {
                        if !version_matches_req(&entry.version, &req) {
                            return Err(
                                UvrError::NoMatchingVersion { package: name.to_owned(), constraint: c.to_owned() },
                            );
                        }
                    },
                    Err(e) => {
                        return Err(e);
                    },
                }
            }
        }
        let sums = chars_of(entry.md5sum.as_str());
        let checksum = if sums.len() == 0 {
            None
        } else {
            Some("md5:".to_owned().concat(entry.md5sum.as_str()))
        };
        Ok(
            PackageInfo {
                name: entry.name.as_str().to_owned(),
                version: entry.version.copy(),
                source: PackageSource::Bioconductor,
                checksum,
                requires: entry.requires_as_deps(),
                url: "https://bioconductor.org/packages/".to_owned().concat(self.bioc_release.as_str()).concat("/").concat(
                    bioc.subrepo.as_str(),
                ).concat("/src/contrib/").concat(entry.name.as_str()).concat("_").concat(
                    entry.raw_version.as_str(),
                ).concat(".tar.gz"),
                raw_version: Some(entry.raw_version.as_str().to_owned()),
                system_requirements: copy_opt(&entry.system_requirements),
            },
        )
    }
}

/// What a release of Bioconductor answers to a requirement satisfies it.
pub proof fn bioc_registry_is_honest(reg: BiocRegistry)
    ensures
        is_honest(reg),
{
    assert forall|name: Seq<char>, c: Seq<char>|
        is_real(Some(c)) && (#[trigger] reg.answer(name, Some(c))) is Ok implies meets(
        c,
        reg.answer(name, Some(c))->Ok_0.version,
    ) by {}
}

/// A package of the software index is never taken from another index.
pub proof fn software_comes_first(
    software: Map<Seq<char>, EntryView>,
    annotation: Option<TextMap<CranPackageEntry>>,
    experiment: Option<TextMap<CranPackageEntry>>,
    workflows: Option<TextMap<CranPackageEntry>>,
    name: Seq<char>,
)
    requires
        software.contains_key(name),
    ensures
        ({
            let p = with_optional(
                with_optional(
                    with_optional(with_subrepo(Map::empty(), software, "bioc"@), annotation, "data/annotation"@),
                    experiment,
                    "data/experiment"@,
                ),
                workflows,
                "workflows"@,
            );
            p.contains_key(name) && p[name] == (software[name], "bioc"@)
        }),
{
}

} // verus!

//! From a manifest to a lock file.
pub mod graph;
pub mod install;
pub mod laws;
pub mod requirement;
pub mod requirement_laws;
pub mod search_laws;
pub mod solve;

use vstd::prelude::*;

use crate::error::{outcome, ErrorView, UvrError};
use crate::lockfile::{LockedPackage, Lockfile, LockfileView, PackageSource, RVersionPin, SourceView};
use crate::manifest::{spec_version_req, Manifest, ManifestView};
use crate::order::view_each;
use crate::registry::{Dep, DepView, PackageInfo, PackageInfoView};
use crate::text::{chars_of, copy_opt, copy_strings, is_text, lowered, opt_str, opt_view, same_str, views};
use crate::text_map::{in_order, TextMap};
use crate::version::{Version, VersionView};

pub use graph::DependencyGraph;
pub use install::topological_install_order;
pub use requirement::{normalize_version, normalize_version_in_req, parse_version_req, version_matches_req};
pub use solve::PackageRegistry;

use requirement::{admits, requirement};
use solve::{dep_names, enqueue_all, first_seen, is_base, is_real, linked, locked, locked_all,
    meets, meets_all, non_base, noted, resolution, search_end, search_end_unfolds, search_start, seen_of,
    step, step_brings_end_nearer, universe, within, Queue, Search};

verus! {

/// A package that has been chosen.
#[derive(Debug, Clone, PartialEq, Eq)]
pub struct ResolvedPackage {
    pub name: String,
    pub version: Version,
    pub source: PackageSource,
    pub checksum: Option<String>,
    /// The names of the packages that this one needs.
    pub requires: Vec<String>,
    pub url: String,
    pub raw_version: Option<String>,
    pub system_requirements: Option<String>,
}

/// A chosen package as a mathematical value.
pub struct ResolvedView {
    pub name: Seq<char>,
    pub version: VersionView,
    pub source: SourceView,
    pub checksum: Option<Seq<char>>,
    pub requires: Seq<Seq<char>>,
    pub url: Seq<char>,
    pub raw_version: Option<Seq<char>>,
    pub system_requirements: Option<Seq<char>>,
}

impl View for ResolvedPackage {
    type V = ResolvedView;

    open spec fn view(&self) -> ResolvedView {
        ResolvedView {
            name: self.name@,
            version: self.version@,
            source: self.source@,
            checksum: opt_view(self.checksum),
            requires: views(self.requires@),
            url: self.url@,
            raw_version: opt_view(self.raw_version),
            system_requirements: opt_view(self.system_requirements),
        }
    }
}

/// The choice of `info` for the package `name`.
pub open spec fn resolved_view(name: Seq<char>, info: PackageInfoView) -> ResolvedView {
    ResolvedView {
        name,
        version: info.version,
        source: info.source,
        checksum: info.checksum,
        requires: dep_names(info.requires),
        url: info.url,
        raw_version: info.raw_version,
        system_requirements: info.system_requirements,
    }
}

spec fn resolved_views(m: Map<Seq<char>, PackageInfoView>) -> Map<Seq<char>, ResolvedView> {
    m.map_entries(|n: Seq<char>, i: PackageInfoView| resolved_view(n, i))
}

/// A list of texts.
struct TextList {
    items: Vec<String>,
}

impl View for TextList {
    type V = Seq<Seq<char>>;

    closed spec fn view(&self) -> Seq<Seq<char>> {
        views(self.items@)
    }
}

/// Whether a package comes with R (or is R itself), whatever the case of its name.
pub fn is_base_package(name: &str) -> (r: bool)
    ensures
        r == is_base(name@),
{
    let cs = chars_of(name);
    let l = lowered(cs.as_slice());
    let n = l.as_slice();
    is_text(n, "r") || is_text(n, "base") || is_text(n, "compiler") || is_text(n, "datasets") || is_text(n, "grdevices")
        || is_text(n, "graphics") || is_text(n, "grid") || is_text(n, "methods") || is_text(n, "parallel") || is_text(
        n,
        "splines",
    ) || is_text(n, "stats") || is_text(n, "stats4") || is_text(n, "tcltk") || is_text(n, "tools") || is_text(n, "utils")
}

fn constraint_is_real(c: &Option<String>) -> (r: bool)
    ensures
        r == is_real(opt_view(*c)),
{
    match c {
        Some(t) => !t.as_str().is_empty() && !same_str(t.as_str(), "*"),
        None => false,
    }
}

fn as_str_opt(s: &Option<String>) -> (r: Option<&str>)
    ensures
        opt_str(r) == opt_view(*s),
{
    match s {
        Some(t) => Some(t.as_str()),
        None => None,
    }
}

/// Notes the requirement of a dependency; see [`noted`].
fn note(seen: &mut TextMap<TextList>, d: &Dep)
    ensures
        final(seen)@ == noted(old(seen)@, d@),
{
    if !constraint_is_real(&d.constraint) {
        return ;
    }
    if let Some(c) = &d.constraint {
        let mut items: Vec<String> = match seen.get(d.name.as_str()) {
            Some(l) => copy_strings(&l.items),
            None => Vec::new(),
        };
        let ghost before = views(items@);
        assert(before == seen_of(seen@, d@.name));
        if crate::text::holds_text(&items, c.as_str()) {
            return ;
        }
        items.push(c.as_str().to_owned());
        assert(views(items@) == before.push(c@));
        seen.insert(d.name.as_str(), TextList { items });
    }
}

/// Whether a requirement can be read and admits the version; see [`meets`].
fn meets_constraint(c: &str, v: &Version) -> (r: bool)
    ensures
        r == meets(c@, v@),
{
    match parse_version_req(c) {
        Ok(req) => version_matches_req(v, &req),
        Err(_) => false,
    }
}

/// Whether the version meets all the requirements noted for `name`.
fn meets_seen(seen: &TextMap<TextList>, name: &str, v: &Version) -> (r: bool)
    ensures
        r == meets_all(seen_of(seen@, name@), v@),
{
    match seen.get(name) {
        None => true,
        Some(l) => {
            let ghost cs = seen_of(seen@, name@);
            let mut i: usize = 0;
            while i < l.items.len()
                invariant
                    i <= l.items@.len(),
                    cs == views(l.items@),
                    cs == seen_of(seen@, name@),
                    forall|j: int| 0 <= j < i ==> meets(#[trigger] cs[j], v@),
                decreases l.items@.len() - i,
            {
                assert(cs[i as int] == l.items@[i as int]@);
                if !meets_constraint(l.items[i].as_str(), v) {
                    return false;
                }
                i += 1;
            }
            true
        },
    }
}

/// The names of the dependencies.
fn names_of(deps: &Vec<Dep>) -> (r: Vec<String>)
    ensures
        views(r@) == dep_names(view_each(deps@)),
{
    let mut r: Vec<String> = Vec::new();
    let ghost want = dep_names(view_each(deps@));
    let mut i: usize = 0;
    while i < deps.len()
        invariant
            i <= deps@.len(),
            want == dep_names(view_each(deps@)),
            views(r@) == want.take(i as int),
        decreases deps@.len() - i,
    {
        let ghost before = r@;
        r.push(deps[i].name.as_str().to_owned());
        assert(views(r@) == views(before).push(want[i as int]));
        i += 1;
        assert(views(r@) == want.take(i as int));
    }
    assert(want.take(i as int) == want);
    r
}

/// The choice of `info` for `name`.
fn chosen_package(name: &str, info: &PackageInfo) -> (r: ResolvedPackage)
    ensures
        r@ == resolved_view(name@, info@),
{
    ResolvedPackage {
        name: name.to_owned(),
        version: info.version.copy(),
        source: info.source.copy(),
        checksum: copy_opt(&info.checksum),
        requires: names_of(&info.requires),
        url: info.url.as_str().to_owned(),
        raw_version: copy_opt(&info.raw_version),
        system_requirements: copy_opt(&info.system_requirements),
    }
}

/// The state of the search in code.
struct SearchState {
    pending: Vec<Dep>,
    head: usize,
    chosen: TextMap<ResolvedPackage>,
    seen: TextMap<TextList>,
    queued: TextMap<bool>,
    graph: DependencyGraph,
}

impl SearchState {
    spec fn tracks(&self, s: Search) -> bool {
        &&& self.head <= self.pending@.len()
        &&& s.pending == view_each(self.pending@).skip(self.head as int)
        &&& self.chosen@ == resolved_views(s.chosen)
        &&& self.seen@ == s.seen
        &&& self.queued@.dom() == s.queued
        &&& self.graph@ == s.graph
    }

    /// Puts the dependencies of a newly chosen package into the queue and the graph.
    fn add_first(&mut self, name: &str, info: &PackageInfo, Ghost(s): Ghost<Search>)
        requires
            old(self).tracks(s),
        ensures
            final(self).head == old(self).head,
            final(self).chosen == old(self).chosen,
            final(self).seen == old(self).seen,
            ({
                let q = enqueue_all(Queue { pending: s.pending, queued: s.queued }, s.chosen.dom(), info@.requires);
                final(self).tracks(
                    Search { pending: q.pending, queued: q.queued, graph: linked(s.graph, name@, info@.requires), ..s },
                )
            }),
    {
        self.graph.add_node(name);
        let mut i: usize = 0;
        let ghost deps = info@.requires;
        let ghost q0 = Queue { pending: s.pending, queued: s.queued };
        assert(deps.take(0) == Seq::<DepView>::empty());
        while i < info.requires.len()
            invariant
                i <= info.requires@.len(),
                deps == view_each(info.requires@),
                q0 == (Queue { pending: s.pending, queued: s.queued }),
                self.head == old(self).head,
                self.chosen == old(self).chosen,
                self.seen == old(self).seen,
                ({
                    let q = enqueue_all(q0, s.chosen.dom(), deps.take(i as int));
                    self.tracks(
                        Search {
                            pending: q.pending,
                            queued: q.queued,
                            graph: linked(s.graph, name@, deps.take(i as int)),
                            ..s
                        },
                    )
                }),
            decreases info.requires@.len() - i,
        {
            let dep: &Dep = &info.requires[i];
            proof {
                assert(deps[i as int] == dep@);
                assert(deps.take(i + 1).drop_last() == deps.take(i as int));
                assert(deps.take(i + 1).last() == dep@);
                assert(resolved_views(s.chosen).dom() =~= s.chosen.dom());
            }
            if !is_base_package(dep.name.as_str()) {
                self.graph.add_edge(name, dep.name.as_str());
                let known = self.chosen.contains_key(dep.name.as_str()) || self.queued.contains_key(dep.name.as_str());
                if !known || dep.constraint.is_some() {
                    let ghost before = self.pending@;
                    self.pending.push(dep.copy());
                    proof {
                        assert(view_each(self.pending@) == view_each(before).push(dep@));
                        assert(view_each(self.pending@).skip(self.head as int) == view_each(before).skip(
                            self.head as int,
                        ).push(dep@));
                    }
                }
                if !known {
                    let ghost bq = self.queued@.dom();
                    self.queued.insert(dep.name.as_str(), true);
                    assert(self.queued@.dom() =~= bq.insert(dep@.name));
                }
            }
            i += 1;
        }
        assert(deps.take(i as int) == deps);
    }

    /// Puts the dependencies of another version of a chosen package into the queue.
    fn add_again(&mut self, info: &PackageInfo, Ghost(s): Ghost<Search>)
        requires
            old(self).tracks(s),
        ensures
            final(self).head == old(self).head,
            final(self).chosen == old(self).chosen,
            final(self).seen == old(self).seen,
            final(self).tracks(Search { pending: s.pending + non_base(info@.requires), ..s }),
    {
        let ghost deps = info@.requires;
        let mut i: usize = 0;
        assert(deps.take(0) == Seq::<DepView>::empty());
        assert(s.pending + non_base(deps.take(0)) == s.pending);
        while i < info.requires.len()
            invariant
                i <= info.requires@.len(),
                deps == view_each(info.requires@),
                self.head == old(self).head,
                self.chosen == old(self).chosen,
                self.seen == old(self).seen,
                self.tracks(Search { pending: s.pending + non_base(deps.take(i as int)), ..s }),
            decreases info.requires@.len() - i,
        {
            let dep: &Dep = &info.requires[i];
            proof {
                assert(deps[i as int] == dep@);
                assert(deps.take(i + 1).drop_last() == deps.take(i as int));
                assert(deps.take(i + 1).last() == dep@);
            }
            if !is_base_package(dep.name.as_str()) {
                let ghost before = self.pending@;
                self.pending.push(dep.copy());
                proof {
                    assert(view_each(self.pending@) == view_each(before).push(dep@));
                    assert(view_each(self.pending@).skip(self.head as int) == view_each(before).skip(
                        self.head as int,
                    ).push(dep@));
                    assert((s.pending + non_base(deps.take(i as int))).push(dep@) == s.pending + non_base(deps.take(i + 1)));
                }
            }
            i += 1;
        }
        assert(deps.take(i as int) == deps);
    }
}

/// The dependencies of a project as the search takes them: in the order of names.
pub open spec fn seeds(m: ManifestView) -> Seq<DepView> {
    in_order(m.dependencies.dom()).map_values(
        |n: Seq<char>| DepView { name: n, constraint: spec_version_req(m.dependencies[n]) },
    )
}

/// The version of R that goes into the lock file: the one in use, else what the
/// manifest asks for, else `*`.
pub open spec fn pinned_r(m: ManifestView, actual: Option<Seq<char>>) -> Seq<char> {
    match actual {
        Some(v) => v,
        None => match m.r_version {
            Some(v) => v,
            None => "*"@,
        },
    }
}

/// The lock file for a manifest.
pub open spec fn lockfile_for<R: PackageRegistry>(
    reg: R,
    m: ManifestView,
    actual: Option<Seq<char>>,
) -> Result<LockfileView, ErrorView> {
    match resolution(reg, seeds(m)) {
        Ok(packages) => Ok(LockfileView { r_version: pinned_r(m, actual), bioc_version: None, packages }),
        Err(e) => Err(e),
    }
}

/// Finds one version of every package that a project needs.
pub struct Resolver<'a, R: PackageRegistry> {
    registry: &'a R,
}

impl<'a, R: PackageRegistry> Resolver<'a, R> {
    /// The registry that is asked.
    pub closed spec fn spec_registry(&self) -> R {
        *self.registry
    }

    /// A resolver that asks the given registry.
    pub fn new(registry: &'a R) -> (r: Self)
        ensures
            r.spec_registry() == *registry,
    {
        Resolver { registry }
    }

    /// Runs the search to its end.
    fn search(&self, deps: Vec<Dep>) -> (r: Result<SearchState, UvrError>)
        ensures
            match r {
                Ok(st) => search_end(self.spec_registry(), search_start(view_each(deps@))) matches Ok(s) && st.tracks(s),
                Err(e) => search_end(self.spec_registry(), search_start(view_each(deps@))) == Err::<Search, ErrorView>(
                    e@,
                ),
            },
    {
        let ghost reg = self.spec_registry();
        let ghost sd = view_each(deps@);
        let ghost all = universe(reg, sd);
        let mut seen: TextMap<TextList> = TextMap::new();
        let mut queued: TextMap<bool> = TextMap::new();
        let mut i: usize = 0;
        proof {
            assert(sd.take(0) == Seq::<DepView>::empty());
            assert(queued@.dom() =~= dep_names(sd.take(0)).to_set());
        }
        while i < deps.len()
            invariant
                i <= deps@.len(),
                sd == view_each(deps@),
                seen@ == first_seen(sd.take(i as int)),
                queued@.dom() == dep_names(sd.take(i as int)).to_set(),
            decreases deps@.len() - i,
        {
            let d: &Dep = &deps[i];
            proof {
                assert(sd[i as int] == d@);
                assert(sd.take(i + 1).drop_last() == sd.take(i as int));
            }
            note(&mut seen, d);
            let ghost bq = queued@.dom();
            queued.insert(d.name.as_str(), true);
            proof {
                let a = dep_names(sd.take(i as int));
                let b = dep_names(sd.take(i + 1));
                assert(b == a.push(d@.name));
                assert forall|x: Seq<char>| b.to_set().contains(x) <==> bq.insert(d@.name).contains(x) by {
                    if a.contains(x) {
                        let k = a.index_of(x);
                        assert(b[k] == x);
                    }
                    assert(b[a.len() as int] == d@.name);
                }
                assert(queued@.dom() =~= b.to_set());
            }
            i += 1;
        }
        assert(sd.take(i as int) == sd);
        let ghost start = search_start(sd);
        let mut st = SearchState {
            pending: deps,
            head: 0,
            chosen: TextMap::new(),
            seen,
            queued,
            graph: DependencyGraph::new(),
        };
        let ghost mut s = start;
        proof {
            reg.needed_is_finite();
            assert(view_each(st.pending@).skip(0) == sd);
            assert(st.chosen@ =~= resolved_views(s.chosen));
            assert(st.graph@ =~= s.graph);
            assert(st.tracks(s));
            assert(within(s, all)) by {
                assert forall|i: int| 0 <= i < s.pending.len() implies all.contains(#[trigger] s.pending[i]) by {
                    assert(sd.contains(sd[i]));
                }
            }
        }
        while st.head < st.pending.len()
            invariant
                start == search_start(view_each(deps@)),
                st.tracks(s),
                within(s, all),
                all.finite(),
                reg == self.spec_registry(),
                reg.needed().subset_of(all),
                search_end(reg, start) == search_end(reg, s),
            decreases solve::open_deps(s, all).len(), solve::unsettled(s, all).len(), s.pending.len(),
        {
            proof {
                search_end_unfolds(reg, s, all);
                if step(reg, s) is Ok {
                    step_brings_end_nearer(reg, s, all);
                }
            }
            let ghost s0 = s;
            let d: Dep = st.pending[st.head].copy();
            let ghost before = st.pending@;
            st.head += 1;
            proof {
                assert(s.pending[0] == d@);
                s = Search { pending: s.pending.drop_first(), ..s };
                assert(view_each(st.pending@).skip(st.head as int) == s.pending);
                assert(st.tracks(s));
            }
            if is_base_package(d.name.as_str()) {
                assert(step(reg, s0) == Ok::<Search, ErrorView>(s));
                continue ;
            }
            note(&mut st.seen, &d);
            proof {
                s = Search { seen: noted(s.seen, d@), ..s };
                assert(st.tracks(s));
                assert(resolved_views(s.chosen).dom() =~= s.chosen.dom());
            }
            if let Some(existing) = st.chosen.get(d.name.as_str()) {
                if constraint_is_real(&d.constraint) {
                    if let Some(c) = &d.constraint {
                        let req = match parse_version_req(c.as_str()) {
                            Ok(req) => req,
                            Err(e) => {
                                return Err(e);
                            },
                        };
                        assert(existing@.version == s0.chosen[d@.name].version);
                        if !version_matches_req(&existing.version, &req) {
                            let conflict = UvrError::VersionConflict {
                                package: d.name.as_str().to_owned(),
                                required: c.as_str().to_owned(),
                                conflicting: existing.version.text(),
                            };
                            match self.registry.resolve_package(d.name.as_str(), Some(c.as_str())) {
                                Ok(info) => {
                                    if meets_seen(&st.seen, d.name.as_str(), &info.version) {
                                        st.add_again(&info, Ghost(s));
                                        proof {
                                            s = Search { pending: s.pending + non_base(info@.requires), ..s };
                                        }
                                        let ghost bc = st.chosen@;
                                        st.chosen.insert(
                                            d.name.as_str(),
                                            chosen_package(d.name.as_str(), &info),
                                        );
                                        proof {
                                            assert(st.chosen@ =~= resolved_views(s.chosen.insert(d@.name, info@)));
                                            s = Search { chosen: s.chosen.insert(d@.name, info@), ..s };
                                            assert(step(reg, s0) == Ok::<Search, ErrorView>(s));
                                        }
                                        continue ;
                                    }
                                },
                                Err(_) => {},
                            }
                            return Err(conflict);
                        }
                    }
                }
                assert(step(reg, s0) == Ok::<Search, ErrorView>(s));
                continue ;
            }
            let info = match self.registry.resolve_package(d.name.as_str(), as_str_opt(&d.constraint)) {
                Ok(info) => info,
                Err(e) => {
                    return Err(e);
                },
            };
            st.add_first(d.name.as_str(), &info, Ghost(s));
            proof {
                let q = enqueue_all(Queue { pending: s.pending, queued: s.queued }, s.chosen.dom(), info@.requires);
                s = Search { pending: q.pending, queued: q.queued, graph: linked(s.graph, d@.name, info@.requires), ..s };
            }
            st.chosen.insert(d.name.as_str(), chosen_package(d.name.as_str(), &info));
            proof {
                assert(st.chosen@ =~= resolved_views(s.chosen.insert(d@.name, info@)));
                s = Search { chosen: s.chosen.insert(d@.name, info@), ..s };
                assert(step(reg, s0) == Ok::<Search, ErrorView>(s));
            }
        }
        proof {
            search_end_unfolds(reg, s, all);
        }
        Ok(st)
    }

    /// The lock file for the manifest; see [`lockfile_for`].
    ///
    /// `actual_r_version` is the version of R in use, where one is known. It is what
    /// the lock file records, so that a change of R is noticed.
    pub fn resolve(&self, manifest: &Manifest, actual_r_version: Option<&str>) -> (r: Result<Lockfile, UvrError>)
        ensures
            outcome(r) == lockfile_for(self.spec_registry(), manifest@, opt_str(actual_r_version)),
    {
        let r_version: String = match actual_r_version {
            Some(v) => v.to_owned(),
            None => match &manifest.project.r_version {
                Some(v) => v.as_str().to_owned(),
                None => "*".to_owned(),
            },
        };
        let mut deps: Vec<Dep> = Vec::new();
        let n: usize = manifest.dependencies.len();
        let ghost sd = seeds(manifest@);
        proof {
            manifest.dependencies.keys_in_order();
        }
        let mut i: usize = 0;
        while i < n
            invariant
                i <= n,
                n == manifest.dependencies.keys().len(),
                manifest.dependencies.keys() == in_order(manifest@.dependencies.dom()),
                sd == seeds(manifest@),
                view_each(deps@) == sd.take(i as int),
            decreases n - i,
        {
            let name = manifest.dependencies.key_at(i);
            let constraint = match manifest.dependencies.value_at(i).version_req() {
                Some(c) => Some(c.to_owned()),
                None => None,
            };
            let ghost before = deps@;
            deps.push(Dep { name: name.to_owned(), constraint });
            proof {
                assert(deps@.last()@ == sd[i as int]);
                assert(view_each(deps@) == view_each(before).push(sd[i as int]));
            }
            i += 1;
            assert(view_each(deps@) == sd.take(i as int));
        }
        assert(sd.take(i as int) == sd);
        let st = match self.search(deps) {
            Ok(st) => st,
            Err(e) => {
                return Err(e);
            },
        };
        let ghost s = search_end(self.spec_registry(), search_start(sd))->Ok_0;
        match st.graph.topological_sort() {
            Ok(_) => {},
            Err(e) => {
                return Err(e);
            },
        }
        let packages = lock_all(&st.chosen, Ghost(s.chosen));
        Ok(Lockfile { r: RVersionPin { version: r_version, bioc_version: None }, packages })
    }
}

/// The entries of the lock file for the chosen packages, in the order of names.
fn lock_all(chosen: &TextMap<ResolvedPackage>, Ghost(infos): Ghost<Map<Seq<char>, PackageInfoView>>) -> (r: Vec<
    LockedPackage,
>)
    requires
        chosen@ == resolved_views(infos),
    ensures
        view_each(r@) == locked_all(infos),
{
    let mut packages: Vec<LockedPackage> = Vec::new();
    let n: usize = chosen.len();
    let ghost want = locked_all(infos);
    proof {
        chosen.keys_in_order();
        assert(resolved_views(infos).dom() =~= infos.dom());
    }
    let mut i: usize = 0;
    while i < n
        invariant
            i <= n,
            n == chosen.keys().len(),
            chosen@ == resolved_views(infos),
            chosen.keys() == in_order(infos.dom()),
            want == locked_all(infos),
            view_each(packages@) == want.take(i as int),
        decreases n - i,
    {
        let name = chosen.key_at(i);
        let p: &ResolvedPackage = chosen.value_at(i);
        let one = LockedPackage {
            name: p.name.as_str().to_owned(),
            version: p.version.text(),
            source: p.source.copy(),
            raw_version: copy_opt(&p.raw_version),
            url: Some(p.url.as_str().to_owned()),
            checksum: copy_opt(&p.checksum),
            requires: copy_strings(&p.requires),
            system_requirements: copy_opt(&p.system_requirements),
        };
        let ghost before = packages@;
        proof {
            assert(p@ == resolved_view(name@, infos[name@]));
            assert(want[i as int] == locked(name@, infos[name@]));
            assert(one@ == want[i as int]);
        }
        packages.push(one);
        assert(view_each(packages@) == view_each(before).push(want[i as int]));
        i += 1;
        assert(view_each(packages@) == want.take(i as int));
    }
    assert(want.take(i as int) == want);
    packages
}

} // verus!

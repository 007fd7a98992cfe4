//! What resolving means: the steps from the dependencies of a project to one
//! version of every package that is needed.
use vstd::prelude::*;

use crate::error::{outcome, ErrorView, UvrError};
use crate::lockfile::LockedView;
use crate::registry::{DepView, PackageInfo, PackageInfoView};
use crate::resolver::graph::{install_order, with_edge, with_node, Needs};
use crate::resolver::requirement::{admits, requirement};
use crate::text::{lower, opt_str};
use crate::text_map::in_order;
use crate::version::version_text;

verus! {

/// A source of packages.
pub trait PackageRegistry {
    /// What the registry says of the package `name` under a requirement.
    spec fn answer(&self, name: Seq<char>, constraint: Option<Seq<char>>) -> Result<PackageInfoView, ErrorView>;

    /// Everything that the packages of the registry need.
    spec fn needed(&self) -> Set<DepView>;

    /// A registry is finite.
    proof fn needed_is_finite(&self)
        ensures
            self.needed().finite(),
            forall|name: Seq<char>, constraint: Option<Seq<char>>, i: int|
                (self.answer(name, constraint) matches Ok(info) && 0 <= i < info.requires.len())
                    ==> self.needed().contains(#[trigger] self.answer(name, constraint)->Ok_0.requires[i]),
    ;

    /// The best package of the given name that satisfies the requirement.
    fn resolve_package(&self, name: &str, constraint: Option<&str>) -> (r: Result<PackageInfo, UvrError>)
        ensures
            outcome(r) == self.answer(name@, opt_str(constraint)),
    ;
}

/// The packages that come with R, and R itself.
pub open spec fn is_base(name: Seq<char>) -> bool {
    let n = lower(name);
    ||| n == "r"@
    ||| n == "base"@
    ||| n == "compiler"@
    ||| n == "datasets"@
    ||| n == "grdevices"@
    ||| n == "graphics"@
    ||| n == "grid"@
    ||| n == "methods"@
    ||| n == "parallel"@
    ||| n == "splines"@
    ||| n == "stats"@
    ||| n == "stats4"@
    ||| n == "tcltk"@
    ||| n == "tools"@
    ||| n == "utils"@
}

/// A requirement that says something: neither absent nor empty nor `*`.
pub open spec fn is_real(constraint: Option<Seq<char>>) -> bool {
    constraint matches Some(c) && c.len() > 0 && c != "*"@
}

/// The state of the search.
pub struct Search {
    /// What is still to be looked at, in order.
    pub pending: Seq<DepView>,
    /// The packages that have been chosen.
    pub chosen: Map<Seq<char>, PackageInfoView>,
    /// The requirements met so far on each package.
    pub seen: Map<Seq<char>, Seq<Seq<char>>>,
    /// The packages that have been put into the queue.
    pub queued: Set<Seq<char>>,
    /// Which package needs which.
    pub graph: Needs,
}

/// The requirements met so far on `name`.
pub open spec fn seen_of(seen: Map<Seq<char>, Seq<Seq<char>>>, name: Seq<char>) -> Seq<Seq<char>> {
    if seen.contains_key(name) {
        seen[name]
    } else {
        seq![]
    }
}

/// The requirements with that of `d` noted, each once.
pub open spec fn noted(seen: Map<Seq<char>, Seq<Seq<char>>>, d: DepView) -> Map<Seq<char>, Seq<Seq<char>>> {
    if !is_real(d.constraint) || seen_of(seen, d.name).contains(d.constraint->0) {
        seen
    } else {
        seen.insert(d.name, seen_of(seen, d.name).push(d.constraint->0))
    }
}

/// The requirement can be read and admits the version.
pub open spec fn meets(constraint: Seq<char>, v: crate::version::VersionView) -> bool {
    requirement(constraint) matches Ok(req) && admits(req, v)
}

/// The version meets all the requirements.
pub open spec fn meets_all(constraints: Seq<Seq<char>>, v: crate::version::VersionView) -> bool {
    forall|i: int| 0 <= i < constraints.len() ==> meets(#[trigger] constraints[i], v)
}

/// Those of the dependencies that do not come with R.
pub open spec fn non_base(deps: Seq<DepView>) -> Seq<DepView>
    decreases deps.len(),
{
    if deps.len() == 0 {
        seq![]
    } else if is_base(deps.last().name) {
        non_base(deps.drop_last())
    } else {
        non_base(deps.drop_last()).push(deps.last())
    }
}

/// The queue of the search.
pub struct Queue {
    pub pending: Seq<DepView>,
    pub queued: Set<Seq<char>>,
}

/// The queue after a dependency of a newly chosen package: a package that is new is
/// queued, and a requirement on one that is not is queued to be checked.
pub open spec fn enqueue(q: Queue, chosen: Set<Seq<char>>, d: DepView) -> Queue {
    if is_base(d.name) {
        q
    } else if chosen.contains(d.name) || q.queued.contains(d.name) {
        if d.constraint is Some {
            Queue { pending: q.pending.push(d), queued: q.queued }
        } else {
            q
        }
    } else {
        Queue { pending: q.pending.push(d), queued: q.queued.insert(d.name) }
    }
}

/// The queue after all the dependencies of a newly chosen package.
pub open spec fn enqueue_all(q: Queue, chosen: Set<Seq<char>>, deps: Seq<DepView>) -> Queue
    decreases deps.len(),
{
    if deps.len() == 0 {
        q
    } else {
        enqueue(enqueue_all(q, chosen, deps.drop_last()), chosen, deps.last())
    }
}

/// The graph with a newly chosen package and what it needs.
pub open spec fn linked(g: Needs, name: Seq<char>, deps: Seq<DepView>) -> Needs
    decreases deps.len(),
{
    if deps.len() == 0 {
        with_node(g, name)
    } else if is_base(deps.last().name) {
        linked(g, name, deps.drop_last())
    } else {
        with_edge(linked(g, name, deps.drop_last()), name, deps.last().name)
    }
}

/// The search after a package has been chosen for the first time.
pub open spec fn first_choice(s: Search, d: DepView, info: PackageInfoView) -> Search {
    let q = enqueue_all(
        Queue { pending: s.pending.drop_first(), queued: s.queued },
        s.chosen.dom(),
        info.requires,
    );
    Search {
        pending: q.pending,
        chosen: s.chosen.insert(d.name, info),
        seen: noted(s.seen, d),
        queued: q.queued,
        graph: linked(s.graph, d.name, info.requires),
    }
}

/// The search after another version has been chosen.
pub open spec fn second_choice(s: Search, d: DepView, info: PackageInfoView) -> Search {
    Search {
        pending: s.pending.drop_first() + non_base(info.requires),
        chosen: s.chosen.insert(d.name, info),
        seen: noted(s.seen, d),
        queued: s.queued,
        graph: s.graph,
    }
}

/// One step of the search, on the first of what is pending.
///
/// What comes with R is passed over. A package that has not been chosen yet is
/// chosen as the registry says. One that has is kept if it meets the requirement;
/// else the registry is asked again, and its answer replaces the choice if it meets
/// all the requirements met so far.
pub open spec fn step<R: PackageRegistry>(reg: R, s: Search) -> Result<Search, ErrorView> {
    let d = s.pending[0];
    let seen = noted(s.seen, d);
    if is_base(d.name) {
        Ok(Search { pending: s.pending.drop_first(), ..s })
    } else if s.chosen.contains_key(d.name) {
        if !is_real(d.constraint) {
            Ok(Search { pending: s.pending.drop_first(), ..s })
        } else {
            match requirement(d.constraint->0) {
                Err(e) => Err(e),
                Ok(req) => if admits(req, s.chosen[d.name].version) {
                    Ok(Search { pending: s.pending.drop_first(), seen, ..s })
                } else {
                    let conflict = ErrorView::VersionConflict {
                        package: d.name,
                        required: d.constraint->0,
                        conflicting: version_text(s.chosen[d.name].version),
                    };
                    match reg.answer(d.name, d.constraint) {
                        Ok(info) => if meets_all(seen_of(seen, d.name), info.version) {
                            Ok(second_choice(s, d, info))
                        } else {
                            Err(conflict)
                        },
                        Err(_) => Err(conflict),
                    }
                },
            }
        }
    } else {
        match reg.answer(d.name, d.constraint) {
            Ok(info) => Ok(first_choice(s, d, info)),
            Err(e) => Err(e),
        }
    }
}

/// What the search comes to within `steps` steps, if it ends.
pub open spec fn run<R: PackageRegistry>(reg: R, s: Search, steps: nat) -> Option<Result<Search, ErrorView>>
    decreases steps,
{
    if s.pending.len() == 0 {
        Some(Ok(s))
    } else if steps == 0 {
        None
    } else {
        match step(reg, s) {
            Ok(t) => run(reg, t, (steps - 1) as nat),
            Err(e) => Some(Err(e)),
        }
    }
}

/// What the search comes to.
pub open spec fn search_end<R: PackageRegistry>(reg: R, s: Search) -> Result<Search, ErrorView> {
    run(reg, s, choose|steps: nat| #[trigger] run(reg, s, steps) is Some)->0
}

/// The requirements that the project itself makes.
pub open spec fn first_seen(seeds: Seq<DepView>) -> Map<Seq<char>, Seq<Seq<char>>>
    decreases seeds.len(),
{
    if seeds.len() == 0 {
        Map::empty()
    } else {
        noted(first_seen(seeds.drop_last()), seeds.last())
    }
}

/// The names of the dependencies.
pub open spec fn dep_names(deps: Seq<DepView>) -> Seq<Seq<char>> {
    deps.map_values(|d: DepView| d.name)
}

/// The start of the search.
pub open spec fn search_start(seeds: Seq<DepView>) -> Search {
    Search {
        pending: seeds,
        chosen: Map::empty(),
        seen: first_seen(seeds),
        queued: dep_names(seeds).to_set(),
        graph: Map::empty(),
    }
}

/// The entry of the lock file for a chosen package.
pub open spec fn locked(name: Seq<char>, info: PackageInfoView) -> LockedView {
    LockedView {
        name,
        version: version_text(info.version),
        source: info.source,
        raw_version: info.raw_version,
        url: Some(info.url),
        checksum: info.checksum,
        requires: dep_names(info.requires),
        system_requirements: info.system_requirements,
    }
}

/// The entries of the lock file in the order of names.
pub open spec fn locked_all(chosen: Map<Seq<char>, PackageInfoView>) -> Seq<LockedView> {
    in_order(chosen.dom()).map_values(|n: Seq<char>| locked(n, chosen[n]))
}

/// The packages of the lock file, from the end of the search. A cycle among what
/// the chosen packages need is an error.
pub open spec fn finished(end: Result<Search, ErrorView>) -> Result<Seq<LockedView>, ErrorView> {
    match end {
        Err(e) => Err(e),
        Ok(s) => match install_order(s.graph) {
            Err(e) => Err(e),
            Ok(_) => Ok(locked_all(s.chosen)),
        },
    }
}

/// The packages that are locked for the given dependencies.
pub open spec fn resolution<R: PackageRegistry>(reg: R, seeds: Seq<DepView>) -> Result<Seq<LockedView>, ErrorView> {
    finished(search_end(reg, search_start(seeds)))
}

// ---------------------------------------------------------------------------
// The search ends
// ---------------------------------------------------------------------------

/// All that the search can come across.
pub open spec fn universe<R: PackageRegistry>(reg: R, seeds: Seq<DepView>) -> Set<DepView> {
    reg.needed().union(seeds.to_set())
}

/// All that is pending is in `all`.
pub open spec fn within(s: Search, all: Set<DepView>) -> bool {
    forall|i: int| 0 <= i < s.pending.len() ==> all.contains(#[trigger] s.pending[i])
}

/// The dependencies on packages that have not been chosen.
pub open spec fn open_deps(s: Search, all: Set<DepView>) -> Set<DepView> {
    all.filter(|d: DepView| !s.chosen.contains_key(d.name))
}

/// The requirement of `d` is noted, and what has been chosen meets it.
pub open spec fn is_settled(s: Search, d: DepView) -> bool {
    &&& s.chosen.contains_key(d.name)
    &&& d.constraint is Some
    &&& seen_of(s.seen, d.name).contains(d.constraint->0)
    &&& meets(d.constraint->0, s.chosen[d.name].version)
}

/// The dependencies that are not settled.
pub open spec fn unsettled(s: Search, all: Set<DepView>) -> Set<DepView> {
    all.filter(|d: DepView| !is_settled(s, d))
}

proof fn lemma_non_base_within(deps: Seq<DepView>, all: Set<DepView>)
    requires
        forall|i: int| 0 <= i < deps.len() ==> all.contains(#[trigger] deps[i]),
    ensures
        forall|i: int| 0 <= i < non_base(deps).len() ==> all.contains(#[trigger] non_base(deps)[i]),
    decreases deps.len(),
{
    if deps.len() > 0 {
        lemma_non_base_within(deps.drop_last(), all);
        assert(all.contains(deps[deps.len() - 1]));
        let front = non_base(deps.drop_last());
        assert forall|i: int| 0 <= i < non_base(deps).len() implies all.contains(#[trigger] non_base(deps)[i]) by {
            if i < front.len() {
                assert(all.contains(front[i]));
            }
        }
    }
}

proof fn lemma_enqueue_all_within(q: Queue, chosen: Set<Seq<char>>, deps: Seq<DepView>, all: Set<DepView>)
    requires
        forall|i: int| 0 <= i < deps.len() ==> all.contains(#[trigger] deps[i]),
        forall|i: int| 0 <= i < q.pending.len() ==> all.contains(#[trigger] q.pending[i]),
    ensures
        forall|i: int|
            0 <= i < enqueue_all(q, chosen, deps).pending.len() ==> all.contains(
                #[trigger] enqueue_all(q, chosen, deps).pending[i],
            ),
    decreases deps.len(),
{
    if deps.len() > 0 {
        lemma_enqueue_all_within(q, chosen, deps.drop_last(), all);
        assert(all.contains(deps[deps.len() - 1]));
        let front = enqueue_all(q, chosen, deps.drop_last()).pending;
        let back = enqueue_all(q, chosen, deps).pending;
        assert forall|i: int| 0 <= i < back.len() implies all.contains(#[trigger] back[i]) by {
            if i < front.len() {
                assert(all.contains(front[i]));
            }
        }
    }
}

/// A step keeps within `all`, and brings the end nearer: there are fewer packages
/// to choose, or as many and fewer dependencies to settle, or as many of both and
/// less is pending.
pub proof fn step_brings_end_nearer<R: PackageRegistry>(reg: R, s: Search, all: Set<DepView>)
    requires
        all.finite(),
        reg.needed().subset_of(all),
        within(s, all),
        s.pending.len() > 0,
        step(reg, s) is Ok,
    ensures
        within(step(reg, s)->Ok_0, all),
        ({
            let t = step(reg, s)->Ok_0;
            decreases_to!(open_deps(s, all).len(), unsettled(s, all).len(), s.pending.len()
                => open_deps(t, all).len(), unsettled(t, all).len(), t.pending.len())
        }),
{
    reg.needed_is_finite();
    let t = step(reg, s)->Ok_0;
    let d = s.pending[0];
    assert(all.contains(d));
    let od = open_deps(s, all);
    let nd = open_deps(t, all);
    let ou = unsettled(s, all);
    let nu = unsettled(t, all);
    if is_base(d.name) || (s.chosen.contains_key(d.name) && !is_real(d.constraint)) {
        assert(nd =~= od);
        assert(nu =~= ou);
    } else if s.chosen.contains_key(d.name) {
        if admits(requirement(d.constraint->0)->Ok_0, s.chosen[d.name].version) {
            assert(nd =~= od);
            assert forall|e: DepView| nu.contains(e) implies ou.contains(e) by {
                if is_settled(s, e) {
                    lemma_noted_keeps(s.seen, d, e.name, e.constraint->0);
                }
            }
            assert(nu.subset_of(ou));
            vstd::set_lib::lemma_len_subset(nu, ou);
        } else {
            let info = reg.answer(d.name, d.constraint)->Ok_0;
            assert forall|i: int| 0 <= i < info.requires.len() implies all.contains(#[trigger] info.requires[i]) by {
                assert(reg.needed().contains(reg.answer(d.name, d.constraint)->Ok_0.requires[i]));
            }
            lemma_non_base_within(info.requires, all);
            assert(nd =~= od);
            assert forall|e: DepView| nu.contains(e) implies ou.contains(e) by {
                if is_settled(s, e) {
                    lemma_noted_keeps(s.seen, d, e.name, e.constraint->0);
                    if e.name == d.name {
                        let cs = seen_of(t.seen, e.name);
                        let k = cs.index_of(e.constraint->0);
                        assert(meets(cs[k], info.version));
                    }
                }
            }
            assert(ou.contains(d));
            assert(!nu.contains(d)) by {
                lemma_noted_has(s.seen, d);
                let cs = seen_of(t.seen, d.name);
                let k = cs.index_of(d.constraint->0);
                assert(meets(cs[k], info.version));
            }
            assert(nu.subset_of(ou.remove(d)));
            vstd::set_lib::lemma_len_subset(nu, ou.remove(d));
        }
    } else {
        let info = reg.answer(d.name, d.constraint)->Ok_0;
        assert forall|i: int| 0 <= i < info.requires.len() implies all.contains(#[trigger] info.requires[i]) by {
            assert(reg.needed().contains(reg.answer(d.name, d.constraint)->Ok_0.requires[i]));
        }
        lemma_enqueue_all_within(
            Queue { pending: s.pending.drop_first(), queued: s.queued },
            s.chosen.dom(),
            info.requires,
            all,
        );
        assert(od.contains(d));
        assert(nd.subset_of(od.remove(d)));
        vstd::set_lib::lemma_len_subset(nd, od.remove(d));
    }
}

proof fn lemma_noted_keeps(seen: Map<Seq<char>, Seq<Seq<char>>>, d: DepView, name: Seq<char>, c: Seq<char>)
    requires
        seen_of(seen, name).contains(c),
    ensures
        seen_of(noted(seen, d), name).contains(c),
{
    let k = seen_of(seen, name).index_of(c);
    assert(seen_of(noted(seen, d), name)[k] == c);
}

proof fn lemma_noted_has(seen: Map<Seq<char>, Seq<Seq<char>>>, d: DepView)
    requires
        is_real(d.constraint),
    ensures
        seen_of(noted(seen, d), d.name).contains(d.constraint->0),
{
    if !seen_of(seen, d.name).contains(d.constraint->0) {
        let n = seen_of(seen, d.name).len() as int;
        assert(seen_of(noted(seen, d), d.name)[n] == d.constraint->0);
    }
}

/// The search ends.
pub proof fn search_ends<R: PackageRegistry>(reg: R, s: Search, all: Set<DepView>)
    requires
        all.finite(),
        reg.needed().subset_of(all),
        within(s, all),
    ensures
        exists|steps: nat| #[trigger] run(reg, s, steps) is Some,
    decreases open_deps(s, all).len(), unsettled(s, all).len(), s.pending.len(),
{
    if s.pending.len() == 0 {
        assert(run(reg, s, 0) is Some);
    } else {
        match step(reg, s) {
            Err(e) => {
                assert(run(reg, s, 1) is Some);
            },
            Ok(t) => {
                step_brings_end_nearer(reg, s, all);
                search_ends(reg, t, all);
                let steps = choose|steps: nat| #[trigger] run(reg, t, steps) is Some;
                assert(run(reg, s, steps + 1) is Some);
            },
        }
    }
}

proof fn lemma_run_agrees<R: PackageRegistry>(reg: R, s: Search, a: nat, b: nat)
    requires
        run(reg, s, a) is Some,
        run(reg, s, b) is Some,
    ensures
        run(reg, s, a) == run(reg, s, b),
    decreases a,
{
    if s.pending.len() > 0 && a > 0 && b > 0 {
        if let Ok(t) = step(reg, s) {
            lemma_run_agrees(reg, t, (a - 1) as nat, (b - 1) as nat);
        }
    }
}

/// The end of the search does not change with a step.
pub proof fn search_end_unfolds<R: PackageRegistry>(reg: R, s: Search, all: Set<DepView>)
    requires
        all.finite(),
        reg.needed().subset_of(all),
        within(s, all),
    ensures
        search_end(reg, s) == (if s.pending.len() == 0 {
            Ok(s)
        } else {
            match step(reg, s) {
                Ok(t) => search_end(reg, t),
                Err(e) => Err(e),
            }
        }),
{
    search_ends(reg, s, all);
    let n = choose|steps: nat| #[trigger] run(reg, s, steps) is Some;
    if s.pending.len() > 0 {
        if let Ok(t) = step(reg, s) {
            step_brings_end_nearer(reg, s, all);
            search_ends(reg, t, all);
            let m = choose|steps: nat| #[trigger] run(reg, t, steps) is Some;
            lemma_run_agrees(reg, t, (n - 1) as nat, m);
        }
    }
}

} // verus!

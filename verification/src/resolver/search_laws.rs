//! Where what is chosen comes from, and how conflicts are settled.
use vstd::prelude::*;

use super::graph::{
    closed_graph, install_order_exists_without_cycles, is_cycle, needs, with_edge, with_node, Needs,
};
use super::requirement::{admits, requirement};
use super::solve::{
    enqueue_all, finished, is_base, is_real, linked, locked, locked_all, meets, meets_all, non_base,
    noted, resolution, run, search_end, search_ends, search_start, seen_of, step, universe, within,
    PackageRegistry, Queue, Search,
};
use super::{lockfile_for, pinned_r, seeds};
use crate::error::ErrorView;
use crate::lockfile::LockedView;
use crate::manifest::{spec_version_req, ManifestView};
use crate::registry::{DepView, PackageInfoView};
use crate::text_map::{in_order, in_order_holds};
use crate::version::version_text;

verus! {

/// Something asks for the package: the project, or a package that the registry offers.
pub open spec fn is_asked_for<R: PackageRegistry>(reg: R, deps: Seq<DepView>, name: Seq<char>) -> bool {
    (exists|i: int| 0 <= i < deps.len() && (#[trigger] deps[i]).name == name) || (exists|m: Seq<char>, c: Option<Seq<char>>, i: int|
        #![trigger reg.answer(m, c)->Ok_0.requires[i]]
        reg.answer(m, c) is Ok && 0 <= i < reg.answer(m, c)->Ok_0.requires.len() && reg.answer(m, c)->Ok_0.requires[i].name == name)
}

spec fn is_sound<R: PackageRegistry>(reg: R, deps: Seq<DepView>, s: Search) -> bool {
    &&& forall|i: int| 0 <= i < s.pending.len() ==> is_asked_for(reg, deps, (#[trigger] s.pending[i]).name)
    &&& forall|n: Seq<char>| #[trigger]
        s.chosen.contains_key(n) ==> is_asked_for(reg, deps, n) && exists|c: Option<Seq<char>>|
            #[trigger] reg.answer(n, c) == Ok::<PackageInfoView, ErrorView>(s.chosen[n])
}

proof fn lemma_enqueue_sound<R: PackageRegistry>(
    reg: R,
    deps: Seq<DepView>,
    q: Queue,
    chosen: Set<Seq<char>>,
    m: Seq<char>,
    c: Option<Seq<char>>,
    wanted: Seq<DepView>,
)
    requires
        reg.answer(m, c) is Ok,
        wanted.len() <= reg.answer(m, c)->Ok_0.requires.len(),
        wanted == reg.answer(m, c)->Ok_0.requires.take(wanted.len() as int),
        forall|i: int| 0 <= i < q.pending.len() ==> is_asked_for(reg, deps, (#[trigger] q.pending[i]).name),
    ensures
        ({
            let r = enqueue_all(q, chosen, wanted);
            forall|i: int| 0 <= i < r.pending.len() ==> is_asked_for(reg, deps, (#[trigger] r.pending[i]).name)
        }),
    decreases wanted.len(),
{
    if wanted.len() > 0 {
        let all = reg.answer(m, c)->Ok_0.requires;
        let front = wanted.drop_last();
        assert(front == all.take(front.len() as int));
        lemma_enqueue_sound(reg, deps, q, chosen, m, c, front);
        let before = enqueue_all(q, chosen, front);
        let d = wanted.last();
        assert(d == all[wanted.len() - 1]);
        assert(reg.answer(m, c)->Ok_0.requires[wanted.len() - 1].name == d.name);
        assert(is_asked_for(reg, deps, d.name));
        let r = enqueue_all(q, chosen, wanted);
        assert forall|i: int| 0 <= i < r.pending.len() implies is_asked_for(reg, deps, (#[trigger] r.pending[i]).name) by {
            if i < before.pending.len() {
                assert(r.pending[i] == before.pending[i]);
            }
        }
    }
}

proof fn lemma_non_base_members(deps: Seq<DepView>, i: int)
    requires
        0 <= i < non_base(deps).len(),
    ensures
        deps.contains(non_base(deps)[i]),
    decreases deps.len(),
{
    if deps.len() > 0 {
        let front = deps.drop_last();
        if i < non_base(front).len() {
            lemma_non_base_members(front, i);
            let x = non_base(front)[i];
            let k = choose|k: int| 0 <= k < front.len() && front[k] == x;
            assert(deps[k] == x);
        } else {
            assert(deps[deps.len() - 1] == deps.last());
        }
    }
}

#[verifier::rlimit(40)]
proof fn lemma_step_sound<R: PackageRegistry>(reg: R, deps: Seq<DepView>, s: Search)
    requires
        s.pending.len() > 0,
        is_sound(reg, deps, s),
        step(reg, s) is Ok,
    ensures
        is_sound(reg, deps, step(reg, s)->Ok_0),
{
    let d = s.pending[0];
    let t = step(reg, s)->Ok_0;
    let rest = s.pending.drop_first();
    assert forall|i: int| 0 <= i < rest.len() implies is_asked_for(reg, deps, (#[trigger] rest[i]).name) by {
        assert(rest[i] == s.pending[i + 1]);
    }
    assert(is_asked_for(reg, deps, d.name));
    if is_base(d.name) {
    } else if s.chosen.contains_key(d.name) {
        if is_real(d.constraint) && !admits(requirement(d.constraint->0)->Ok_0, s.chosen[d.name].version) {
            let info = reg.answer(d.name, d.constraint)->Ok_0;
            assert(t.chosen == s.chosen.insert(d.name, info));
            assert(t.pending == rest + non_base(info.requires));
            assert forall|i: int| 0 <= i < t.pending.len() implies is_asked_for(reg, deps, (#[trigger] t.pending[i]).name) by {
                if i < rest.len() {
                    assert(t.pending[i] == rest[i]);
                } else {
                    let k = i - rest.len();
                    lemma_non_base_members(info.requires, k);
                    let x = non_base(info.requires)[k];
                    let j = choose|j: int| 0 <= j < info.requires.len() && info.requires[j] == x;
                    assert(reg.answer(d.name, d.constraint)->Ok_0.requires[j].name == x.name);
                }
            }
            assert(reg.answer(d.name, d.constraint) == Ok::<PackageInfoView, ErrorView>(t.chosen[d.name]));
        }
    } else {
        let info = reg.answer(d.name, d.constraint)->Ok_0;
        assert(info.requires == info.requires.take(info.requires.len() as int));
        lemma_enqueue_sound(
            reg,
            deps,
            Queue { pending: rest, queued: s.queued },
            s.chosen.dom(),
            d.name,
            d.constraint,
            info.requires,
        );
        assert(reg.answer(d.name, d.constraint) == Ok::<PackageInfoView, ErrorView>(t.chosen[d.name]));
    }
}

proof fn lemma_run_sound<R: PackageRegistry>(reg: R, deps: Seq<DepView>, s: Search, steps: nat)
    requires
        is_sound(reg, deps, s),
    ensures
        run(reg, s, steps) matches Some(Ok(t)) ==> is_sound(reg, deps, t) && t.pending.len() == 0,
    decreases steps,
{
    if s.pending.len() > 0 && steps > 0 {
        if let Ok(t) = step(reg, s) {
            lemma_step_sound(reg, deps, s);
            lemma_run_sound(reg, deps, t, (steps - 1) as nat);
        }
    }
}

proof fn lemma_end_sound<R: PackageRegistry>(reg: R, deps: Seq<DepView>)
    ensures
        search_end(reg, search_start(deps)) matches Ok(t) ==> is_sound(reg, deps, t),
{
    let s = search_start(deps);
    let all = universe(reg, deps);
    reg.needed_is_finite();
    assert(within(s, all)) by {
        assert forall|i: int| 0 <= i < s.pending.len() implies all.contains(#[trigger] s.pending[i]) by {
            assert(deps.contains(deps[i]));
        }
    }
    search_ends(reg, s, all);
    let steps = choose|steps: nat| #[trigger] run(reg, s, steps) is Some;
    lemma_run_sound(reg, deps, s, steps);
}

/// Every package of a lock file is asked for by the project or by a package that the
/// registry offers, and it is what the registry answered: its version, where it comes from
/// and lies, its checksum, and what it needs.
pub proof fn lock_file_says_what_the_registry_says<R: PackageRegistry>(reg: R, deps: Seq<DepView>, i: int) -> (r: (
    Option<Seq<char>>,
    PackageInfoView,
))
    requires
        resolution(reg, deps) is Ok,
        0 <= i < resolution(reg, deps)->Ok_0.len(),
    ensures
        ({
            let p = resolution(reg, deps)->Ok_0[i];
            let info = r.1;
            &&& is_asked_for(reg, deps, p.name)
            &&& reg.answer(p.name, r.0) == Ok::<PackageInfoView, ErrorView>(info)
            &&& p.version == version_text(info.version)
            &&& p.source == info.source
            &&& p.url == Some(info.url)
            &&& p.checksum == info.checksum
            &&& p.raw_version == info.raw_version
            &&& p.system_requirements == info.system_requirements
            &&& p.requires.len() == info.requires.len()
            &&& forall|k: int| 0 <= k < info.requires.len() ==> #[trigger] p.requires[k] == info.requires[k].name
        }),
{
    lemma_end_sound(reg, deps);
    let t = search_end(reg, search_start(deps))->Ok_0;
    let keys = in_order(t.chosen.dom());
    let p = resolution(reg, deps)->Ok_0[i];
    assert(resolution(reg, deps)->Ok_0 == locked_all(t.chosen));
    let n = keys[i];
    assert(p == locked(n, t.chosen[n]));
    lemma_chosen_is_finite(reg, deps);
    in_order_holds(t.chosen.dom());
    assert(keys.to_set().contains(n));
    assert(t.chosen.contains_key(n));
    let c = choose|c: Option<Seq<char>>| #[trigger] reg.answer(n, c) == Ok::<PackageInfoView, ErrorView>(t.chosen[n]);
    (c, t.chosen[n])
}

proof fn lemma_run_finite<R: PackageRegistry>(reg: R, s: Search, steps: nat)
    requires
        s.chosen.dom().finite(),
    ensures
        run(reg, s, steps) matches Some(Ok(t)) ==> t.chosen.dom().finite(),
    decreases steps,
{
    if s.pending.len() > 0 && steps > 0 {
        if let Ok(t) = step(reg, s) {
            assert(t.chosen.dom().finite()) by {
                let d = s.pending[0];
                assert(t.chosen.dom().subset_of(s.chosen.dom().insert(d.name)));
                vstd::set_lib::lemma_len_subset(t.chosen.dom(), s.chosen.dom().insert(d.name));
            }
            lemma_run_finite(reg, t, (steps - 1) as nat);
        }
    }
}

proof fn lemma_chosen_is_finite<R: PackageRegistry>(reg: R, deps: Seq<DepView>)
    ensures
        search_end(reg, search_start(deps)) matches Ok(t) ==> t.chosen.dom().finite(),
{
    let s = search_start(deps);
    let all = universe(reg, deps);
    reg.needed_is_finite();
    assert(within(s, all)) by {
        assert forall|i: int| 0 <= i < s.pending.len() implies all.contains(#[trigger] s.pending[i]) by {
            assert(deps.contains(deps[i]));
        }
    }
    search_ends(reg, s, all);
    let steps = choose|steps: nat| #[trigger] run(reg, s, steps) is Some;
    lemma_run_finite(reg, s, steps);
}

/// A package that is new is chosen as the registry answers to the requirement on it, and if
/// it answers with an error the search ends with it.
pub proof fn new_packages_are_chosen<R: PackageRegistry>(reg: R, s: Search)
    requires
        s.pending.len() > 0,
        !is_base(s.pending[0].name),
        !s.chosen.contains_key(s.pending[0].name),
    ensures
        match reg.answer(s.pending[0].name, s.pending[0].constraint) {
            Ok(info) => step(reg, s) is Ok && step(reg, s)->Ok_0.chosen == s.chosen.insert(s.pending[0].name, info),
            Err(e) => step(reg, s) == Err::<Search, ErrorView>(e),
        },
{
}

/// A requirement that the chosen version meets, or that says nothing, changes no choice; so
/// does a package that comes with R.
pub proof fn met_requirements_change_nothing<R: PackageRegistry>(reg: R, s: Search)
    requires
        s.pending.len() > 0,
        is_base(s.pending[0].name) || (s.chosen.contains_key(s.pending[0].name) && (!is_real(s.pending[0].constraint) || meets(
            s.pending[0].constraint->0,
            s.chosen[s.pending[0].name].version,
        ))),
    ensures
        step(reg, s) is Ok,
        step(reg, s)->Ok_0.chosen == s.chosen,
        step(reg, s)->Ok_0.pending == s.pending.drop_first(),
        step(reg, s)->Ok_0.graph == s.graph,
{
}

/// A requirement that the chosen version does not meet is put to the registry: what it
/// answers is chosen instead if it meets all requirements met so far, and else there is a
/// conflict that names the package, the requirement and the version.
#[verifier::rlimit(40)]
pub proof fn conflicts_are_settled<R: PackageRegistry>(reg: R, s: Search, req: Seq<char>)
    requires
        s.pending.len() > 0,
        !is_base(s.pending[0].name),
        s.chosen.contains_key(s.pending[0].name),
        is_real(s.pending[0].constraint),
        requirement(s.pending[0].constraint->0) == Ok::<Seq<char>, ErrorView>(req),
        !admits(req, s.chosen[s.pending[0].name].version),
    ensures
        ({
            let d = s.pending[0];
            let answer = reg.answer(d.name, d.constraint);
            let settled = answer is Ok && meets(d.constraint->0, answer->Ok_0.version) && (forall|i: int|
                0 <= i < seen_of(s.seen, d.name).len() ==> meets(#[trigger] seen_of(s.seen, d.name)[i], answer->Ok_0.version));
            &&& settled ==> step(reg, s) is Ok && step(reg, s)->Ok_0.chosen == s.chosen.insert(d.name, answer->Ok_0)
            &&& !settled ==> step(reg, s) == Err::<Search, ErrorView>(
                ErrorView::VersionConflict {
                    package: d.name,
                    required: d.constraint->0,
                    conflicting: version_text(s.chosen[d.name].version),
                },
            )
        }),
{
    let d = s.pending[0];
    let c = d.constraint->0;
    let answer = reg.answer(d.name, d.constraint);
    let old_seen = seen_of(s.seen, d.name);
    let seen = seen_of(noted(s.seen, d), d.name);
    if answer is Ok {
        let v = answer->Ok_0.version;
        if old_seen.contains(c) {
            assert(seen == old_seen);
            let k = choose|k: int| 0 <= k < old_seen.len() && old_seen[k] == c;
            if meets_all(old_seen, v) {
                assert(meets(old_seen[k], v));
            }
        } else {
            assert(seen == old_seen.push(c));
            if meets_all(seen, v) {
                assert forall|i: int| 0 <= i < old_seen.len() implies meets(#[trigger] old_seen[i], v) by {
                    assert(meets(seen[i], v));
                }
                assert(meets(seen[old_seen.len() as int], v));
            }
            if meets(c, v) && (forall|i: int| 0 <= i < old_seen.len() ==> meets(#[trigger] old_seen[i], v)) {
                assert forall|i: int| 0 <= i < seen.len() implies meets(#[trigger] seen[i], v) by {
                    if i < old_seen.len() {
                        assert(meets(old_seen[i], v));
                    }
                }
            }
        }
    }
}

/// A requirement that cannot be read ends the search with what is wrong with it.
pub proof fn unreadable_requirements_are_errors<R: PackageRegistry>(reg: R, s: Search, e: ErrorView)
    requires
        s.pending.len() > 0,
        !is_base(s.pending[0].name),
        s.chosen.contains_key(s.pending[0].name),
        is_real(s.pending[0].constraint),
        requirement(s.pending[0].constraint->0) == Err::<Seq<char>, ErrorView>(e),
    ensures
        step(reg, s) == Err::<Search, ErrorView>(e),
{
}

/// A requirement says something unless it is absent, empty or a star.
pub proof fn requirements_that_say_something(c: Seq<char>)
    ensures
        !is_real(None),
        !is_real(Some(Seq::<char>::empty())),
        !is_real(Some("*"@)),
        c.len() > 0 && c != "*"@ ==> is_real(Some(c)),
{
}

/// Adding an edge to a graph adds that one need and no other, and both its ends.
pub proof fn edges_are_needs(g: Needs, from: Seq<char>, to: Seq<char>, u: Seq<char>, d: Seq<char>)
    ensures
        needs(with_edge(g, from, to), u, d) <==> needs(g, u, d) || (u == from && d == to),
        needs(with_node(g, from), u, d) <==> needs(g, u, d),
        with_edge(g, from, to).dom() == g.dom().insert(from).insert(to),
        with_node(g, from).dom() == g.dom().insert(from),
{
    let h = with_node(with_node(g, from), to);
    assert(with_node(g, from).dom() =~= g.dom().insert(from));
    assert(with_edge(g, from, to).dom() =~= g.dom().insert(from).insert(to));
    let before = h[from];
    let after = before.push(to);
    if before.contains(d) {
        let i = choose|i: int| 0 <= i < before.len() && before[i] == d;
        assert(after[i] == d);
    }
    assert(after[before.len() as int] == to);
    if after.contains(d) && d != to {
        let i = choose|i: int| 0 <= i < after.len() && after[i] == d;
        assert(before[i] == d);
    }
}

/// A package that is chosen first is noted with all that it needs but what comes with R.
pub proof fn needs_are_noted(g: Needs, name: Seq<char>, deps: Seq<DepView>, u: Seq<char>, d: Seq<char>)
    ensures
        needs(linked(g, name, deps), u, d) <==> needs(g, u, d) || (u == name && !is_base(d) && exists|i: int|
            0 <= i < deps.len() && (#[trigger] deps[i]).name == d),
    decreases deps.len(),
{
    if deps.len() == 0 {
        edges_are_needs(g, name, name, u, d);
    } else {
        let front = deps.drop_last();
        let x = deps.last();
        needs_are_noted(g, name, front, u, d);
        assert(deps[deps.len() - 1] == x);
        if exists|i: int| 0 <= i < front.len() && (#[trigger] front[i]).name == d {
            let i = choose|i: int| 0 <= i < front.len() && (#[trigger] front[i]).name == d;
            assert(deps[i].name == d);
        }
        if exists|i: int| 0 <= i < deps.len() && (#[trigger] deps[i]).name == d {
            let i = choose|i: int| 0 <= i < deps.len() && (#[trigger] deps[i]).name == d;
            if i < front.len() {
                assert(front[i].name == d);
            }
        }
        if !is_base(x.name) {
            edges_are_needs(linked(g, name, front), name, x.name, u, d);
        }
    }
}

/// Packages that need each other in a circle are refused, and others are not.
pub proof fn circles_are_refused(s: Search)
    requires
        s.graph.dom().finite(),
        closed_graph(s.graph),
    ensures
        finished(Ok(s)) is Ok <==> forall|path: Seq<Seq<char>>| !#[trigger] is_cycle(s.graph, path),
        finished(Ok(s)) is Err ==> finished(Ok(s))->Err_0 is CircularDependency,
{
    install_order_exists_without_cycles(s.graph);
}

/// The search starts with the dependencies of the project, each with the requirement that
/// the manifest states; those for development alone are left out.
pub proof fn search_starts_with_the_manifest(m: ManifestView, n: Seq<char>, c: Option<Seq<char>>)
    requires
        m.dependencies.dom().finite(),
    ensures
        seeds(m).contains(DepView { name: n, constraint: c }) <==> m.dependencies.contains_key(n) && c == spec_version_req(
            m.dependencies[n],
        ),
        forall|x: ManifestView| x.dependencies == m.dependencies ==> #[trigger] seeds(x) == seeds(m),
{
    let keys = in_order(m.dependencies.dom());
    in_order_holds(m.dependencies.dom());
    let d = DepView { name: n, constraint: c };
    let s = seeds(m);
    if s.contains(d) {
        let i = choose|i: int| 0 <= i < s.len() && s[i] == d;
        assert(keys.to_set().contains(keys[i]));
    }
    if m.dependencies.contains_key(n) && c == spec_version_req(m.dependencies[n]) {
        assert(keys.to_set().contains(n));
        let i = choose|i: int| 0 <= i < keys.len() && keys[i] == n;
        assert(s[i] == d);
    }
    assert forall|x: ManifestView| x.dependencies == m.dependencies implies #[trigger] seeds(x) == seeds(m) by {
        assert(seeds(x) =~= seeds(m));
    }
}

/// A lock file names the R that is there, or else the one that the project asks for, or
/// else any; and it has the packages that were found, or there is none.
pub proof fn lock_file_of_a_project<R: PackageRegistry>(reg: R, m: ManifestView, actual: Seq<char>)
    ensures
        pinned_r(m, Some(actual)) == actual,
        m.r_version matches Some(v) ==> pinned_r(m, None) == v,
        m.r_version is None ==> pinned_r(m, None) == "*"@,
        lockfile_for(reg, m, Some(actual)) is Ok <==> resolution(reg, seeds(m)) is Ok,
        lockfile_for(reg, m, Some(actual)) matches Ok(l) ==> l.packages == resolution(reg, seeds(m))->Ok_0 && l.r_version == actual
            && l.bioc_version is None,
        lockfile_for(reg, m, Some(actual)) matches Err(e) ==> resolution(reg, seeds(m)) == Err::<Seq<LockedView>, ErrorView>(e),
{
}

} // verus!

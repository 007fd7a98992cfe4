//! What holds of every resolution.
use vstd::prelude::*;

use crate::lockfile::LockedView;
use crate::registry::DepView;
use crate::resolver::requirement::{admits, requirement};
use crate::resolver::solve::{dep_names, enqueue, enqueue_all, first_seen, is_base, is_real, locked_all, meets,
    meets_all, non_base, noted, resolution, run, search_end, search_ends, search_start, seen_of, step, universe, within,
    PackageRegistry, Queue, Search};
use crate::text_map::{ascending, in_order, in_order_holds};

verus! {

/// What the registry offers under a requirement meets it.
pub open spec fn is_honest<R: PackageRegistry>(reg: R) -> bool {
    forall|name: Seq<char>, c: Seq<char>|
        is_real(Some(c)) && (#[trigger] reg.answer(name, Some(c))) is Ok ==> meets(
            c,
            reg.answer(name, Some(c))->Ok_0.version,
        )
}

/// No two dependencies have the same name.
pub open spec fn distinct(deps: Seq<DepView>) -> bool {
    dep_names(deps).no_duplicates()
}

/// Something of the given name is pending.
spec fn awaits(pending: Seq<DepView>, name: Seq<char>) -> bool {
    exists|i: int| 0 <= i < pending.len() && (#[trigger] pending[i]).name == name
}

/// The first of the given name that is pending carries the requirement `c`.
spec fn awaits_first(pending: Seq<DepView>, name: Seq<char>, c: Seq<char>) -> bool {
    exists|i: int|
        0 <= i < pending.len() && (#[trigger] pending[i]).name == name && pending[i].constraint == Some(c) && forall|j: int|
            0 <= j < i ==> (#[trigger] pending[j]).name != name
}

/// The dependency is chosen or pending, and so is its requirement.
spec fn is_kept(s: Search, d: DepView) -> bool {
    is_base(d.name) || {
        &&& s.chosen.contains_key(d.name) || awaits(s.pending, d.name)
        &&& is_real(d.constraint) ==> s.pending.contains(d) || (s.chosen.contains_key(d.name) && seen_of(
            s.seen,
            d.name,
        ).contains(d.constraint->0))
    }
}

/// What every state of the search keeps.
spec fn search_inv(seeds: Seq<DepView>, s: Search) -> bool {
    &&& forall|n: Seq<char>| #[trigger]
        s.queued.contains(n) && !is_base(n) ==> s.chosen.contains_key(n) || awaits(s.pending, n)
    &&& forall|n: Seq<char>| #[trigger] s.chosen.contains_key(n) ==> !is_base(n)
    &&& forall|i: int| 0 <= i < seeds.len() ==> is_kept(s, #[trigger] seeds[i])
    &&& forall|n: Seq<char>, i: int|
        s.chosen.contains_key(n) && 0 <= i < s.chosen[n].requires.len() ==> is_kept(
            s,
            #[trigger] s.chosen[n].requires[i],
        )
    &&& forall|n: Seq<char>, c: Seq<char>| #[trigger]
        seen_of(s.seen, n).contains(c) ==> is_real(Some(c)) && (s.chosen.contains_key(n) || is_base(n) || awaits_first(
            s.pending,
            n,
            c,
        ))
    &&& s.chosen.dom().finite()
}

/// What has been chosen meets the requirements met so far.
spec fn meets_seen(s: Search) -> bool {
    forall|n: Seq<char>| #[trigger] s.chosen.contains_key(n) ==> meets_all(seen_of(s.seen, n), s.chosen[n].version)
}

proof fn lemma_noted(seen: Map<Seq<char>, Seq<Seq<char>>>, d: DepView)
    ensures
        forall|n: Seq<char>, c: Seq<char>| #[trigger]
            seen_of(noted(seen, d), n).contains(c) <==> seen_of(seen, n).contains(c) || (n == d.name && is_real(
                d.constraint,
            ) && c == d.constraint->0),
{
    assert forall|n: Seq<char>, c: Seq<char>| #[trigger]
        seen_of(noted(seen, d), n).contains(c) <==> seen_of(seen, n).contains(c) || (n == d.name && is_real(d.constraint)
            && c == d.constraint->0) by {
        let a = seen_of(seen, n);
        let b = seen_of(noted(seen, d), n);
        if a.contains(c) {
            let k = a.index_of(c);
            assert(b[k] == c);
        }
        if n == d.name && is_real(d.constraint) && c == d.constraint->0 && !a.contains(c) {
            assert(b[a.len() as int] == c);
        }
        if b.contains(c) && !a.contains(c) {
            let k = b.index_of(c);
            if k < a.len() {
                assert(a[k] == c);
            }
        }
    }
}

proof fn lemma_first_seen(seeds: Seq<DepView>)
    ensures
        forall|n: Seq<char>, c: Seq<char>| #[trigger]
            seen_of(first_seen(seeds), n).contains(c) ==> is_real(Some(c)) && exists|i: int|
                0 <= i < seeds.len() && (#[trigger] seeds[i]).name == n && seeds[i].constraint == Some(c),
    decreases seeds.len(),
{
    if seeds.len() > 0 {
        lemma_first_seen(seeds.drop_last());
        lemma_noted(first_seen(seeds.drop_last()), seeds.last());
        assert forall|n: Seq<char>, c: Seq<char>| #[trigger]
            seen_of(first_seen(seeds), n).contains(c) implies is_real(Some(c)) && exists|i: int|
                0 <= i < seeds.len() && (#[trigger] seeds[i]).name == n && seeds[i].constraint == Some(c) by {
            if seen_of(first_seen(seeds.drop_last()), n).contains(c) {
                let i = choose|i: int|
                    0 <= i < seeds.drop_last().len() && (#[trigger] seeds.drop_last()[i]).name == n
                        && seeds.drop_last()[i].constraint == Some(c);
                assert(seeds[i].name == n && seeds[i].constraint == Some(c));
            } else {
                let i = seeds.len() - 1;
                assert(seeds[i].name == n && seeds[i].constraint == Some(c));
            }
        }
    }
}

proof fn lemma_start_inv(seeds: Seq<DepView>)
    requires
        distinct(seeds),
    ensures
        search_inv(seeds, search_start(seeds)),
        meets_seen(search_start(seeds)),
{
    let s = search_start(seeds);
    lemma_first_seen(seeds);
    assert forall|n: Seq<char>| #[trigger] s.queued.contains(n) && !is_base(n) implies awaits(s.pending, n) by {
        let k = dep_names(seeds).index_of(n);
        assert(seeds[k].name == n);
    }
    assert forall|i: int| 0 <= i < seeds.len() implies is_kept(s, #[trigger] seeds[i]) by {
        assert(s.pending[i].name == seeds[i].name);
        assert(s.pending.contains(seeds[i]));
    }
    assert forall|n: Seq<char>, c: Seq<char>| #[trigger] seen_of(s.seen, n).contains(c) implies is_real(Some(c))
        && awaits_first(s.pending, n, c) by {
        let i = choose|i: int| 0 <= i < seeds.len() && (#[trigger] seeds[i]).name == n && seeds[i].constraint == Some(c);
        assert forall|j: int| 0 <= j < i implies (#[trigger] seeds[j]).name != n by {
            assert(dep_names(seeds)[j] != dep_names(seeds)[i]);
        }
        assert(s.pending[i].name == n);
    }
    assert(s.chosen.dom() =~= Set::empty());
}

proof fn lemma_non_base(deps: Seq<DepView>)
    ensures
        forall|i: int| 0 <= i < deps.len() && !is_base((#[trigger] deps[i]).name) ==> non_base(deps).contains(deps[i]),
    decreases deps.len(),
{
    if deps.len() > 0 {
        let front = deps.drop_last();
        lemma_non_base(front);
        assert forall|i: int| 0 <= i < deps.len() && !is_base((#[trigger] deps[i]).name) implies non_base(deps).contains(
            deps[i],
        ) by {
            if i < front.len() {
                assert(front[i] == deps[i]);
                let k = non_base(front).index_of(deps[i]);
                assert(non_base(deps)[k] == deps[i]);
            } else {
                assert(non_base(deps)[non_base(front).len() as int] == deps[i]);
            }
        }
    }
}

/// The queue grows at its end; what is queued has been queued or is pending now,
/// and the dependencies are pending, chosen or queued.
proof fn lemma_enqueue_all(q: Queue, chosen: Set<Seq<char>>, deps: Seq<DepView>)
    ensures
        ({
            let r = enqueue_all(q, chosen, deps);
            &&& r.pending.len() >= q.pending.len()
            &&& r.pending.take(q.pending.len() as int) == q.pending
            &&& forall|n: Seq<char>| #[trigger]
                r.queued.contains(n) ==> q.queued.contains(n) || awaits(r.pending, n)
            &&& forall|n: Seq<char>| #[trigger] q.queued.contains(n) ==> r.queued.contains(n)
            &&& forall|i: int|
                0 <= i < deps.len() && !is_base((#[trigger] deps[i]).name) ==> {
                    &&& chosen.contains(deps[i].name) || r.queued.contains(deps[i].name)
                    &&& deps[i].constraint is Some ==> r.pending.contains(deps[i])
                }
        }),
    decreases deps.len(),
{
    if deps.len() > 0 {
        let front = deps.drop_last();
        let d = deps.last();
        lemma_enqueue_all(q, chosen, front);
        let m = enqueue_all(q, chosen, front);
        let r = enqueue_all(q, chosen, deps);
        assert(r == enqueue(m, chosen, d));
        assert(r.pending.take(q.pending.len() as int) == m.pending.take(q.pending.len() as int));
        assert forall|n: Seq<char>| awaits(m.pending, n) implies awaits(r.pending, n) by {
            let i = choose|i: int| 0 <= i < m.pending.len() && (#[trigger] m.pending[i]).name == n;
            assert(r.pending[i].name == n);
        }
        if r.pending.len() > m.pending.len() {
            assert(r.pending[m.pending.len() as int] == d);
        }
        assert forall|e: DepView| m.pending.contains(e) implies r.pending.contains(e) by {
            let i = m.pending.index_of(e);
            assert(r.pending[i] == e);
        }
        assert forall|i: int| 0 <= i < deps.len() && !is_base((#[trigger] deps[i]).name) implies {
            &&& chosen.contains(deps[i].name) || r.queued.contains(deps[i].name)
            &&& deps[i].constraint is Some ==> r.pending.contains(deps[i])
        } by {
            if i < front.len() {
                assert(front[i] == deps[i]);
            }
        }
    }
}

/// Appending to what is pending keeps what awaits.
proof fn lemma_awaits_after(s: Seq<DepView>, t: Seq<DepView>, d: DepView)
    requires
        s.len() > 0,
        s[0] == d,
        t.len() >= s.len() - 1,
        t.take(s.len() - 1) == s.drop_first(),
    ensures
        forall|n: Seq<char>| #[trigger] awaits(s, n) && n != d.name ==> awaits(t, n),
        forall|e: DepView| #[trigger] s.contains(e) && e != d ==> t.contains(e),
        forall|n: Seq<char>, c: Seq<char>| #[trigger] awaits_first(s, n, c) && n != d.name ==> awaits_first(t, n, c),
{
    assert forall|k: int| 0 <= k < s.len() - 1 implies t[k] == s[k + 1] by {
        assert(t.take(s.len() - 1)[k] == t[k]);
        assert(s.drop_first()[k] == s[k + 1]);
    }
    assert forall|n: Seq<char>| #[trigger] awaits(s, n) && n != d.name implies awaits(t, n) by {
        let i = choose|i: int| 0 <= i < s.len() && (#[trigger] s[i]).name == n;
        assert(t[i - 1].name == n);
    }
    assert forall|e: DepView| #[trigger] s.contains(e) && e != d implies t.contains(e) by {
        let i = s.index_of(e);
        assert(t[i - 1] == e);
    }
    assert forall|n: Seq<char>, c: Seq<char>| #[trigger] awaits_first(s, n, c) && n != d.name implies awaits_first(
        t,
        n,
        c,
    ) by {
        let i = choose|i: int|
            0 <= i < s.len() && (#[trigger] s[i]).name == n && s[i].constraint == Some(c) && forall|j: int|
                0 <= j < i ==> (#[trigger] s[j]).name != n;
        assert(t[i - 1].name == n && t[i - 1].constraint == Some(c));
        assert forall|j: int| 0 <= j < i - 1 implies (#[trigger] t[j]).name != n by {
            assert(s[j + 1].name != n);
        }
    }
}

proof fn lemma_step_inv<R: PackageRegistry>(reg: R, seeds: Seq<DepView>, s: Search)
    requires
        search_inv(seeds, s),
        s.pending.len() > 0,
        step(reg, s) is Ok,
    ensures
        search_inv(seeds, step(reg, s)->Ok_0),
        is_honest(reg) && meets_seen(s) ==> meets_seen(step(reg, s)->Ok_0),
{
    let t = step(reg, s)->Ok_0;
    let d = s.pending[0];
    lemma_noted(s.seen, d);
    let rest = s.pending.drop_first();
    if is_base(d.name) {
        assert(t.pending.take(rest.len() as int) == rest);
        lemma_awaits_after(s.pending, t.pending, d);
        assert forall|e: DepView| is_kept(s, e) implies is_kept(t, e) by {}
    } else if s.chosen.contains_key(d.name) {
        if !is_real(d.constraint) {
            assert(t.pending.take(rest.len() as int) == rest);
            lemma_awaits_after(s.pending, t.pending, d);
            assert forall|e: DepView| is_kept(s, e) implies is_kept(t, e) by {}
        } else if admits(requirement(d.constraint->0)->Ok_0, s.chosen[d.name].version) {
            assert(t.pending.take(rest.len() as int) == rest);
            lemma_awaits_after(s.pending, t.pending, d);
            assert forall|e: DepView| is_kept(s, e) implies is_kept(t, e) by {}
            if meets_seen(s) {
                assert forall|n: Seq<char>| #[trigger] t.chosen.contains_key(n) implies meets_all(
                    seen_of(t.seen, n),
                    t.chosen[n].version,
                ) by {
                    let cs = seen_of(t.seen, n);
                    let bs = seen_of(s.seen, n);
                    assert(meets_all(bs, s.chosen[n].version));
                    assert forall|i: int| 0 <= i < cs.len() implies meets(#[trigger] cs[i], t.chosen[n].version) by {
                        assert(cs.contains(cs[i]));
                        if bs.contains(cs[i]) {
                            let k = bs.index_of(cs[i]);
                            assert(meets(bs[k], s.chosen[n].version));
                        }
                    }
                }
            }
        } else {
            let info = reg.answer(d.name, d.constraint)->Ok_0;
            let extra = non_base(info.requires);
            assert((rest + extra).take(rest.len() as int) == rest);
            lemma_awaits_after(s.pending, t.pending, d);
            lemma_non_base(info.requires);
            assert forall|e: DepView| is_kept(s, e) implies is_kept(t, e) by {}
            assert forall|n: Seq<char>, i: int|
                t.chosen.contains_key(n) && 0 <= i < t.chosen[n].requires.len() implies is_kept(
                    t,
                    #[trigger] t.chosen[n].requires[i],
                ) by {
                if n == d.name {
                    let e = info.requires[i];
                    if !is_base(e.name) {
                        assert(extra.contains(e));
                        let k = extra.index_of(e);
                        assert(t.pending[rest.len() + k] == e);
                    }
                } else {
                    assert(is_kept(s, s.chosen[n].requires[i]));
                }
            }
            if meets_seen(s) {
                assert forall|n: Seq<char>| #[trigger] t.chosen.contains_key(n) implies meets_all(
                    seen_of(t.seen, n),
                    t.chosen[n].version,
                ) by {
                    if n != d.name {
                        assert(meets_all(seen_of(s.seen, n), s.chosen[n].version));
                        assert(seen_of(t.seen, n) == seen_of(s.seen, n));
                    }
                }
            }
        }
    } else {
        let info = reg.answer(d.name, d.constraint)->Ok_0;
        let q = Queue { pending: rest, queued: s.queued };
        let r = enqueue_all(q, s.chosen.dom(), info.requires);
        lemma_enqueue_all(q, s.chosen.dom(), info.requires);
        lemma_awaits_after(s.pending, t.pending, d);
        assert forall|n: Seq<char>| #[trigger]
            t.queued.contains(n) && !is_base(n) implies t.chosen.contains_key(n) || awaits(t.pending, n) by {
            if s.queued.contains(n) {
                assert(s.chosen.contains_key(n) || awaits(s.pending, n));
            }
        }
        assert forall|e: DepView| is_kept(s, e) implies is_kept(t, e) by {}
        assert forall|n: Seq<char>, i: int|
            t.chosen.contains_key(n) && 0 <= i < t.chosen[n].requires.len() implies is_kept(
                t,
                #[trigger] t.chosen[n].requires[i],
            ) by {
            if n == d.name {
                let e = info.requires[i];
                if !is_base(e.name) {
                    assert(s.chosen.dom().contains(e.name) || r.queued.contains(e.name));
                    if r.queued.contains(e.name) {
                        assert(t.queued.contains(e.name));
                    }
                }
            } else {
                assert(is_kept(s, s.chosen[n].requires[i]));
            }
        }
        assert forall|c: Seq<char>| seen_of(s.seen, d.name).contains(c) implies d.constraint == Some(c) by {
            assert(awaits_first(s.pending, d.name, c));
            let i = choose|i: int|
                0 <= i < s.pending.len() && (#[trigger] s.pending[i]).name == d.name && s.pending[i].constraint == Some(c)
                    && forall|j: int| 0 <= j < i ==> (#[trigger] s.pending[j]).name != d.name;
            if i > 0 {
                assert(s.pending[0].name != d.name);
            }
        }
        if is_honest(reg) && meets_seen(s) {
            assert forall|n: Seq<char>| #[trigger] t.chosen.contains_key(n) implies meets_all(
                seen_of(t.seen, n),
                t.chosen[n].version,
            ) by {
                if n != d.name {
                    assert(meets_all(seen_of(s.seen, n), s.chosen[n].version));
                    assert(seen_of(t.seen, n) == seen_of(s.seen, n));
                } else {
                    let cs = seen_of(t.seen, n);
                    assert forall|i: int| 0 <= i < cs.len() implies meets(#[trigger] cs[i], info.version) by {
                        assert(cs.contains(cs[i]));
                        assert(is_real(Some(cs[i])));
                        assert(d.constraint == Some(cs[i]));
                    }
                }
            }
        }
    }
}

proof fn lemma_run_inv<R: PackageRegistry>(reg: R, seeds: Seq<DepView>, s: Search, steps: nat)
    requires
        search_inv(seeds, s),
    ensures
        run(reg, s, steps) matches Some(Ok(t)) ==> t.pending.len() == 0 && search_inv(seeds, t) && (is_honest(reg)
            && meets_seen(s) ==> meets_seen(t)),
    decreases steps,
{
    if s.pending.len() > 0 && steps > 0 {
        if let Ok(t) = step(reg, s) {
            lemma_step_inv(reg, seeds, s);
            lemma_run_inv(reg, seeds, t, (steps - 1) as nat);
        }
    }
}

proof fn lemma_end_inv<R: PackageRegistry>(reg: R, seeds: Seq<DepView>)
    requires
        distinct(seeds),
    ensures
        search_end(reg, search_start(seeds)) matches Ok(t) ==> t.pending.len() == 0 && search_inv(seeds, t) && (
        is_honest(reg) ==> meets_seen(t)),
{
    let s = search_start(seeds);
    let all = universe(reg, seeds);
    reg.needed_is_finite();
    lemma_start_inv(seeds);
    assert(within(s, all)) by {
        assert forall|i: int| 0 <= i < s.pending.len() implies all.contains(#[trigger] s.pending[i]) by {
            assert(seeds.contains(seeds[i]));
        }
    }
    search_ends(reg, s, all);
    let steps = choose|steps: nat| #[trigger] run(reg, s, steps) is Some;
    lemma_run_inv(reg, seeds, s, steps);
}

/// Every dependency of the project, and everything that a chosen package needs, is
/// chosen, unless it comes with R.
pub proof fn resolution_is_complete<R: PackageRegistry>(reg: R, seeds: Seq<DepView>)
    requires
        distinct(seeds),
    ensures
        search_end(reg, search_start(seeds)) matches Ok(t) ==> {
            &&& forall|i: int|
                0 <= i < seeds.len() && !is_base((#[trigger] seeds[i]).name) ==> t.chosen.contains_key(seeds[i].name)
            &&& forall|n: Seq<char>, i: int|
                t.chosen.contains_key(n) && 0 <= i < t.chosen[n].requires.len() && !is_base(
                    (#[trigger] t.chosen[n].requires[i]).name,
                ) ==> t.chosen.contains_key(t.chosen[n].requires[i].name)
            &&& forall|n: Seq<char>| #[trigger] t.chosen.contains_key(n) ==> !is_base(n)
        },
{
    lemma_end_inv(reg, seeds);
    if let Ok(t) = search_end(reg, search_start(seeds)) {
        assert forall|i: int| 0 <= i < seeds.len() && !is_base((#[trigger] seeds[i]).name) implies t.chosen.contains_key(
            seeds[i].name,
        ) by {
            assert(is_kept(t, seeds[i]));
        }
        assert forall|n: Seq<char>, i: int|
            t.chosen.contains_key(n) && 0 <= i < t.chosen[n].requires.len() && !is_base(
                (#[trigger] t.chosen[n].requires[i]).name,
            ) implies t.chosen.contains_key(t.chosen[n].requires[i].name) by {
            assert(is_kept(t, t.chosen[n].requires[i]));
        }
    }
}

/// With a registry that keeps to the requirements put to it, every version that is
/// chosen meets the requirements of the project and of all chosen packages on it.
pub proof fn resolution_meets_requirements<R: PackageRegistry>(reg: R, seeds: Seq<DepView>)
    requires
        distinct(seeds),
        is_honest(reg),
    ensures
        search_end(reg, search_start(seeds)) matches Ok(t) ==> {
            &&& forall|i: int|
                0 <= i < seeds.len() && !is_base((#[trigger] seeds[i]).name) && is_real(seeds[i].constraint) ==> meets(
                    seeds[i].constraint->0,
                    t.chosen[seeds[i].name].version,
                )
            &&& forall|n: Seq<char>, i: int|
                t.chosen.contains_key(n) && 0 <= i < t.chosen[n].requires.len() && !is_base(
                    (#[trigger] t.chosen[n].requires[i]).name,
                ) && is_real(t.chosen[n].requires[i].constraint) ==> meets(
                    t.chosen[n].requires[i].constraint->0,
                    t.chosen[t.chosen[n].requires[i].name].version,
                )
        },
{
    lemma_end_inv(reg, seeds);
    if let Ok(t) = search_end(reg, search_start(seeds)) {
        assert forall|d: DepView| !is_base(d.name) && is_real(d.constraint) && #[trigger] is_kept(t, d) implies meets(
            d.constraint->0,
            t.chosen[d.name].version,
        ) by {
            let cs = seen_of(t.seen, d.name);
            assert(meets_all(cs, t.chosen[d.name].version));
            let k = cs.index_of(d.constraint->0);
            assert(meets(cs[k], t.chosen[d.name].version));
        }
        assert forall|i: int|
            0 <= i < seeds.len() && !is_base((#[trigger] seeds[i]).name) && is_real(seeds[i].constraint) implies meets(
            seeds[i].constraint->0,
            t.chosen[seeds[i].name].version,
        ) by {
            assert(is_kept(t, seeds[i]));
        }
        assert forall|n: Seq<char>, i: int|
            t.chosen.contains_key(n) && 0 <= i < t.chosen[n].requires.len() && !is_base(
                (#[trigger] t.chosen[n].requires[i]).name,
            ) && is_real(t.chosen[n].requires[i].constraint) implies meets(
            t.chosen[n].requires[i].constraint->0,
            t.chosen[t.chosen[n].requires[i].name].version,
        ) by {
            assert(is_kept(t, t.chosen[n].requires[i]));
        }
    }
}

/// The lock file names each package once, in ascending order, and with each package
/// all that it requires, unless that comes with R.
pub proof fn lock_file_is_sorted_and_complete<R: PackageRegistry>(reg: R, seeds: Seq<DepView>)
    requires
        distinct(seeds),
    ensures
        resolution(reg, seeds) matches Ok(packages) ==> {
            &&& ascending(packages.map_values(|p: LockedView| p.name))
            &&& forall|i: int|
                0 <= i < seeds.len() && !is_base((#[trigger] seeds[i]).name) ==> exists|j: int|
                    0 <= j < packages.len() && (#[trigger] packages[j]).name == seeds[i].name
            &&& forall|i: int, r: Seq<char>|
                0 <= i < packages.len() && (#[trigger] packages[i].requires.contains(r)) && !is_base(r) ==> exists|j: int|
                    0 <= j < packages.len() && (#[trigger] packages[j]).name == r
        },
{
    lemma_end_inv(reg, seeds);
    resolution_is_complete(reg, seeds);
    if let Ok(packages) = resolution(reg, seeds) {
        let t = search_end(reg, search_start(seeds))->Ok_0;
        let keys = in_order(t.chosen.dom());
        in_order_holds(t.chosen.dom());
        assert(packages == locked_all(t.chosen));
        assert(packages.map_values(|p: LockedView| p.name) == keys);
        assert forall|n: Seq<char>| t.chosen.contains_key(n) implies exists|j: int|
            0 <= j < packages.len() && (#[trigger] packages[j]).name == n by {
            assert(keys.to_set().contains(n));
            let j = keys.index_of(n);
            assert(packages[j].name == n);
        }
        assert forall|i: int, r: Seq<char>|
            0 <= i < packages.len() && (#[trigger] packages[i].requires.contains(r)) && !is_base(r) implies exists|j: int|
            0 <= j < packages.len() && (#[trigger] packages[j]).name == r by {
            let n = keys[i];
            assert(keys.to_set().contains(n));
            let deps = t.chosen[n].requires;
            assert(packages[i].requires == dep_names(deps));
            let k = dep_names(deps).index_of(r);
            assert(t.chosen[n].requires[k].name == r);
        }
    }
}

} // verus!

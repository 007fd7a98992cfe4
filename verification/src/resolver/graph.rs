//! Which package needs which, and an order in which all can be installed.
use vstd::prelude::*;

use crate::error::{ErrorView, UvrError};
use crate::order::{name_sorted, name_sorted_is_sorted, sort_by_name, HasName, Named};
use crate::text::{join, join_strings, same_str, views};
use crate::text_map::{ascending, ascending_is_unique, in_order, in_order_holds};

verus! {

/// A graph of dependencies: for each package the packages that it needs.
pub type Needs = Map<Seq<char>, Seq<Seq<char>>>;

/// `u` needs `d`.
pub open spec fn needs(g: Needs, u: Seq<char>, d: Seq<char>) -> bool {
    g.contains_key(u) && g[u].contains(d)
}

/// `d` is a package that only members of `done` need.
pub open spec fn is_free(g: Needs, done: Set<Seq<char>>, d: Seq<char>) -> bool {
    g.contains_key(d) && forall|u: Seq<char>| #[trigger] needs(g, u, d) ==> done.contains(u)
}

/// What `u` needs and nothing but `u` and the members of `done` needs.
pub open spec fn freed_by(g: Needs, done: Set<Seq<char>>, u: Seq<char>) -> Set<Seq<char>> {
    Set::new(|d: Seq<char>| needs(g, u, d) && is_free(g, done.insert(u), d))
}

/// Dependents before dependencies: takes the first package of the queue, at most
/// `steps` times; what it frees goes to the end of the queue in the order of names.
pub open spec fn peel(g: Needs, queue: Seq<Seq<char>>, done: Set<Seq<char>>, steps: nat) -> Seq<Seq<char>>
    decreases steps,
{
    if steps == 0 || queue.len() == 0 {
        seq![]
    } else {
        let u = queue[0];
        seq![u] + peel(g, queue.drop_first() + in_order(freed_by(g, done, u)), done.insert(u), (steps - 1) as nat)
    }
}

/// The packages that nothing needs.
pub open spec fn roots(g: Needs) -> Set<Seq<char>> {
    Set::new(|d: Seq<char>| is_free(g, Set::empty(), d))
}

/// The packages that can be put in order, dependents first.
pub open spec fn peeled(g: Needs) -> Seq<Seq<char>> {
    peel(g, in_order(roots(g)), Set::empty(), g.dom().len())
}

/// The packages in an order in which they can be installed, or the error that
/// names those that stand in the way, in the order of names.
pub open spec fn install_order(g: Needs) -> Result<Seq<Seq<char>>, ErrorView> {
    let p = peeled(g);
    if p.len() == g.dom().len() {
        Ok(p.reverse())
    } else {
        Err(ErrorView::CircularDependency(join(in_order(g.dom().difference(p.to_set())), ", "@)))
    }
}

/// Every package that is needed is a package of the graph.
pub open spec fn closed_graph(g: Needs) -> bool {
    forall|u: Seq<char>, d: Seq<char>| #[trigger] needs(g, u, d) ==> g.contains_key(d)
}

/// `path` leads from package to needed package and from its end back to its start.
pub open spec fn is_cycle(g: Needs, path: Seq<Seq<char>>) -> bool {
    &&& path.len() > 0
    &&& forall|i: int| 0 <= i < path.len() - 1 ==> #[trigger] needs(g, path[i], path[i + 1])
    &&& needs(g, path.last(), path[0])
}

/// The state of [`peel`]: the queue holds exactly the free packages that are not
/// done.
spec fn peel_inv(g: Needs, queue: Seq<Seq<char>>, done: Set<Seq<char>>) -> bool {
    &&& queue.no_duplicates()
    &&& done.finite()
    &&& done.subset_of(g.dom())
    &&& forall|d: Seq<char>|
        #![trigger queue.contains(d)]
        queue.contains(d) <==> is_free(g, done, d) && !done.contains(d)
    &&& forall|d: Seq<char>| #[trigger] done.contains(d) ==> is_free(g, done, d)
}

proof fn lemma_freed_finite(g: Needs, done: Set<Seq<char>>, u: Seq<char>)
    ensures
        freed_by(g, done, u).finite(),
{
    let f = freed_by(g, done, u);
    if g.contains_key(u) {
        assert(f.subset_of(g[u].to_set()));
        vstd::set_lib::lemma_len_subset(f, g[u].to_set());
    } else {
        assert(f =~= Set::empty());
    }
}

proof fn lemma_peel_step(g: Needs, queue: Seq<Seq<char>>, done: Set<Seq<char>>)
    requires
        peel_inv(g, queue, done),
        queue.len() > 0,
    ensures
        peel_inv(g, queue.drop_first() + in_order(freed_by(g, done, queue[0])), done.insert(queue[0])),
        !done.contains(queue[0]),
        is_free(g, done, queue[0]),
{
    let u = queue[0];
    let f = freed_by(g, done, u);
    lemma_freed_finite(g, done, u);
    in_order_holds(f);
    let fs = in_order(f);
    let rest = queue.drop_first();
    let next = rest + fs;
    assert(queue.contains(u));
    assert forall|d: Seq<char>| f.contains(d) implies !queue.contains(d) && !done.contains(d) && d != u by {
        assert(needs(g, u, d));
        if queue.contains(d) {
            assert(is_free(g, done, d));
        }
    }
    assert forall|d: Seq<char>| rest.contains(d) implies queue.contains(d) && d != u by {
        let k = rest.index_of(d);
        assert(queue[k + 1] == d);
    }
    assert forall|d: Seq<char>| queue.contains(d) && d != u implies rest.contains(d) by {
        let k = queue.index_of(d);
        assert(rest[k - 1] == d);
    }
    assert forall|d: Seq<char>| fs.contains(d) <==> f.contains(d) by {
        assert(fs.to_set().contains(d) <==> f.contains(d));
    }
    assert forall|d: Seq<char>| next.contains(d) <==> rest.contains(d) || fs.contains(d) by {
        if next.contains(d) {
            let k = next.index_of(d);
            if k < rest.len() {
                assert(rest[k] == d);
            } else {
                assert(fs[k - rest.len()] == d);
            }
        }
        if rest.contains(d) {
            let k = rest.index_of(d);
            assert(next[k] == d);
        }
        if fs.contains(d) {
            let k = fs.index_of(d);
            assert(next[k + rest.len()] == d);
        }
    }
    assert forall|i: int, j: int| 0 <= i < j < next.len() implies next[i] != next[j] by {
        if j < rest.len() {
            assert(queue[i + 1] != queue[j + 1]);
        } else if i >= rest.len() {
            assert(fs[i - rest.len()] != fs[j - rest.len()]);
        } else {
            assert(rest.contains(rest[i]));
            assert(fs.contains(fs[j - rest.len()]));
        }
    }
    assert forall|d: Seq<char>|
        #![trigger next.contains(d)]
        next.contains(d) <==> is_free(g, done.insert(u), d) && !done.insert(u).contains(d) by {
        if rest.contains(d) {
            assert(is_free(g, done, d));
        }
        if is_free(g, done.insert(u), d) && !done.insert(u).contains(d) {
            if !needs(g, u, d) {
                assert(is_free(g, done, d));
                assert(queue.contains(d));
            }
        }
    }
    assert forall|d: Seq<char>| #[trigger] done.insert(u).contains(d) implies is_free(g, done.insert(u), d) by {
        assert(is_free(g, done, d));
    }
}

proof fn lemma_peel(g: Needs, queue: Seq<Seq<char>>, done: Set<Seq<char>>, steps: nat)
    requires
        peel_inv(g, queue, done),
        g.dom().finite(),
        done.len() + steps == g.dom().len(),
    ensures
        ({
            let p = peel(g, queue, done, steps);
            &&& p.no_duplicates()
            &&& p.len() <= steps
            &&& forall|i: int| 0 <= i < p.len() ==> !done.contains(#[trigger] p[i]) && g.contains_key(p[i])
            &&& forall|i: int, u: Seq<char>|
                0 <= i < p.len() && #[trigger] needs(g, u, p[i]) ==> done.contains(u) || p.take(i).contains(u)
            &&& forall|d: Seq<char>|
                #[trigger] is_free(g, done.union(p.to_set()), d) ==> done.contains(d) || p.contains(d)
        }),
    decreases steps,
{
    let p = peel(g, queue, done, steps);
    if steps == 0 {
        vstd::set_lib::lemma_subset_equality(done, g.dom());
    } else if queue.len() == 0 {
        assert(done.union(p.to_set()) =~= done);
        assert forall|d: Seq<char>| is_free(g, done, d) implies done.contains(d) by {
            assert(!queue.contains(d));
        }
    } else {
        let u = queue[0];
        let next = queue.drop_first() + in_order(freed_by(g, done, u));
        let rest = peel(g, next, done.insert(u), (steps - 1) as nat);
        lemma_peel_step(g, queue, done);
        lemma_peel(g, next, done.insert(u), (steps - 1) as nat);
        assert(p == seq![u] + rest);
        assert forall|i: int, j: int| 0 <= i < j < p.len() implies p[i] != p[j] by {
            if i == 0 {
                assert(!done.insert(u).contains(rest[j - 1]));
            } else {
                assert(rest[i - 1] != rest[j - 1]);
            }
        }
        assert forall|i: int| 0 <= i < p.len() implies !done.contains(#[trigger] p[i]) && g.contains_key(p[i]) by {
            if i > 0 {
                assert(!done.insert(u).contains(rest[i - 1]));
            }
        }
        assert forall|i: int, w: Seq<char>|
            0 <= i < p.len() && #[trigger] needs(g, w, p[i]) implies done.contains(w) || p.take(i).contains(w) by {
            if i > 0 {
                assert(needs(g, w, rest[i - 1]));
                assert(done.insert(u).contains(w) || rest.take(i - 1).contains(w));
                if w == u {
                    assert(p.take(i)[0] == u);
                } else if rest.take(i - 1).contains(w) {
                    let k = rest.take(i - 1).index_of(w);
                    assert(p.take(i)[k + 1] == w);
                }
            }
        }
        assert forall|d: Seq<char>|
            #[trigger] is_free(g, done.union(p.to_set()), d) implies done.contains(d) || p.contains(d) by {
            assert(done.union(p.to_set()) =~= done.insert(u).union(rest.to_set())) by {
                assert forall|y: Seq<char>| p.contains(y) <==> y == u || rest.contains(y) by {
                    if rest.contains(y) {
                        let k = rest.index_of(y);
                        assert(p[k + 1] == y);
                    }
                    if p.contains(y) {
                        let k = p.index_of(y);
                        if k > 0 {
                            assert(rest[k - 1] == y);
                        }
                    }
                    assert(p[0] == u);
                }
            }
            assert(is_free(g, done.insert(u).union(rest.to_set()), d));
            if rest.contains(d) {
                let k = rest.index_of(d);
                assert(p[k + 1] == d);
            }
            assert(p[0] == u);
        }
    }
}

proof fn lemma_start(g: Needs)
    requires
        g.dom().finite(),
    ensures
        peel_inv(g, in_order(roots(g)), Set::empty()),
{
    let r = roots(g);
    assert(r.subset_of(g.dom()));
    vstd::set_lib::lemma_len_subset(r, g.dom());
    in_order_holds(r);
    let q = in_order(r);
    assert forall|d: Seq<char>|
        #![trigger q.contains(d)]
        q.contains(d) <==> is_free(g, Set::empty(), d) && !Set::<Seq<char>>::empty().contains(d) by {
        assert(q.to_set().contains(d) <==> r.contains(d));
    }
}

proof fn lemma_peeled(g: Needs)
    requires
        g.dom().finite(),
    ensures
        peeled(g).no_duplicates(),
        peeled(g).to_set().subset_of(g.dom()),
        peeled(g).to_set().len() == peeled(g).len(),
        forall|i: int, u: Seq<char>|
            0 <= i < peeled(g).len() && #[trigger] needs(g, u, peeled(g)[i]) ==> peeled(g).take(i).contains(u),
        forall|d: Seq<char>| #[trigger] is_free(g, peeled(g).to_set(), d) ==> peeled(g).contains(d),
{
    lemma_start(g);
    lemma_peel(g, in_order(roots(g)), Set::empty(), g.dom().len());
    let p = peeled(g);
    assert(Set::empty().union(p.to_set()) =~= p.to_set());
    p.unique_seq_to_set();
}

/// The install order holds every package once, and each package after all that it
/// needs.
pub proof fn install_order_puts_needs_first(g: Needs)
    requires
        g.dom().finite(),
    ensures
        install_order(g) matches Ok(r) ==> {
            &&& r.no_duplicates()
            &&& r.to_set() == g.dom()
            &&& forall|i: int, j: int|
                0 <= i < r.len() && 0 <= j < r.len() && #[trigger] needs(g, r[i], r[j]) ==> j < i
        },
{
    lemma_peeled(g);
    let p = peeled(g);
    if p.len() == g.dom().len() {
        let r = p.reverse();
        let n = p.len() as int;
        vstd::set_lib::lemma_subset_equality(p.to_set(), g.dom());
        assert forall|i: int, j: int| 0 <= i < j < r.len() implies r[i] != r[j] by {
            assert(p[n - 1 - j] != p[n - 1 - i]);
        }
        assert forall|y: Seq<char>| r.to_set().contains(y) <==> p.to_set().contains(y) by {
            if r.contains(y) {
                let k = r.index_of(y);
                assert(p[n - 1 - k] == y);
            }
            if p.contains(y) {
                let k = p.index_of(y);
                assert(r[n - 1 - k] == y);
            }
        }
        assert(r.to_set() =~= g.dom());
        assert forall|i: int, j: int|
            0 <= i < r.len() && 0 <= j < r.len() && #[trigger] needs(g, r[i], r[j]) implies j < i by {
            let k = n - 1 - j;
            assert(needs(g, r[i], p[k]));
            assert(p.take(k).contains(r[i]));
            let m = p.take(k).index_of(r[i]);
            assert(p[m] == r[i]);
            assert(p[n - 1 - i] == r[i]);
            assert(m == n - 1 - i);
        }
    }
}

/// A walk against the needs inside the packages that cannot be put in order.
spec fn walk(g: Needs, rest: Set<Seq<char>>, start: Seq<char>, k: nat) -> Seq<char>
    decreases k,
{
    if k == 0 {
        start
    } else {
        choose|u: Seq<char>| rest.contains(u) && #[trigger] needs(g, u, walk(g, rest, start, (k - 1) as nat))
    }
}

proof fn lemma_walk(g: Needs, rest: Set<Seq<char>>, start: Seq<char>, k: nat)
    requires
        rest.contains(start),
        forall|d: Seq<char>| #[trigger]
            rest.contains(d) ==> exists|u: Seq<char>| rest.contains(u) && #[trigger] needs(g, u, d),
    ensures
        rest.contains(walk(g, rest, start, k)),
        k > 0 ==> needs(g, walk(g, rest, start, k), walk(g, rest, start, (k - 1) as nat)),
    decreases k,
{
    if k > 0 {
        lemma_walk(g, rest, start, (k - 1) as nat);
    }
}

proof fn lemma_stuck_has_cycle(g: Needs, rest: Set<Seq<char>>)
    requires
        rest.finite(),
        rest.len() > 0,
        forall|d: Seq<char>| #[trigger]
            rest.contains(d) ==> exists|u: Seq<char>| rest.contains(u) && #[trigger] needs(g, u, d),
    ensures
        exists|path: Seq<Seq<char>>| is_cycle(g, path),
{
    let start = rest.choose();
    let n = rest.len();
    let w = Seq::new(n + 1, |k: int| walk(g, rest, start, k as nat));
    assert forall|k: int| 0 <= k < w.len() implies rest.contains(#[trigger] w[k]) && (k > 0 ==> needs(g, w[k], w[k - 1])) by {
        lemma_walk(g, rest, start, k as nat);
    }
    if w.no_duplicates() {
        w.unique_seq_to_set();
        assert(w.to_set().subset_of(rest));
        vstd::set_lib::lemma_len_subset(w.to_set(), rest);
    }
    let (i, j) = choose|i: int, j: int| 0 <= i < j < w.len() && w[i] == w[j];
    let path = Seq::new((j - i) as nat, |t: int| w[j - t]);
    assert forall|t: int| 0 <= t < path.len() - 1 implies #[trigger] needs(g, path[t], path[t + 1]) by {
        assert(needs(g, w[j - t], w[j - t - 1]));
    }
    assert(needs(g, w[i + 1], w[i]));
    assert(path.last() == w[i + 1]);
    assert(is_cycle(g, path));
}

proof fn lemma_path_descends(g: Needs, r: Seq<Seq<char>>, path: Seq<Seq<char>>, k: int)
    requires
        is_cycle(g, path),
        r.no_duplicates(),
        r.to_set() == g.dom(),
        forall|i: int, j: int|
            0 <= i < r.len() && 0 <= j < r.len() && #[trigger] needs(g, r[i], r[j]) ==> j < i,
        0 <= k < path.len(),
    ensures
        r.contains(path[0]),
        r.contains(path[k]),
        r.index_of(path[k]) <= r.index_of(path[0]),
    decreases k,
{
    let n = path.len() as int;
    if k < n - 1 {
        assert(needs(g, path[k], path[k + 1]));
    }
    assert(r.to_set().contains(path[k]));
    assert(r.contains(path[k]));
    if k > 0 {
        lemma_path_descends(g, r, path, k - 1);
        assert(needs(g, path[k - 1], path[k - 1 + 1]));
        let a = r.index_of(path[k - 1]);
        let b = r.index_of(path[k]);
        assert(r[a] == path[k - 1] && r[b] == path[k]);
        assert(needs(g, r[a], r[b]));
    }
}

/// The packages can be put in order if and only if no package needs itself, be it
/// through others.
pub proof fn install_order_exists_without_cycles(g: Needs)
    requires
        g.dom().finite(),
        closed_graph(g),
    ensures
        install_order(g) is Ok <==> forall|path: Seq<Seq<char>>| !#[trigger] is_cycle(g, path),
{
    lemma_peeled(g);
    let p = peeled(g);
    if p.len() == g.dom().len() {
        install_order_puts_needs_first(g);
        let r = p.reverse();
        assert forall|path: Seq<Seq<char>>| !#[trigger] is_cycle(g, path) by {
            if is_cycle(g, path) {
                let n = path.len() as int;
                lemma_path_descends(g, r, path, n - 1);
                let a = r.index_of(path.last());
                let b = r.index_of(path[0]);
                assert(r[a] == path.last() && r[b] == path[0]);
                assert(needs(g, r[a], r[b]));
            }
        }
    } else {
        let rest = g.dom().difference(p.to_set());
        assert(rest.finite());
        if rest.len() == 0 {
            assert(g.dom().subset_of(p.to_set())) by {
                assert forall|d: Seq<char>| g.dom().contains(d) implies p.to_set().contains(d) by {
                    assert(!rest.contains(d));
                }
            }
            vstd::set_lib::lemma_len_subset(g.dom(), p.to_set());
            vstd::set_lib::lemma_len_subset(p.to_set(), g.dom());
        }
        assert forall|d: Seq<char>| #[trigger] rest.contains(d) implies exists|u: Seq<char>|
            rest.contains(u) && #[trigger] needs(g, u, d) by {
            assert(!is_free(g, p.to_set(), d));
            let u = choose|u: Seq<char>| #[trigger] needs(g, u, d) && !p.to_set().contains(u);
            assert(rest.contains(u));
        }
        lemma_stuck_has_cycle(g, rest);
    }
}

// ---------------------------------------------------------------------------
// Code
// ---------------------------------------------------------------------------

/// A graph of packages and what they need.
#[derive(Debug)]
pub struct DependencyGraph {
    names: Vec<String>,
    /// For each package the positions of what it needs.
    deps: Vec<Vec<usize>>,
}

/// The names at the given positions.
spec fn names_at(names: Seq<String>, ix: Seq<usize>) -> Seq<Seq<char>> {
    ix.map_values(|i: usize| names[i as int]@)
}

spec fn graph_wf(names: Seq<String>, deps: Seq<Vec<usize>>) -> bool {
    &&& names.len() == deps.len()
    &&& views(names).no_duplicates()
    &&& forall|u: int, k: int| 0 <= u < deps.len() && 0 <= k < deps[u]@.len() ==> #[trigger] deps[u]@[k] < names.len()
}

spec fn graph_view(names: Seq<String>, deps: Seq<Vec<usize>>) -> Needs {
    Map::new(
        |n: Seq<char>| views(names).contains(n),
        |n: Seq<char>| names_at(names, deps[views(names).index_of(n)]@),
    )
}

impl View for DependencyGraph {
    type V = Needs;

    closed spec fn view(&self) -> Needs {
        graph_view(self.names@, self.deps@)
    }
}

proof fn lemma_name_index(names: Seq<String>, i: int)
    requires
        views(names).no_duplicates(),
        0 <= i < names.len(),
    ensures
        views(names).contains(names[i]@),
        views(names).index_of(names[i]@) == i,
{
    assert(views(names)[i] == names[i]@);
    let k = views(names).index_of(names[i]@);
    assert(views(names)[k] == views(names)[i]);
}

/// What a graph becomes when a package is put in.
pub open spec fn with_node(g: Needs, name: Seq<char>) -> Needs {
    if g.contains_key(name) {
        g
    } else {
        g.insert(name, seq![])
    }
}

/// What a graph becomes when it is noted that `from` needs `to`.
pub open spec fn with_edge(g: Needs, from: Seq<char>, to: Seq<char>) -> Needs {
    let h = with_node(with_node(g, from), to);
    h.insert(from, h[from].push(to))
}

/// How often `d` stands in `s`.
spec fn times(s: Seq<usize>, d: int) -> nat
    decreases s.len(),
{
    if s.len() == 0 {
        0
    } else {
        times(s.drop_last(), d) + (if s.last() == d {
            1nat
        } else {
            0nat
        })
    }
}

proof fn lemma_times_zero(s: Seq<usize>, d: int)
    ensures
        times(s, d) == 0 <==> (forall|k: int| 0 <= k < s.len() ==> #[trigger] s[k] != d),
        times(s, d) <= s.len(),
    decreases s.len(),
{
    if s.len() > 0 {
        lemma_times_zero(s.drop_last(), d);
        assert(forall|k: int| 0 <= k < s.drop_last().len() ==> s.drop_last()[k] == s[k]);
        if times(s, d) == 0 {
            assert forall|k: int| 0 <= k < s.len() implies #[trigger] s[k] != d by {
                if k < s.len() - 1 {
                    assert(s.drop_last()[k] != d);
                }
            }
        }
    }
}

/// A first occurrence counted off the front.
proof fn lemma_times_front(s: Seq<usize>, d: int)
    requires
        s.len() > 0,
    ensures
        times(s, d) == times(s.drop_first(), d) + (if s[0] == d {
            1nat
        } else {
            0nat
        }),
    decreases s.len(),
{
    if s.len() > 1 {
        lemma_times_front(s.drop_last(), d);
        assert(s.drop_last().drop_first() == s.drop_first().drop_last());
    } else {
        assert(s.drop_first() == Seq::<usize>::empty());
        assert(s.drop_last() == Seq::<usize>::empty());
        assert(times(s.drop_last(), d) == 0);
    }
}

/// How often the packages before position `m` that are not done need `d`.
spec fn incoming(deps: Seq<Vec<usize>>, done: Seq<bool>, d: int, m: int) -> nat
    decreases m,
{
    if m <= 0 {
        0
    } else {
        incoming(deps, done, d, m - 1) + (if done[m - 1] {
            0nat
        } else {
            times(deps[m - 1]@, d)
        })
    }
}

proof fn lemma_incoming_zero(deps: Seq<Vec<usize>>, done: Seq<bool>, d: int, m: int)
    requires
        0 <= m <= deps.len(),
    ensures
        incoming(deps, done, d, m) == 0 <==> (forall|u: int, k: int|
            0 <= u < m && !done[u] && 0 <= k < deps[u]@.len() ==> #[trigger] deps[u]@[k] != d),
    decreases m,
{
    if m > 0 {
        lemma_incoming_zero(deps, done, d, m - 1);
        lemma_times_zero(deps[m - 1]@, d);
    }
}

proof fn lemma_incoming_done(deps: Seq<Vec<usize>>, done: Seq<bool>, d: int, u: int, m: int)
    requires
        0 <= m <= deps.len(),
        done.len() == deps.len(),
        0 <= u < deps.len(),
        !done[u],
    ensures
        incoming(deps, done, d, m) == incoming(deps, done.update(u, true), d, m) + (if u < m {
            times(deps[u]@, d)
        } else {
            0nat
        }),
    decreases m,
{
    if m > 0 {
        lemma_incoming_done(deps, done, d, u, m - 1);
    }
}

proof fn lemma_incoming_bound(deps: Seq<Vec<usize>>, done: Seq<bool>, d: int, m: int)
    requires
        0 <= m <= deps.len(),
        forall|u: int| 0 <= u < deps.len() ==> #[trigger] deps[u]@.len() <= usize::MAX,
    ensures
        incoming(deps, done, d, m) <= m * usize::MAX,
    decreases m,
{
    if m > 0 {
        lemma_incoming_bound(deps, done, d, m - 1);
        lemma_times_zero(deps[m - 1]@, d);
        assert((m - 1) * usize::MAX + usize::MAX == m * usize::MAX) by (nonlinear_arith);
        assert(deps[m - 1]@.len() <= usize::MAX);
    }
}

/// A package of the graph by name and position.
struct Node {
    name: String,
    index: usize,
}

impl HasName for Node {
    closed spec fn spec_name(&self) -> Seq<char> {
        self.name@
    }
}

impl Named for Node {
    fn name_text(&self) -> (r: &str) {
        self.name.as_str()
    }
}

spec fn node_names(s: Seq<Node>) -> Seq<Seq<char>> {
    s.map_values(|n: Node| n.name@)
}

spec fn node_indices(s: Seq<Node>) -> Seq<usize> {
    s.map_values(|n: Node| n.index)
}

/// Nodes of different names, sorted by name, stand in the order of their names.
proof fn lemma_nodes_in_order(s: Seq<Node>)
    requires
        node_names(s).no_duplicates(),
    ensures
        node_names(name_sorted(s)) == in_order(node_names(s).to_set()),
        forall|n: Node| name_sorted(s).contains(n) <==> s.contains(n),
        name_sorted(s).len() == s.len(),
{
    broadcast use vstd::seq_lib::group_to_multiset_ensures;

    name_sorted_is_sorted(s);
    let t = name_sorted(s);
    assert forall|n: Node| t.contains(n) <==> s.contains(n) by {
        assert(t.to_multiset().count(n) > 0 <==> t.contains(n));
        assert(s.to_multiset().count(n) > 0 <==> s.contains(n));
    }
    let a = node_names(t);
    let b = node_names(s);
    assert forall|x: Seq<char>| a.to_set().contains(x) <==> b.to_set().contains(x) by {
        if a.contains(x) {
            let k = a.index_of(x);
            assert(t.contains(t[k]));
            let m = s.index_of(t[k]);
            assert(b[m] == x);
        }
        if b.contains(x) {
            let k = b.index_of(x);
            assert(s.contains(s[k]));
            let m = t.index_of(s[k]);
            assert(a[m] == x);
        }
    }
    assert(a.to_set() =~= b.to_set());
    b.unique_seq_to_set();
    a.lemma_cardinality_of_set();
    assert(a.no_duplicates()) by {
        a.lemma_no_dup_set_cardinality();
    }
    assert(ascending(a)) by {
        assert forall|i: int, j: int| 0 <= i < j < a.len() implies crate::text::precedes(#[trigger] a[i], #[trigger] a[j]) by {
            assert(!crate::text::precedes(t[j].spec_name(), t[i].spec_name()));
            crate::text::precedes_is_total(a[i], a[j]);
            assert(a[i] != a[j]);
        }
    }
    in_order_holds(b.to_set());
    ascending_is_unique(a, in_order(b.to_set()));
}

impl DependencyGraph {
    #[verifier::type_invariant]
    spec fn wf(self) -> bool {
        graph_wf(self.names@, self.deps@)
    }

    /// The graph without packages.
    pub fn new() -> (r: DependencyGraph)
        ensures
            r@ == Needs::empty(),
    {
        let r = DependencyGraph { names: Vec::new(), deps: Vec::new() };
        assert(r@ =~= Needs::empty());
        r
    }

    fn index_of(&self, name: &str) -> (r: Option<usize>)
        ensures
            match r {
                Some(i) => i < self.names@.len() && self.names@[i as int]@ == name@,
                None => !views(self.names@).contains(name@),
            },
    {
        let mut i: usize = 0;
        while i < self.names.len()
            invariant
                i <= self.names@.len(),
                forall|j: int| 0 <= j < i ==> views(self.names@)[j] != name@,
            decreases self.names@.len() - i,
        {
            if same_str(self.names[i].as_str(), name) {
                return Some(i);
            }
            i += 1;
        }
        None
    }

    /// The position of the package, which is put in where it is new.
    fn intern(&mut self, name: &str) -> (r: usize)
        ensures
            final(self)@ == with_node(old(self)@, name@),
            r < final(self).names@.len(),
            final(self).names@[r as int]@ == name@,
            final(self).names@.len() >= old(self).names@.len(),
            forall|i: int| 0 <= i < old(self).names@.len() ==> #[trigger] final(self).names@[i] == old(self).names@[i],
    {
        proof {
            use_type_invariant(&*self);
        }
        match self.index_of(name) {
            Some(i) => {
                proof {
                    lemma_name_index(self.names@, i as int);
                }
                i
            },
            None => {
                let ghost g = self@;
                let ghost on = self.names@;
                let ghost od = self.deps@;
                let mut taken = DependencyGraph::new();
                std::mem::swap(&mut taken, self);
                let DependencyGraph { mut names, mut deps } = taken;
                let i: usize = names.len();
                names.push(name.to_owned());
                deps.push(Vec::new());
                proof {
                    assert(names@.drop_last() == on);
                    assert(deps@.drop_last() == od);
                    lemma_push_node(on, od, names@, deps@, name@);
                }
                *self = DependencyGraph { names, deps };
                i
            },
        }
    }

    /// Puts a package in.
    pub fn add_node(&mut self, name: &str)
        ensures
            final(self)@ == with_node(old(self)@, name@),
    {
        let _ = self.intern(name);
    }

    /// Notes that `from` needs `to`, and puts both in.
    pub fn add_edge(&mut self, from: &str, to: &str)
        ensures
            final(self)@ == with_edge(old(self)@, from@, to@),
    {
        let f: usize = self.intern(from);
        let t: usize = self.intern(to);
        proof {
            use_type_invariant(&*self);
        }
        let ghost g = self@;
        let ghost on = self.names@;
        let ghost od = self.deps@;
        let mut taken = DependencyGraph::new();
        std::mem::swap(&mut taken, self);
        let DependencyGraph { names, mut deps } = taken;
        deps[f].push(t);
        proof {
            lemma_push_edge(on, od, deps@, f as int, t);
        }
        *self = DependencyGraph { names, deps };
    }
}

proof fn lemma_push_node(on: Seq<String>, od: Seq<Vec<usize>>, nn: Seq<String>, nd: Seq<Vec<usize>>, name: Seq<char>)
    requires
        graph_wf(on, od),
        !views(on).contains(name),
        nn.len() == on.len() + 1,
        nn.drop_last() == on,
        nn.last()@ == name,
        nd.len() == od.len() + 1,
        nd.drop_last() == od,
        nd.last()@.len() == 0,
    ensures
        graph_wf(nn, nd),
        graph_view(nn, nd) == with_node(graph_view(on, od), name),
{
    assert(views(nn) == views(on).push(name));
    assert forall|i: int, j: int| 0 <= i < j < nn.len() implies views(nn)[i] != views(nn)[j] by {
        if j == on.len() {
            assert(views(on)[i] == views(nn)[i]);
        } else {
            assert(views(on)[i] != views(on)[j]);
        }
    }
    assert forall|u: int, k: int| 0 <= u < nd.len() && 0 <= k < nd[u]@.len() implies #[trigger] nd[u]@[k] < nn.len() by {
        assert(u < od.len());
        assert(nd[u] == od[u]);
    }
    let g = graph_view(on, od);
    let h = graph_view(nn, nd);
    assert(h.dom() =~= with_node(g, name).dom()) by {
        assert forall|x: Seq<char>| views(nn).contains(x) <==> views(on).contains(x) || x == name by {
            if views(nn).contains(x) {
                let k = views(nn).index_of(x);
                if k < on.len() {
                    assert(views(on)[k] == x);
                }
            }
            if views(on).contains(x) {
                let k = views(on).index_of(x);
                assert(views(nn)[k] == x);
            }
            assert(views(nn)[on.len() as int] == name);
        }
    }
    assert forall|x: Seq<char>| h.contains_key(x) implies #[trigger] h[x] == with_node(g, name)[x] by {
        if x == name {
            lemma_name_index(nn, on.len() as int);
            assert(names_at(nn, nd.last()@) =~= Seq::<Seq<char>>::empty());
        } else {
            let k = views(on).index_of(x);
            assert(views(on).contains(x));
            assert(views(nn)[k] == x);
            lemma_name_index(nn, k);
            assert(nd[k] == od[k]);
            assert(names_at(nn, nd[k]@) =~= names_at(on, od[k]@)) by {
                assert forall|m: int| 0 <= m < od[k]@.len() implies names_at(nn, nd[k]@)[m] == names_at(on, od[k]@)[m] by {
                    assert(od[k]@[m] < on.len());
                    assert(nn[od[k]@[m] as int] == on[od[k]@[m] as int]);
                }
            }
        }
    }
    assert(h =~= with_node(g, name));
}

proof fn lemma_push_edge(names: Seq<String>, od: Seq<Vec<usize>>, nd: Seq<Vec<usize>>, f: int, t: usize)
    requires
        graph_wf(names, od),
        0 <= f < names.len(),
        t < names.len(),
        nd.len() == od.len(),
        nd[f]@ == od[f]@.push(t),
        forall|i: int| 0 <= i < od.len() && i != f ==> nd[i] == od[i],
    ensures
        graph_wf(names, nd),
        ({
            let g = graph_view(names, od);
            let n = names[f]@;
            &&& g.contains_key(n)
            &&& graph_view(names, nd) == g.insert(n, g[n].push(names[t as int]@))
        }),
{
    assert forall|u: int, k: int| 0 <= u < nd.len() && 0 <= k < nd[u]@.len() implies #[trigger] nd[u]@[k] < names.len() by {
        if u == f {
            if k < od[f]@.len() {
                assert(od[f]@[k] < names.len());
            }
        } else {
            assert(od[u]@[k] < names.len());
        }
    }
    let g = graph_view(names, od);
    let h = graph_view(names, nd);
    let n = names[f]@;
    lemma_name_index(names, f);
    let want = g.insert(n, g[n].push(names[t as int]@));
    assert(h.dom() =~= want.dom());
    assert forall|x: Seq<char>| h.contains_key(x) implies #[trigger] h[x] == want[x] by {
        let k = views(names).index_of(x);
        assert(views(names)[k] == x);
        if k == f {
            assert(x == n);
            assert(names_at(names, nd[f]@) =~= names_at(names, od[f]@).push(names[t as int]@));
        } else {
            assert(x != n);
            assert(nd[k] == od[k]);
        }
    }
    assert(h =~= want);
}

/// The names of the packages that are done.
spec fn done_names(names: Seq<String>, done: Seq<bool>) -> Set<Seq<char>> {
    Set::new(|x: Seq<char>| exists|u: int| 0 <= u < names.len() && done[u] && #[trigger] names[u]@ == x)
}

proof fn lemma_needs_by_index(names: Seq<String>, deps: Seq<Vec<usize>>, u: int, d: int)
    requires
        graph_wf(names, deps),
        0 <= u < names.len(),
        0 <= d < names.len(),
    ensures
        needs(graph_view(names, deps), names[u]@, names[d]@) <==> exists|k: int|
            0 <= k < deps[u]@.len() && #[trigger] deps[u]@[k] == d,
{
    let g = graph_view(names, deps);
    lemma_name_index(names, u);
    let row = names_at(names, deps[u]@);
    assert(g[names[u]@] == row);
    if row.contains(names[d]@) {
        let k = row.index_of(names[d]@);
        let e = deps[u]@[k];
        assert(e < names.len());
        assert(names[e as int]@ == names[d]@);
        lemma_name_index(names, e as int);
        lemma_name_index(names, d);
    }
    if exists|k: int| 0 <= k < deps[u]@.len() && #[trigger] deps[u]@[k] == d {
        let k = choose|k: int| 0 <= k < deps[u]@.len() && #[trigger] deps[u]@[k] == d;
        assert(row[k] == names[d]@);
    }
}

proof fn lemma_free_by_index(names: Seq<String>, deps: Seq<Vec<usize>>, done: Seq<bool>, d: int)
    requires
        graph_wf(names, deps),
        done.len() == names.len(),
        0 <= d < names.len(),
    ensures
        is_free(graph_view(names, deps), done_names(names, done), names[d]@) <==> incoming(
            deps,
            done,
            d,
            names.len() as int,
        ) == 0,
{
    let g = graph_view(names, deps);
    let n = names.len() as int;
    lemma_incoming_zero(deps, done, d, n);
    lemma_name_index(names, d);
    if is_free(g, done_names(names, done), names[d]@) {
        assert forall|u: int, k: int| 0 <= u < n && !done[u] && 0 <= k < deps[u]@.len() implies #[trigger] deps[u]@[k] != d by {
            if deps[u]@[k] == d {
                lemma_needs_by_index(names, deps, u, d);
                assert(needs(g, names[u]@, names[d]@));
                assert(done_names(names, done).contains(names[u]@));
                let w = choose|w: int| 0 <= w < n && done[w] && #[trigger] names[w]@ == names[u]@;
                lemma_name_index(names, w);
                lemma_name_index(names, u);
            }
        }
    }
    if incoming(deps, done, d, n) == 0 {
        assert forall|x: Seq<char>| #[trigger] needs(g, x, names[d]@) implies done_names(names, done).contains(x) by {
            let u = views(names).index_of(x);
            assert(views(names)[u] == x);
            lemma_needs_by_index(names, deps, u, d);
            let k = choose|k: int| 0 <= k < deps[u]@.len() && #[trigger] deps[u]@[k] == d;
            assert(done[u]);
            assert(names[u]@ == x);
        }
    }
}

proof fn lemma_graph_dom(names: Seq<String>, deps: Seq<Vec<usize>>)
    requires
        graph_wf(names, deps),
    ensures
        graph_view(names, deps).dom() == views(names).to_set(),
        graph_view(names, deps).dom().finite(),
        graph_view(names, deps).dom().len() == names.len(),
        closed_graph(graph_view(names, deps)),
{
    let g = graph_view(names, deps);
    assert(g.dom() =~= views(names).to_set());
    views(names).unique_seq_to_set();
    assert forall|u: Seq<char>, d: Seq<char>| #[trigger] needs(g, u, d) implies g.contains_key(d) by {
        let i = views(names).index_of(u);
        let row = names_at(names, deps[i]@);
        let k = row.index_of(d);
        let e = deps[i]@[k];
        assert(e < names.len());
        lemma_name_index(names, e as int);
    }
}

impl DependencyGraph {
    /// How often each package is needed.
    fn degrees(&self) -> (r: Vec<u128>)
        requires
            graph_wf(self.names@, self.deps@),
        ensures
            r@.len() == self.names@.len(),
            forall|d: int|
                0 <= d < r@.len() ==> #[trigger] r@[d] == incoming(
                    self.deps@,
                    Seq::new(self.names@.len(), |i: int| false),
                    d,
                    self.names@.len() as int,
                ),
    {
        let n: usize = self.names.len();
        let ghost none = Seq::new(self.names@.len(), |i: int| false);
        let mut deg: Vec<u128> = Vec::new();
        let mut i: usize = 0;
        while i < n
            invariant
                n == self.names@.len(),
                i <= n,
                deg@.len() == i,
                forall|d: int| 0 <= d < i ==> #[trigger] deg@[d] == 0,
            decreases n - i,
        {
            deg.push(0);
            i += 1;
        }
        let mut u: usize = 0;
        while u < n
            invariant
                n == self.names@.len(),
                u <= n,
                none == Seq::new(self.names@.len(), |i: int| false),
                graph_wf(self.names@, self.deps@),
                deg@.len() == n,
                forall|d: int| 0 <= d < n ==> #[trigger] deg@[d] == incoming(self.deps@, none, d, u as int),
            decreases n - u,
        {
            let row: &Vec<usize> = &self.deps[u];
            let mut k: usize = 0;
            assert forall|d: int| 0 <= d < n implies #[trigger] deg@[d] == incoming(self.deps@, none, d, u as int) + times(
                row@.take(0),
                d,
            ) by {
                assert(times(row@.take(0), d) == 0);
            }
            while k < row.len()
                invariant
                    n == self.names@.len(),
                    u < n,
                    row == self.deps@[u as int],
                    k <= row@.len(),
                    graph_wf(self.names@, self.deps@),
                    deg@.len() == n,
                    forall|d: int|
                        0 <= d < n ==> #[trigger] deg@[d] == incoming(self.deps@, none, d, u as int) + times(
                            row@.take(k as int),
                            d,
                        ),
                decreases row@.len() - k,
            {
                let d: usize = row[k];
                let ghost before = deg@;
                proof {
                    assert(self.deps@[u as int]@[k as int] < n);
                    assert(row@.take(k + 1).drop_last() == row@.take(k as int));
                    assert forall|w: int| 0 <= w < self.deps@.len() implies #[trigger] self.deps@[w]@.len() <= usize::MAX by {
                        vec_len_bound(&self.deps@[w]);
                    }
                    lemma_incoming_bound(self.deps@, none, d as int, u as int);
                    lemma_times_zero(row@.take(k as int), d as int);
                    assert(u * usize::MAX + usize::MAX < u128::MAX) by (nonlinear_arith)
                        requires
                            u < usize::MAX,
                            usize::MAX <= 0xffff_ffff_ffff_ffff,
                    ;
                }
                deg[d] += 1;
                assert forall|e: int| 0 <= e < n implies #[trigger] deg@[e] == incoming(self.deps@, none, e, u as int) + times(
                    row@.take(k + 1),
                    e,
                ) by {
                    assert(before[e] == incoming(self.deps@, none, e, u as int) + times(row@.take(k as int), e));
                }
                k += 1;
            }
            proof {
                assert(row@.take(k as int) == row@);
                assert(!none[u as int]);
            }
            u += 1;
        }
        deg
    }

    /// Counts off what the package at `u` needs. What is then no longer needed is
    /// handed back.
    fn release(&self, u: usize, deg: &mut Vec<u128>, Ghost(base): Ghost<Seq<nat>>) -> (r: Vec<Node>)
        requires
            graph_wf(self.names@, self.deps@),
            u < self.names@.len(),
            old(deg)@.len() == self.names@.len(),
            base.len() == self.names@.len(),
            forall|d: int|
                0 <= d < base.len() ==> #[trigger] old(deg)@[d] == base[d] + times(self.deps@[u as int]@, d),
        ensures
            final(deg)@.len() == self.names@.len(),
            forall|d: int| 0 <= d < base.len() ==> #[trigger] final(deg)@[d] == base[d],
            forall|i: int|
                0 <= i < r@.len() ==> (#[trigger] r@[i]).index < self.names@.len() && r@[i].name@
                    == self.names@[r@[i].index as int]@,
            node_indices(r@).no_duplicates(),
            forall|d: int|
                0 <= d < base.len() ==> (node_indices(r@).contains(d as usize) <==> base[d] == 0 && #[trigger] times(
                    self.deps@[u as int]@,
                    d,
                ) > 0),
    {
        let row: &Vec<usize> = &self.deps[u];
        let n: usize = self.names.len();
        let mut out: Vec<Node> = Vec::new();
        let mut k: usize = 0;
        proof {
            assert(row@.skip(0) == row@);
            assert forall|d: int| 0 <= d < base.len() implies times(row@.take(0), d) == 0 by {}
        }
        while k < row.len()
            invariant
                graph_wf(self.names@, self.deps@),
                n == self.names@.len(),
                u < n,
                row == self.deps@[u as int],
                k <= row@.len(),
                deg@.len() == n,
                base.len() == n,
                forall|d: int| 0 <= d < n ==> #[trigger] deg@[d] == base[d] + times(row@.skip(k as int), d),
                forall|i: int|
                    0 <= i < out@.len() ==> (#[trigger] out@[i]).index < n && out@[i].name@
                        == self.names@[out@[i].index as int]@,
                node_indices(out@).no_duplicates(),
                freed_so_far(out@, deg@, row@.take(k as int)),
            decreases row@.len() - k,
        {
            let d: usize = row[k];
            let ghost before = deg@;
            let ghost ob = out@;
            proof {
                assert(self.deps@[u as int]@[k as int] < n);
                assert(row@.take(k + 1).drop_last() == row@.take(k as int));
                assert(row@.skip(k as int)[0] == d);
                assert(row@.skip(k as int).drop_first() == row@.skip(k + 1));
                assert forall|e: int| 0 <= e < n implies times(row@.skip(k as int), e) == times(row@.skip(k + 1), e) + (if d == e {
                    1nat
                } else {
                    0nat
                }) by {
                    lemma_times_front(row@.skip(k as int), e);
                }
                assert(before[d as int] > 0);
                assert(!node_indices(ob).contains(d));
            }
            deg[d] -= 1;
            if deg[d] == 0 {
                out.push(Node { name: self.names[d].as_str().to_owned(), index: d });
                proof {
                    assert(node_indices(out@) == node_indices(ob).push(d));
                    assert forall|i: int, j: int| 0 <= i < j < out@.len() implies node_indices(out@)[i] != node_indices(out@)[j] by {
                        if j == ob.len() {
                            assert(node_indices(ob)[i] == node_indices(out@)[i]);
                        } else {
                            assert(node_indices(ob)[i] != node_indices(ob)[j]);
                        }
                    }
                }
            }
            proof {
                assert(row@.take(k + 1) == row@.take(k as int).push(d));
                lemma_freed_step(ob, out@, before, deg@, row@.take(k as int), d);
            }
            k += 1;
        }
        proof {
            assert(row@.take(k as int) == row@);
            assert(row@.skip(k as int) == Seq::<usize>::empty());
            assert forall|d: int| 0 <= d < n implies #[trigger] deg@[d] == base[d] by {
                assert(times(row@.skip(k as int), d) == 0);
            }
            assert forall|d: int| 0 <= d < n implies (node_indices(out@).contains(d as usize) <==> base[d] == 0
                && #[trigger] times(row@, d) > 0) by {
                assert(deg@[d] == base[d]);
            }
        }
        out
    }
}

proof fn lemma_freed_step(
    ob: Seq<Node>,
    out: Seq<Node>,
    before: Seq<u128>,
    deg: Seq<u128>,
    taken: Seq<usize>,
    d: usize,
)
    requires
        freed_so_far(ob, before, taken),
        d < before.len() <= usize::MAX,
        before[d as int] > 0,
        deg == before.update(d as int, (before[d as int] - 1) as u128),
        node_indices(out) == (if deg[d as int] == 0 {
            node_indices(ob).push(d)
        } else {
            node_indices(ob)
        }),
    ensures
        freed_so_far(out, deg, taken.push(d)),
{
    let t = taken.push(d);
    assert(t.drop_last() == taken);
    assert forall|e: int| 0 <= e < deg.len() implies (node_indices(out).contains(e as usize) <==> #[trigger] deg[e] == 0
        && times(t, e) > 0) by {
        assert(node_indices(ob).contains(e as usize) <==> before[e] == 0 && times(taken, e) > 0);
        if e == d {
            if deg[e] == 0 {
                assert(node_indices(out)[ob.len() as int] == d);
            }
        } else {
            if node_indices(ob).contains(e as usize) {
                let m = node_indices(ob).index_of(e as usize);
                assert(node_indices(out)[m] == e);
            }
            if node_indices(out).contains(e as usize) {
                let m = node_indices(out).index_of(e as usize);
                assert(node_indices(ob)[m] == e);
            }
        }
    }
}

/// `out` holds the packages among `taken` whose count has come down to zero.
spec fn freed_so_far(out: Seq<Node>, deg: Seq<u128>, taken: Seq<usize>) -> bool {
    forall|d: int|
        0 <= d < deg.len() ==> (node_indices(out).contains(d as usize) <==> #[trigger] deg[d] == 0 && times(taken, d) > 0)
}

proof fn vec_len_bound(v: &Vec<usize>)
    ensures
        v@.len() <= usize::MAX,
{
    assert(v.len() == v@.len());
}

proof fn lemma_names_at_no_dup(names: Seq<String>, s: Seq<Node>)
    requires
        views(names).no_duplicates(),
        node_indices(s).no_duplicates(),
        forall|i: int|
            0 <= i < s.len() ==> (#[trigger] s[i]).index < names.len() && s[i].name@ == names[s[i].index as int]@,
    ensures
        node_names(s).no_duplicates(),
{
    assert forall|i: int, j: int| 0 <= i < j < s.len() implies node_names(s)[i] != node_names(s)[j] by {
        assert(node_indices(s)[i] != node_indices(s)[j]);
        assert(views(names)[s[i].index as int] != views(names)[s[j].index as int]);
    }
}

/// Nodes sorted by name, as positions and as names.
fn sorted_indices(nodes: Vec<Node>, Ghost(names): Ghost<Seq<String>>) -> (r: Vec<usize>)
    requires
        views(names).no_duplicates(),
        node_indices(nodes@).no_duplicates(),
        forall|i: int|
            0 <= i < nodes@.len() ==> (#[trigger] nodes@[i]).index < names.len() && nodes@[i].name@
                == names[nodes@[i].index as int]@,
    ensures
        names_at(names, r@) == in_order(node_names(nodes@).to_set()),
        forall|i: int| 0 <= i < r@.len() ==> #[trigger] r@[i] < names.len(),
{
    proof {
        lemma_names_at_no_dup(names, nodes@);
        lemma_nodes_in_order(nodes@);
    }
    let ghost all = nodes@;
    let sorted = sort_by_name(nodes);
    let mut r: Vec<usize> = Vec::new();
    let mut i: usize = 0;
    while i < sorted.len()
        invariant
            i <= sorted@.len(),
            r@ == node_indices(sorted@).take(i as int),
        decreases sorted@.len() - i,
    {
        r.push(sorted[i].index);
        i += 1;
        assert(r@ == node_indices(sorted@).take(i as int));
    }
    proof {
        assert(r@ == node_indices(sorted@));
        assert forall|i: int| 0 <= i < r@.len() implies #[trigger] r@[i] < names.len() && names[r@[i] as int]@ == node_names(sorted@)[i] by {
            assert(sorted@.contains(sorted@[i]));
            assert(all.contains(sorted@[i]));
            let m = all.index_of(sorted@[i]);
            assert(all[m] == sorted@[i]);
        }
        assert(names_at(names, r@) == node_names(sorted@));
    }
    r
}

proof fn lemma_freed_names(names: Seq<String>, deps: Seq<Vec<usize>>, done: Seq<bool>, u: int, s: Seq<Node>)
    requires
        graph_wf(names, deps),
        done.len() == names.len(),
        0 <= u < names.len(),
        forall|i: int|
            0 <= i < s.len() ==> (#[trigger] s[i]).index < names.len() && s[i].name@ == names[s[i].index as int]@,
        forall|d: int|
            0 <= d < names.len() ==> (node_indices(s).contains(d as usize) <==> incoming(
                deps,
                done.update(u, true),
                d,
                names.len() as int,
            ) == 0 && #[trigger] times(deps[u]@, d) > 0),
        names.len() <= usize::MAX,
    ensures
        node_names(s).to_set() == freed_by(graph_view(names, deps), done_names(names, done), names[u]@),
{
    let g = graph_view(names, deps);
    let n = names.len() as int;
    let d1 = done.update(u, true);
    assert(done_names(names, d1) =~= done_names(names, done).insert(names[u]@)) by {
        assert forall|x: Seq<char>| done_names(names, d1).contains(x) <==> done_names(names, done).insert(names[u]@).contains(x) by {
            if done_names(names, d1).contains(x) {
                let w = choose|w: int| 0 <= w < n && d1[w] && #[trigger] names[w]@ == x;
                if w != u {
                    assert(done[w]);
                }
            }
            if done_names(names, done).contains(x) {
                let w = choose|w: int| 0 <= w < n && done[w] && #[trigger] names[w]@ == x;
                assert(d1[w]);
            }
            if x == names[u]@ {
                assert(d1[u]);
            }
        }
    }
    let f = freed_by(g, done_names(names, done), names[u]@);
    assert forall|x: Seq<char>| node_names(s).to_set().contains(x) <==> f.contains(x) by {
        if node_names(s).contains(x) {
            let k = node_names(s).index_of(x);
            let d = s[k].index as int;
            assert(node_indices(s)[k] == d);
            assert(node_indices(s).contains(d as usize));
            assert(times(deps[u]@, d) > 0);
            lemma_times_zero(deps[u]@, d);
            lemma_needs_by_index(names, deps, u, d);
            lemma_free_by_index(names, deps, d1, d);
        }
        if f.contains(x) {
            assert(needs(g, names[u]@, x));
            assert(g.contains_key(x));
            let d = views(names).index_of(x);
            assert(views(names)[d] == x);
            lemma_needs_by_index(names, deps, u, d);
            lemma_times_zero(deps[u]@, d);
            lemma_free_by_index(names, deps, d1, d);
            assert(times(deps[u]@, d) > 0);
            assert(node_indices(s).contains(d as usize));
            let k = node_indices(s).index_of(d as usize);
            assert(node_names(s)[k] == x);
        }
    }
    assert(node_names(s).to_set() =~= f);
}

impl DependencyGraph {
    /// The packages that nothing needs, in the order of their names.
    fn start(&self, deg: &Vec<u128>) -> (r: Vec<usize>)
        requires
            graph_wf(self.names@, self.deps@),
            deg@.len() == self.names@.len(),
            forall|d: int|
                0 <= d < deg@.len() ==> #[trigger] deg@[d] == incoming(
                    self.deps@,
                    Seq::new(self.names@.len(), |i: int| false),
                    d,
                    self.names@.len() as int,
                ),
        ensures
            names_at(self.names@, r@) == in_order(roots(self@)),
            forall|i: int| 0 <= i < r@.len() ==> #[trigger] r@[i] < self.names@.len(),
    {
        let n: usize = self.names.len();
        let ghost none = Seq::new(self.names@.len(), |i: int| false);
        let mut nodes: Vec<Node> = Vec::new();
        let mut i: usize = 0;
        while i < n
            invariant
                n == self.names@.len(),
                i <= n,
                deg@.len() == n,
                forall|k: int|
                    0 <= k < nodes@.len() ==> (#[trigger] nodes@[k]).index < i && nodes@[k].name@
                        == self.names@[nodes@[k].index as int]@,
                node_indices(nodes@).no_duplicates(),
                forall|d: int| 0 <= d < i ==> (node_indices(nodes@).contains(d as usize) <==> #[trigger] deg@[d] == 0),
            decreases n - i,
        {
            let ghost ob = nodes@;
            assert(!node_indices(ob).contains(i)) by {
                if node_indices(ob).contains(i) {
                    let m = node_indices(ob).index_of(i);
                    assert(ob[m].index < i);
                }
            }
            if deg[i] == 0 {
                nodes.push(Node { name: self.names[i].as_str().to_owned(), index: i });
                proof {
                    assert(node_indices(nodes@) == node_indices(ob).push(i));
                    assert forall|d: int| 0 <= d < i + 1 implies (node_indices(nodes@).contains(d as usize)
                        <==> #[trigger] deg@[d] == 0) by {
                        if d == i {
                            assert(node_indices(nodes@)[ob.len() as int] == i);
                        } else {
                            if node_indices(ob).contains(d as usize) {
                                let m = node_indices(ob).index_of(d as usize);
                                assert(node_indices(nodes@)[m] == d);
                            }
                            if node_indices(nodes@).contains(d as usize) {
                                let m = node_indices(nodes@).index_of(d as usize);
                                assert(node_indices(ob)[m] == d);
                            }
                        }
                    }
                    assert forall|a: int, b: int| 0 <= a < b < nodes@.len() implies node_indices(nodes@)[a] != node_indices(nodes@)[b] by {
                        if b == ob.len() {
                            assert(ob[a].index < i);
                        } else {
                            assert(node_indices(ob)[a] != node_indices(ob)[b]);
                        }
                    }
                }
            }
            i += 1;
        }
        proof {
            let g = self@;
            let s = nodes@;
            assert(done_names(self.names@, none) =~= Set::empty());
            assert forall|x: Seq<char>| node_names(s).to_set().contains(x) <==> roots(g).contains(x) by {
                if node_names(s).contains(x) {
                    let k = node_names(s).index_of(x);
                    let d = s[k].index as int;
                    assert(node_indices(s)[k] == d);
                    assert(deg@[d] == 0);
                    lemma_free_by_index(self.names@, self.deps@, none, d);
                }
                if roots(g).contains(x) {
                    let d = views(self.names@).index_of(x);
                    assert(views(self.names@)[d] == x);
                    lemma_free_by_index(self.names@, self.deps@, none, d);
                    assert(deg@[d] == 0);
                    let k = node_indices(s).index_of(d as usize);
                    assert(node_names(s)[k] == x);
                }
            }
            assert(node_names(s).to_set() =~= roots(g));
        }
        sorted_indices(nodes, Ghost(self.names@))
    }

    /// The packages that can be put in order, dependents first, as positions.
    fn peel_all(&self) -> (r: Vec<usize>)
        requires
            graph_wf(self.names@, self.deps@),
        ensures
            names_at(self.names@, r@) == peeled(self@),
            forall|i: int| 0 <= i < r@.len() ==> #[trigger] r@[i] < self.names@.len(),
    {
        let n: usize = self.names.len();
        let ghost g = self@;
        let ghost names = self.names@;
        let mut deg = self.degrees();
        let mut queue = self.start(&deg);
        let mut head: usize = 0;
        let ghost mut done: Seq<bool> = Seq::new(names.len(), |i: int| false);
        let ghost mut set: Set<Seq<char>> = Set::empty();
        proof {
            lemma_graph_dom(names, self.deps@);
            lemma_start(g);
            assert(done_names(names, done) =~= set);
            assert(queue@.skip(0) == queue@);
            assert(queue@.take(0) == Seq::<usize>::empty());
            assert(names_at(names, queue@.take(0)) + peel(g, names_at(names, queue@.skip(0)), set, names.len()) == peeled(g));
        }
        while head < queue.len()
            invariant
                graph_wf(self.names@, self.deps@),
                g == self@,
                names == self.names@,
                n == names.len(),
                g.dom().finite(),
                g.dom().len() == n,
                head <= queue@.len(),
                done.len() == n,
                set == done_names(names, done),
                set.len() == head,
                deg@.len() == n,
                forall|d: int| 0 <= d < n ==> #[trigger] deg@[d] == incoming(self.deps@, done, d, n as int),
                forall|i: int| 0 <= i < queue@.len() ==> #[trigger] queue@[i] < n,
                head <= n,
                peel_inv(g, names_at(names, queue@.skip(head as int)), set),
                names_at(names, queue@.take(head as int)) + peel(
                    g,
                    names_at(names, queue@.skip(head as int)),
                    set,
                    (n - head) as nat,
                ) == peeled(g),
            decreases n - head,
        {
            let u: usize = queue[head];
            let ghost qn = names_at(names, queue@.skip(head as int));
            let ghost un = names[u as int]@;
            proof {
                assert(qn[0] == un);
                lemma_peel_step(g, qn, set);
                if head == n {
                    vstd::set_lib::lemma_subset_equality(set, g.dom());
                }
                assert(!done[u as int]);
                assert forall|d: int| 0 <= d < n implies #[trigger] deg@[d] == incoming(self.deps@, done.update(u as int, true), d, n as int)
                    + times(self.deps@[u as int]@, d) by {
                    lemma_incoming_done(self.deps@, done, d, u as int, n as int);
                }
            }
            let ghost base = Seq::new(n as nat, |d: int| incoming(self.deps@, done.update(u as int, true), d, n as int));
            let freed = self.release(u, &mut deg, Ghost(base));
            proof {
                assert forall|d: int| 0 <= d < n implies (node_indices(freed@).contains(d as usize) <==> incoming(
                    self.deps@,
                    done.update(u as int, true),
                    d,
                    n as int,
                ) == 0 && #[trigger] times(self.deps@[u as int]@, d) > 0) by {
                    assert(base[d] == incoming(self.deps@, done.update(u as int, true), d, n as int));
                }
                lemma_freed_names(names, self.deps@, done, u as int, freed@);
            }
            let mut next = sorted_indices(freed, Ghost(names));
            let ghost oq = queue@;
            let ghost nx = next@;
            queue.append(&mut next);
            proof {
                let old_set = set;
                let old_done = done;
                done = done.update(u as int, true);
                set = set.insert(un);
                assert(done_names(names, done) =~= set) by {
                    assert forall|x: Seq<char>| done_names(names, done).contains(x) <==> set.contains(x) by {
                        if done_names(names, done).contains(x) {
                            let w = choose|w: int| 0 <= w < n && done[w] && #[trigger] names[w]@ == x;
                            if w != u {
                                assert(old_done[w]);
                            }
                        }
                        if old_set.contains(x) {
                            let w = choose|w: int| 0 <= w < n && old_done[w] && #[trigger] names[w]@ == x;
                            assert(done[w]);
                        }
                        if x == un {
                            assert(done[u as int]);
                        }
                    }
                }
                assert(queue@ == oq + nx);
                let rest = names_at(names, queue@.skip(head + 1));
                assert(rest == qn.drop_first() + in_order(freed_by(g, old_set, un)));
                assert(names_at(names, queue@.take(head + 1)) == names_at(names, oq.take(head as int)).push(un));
                let tail = peel(g, rest, set, (n - head - 1) as nat);
                assert(peel(g, qn, old_set, (n - head) as nat) == seq![un] + tail);
                assert(names_at(names, oq.take(head as int)) + (seq![un] + tail) == names_at(names, queue@.take(head + 1)) + tail);
                assert forall|d: int| 0 <= d < n implies #[trigger] deg@[d] == incoming(self.deps@, done, d, n as int) by {
                    assert(base[d] == incoming(self.deps@, done, d, n as int));
                }
                assert forall|i: int| 0 <= i < queue@.len() implies #[trigger] queue@[i] < n by {
                    if i < oq.len() {
                        assert(queue@[i] == oq[i]);
                    } else {
                        assert(queue@[i] == nx[i - oq.len()]);
                    }
                }
            }
            head += 1;
        }
        proof {
            assert(queue@.take(head as int) == queue@);
            assert(names_at(names, queue@.skip(head as int)) == Seq::<Seq<char>>::empty());
            assert(peeled(g) == names_at(names, queue@));
        }
        queue
    }

    /// The names of the packages in an order in which they can be installed; see
    /// [`install_order`].
    pub fn topological_sort(&self) -> (r: Result<Vec<String>, UvrError>)
        ensures
            self@.dom().finite(),
            closed_graph(self@),
            match r {
                Ok(order) => install_order(self@) == Ok::<Seq<Seq<char>>, ErrorView>(views(order@)),
                Err(e) => install_order(self@) == Err::<Seq<Seq<char>>, ErrorView>(e@),
            },
    {
        proof {
            use_type_invariant(self);
            lemma_graph_dom(self.names@, self.deps@);
            lemma_peeled(self@);
        }
        let order = self.peel_all();
        let n: usize = order.len();
        let ghost p = peeled(self@);
        let total: usize = self.names.len();
        if n != total {
            let mut flags: Vec<bool> = Vec::new();
            let mut i: usize = 0;
            while i < self.names.len()
                invariant
                    i <= self.names@.len(),
                    flags@.len() == i,
                    forall|k: int| 0 <= k < i ==> !#[trigger] flags@[k],
                decreases self.names@.len() - i,
            {
                flags.push(false);
                i += 1;
            }
            let mut k: usize = 0;
            while k < order.len()
                invariant
                    k <= order@.len(),
                    flags@.len() == self.names@.len(),
                    total == flags@.len(),
                    forall|j: int| 0 <= j < order@.len() ==> #[trigger] order@[j] < self.names@.len(),
                    forall|d: int|
                        0 <= d < flags@.len() ==> (#[trigger] flags@[d] <==> order@.take(k as int).contains(d as usize)),
                decreases order@.len() - k,
            {
                let d: usize = order[k];
                let ghost before = flags@;
                flags.set(d, true);
                proof {
                    assert forall|e: int| 0 <= e < flags@.len() implies (#[trigger] flags@[e] <==> order@.take(k + 1).contains(e as usize)) by {
                        assert(before[e] <==> order@.take(k as int).contains(e as usize));
                        if order@.take(k as int).contains(e as usize) {
                            let m = order@.take(k as int).index_of(e as usize);
                            assert(order@.take(k + 1)[m] == e);
                        }
                        if order@.take(k + 1).contains(e as usize) {
                            let m = order@.take(k + 1).index_of(e as usize);
                            if m < k {
                                assert(order@.take(k as int)[m] == e);
                            }
                        }
                        assert(order@.take(k + 1)[k as int] == d);
                    }
                }
                k += 1;
            }
            assert(order@.take(k as int) == order@);
            return Err(UvrError::CircularDependency(self.unordered(&flags, Ghost(order@))));
        }
        let mut r: Vec<String> = Vec::new();
        let mut i: usize = n;
        while i > 0
            invariant
                i <= n,
                n == order@.len(),
                p == names_at(self.names@, order@),
                forall|j: int| 0 <= j < order@.len() ==> #[trigger] order@[j] < self.names@.len(),
                views(r@) == p.reverse().take(n - i),
            decreases i,
        {
            let ghost before = r@;
            r.push(self.names[order[i - 1]].as_str().to_owned());
            assert(views(r@) == views(before).push(p[i - 1]));
            i -= 1;
            assert(views(r@) == p.reverse().take(n - i));
        }
        assert(p.reverse().take(n as int) == p.reverse());
        Ok(r)
    }

    /// The names of the packages that are not flagged, in order and separated by
    /// commas.
    fn unordered(&self, flags: &Vec<bool>, Ghost(order): Ghost<Seq<usize>>) -> (r: String)
        requires
            graph_wf(self.names@, self.deps@),
            flags@.len() == self.names@.len(),
            names_at(self.names@, order) == peeled(self@),
            forall|j: int| 0 <= j < order.len() ==> #[trigger] order[j] < self.names@.len(),
            forall|d: int| 0 <= d < flags@.len() ==> (#[trigger] flags@[d] <==> order.contains(d as usize)),
        ensures
            r@ == join(in_order(self@.dom().difference(peeled(self@).to_set())), ", "@),
    {
        let ghost names = self.names@;
        let mut nodes: Vec<Node> = Vec::new();
        let mut i: usize = 0;
        while i < self.names.len()
            invariant
                names == self.names@,
                i <= names.len(),
                flags@.len() == names.len(),
                forall|k: int|
                    0 <= k < nodes@.len() ==> (#[trigger] nodes@[k]).index < i && nodes@[k].name@
                        == names[nodes@[k].index as int]@,
                node_indices(nodes@).no_duplicates(),
                forall|d: int| 0 <= d < i ==> (node_indices(nodes@).contains(d as usize) <==> !#[trigger] flags@[d]),
            decreases names.len() - i,
        {
            let ghost ob = nodes@;
            assert(!node_indices(ob).contains(i)) by {
                if node_indices(ob).contains(i) {
                    let m = node_indices(ob).index_of(i);
                    assert(ob[m].index < i);
                }
            }
            if !flags[i] {
                nodes.push(Node { name: self.names[i].as_str().to_owned(), index: i });
                proof {
                    assert(node_indices(nodes@) == node_indices(ob).push(i));
                    assert forall|d: int| 0 <= d < i + 1 implies (node_indices(nodes@).contains(d as usize)
                        <==> !#[trigger] flags@[d]) by {
                        if d == i {
                            assert(node_indices(nodes@)[ob.len() as int] == i);
                        } else {
                            if node_indices(ob).contains(d as usize) {
                                let m = node_indices(ob).index_of(d as usize);
                                assert(node_indices(nodes@)[m] == d);
                            }
                            if node_indices(nodes@).contains(d as usize) {
                                let m = node_indices(nodes@).index_of(d as usize);
                                assert(node_indices(ob)[m] == d);
                            }
                        }
                    }
                    assert forall|a: int, b: int| 0 <= a < b < nodes@.len() implies node_indices(nodes@)[a] != node_indices(nodes@)[b] by {
                        if b == ob.len() {
                            assert(ob[a].index < i);
                        } else {
                            assert(node_indices(ob)[a] != node_indices(ob)[b]);
                        }
                    }
                }
            }
            i += 1;
        }
        let ghost s = nodes@;
        let ghost want = self@.dom().difference(peeled(self@).to_set());
        proof {
            lemma_graph_dom(names, self.deps@);
            assert forall|x: Seq<char>| node_names(s).to_set().contains(x) <==> want.contains(x) by {
                if node_names(s).contains(x) {
                    let k = node_names(s).index_of(x);
                    let d = s[k].index as int;
                    assert(node_indices(s)[k] == d);
                    assert(!flags@[d]);
                    lemma_name_index(names, d);
                    if peeled(self@).contains(x) {
                        let m = peeled(self@).index_of(x);
                        assert(names[order[m] as int]@ == x);
                        lemma_name_index(names, order[m] as int);
                        assert(order.contains(d as usize));
                    }
                }
                if want.contains(x) {
                    let d = views(names).index_of(x);
                    assert(views(names)[d] == x);
                    if order.contains(d as usize) {
                        let m = order.index_of(d as usize);
                        assert(peeled(self@)[m] == x);
                    }
                    assert(!flags@[d]);
                    let k = node_indices(s).index_of(d as usize);
                    assert(node_names(s)[k] == x);
                }
            }
            assert(node_names(s).to_set() =~= want);
        }
        let sorted = sorted_indices(nodes, Ghost(names));
        let mut out: Vec<String> = Vec::new();
        let mut k: usize = 0;
        while k < sorted.len()
            invariant
                names == self.names@,
                k <= sorted@.len(),
                forall|i: int| 0 <= i < sorted@.len() ==> #[trigger] sorted@[i] < names.len(),
                views(out@) == names_at(names, sorted@).take(k as int),
            decreases sorted@.len() - k,
        {
            let ghost before = out@;
            out.push(self.names[sorted[k]].as_str().to_owned());
            assert(views(out@) == views(before).push(names_at(names, sorted@)[k as int]));
            k += 1;
            assert(views(out@) == names_at(names, sorted@).take(k as int));
        }
        assert(names_at(names, sorted@).take(k as int) == names_at(names, sorted@));
        join_strings(&out, ", ")
    }
}

} // verus!

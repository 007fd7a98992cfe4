//! The order in which locked packages are installed.
use vstd::prelude::*;

use crate::error::{ErrorView, UvrError};
use crate::lockfile::{LockedPackage, LockedView};
use crate::order::view_each;
use crate::resolver::graph::{closed_graph, install_order, install_order_exists_without_cycles,
    install_order_puts_needs_first, is_cycle, needs, with_edge, with_node, DependencyGraph, Needs};
use crate::text::{same_str, views};

verus! {

/// The names of the packages.
pub open spec fn names_of(s: Seq<LockedView>) -> Set<Seq<char>> {
    s.map_values(|p: LockedView| p.name).to_set()
}

/// The graph with what `name` needs among `known`.
pub open spec fn linked_requires(
    g: Needs,
    name: Seq<char>,
    reqs: Seq<Seq<char>>,
    known: Set<Seq<char>>,
) -> Needs
    decreases reqs.len(),
{
    if reqs.len() == 0 {
        with_node(g, name)
    } else {
        let h = linked_requires(g, name, reqs.drop_last(), known);
        if known.contains(reqs.last()) {
            with_edge(h, name, reqs.last())
        } else {
            h
        }
    }
}

/// The graph of the packages and what they need among `known`.
pub open spec fn package_graph(s: Seq<LockedView>, known: Set<Seq<char>>) -> Needs
    decreases s.len(),
{
    if s.len() == 0 {
        Map::empty()
    } else {
        linked_requires(package_graph(s.drop_last(), known), s.last().name, s.last().requires, known)
    }
}

/// The packages of the given name, in their order.
pub open spec fn of_name(s: Seq<LockedView>, name: Seq<char>) -> Seq<LockedView>
    decreases s.len(),
{
    if s.len() == 0 {
        seq![]
    } else if s.last().name == name {
        of_name(s.drop_last(), name).push(s.last())
    } else {
        of_name(s.drop_last(), name)
    }
}

/// The packages in the order of the names given.
pub open spec fn in_name_order(s: Seq<LockedView>, order: Seq<Seq<char>>) -> Seq<LockedView>
    decreases order.len(),
{
    if order.len() == 0 {
        seq![]
    } else {
        in_name_order(s, order.drop_last()) + of_name(s, order.last())
    }
}

/// The packages in an order in which they can be installed. What a package needs
/// that is not among them counts as installed.
pub open spec fn package_order(s: Seq<LockedView>) -> Result<Seq<LockedView>, ErrorView> {
    match install_order(package_graph(s, names_of(s))) {
        Ok(order) => Ok(in_name_order(s, order)),
        Err(e) => Err(e),
    }
}

/// The views of references to packages.
pub open spec fn ref_views(s: Seq<&LockedPackage>) -> Seq<LockedView> {
    s.map_values(|p: &LockedPackage| p@)
}

fn is_among(packages: &[LockedPackage], name: &str) -> (r: bool)
    ensures
        r == names_of(view_each(packages@)).contains(name@),
{
    let ghost names = view_each(packages@).map_values(|p: LockedView| p.name);
    let mut i: usize = 0;
    while i < packages.len()
        invariant
            i <= packages@.len(),
            names == view_each(packages@).map_values(|p: LockedView| p.name),
            forall|j: int| 0 <= j < i ==> #[trigger] names[j] != name@,
        decreases packages@.len() - i,
    {
        assert(names[i as int] == packages@[i as int].name@);
        if same_str(packages[i].name.as_str(), name) {
            return true;
        }
        i += 1;
    }
    false
}

/// The packages in an order in which they can be installed; see [`package_order`].
pub fn topological_install_order(packages: &[LockedPackage]) -> (r: Result<Vec<&LockedPackage>, UvrError>)
    ensures
        match r {
            Ok(v) => package_order(view_each(packages@)) == Ok::<Seq<LockedView>, ErrorView>(ref_views(v@)),
            Err(e) => package_order(view_each(packages@)) == Err::<Seq<LockedView>, ErrorView>(e@),
        },
{
    let ghost s = view_each(packages@);
    let ghost known = names_of(s);
    let mut graph = DependencyGraph::new();
    let mut i: usize = 0;
    assert(s.take(0) == Seq::<LockedView>::empty());
    while i < packages.len()
        invariant
            i <= packages@.len(),
            s == view_each(packages@),
            known == names_of(s),
            graph@ == package_graph(s.take(i as int), known),
        decreases packages@.len() - i,
    {
        let p: &LockedPackage = &packages[i];
        let ghost g = graph@;
        let ghost reqs = views(p.requires@);
        proof {
            assert(s[i as int] == p@);
            assert(s.take(i + 1).drop_last() == s.take(i as int));
            assert(reqs.take(0) == Seq::<Seq<char>>::empty());
        }
        graph.add_node(p.name.as_str());
        let mut k: usize = 0;
        while k < p.requires.len()
            invariant
                k <= p.requires@.len(),
                s == view_each(packages@),
                known == names_of(s),
                reqs == views(p.requires@),
                graph@ == linked_requires(g, p.name@, reqs.take(k as int), known),
            decreases p.requires@.len() - k,
        {
            proof {
                assert(reqs.take(k + 1).drop_last() == reqs.take(k as int));
                assert(reqs.take(k + 1).last() == p.requires@[k as int]@);
            }
            if is_among(packages, p.requires[k].as_str()) {
                graph.add_edge(p.name.as_str(), p.requires[k].as_str());
            }
            k += 1;
        }
        assert(reqs.take(k as int) == reqs);
        i += 1;
    }
    assert(s.take(i as int) == s);
    let order = match graph.topological_sort() {
        Ok(order) => order,
        Err(e) => {
            return Err(e);
        },
    };
    let ghost names = views(order@);
    let mut out: Vec<&LockedPackage> = Vec::new();
    let mut a: usize = 0;
    proof {
        assert(names.take(0) == Seq::<Seq<char>>::empty());
        assert(ref_views(out@) == Seq::<LockedView>::empty());
    }
    while a < order.len()
        invariant
            a <= order@.len(),
            s == view_each(packages@),
            names == views(order@),
            ref_views(out@) == in_name_order(s, names.take(a as int)),
        decreases order@.len() - a,
    {
        let ghost front = ref_views(out@);
        let name = order[a].as_str();
        let mut b: usize = 0;
        proof {
            assert(s.take(0) == Seq::<LockedView>::empty());
            assert(front + of_name(s.take(0), name@) == front);
        }
        while b < packages.len()
            invariant
                b <= packages@.len(),
                s == view_each(packages@),
                ref_views(out@) == front + of_name(s.take(b as int), name@),
            decreases packages@.len() - b,
        {
            let ghost before = out@;
            proof {
                assert(s[b as int] == packages@[b as int]@);
                assert(s.take(b + 1).drop_last() == s.take(b as int));
            }
            if same_str(packages[b].name.as_str(), name) {
                out.push(&packages[b]);
                proof {
                    assert(ref_views(out@) == ref_views(before).push(s[b as int]));
                    assert(ref_views(before).push(s[b as int]) == front + of_name(s.take(b + 1), name@));
                }
            }
            b += 1;
        }
        proof {
            assert(s.take(b as int) == s);
            assert(names.take(a + 1).drop_last() == names.take(a as int));
            assert(names.take(a + 1).last() == name@);
        }
        a += 1;
    }
    assert(names.take(a as int) == names);
    Ok(out)
}

// ---------------------------------------------------------------------------
// Laws
// ---------------------------------------------------------------------------

proof fn lemma_linked_requires(g: Needs, name: Seq<char>, reqs: Seq<Seq<char>>, known: Set<Seq<char>>)
    requires
        g.dom().finite(),
    ensures
        ({
            let h = linked_requires(g, name, reqs, known);
            &&& h.dom().finite()
            &&& h.contains_key(name)
            &&& forall|x: Seq<char>|
                #[trigger] h.contains_key(x) ==> g.contains_key(x) || x == name || (known.contains(x) && reqs.contains(x))
            &&& forall|x: Seq<char>| #[trigger] g.contains_key(x) ==> h.contains_key(x)
            &&& forall|u: Seq<char>, d: Seq<char>| #[trigger]
                needs(h, u, d) <==> needs(g, u, d) || (u == name && known.contains(d) && reqs.contains(d))
        }),
    decreases reqs.len(),
{
    let h = linked_requires(g, name, reqs, known);
    if reqs.len() > 0 {
        let front = reqs.drop_last();
        let r = reqs.last();
        let m = linked_requires(g, name, front, known);
        lemma_linked_requires(g, name, front, known);
        assert forall|d: Seq<char>| reqs.contains(d) <==> front.contains(d) || d == r by {
            if reqs.contains(d) {
                let k = reqs.index_of(d);
                if k < front.len() {
                    assert(front[k] == d);
                }
            }
            if front.contains(d) {
                let k = front.index_of(d);
                assert(reqs[k] == d);
            }
            assert(reqs[reqs.len() - 1] == r);
        }
        if known.contains(r) {
            lemma_with_edge(m, name, r);
        }
    } else {
        assert forall|u: Seq<char>, d: Seq<char>| #[trigger]
            needs(h, u, d) <==> needs(g, u, d) || (u == name && known.contains(d) && reqs.contains(d)) by {
            if u == name && !g.contains_key(name) {
                assert(h[u].len() == 0);
            }
        }
    }
}

proof fn lemma_with_edge(g: Needs, from: Seq<char>, to: Seq<char>)
    requires
        g.contains_key(from),
    ensures
        forall|u: Seq<char>, d: Seq<char>| #[trigger]
            needs(with_edge(g, from, to), u, d) <==> needs(g, u, d) || (u == from && d == to),
        with_edge(g, from, to).dom() == g.dom().insert(to),
{
    let h = with_edge(g, from, to);
    let mid = with_node(with_node(g, from), to);
    assert(h.dom() =~= g.dom().insert(to));
    assert forall|u: Seq<char>, d: Seq<char>| #[trigger] needs(h, u, d) <==> needs(g, u, d) || (u == from && d == to) by {
        if u == from {
            assert(mid[from] == g[from]);
            if h[from].contains(d) {
                let k = h[from].index_of(d);
                if k < g[from].len() {
                    assert(g[from][k] == d);
                }
            }
            if g[from].contains(d) {
                let k = g[from].index_of(d);
                assert(h[from][k] == d);
            }
            assert(h[from][g[from].len() as int] == to);
        }
    }
}

/// A package needs another in the graph if and only if an entry of its name
/// requires it and it is known.
proof fn lemma_package_graph(s: Seq<LockedView>, known: Set<Seq<char>>)
    ensures
        ({
            let g = package_graph(s, known);
            &&& g.dom().finite()
            &&& forall|i: int| 0 <= i < s.len() ==> g.contains_key(#[trigger] s[i].name)
            &&& forall|x: Seq<char>| #[trigger]
                g.contains_key(x) ==> known.contains(x) || names_of(s).contains(x)
            &&& forall|i: int, d: Seq<char>|
                0 <= i < s.len() && #[trigger] s[i].requires.contains(d) && known.contains(d) ==> needs(g, s[i].name, d)
            &&& forall|u: Seq<char>, d: Seq<char>| #[trigger]
                needs(g, u, d) ==> known.contains(d) && exists|i: int|
                    0 <= i < s.len() && s[i].name == u && #[trigger] s[i].requires.contains(d)
        }),
    decreases s.len(),
{
    let g = package_graph(s, known);
    if s.len() > 0 {
        let front = s.drop_last();
        let p = s.last();
        let h = package_graph(front, known);
        lemma_package_graph(front, known);
        lemma_linked_requires(h, p.name, p.requires, known);
        assert forall|x: Seq<char>| names_of(front).contains(x) implies names_of(s).contains(x) by {
            let a = front.map_values(|p: LockedView| p.name);
            let k = a.index_of(x);
            assert(s.map_values(|p: LockedView| p.name)[k] == x);
        }
        assert(names_of(s).contains(p.name)) by {
            assert(s.map_values(|p: LockedView| p.name)[s.len() - 1] == p.name);
        }
        assert forall|i: int| 0 <= i < s.len() implies g.contains_key(#[trigger] s[i].name) by {
            if i < front.len() {
                assert(h.contains_key(front[i].name));
            }
        }
        assert forall|i: int, d: Seq<char>|
            0 <= i < s.len() && #[trigger] s[i].requires.contains(d) && known.contains(d) implies needs(g, s[i].name, d) by {
            if i < front.len() {
                assert(front[i].requires.contains(d));
                assert(needs(h, front[i].name, d));
            }
        }
        assert forall|u: Seq<char>, d: Seq<char>| #[trigger] needs(g, u, d) implies known.contains(d) && exists|i: int|
            0 <= i < s.len() && s[i].name == u && #[trigger] s[i].requires.contains(d) by {
            if needs(h, u, d) {
                let i = choose|i: int| 0 <= i < front.len() && front[i].name == u && #[trigger] front[i].requires.contains(d);
                assert(s[i] == front[i]);
                assert(s[i].requires.contains(d));
            } else {
                assert(s[s.len() - 1].requires.contains(d));
            }
        }
    }
}

proof fn lemma_of_name(s: Seq<LockedView>, name: Seq<char>)
    ensures
        forall|i: int| 0 <= i < of_name(s, name).len() ==> (#[trigger] of_name(s, name)[i]).name == name && s.contains(
            of_name(s, name)[i],
        ),
        forall|i: int| 0 <= i < s.len() && (#[trigger] s[i]).name == name ==> of_name(s, name).contains(s[i]),
    decreases s.len(),
{
    if s.len() > 0 {
        let front = s.drop_last();
        lemma_of_name(front, name);
        let a = of_name(front, name);
        let b = of_name(s, name);
        assert forall|i: int| 0 <= i < b.len() implies (#[trigger] b[i]).name == name && s.contains(b[i]) by {
            if i < a.len() {
                assert(a[i].name == name && front.contains(a[i]));
                let k = front.index_of(a[i]);
                assert(s[k] == a[i]);
            } else {
                assert(s[s.len() - 1] == b[i]);
            }
        }
        assert forall|i: int| 0 <= i < s.len() && (#[trigger] s[i]).name == name implies b.contains(s[i]) by {
            if i < front.len() {
                assert(front[i].name == name);
                assert(a.contains(front[i]));
                let k = a.index_of(front[i]);
                assert(b[k] == s[i]);
            } else {
                assert(b[a.len() as int] == s[i]);
            }
        }
    }
}

/// A part of the output and the name it is for.
proof fn lemma_in_name_order(s: Seq<LockedView>, order: Seq<Seq<char>>)
    requires
        order.no_duplicates(),
    ensures
        forall|i: int|
            0 <= i < in_name_order(s, order).len() ==> s.contains(#[trigger] in_name_order(s, order)[i])
                && order.contains(in_name_order(s, order)[i].name),
        forall|i: int|
            0 <= i < s.len() && order.contains((#[trigger] s[i]).name) ==> in_name_order(s, order).contains(s[i]),
        forall|i: int, j: int|
            0 <= i < in_name_order(s, order).len() && 0 <= j < in_name_order(s, order).len() && order.index_of(
                (#[trigger] in_name_order(s, order)[i]).name,
            ) < order.index_of((#[trigger] in_name_order(s, order)[j]).name) ==> i < j,
    decreases order.len(),
{
    let out = in_name_order(s, order);
    if order.len() > 0 {
        let front = order.drop_last();
        let n = order.last();
        let a = in_name_order(s, front);
        let b = of_name(s, n);
        lemma_in_name_order(s, front);
        lemma_of_name(s, n);
        assert(order[order.len() - 1] == n);
        assert forall|x: Seq<char>| front.contains(x) implies order.contains(x) && order.index_of(x) == front.index_of(x)
            && x != n by {
            let k = front.index_of(x);
            assert(order[k] == x);
            let m = order.index_of(x);
            assert(order[m] == order[k]);
        }
        assert(order.index_of(n) == order.len() - 1) by {
            let m = order.index_of(n);
            assert(order[m] == order[order.len() - 1]);
        }
        assert forall|i: int| 0 <= i < out.len() implies s.contains(#[trigger] out[i]) && order.contains(out[i].name) by {
            if i < a.len() {
                assert(s.contains(a[i]) && front.contains(a[i].name));
            } else {
                assert(b[i - a.len()].name == n && s.contains(b[i - a.len()]));
            }
        }
        assert forall|i: int| 0 <= i < s.len() && order.contains((#[trigger] s[i]).name) implies out.contains(s[i]) by {
            if s[i].name == n {
                assert(b.contains(s[i]));
                let k = b.index_of(s[i]);
                assert(out[a.len() + k] == s[i]);
            } else {
                let k = order.index_of(s[i].name);
                assert(front[k] == s[i].name);
                assert(a.contains(s[i]));
                let m = a.index_of(s[i]);
                assert(out[m] == s[i]);
            }
        }
        assert forall|i: int, j: int|
            0 <= i < out.len() && 0 <= j < out.len() && order.index_of((#[trigger] out[i]).name) < order.index_of(
                (#[trigger] out[j]).name,
            ) implies i < j by {
            if i < a.len() {
                assert(front.contains(a[i].name));
                if j < a.len() {
                    assert(front.contains(a[j].name));
                    assert(out[i] == a[i] && out[j] == a[j]);
                }
            } else {
                assert(b[i - a.len()].name == n);
                if j < a.len() {
                    assert(front.contains(a[j].name));
                    let k = front.index_of(a[j].name);
                    assert(k < front.len());
                } else {
                    assert(b[j - a.len()].name == n);
                }
            }
        }
    }
}

proof fn lemma_of_name_counts(s: Seq<LockedView>, name: Seq<char>, x: LockedView)
    ensures
        of_name(s, name).to_multiset().count(x) == (if x.name == name {
            s.to_multiset().count(x)
        } else {
            0
        }),
    decreases s.len(),
{
    broadcast use vstd::seq_lib::group_to_multiset_ensures;

    if s.len() > 0 {
        let front = s.drop_last();
        lemma_of_name_counts(front, name, x);
        assert(s == front.push(s.last()));
    }
}

proof fn lemma_in_name_order_counts(s: Seq<LockedView>, order: Seq<Seq<char>>, x: LockedView)
    requires
        order.no_duplicates(),
    ensures
        in_name_order(s, order).to_multiset().count(x) == (if order.contains(x.name) {
            s.to_multiset().count(x)
        } else {
            0
        }),
    decreases order.len(),
{
    broadcast use vstd::seq_lib::group_to_multiset_ensures;

    if order.len() > 0 {
        let front = order.drop_last();
        let n = order.last();
        lemma_in_name_order_counts(s, front, x);
        lemma_of_name_counts(s, n, x);
        vstd::seq_lib::lemma_multiset_commutative(in_name_order(s, front), of_name(s, n));
        assert(order[order.len() - 1] == n);
        if front.contains(x.name) {
            let k = front.index_of(x.name);
            assert(order[k] == x.name);
            assert(x.name != n);
        } else if order.contains(x.name) {
            let k = order.index_of(x.name);
            if k < front.len() {
                assert(front[k] == x.name);
            }
        }
    }
}

/// A package of the name `u` among the packages requires `d`, which is among them too.
pub open spec fn demands(s: Seq<LockedView>, u: Seq<char>, d: Seq<char>) -> bool {
    names_of(s).contains(d) && exists|i: int|
        0 <= i < s.len() && s[i].name == u && #[trigger] s[i].requires.contains(d)
}

/// `path` leads from package to required package and from its end back to its start.
pub open spec fn is_demand_cycle(s: Seq<LockedView>, path: Seq<Seq<char>>) -> bool {
    &&& path.len() > 0
    &&& forall|i: int| 0 <= i < path.len() - 1 ==> #[trigger] demands(s, path[i], path[i + 1])
    &&& demands(s, path.last(), path[0])
}

/// The packages can be put in order if and only if none requires itself, be it through
/// others among them.
pub proof fn package_order_exists_without_cycles(s: Seq<LockedView>)
    ensures
        package_order(s) is Ok <==> forall|path: Seq<Seq<char>>| !#[trigger] is_demand_cycle(s, path),
{
    let known = names_of(s);
    let g = package_graph(s, known);
    lemma_package_graph(s, known);
    assert forall|u: Seq<char>, d: Seq<char>| #[trigger] needs(g, u, d) <==> demands(s, u, d) by {}
    assert(closed_graph(g)) by {
        assert forall|u: Seq<char>, d: Seq<char>| #[trigger] needs(g, u, d) implies g.contains_key(d) by {
            let names = s.map_values(|p: LockedView| p.name);
            let k = names.index_of(d);
            assert(s[k].name == d);
        }
    }
    install_order_exists_without_cycles(g);
    assert forall|path: Seq<Seq<char>>| #[trigger] is_demand_cycle(s, path) <==> is_cycle(g, path) by {
        if is_cycle(g, path) {
            assert forall|i: int| 0 <= i < path.len() - 1 implies #[trigger] demands(s, path[i], path[i + 1]) by {
                assert(needs(g, path[i], path[i + 1]));
            }
        }
        if is_demand_cycle(s, path) {
            assert forall|i: int| 0 <= i < path.len() - 1 implies #[trigger] needs(g, path[i], path[i + 1]) by {
                assert(demands(s, path[i], path[i + 1]));
            }
        }
    }
    if install_order(g) is Err {
        let path = choose|path: Seq<Seq<char>>| #[trigger] is_cycle(g, path);
        assert(is_demand_cycle(s, path));
    }
}

/// The install order holds the packages, each as often as before, and each package stands
/// after all those that it requires.
pub proof fn package_order_puts_requires_first(s: Seq<LockedView>)
    ensures
        package_order(s) matches Ok(r) ==> {
            &&& r.to_multiset() == s.to_multiset()
            &&& forall|i: int| 0 <= i < s.len() ==> r.contains(#[trigger] s[i])
            &&& forall|i: int| 0 <= i < r.len() ==> s.contains(#[trigger] r[i])
            &&& forall|i: int, j: int|
                0 <= i < r.len() && 0 <= j < r.len() && (#[trigger] r[i]).requires.contains((#[trigger] r[j]).name)
                    ==> j < i
        },
{
    let known = names_of(s);
    let g = package_graph(s, known);
    lemma_package_graph(s, known);
    install_order_puts_needs_first(g);
    if let Ok(order) = install_order(g) {
        lemma_in_name_order(s, order);
        let r = in_name_order(s, order);
        assert forall|i: int| 0 <= i < s.len() implies r.contains(#[trigger] s[i]) by {
            assert(g.contains_key(s[i].name));
            assert(order.to_set().contains(s[i].name));
        }
        assert(r.to_multiset() =~= s.to_multiset()) by {
            broadcast use vstd::seq_lib::group_to_multiset_ensures;

            assert forall|x: LockedView| #[trigger] r.to_multiset().count(x) == s.to_multiset().count(x) by {
                lemma_in_name_order_counts(s, order, x);
                if s.contains(x) {
                    let k = s.index_of(x);
                    assert(g.contains_key(s[k].name));
                    assert(order.to_set().contains(x.name));
                }
            }
        }
        assert forall|i: int, j: int|
            0 <= i < r.len() && 0 <= j < r.len() && (#[trigger] r[i]).requires.contains((#[trigger] r[j]).name) implies j < i by {
            let p = r[i];
            let q = r[j];
            assert(s.contains(p) && s.contains(q));
            let k = s.index_of(p);
            let m = s.index_of(q);
            assert(known.contains(q.name)) by {
                assert(s.map_values(|p: LockedView| p.name)[m] == q.name);
            }
            assert(s[k].requires.contains(q.name));
            assert(needs(g, p.name, q.name));
            let a = order.index_of(p.name);
            let b = order.index_of(q.name);
            assert(order[a] == p.name && order[b] == q.name);
            assert(needs(g, order[a], order[b]));
            assert(b < a);
        }
    }
}

} // verus!

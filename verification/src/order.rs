//! Sorting by name.
use vstd::prelude::*;

use crate::text::{precedes, precedes_is_irreflexive, precedes_is_total, precedes_is_transitive,
    str_before};

verus! {

/// A value that has a name by which it is ordered.
pub trait HasName {
    spec fn spec_name(&self) -> Seq<char>;
}

/// A value whose name can be read.
pub trait Named: HasName {
    fn name_text(&self) -> (r: &str)
        ensures
            r@ == self.spec_name(),
    ;
}

impl HasName for Seq<char> {
    open spec fn spec_name(&self) -> Seq<char> {
        *self
    }
}

impl HasName for String {
    open spec fn spec_name(&self) -> Seq<char> {
        self@
    }
}

impl Named for String {
    fn name_text(&self) -> (r: &str) {
        self.as_str()
    }
}

/// No item's name comes before that of an item on its left.
pub open spec fn by_name<T: HasName>(s: Seq<T>) -> bool {
    forall|i: int, j: int|
        0 <= i < j < s.len() ==> !precedes(#[trigger] s[j].spec_name(), #[trigger] s[i].spec_name())
}

/// The first position at or after `i` whose name does not come before that of `x`.
pub open spec fn name_slot<T: HasName>(s: Seq<T>, x: T, i: int) -> int
    decreases s.len() - i,
{
    if i >= s.len() {
        s.len() as int
    } else if precedes(s[i].spec_name(), x.spec_name()) {
        name_slot(s, x, i + 1)
    } else {
        i
    }
}

/// The items of `s` ordered by name, those of equal name in their order in `s`.
pub open spec fn name_sorted<T: HasName>(s: Seq<T>) -> Seq<T>
    decreases s.len(),
{
    if s.len() == 0 {
        s
    } else {
        let rest = name_sorted(s.drop_first());
        rest.insert(name_slot(rest, s[0], 0), s[0])
    }
}

proof fn lemma_name_slot<T: HasName>(s: Seq<T>, x: T, i: int)
    requires
        0 <= i <= s.len(),
    ensures
        i <= name_slot(s, x, i) <= s.len(),
        forall|j: int| i <= j < name_slot(s, x, i) ==> precedes(#[trigger] s[j].spec_name(), x.spec_name()),
        name_slot(s, x, i) < s.len() ==> !precedes(s[name_slot(s, x, i)].spec_name(), x.spec_name()),
    decreases s.len() - i,
{
    if i < s.len() && precedes(s[i].spec_name(), x.spec_name()) {
        lemma_name_slot(s, x, i + 1);
    }
}

/// Sorting by name keeps the items and puts them in order.
pub proof fn name_sorted_is_sorted<T: HasName>(s: Seq<T>)
    ensures
        by_name(name_sorted(s)),
        name_sorted(s).to_multiset() == s.to_multiset(),
        name_sorted(s).len() == s.len(),
    decreases s.len(),
{
    broadcast use vstd::seq_lib::group_to_multiset_ensures;

    if s.len() > 0 {
        let x = s[0];
        let rest = name_sorted(s.drop_first());
        name_sorted_is_sorted(s.drop_first());
        lemma_name_slot(rest, x, 0);
        let k = name_slot(rest, x, 0);
        let out = rest.insert(k, x);
        assert forall|i: int, j: int| 0 <= i < j < out.len() implies !precedes(
            #[trigger] out[j].spec_name(),
            #[trigger] out[i].spec_name(),
        ) by {
            let nx = x.spec_name();
            if j == k {
                let ni = rest[i].spec_name();
                precedes_is_irreflexive(nx);
                if precedes(nx, ni) {
                    precedes_is_transitive(nx, ni, nx);
                }
            } else if i == k {
                let nj = rest[j - 1].spec_name();
                let nk = rest[k].spec_name();
                if j - 1 > k {
                    if precedes(nj, nx) {
                        precedes_is_total(nk, nx);
                        if nk != nx {
                            precedes_is_transitive(nj, nx, nk);
                        }
                        assert(!precedes(rest[j - 1].spec_name(), rest[k].spec_name()));
                    }
                }
            } else {
                let a = if i < k { i } else { i - 1 };
                let b = if j < k { j } else { j - 1 };
                assert(!precedes(rest[b].spec_name(), rest[a].spec_name()));
            }
        }
        assert(s == seq![x] + s.drop_first());
        assert(out.to_multiset() == rest.to_multiset().insert(x));
        assert(s == s.drop_first().insert(0, x));
    }
}

/// The views of the items of a sequence.
pub open spec fn view_each<T: View>(s: Seq<T>) -> Seq<T::V> {
    s.map_values(|x: T| x@)
}

proof fn lemma_name_slot_of_views<T: View + HasName>(s: Seq<T>, x: T, i: int) where T::V: HasName
    requires
        forall|y: T| #[trigger] y.spec_name() == y@.spec_name(),
        0 <= i,
    ensures
        name_slot(view_each(s), x@, i) == name_slot(s, x, i),
    decreases s.len() - i,
{
    if i < s.len() {
        assert(view_each(s)[i].spec_name() == s[i].spec_name());
        lemma_name_slot_of_views(s, x, i + 1);
    }
}

/// Where an item has the name of its view, sorting by name and taking views can
/// be done in either order.
pub proof fn name_sorted_of_views<T: View + HasName>(s: Seq<T>) where T::V: HasName
    requires
        forall|y: T| #[trigger] y.spec_name() == y@.spec_name(),
    ensures
        name_sorted(view_each(s)) == view_each(name_sorted(s)),
    decreases s.len(),
{
    if s.len() > 0 {
        let rest = name_sorted(s.drop_first());
        name_sorted_of_views(s.drop_first());
        assert(view_each(s).drop_first() == view_each(s.drop_first()));
        lemma_name_slot_of_views(rest, s[0], 0);
        lemma_name_slot(rest, s[0], 0);
        let k = name_slot(rest, s[0], 0);
        assert(view_each(rest.insert(k, s[0])) == view_each(rest).insert(k, s[0]@));
    } else {
        assert(view_each(s) == Seq::<T::V>::empty());
        assert(view_each(name_sorted(s)) == Seq::<T::V>::empty());
    }
}

/// The items ordered by name; see [`name_sorted`].
pub fn sort_by_name<T: Named>(items: Vec<T>) -> (r: Vec<T>)
    ensures
        r@ == name_sorted(items@),
{
    let mut rest: Vec<T> = items;
    let mut out: Vec<T> = Vec::new();
    let ghost all = items@;
    while rest.len() > 0
        invariant
            rest@ == all.take(rest@.len() as int),
            rest@.len() <= all.len(),
            out@ == name_sorted(all.skip(rest@.len() as int)),
            out@.len() == all.len() - rest@.len(),
        decreases rest@.len(),
    {
        let ghost n = rest@.len() as int;
        match rest.pop() {
            Some(x) => {
                let mut i: usize = 0;
                while i < out.len() && str_before(out[i].name_text(), x.name_text())
                    invariant
                        i <= out@.len(),
                        name_slot(out@, x, 0) == name_slot(out@, x, i as int),
                    decreases out@.len() - i,
                {
                    i += 1;
                }
                proof {
                    let s = all.skip(n - 1);
                    assert(s[0] == x);
                    assert(s.drop_first() == all.skip(n));
                }
                out.insert(i, x);
                assert(rest@ == all.take(n - 1));
            },
            None => {},
        }
    }
    assert(all.skip(0) == all);
    out
}

/// Where an item goes among sorted ones: before the first that does not come before
/// it.
pub open spec fn slot_by<T>(s: Seq<T>, x: T, before: spec_fn(T, T) -> bool, i: int) -> int
    decreases s.len() - i,
{
    if i >= s.len() {
        s.len() as int
    } else if before(s[i], x) {
        slot_by(s, x, before, i + 1)
    } else {
        i
    }
}

/// The items in the order given. Items of which neither comes before the other stay as
/// they were.
pub open spec fn sorted_by<T>(s: Seq<T>, before: spec_fn(T, T) -> bool) -> Seq<T>
    decreases s.len(),
{
    if s.len() == 0 {
        s
    } else {
        let rest = sorted_by(s.drop_first(), before);
        rest.insert(slot_by(rest, s[0], before, 0), s[0])
    }
}

/// An order in which items can be of equal rank.
pub open spec fn is_weak_order<T>(before: spec_fn(T, T) -> bool) -> bool {
    &&& forall|a: T, b: T| #[trigger] before(a, b) ==> !before(b, a)
    &&& forall|a: T, b: T, c: T| before(a, b) && #[trigger] before(b, c) ==> #[trigger] before(a, c)
    &&& forall|a: T, b: T, c: T| !before(a, b) && !(#[trigger] before(b, c)) ==> !(#[trigger] before(a, c))
}

proof fn lemma_slot_by<T>(s: Seq<T>, x: T, before: spec_fn(T, T) -> bool, i: int)
    requires
        0 <= i <= s.len(),
    ensures
        i <= slot_by(s, x, before, i) <= s.len(),
        forall|j: int| i <= j < slot_by(s, x, before, i) ==> before(#[trigger] s[j], x),
        slot_by(s, x, before, i) < s.len() ==> !before(s[slot_by(s, x, before, i)], x),
    decreases s.len() - i,
{
    if i < s.len() && before(s[i], x) {
        lemma_slot_by(s, x, before, i + 1);
    }
}

/// Sorting keeps the items and puts them in order.
pub proof fn sorted_by_is_sorted<T>(s: Seq<T>, before: spec_fn(T, T) -> bool)
    requires
        is_weak_order(before),
    ensures
        forall|i: int, j: int|
            0 <= i < j < s.len() ==> !before(#[trigger] sorted_by(s, before)[j], #[trigger] sorted_by(s, before)[i]),
        sorted_by(s, before).to_multiset() == s.to_multiset(),
        sorted_by(s, before).len() == s.len(),
    decreases s.len(),
{
    broadcast use vstd::seq_lib::group_to_multiset_ensures;

    if s.len() > 0 {
        let x = s[0];
        let rest = sorted_by(s.drop_first(), before);
        sorted_by_is_sorted(s.drop_first(), before);
        lemma_slot_by(rest, x, before, 0);
        let k = slot_by(rest, x, before, 0);
        let out = rest.insert(k, x);
        assert forall|i: int, j: int| 0 <= i < j < out.len() implies !before(#[trigger] out[j], #[trigger] out[i]) by {
            if j == k {
                assert(before(rest[i], x));
            } else if i == k {
                if j - 1 > k {
                    assert(!before(rest[j - 1], rest[k]));
                    assert(!before(rest[k], x));
                    assert(!before(rest[j - 1], x));
                }
            } else {
                let a = if i < k { i } else { i - 1 };
                let b = if j < k { j } else { j - 1 };
                assert(!before(rest[b], rest[a]));
            }
        }
        assert(s == s.drop_first().insert(0, x));
        assert(out.to_multiset() == rest.to_multiset().insert(x));
    }
}

/// `a` comes before `b` as sequences of numbers, from position `i` on.
pub open spec fn numbers_before_from(a: Seq<u32>, b: Seq<u32>, i: int) -> bool
    decreases b.len() - i,
{
    if i >= b.len() {
        false
    } else if i >= a.len() {
        true
    } else if a[i] != b[i] {
        a[i] < b[i]
    } else {
        numbers_before_from(a, b, i + 1)
    }
}

/// `a` comes strictly before `b` as sequences of numbers.
pub open spec fn numbers_before(a: Seq<u32>, b: Seq<u32>) -> bool {
    numbers_before_from(a, b, 0)
}

/// See [`numbers_before`].
pub fn are_before(a: &Vec<u32>, b: &Vec<u32>) -> (r: bool)
    ensures
        r == numbers_before(a@, b@),
{
    let mut i: usize = 0;
    while i < a.len() && i < b.len()
        invariant
            i <= a@.len(),
            i <= b@.len(),
            numbers_before(a@, b@) == numbers_before_from(a@, b@, i as int),
        decreases a@.len() - i,
    {
        if a[i] != b[i] {
            return a[i] < b[i];
        }
        i += 1;
    }
    i < b.len()
}

proof fn lemma_numbers_asymmetric(a: Seq<u32>, b: Seq<u32>, i: int)
    requires
        numbers_before_from(a, b, i),
        0 <= i,
    ensures
        !numbers_before_from(b, a, i),
    decreases b.len() - i,
{
    if i < a.len() && i < b.len() && a[i] == b[i] {
        lemma_numbers_asymmetric(a, b, i + 1);
    }
}

proof fn lemma_numbers_transitive(a: Seq<u32>, b: Seq<u32>, c: Seq<u32>, i: int)
    requires
        numbers_before_from(a, b, i),
        numbers_before_from(b, c, i),
        0 <= i,
    ensures
        numbers_before_from(a, c, i),
    decreases c.len() - i,
{
    if i < a.len() && i < b.len() && i < c.len() && a[i] == b[i] && b[i] == c[i] {
        lemma_numbers_transitive(a, b, c, i + 1);
    }
}

proof fn lemma_numbers_negatively_transitive(a: Seq<u32>, b: Seq<u32>, c: Seq<u32>, i: int)
    requires
        !numbers_before_from(a, b, i),
        !numbers_before_from(b, c, i),
        0 <= i,
    ensures
        !numbers_before_from(a, c, i),
    decreases c.len() - i,
{
    if i < a.len() && i < b.len() && i < c.len() && a[i] == b[i] && b[i] == c[i] {
        lemma_numbers_negatively_transitive(a, b, c, i + 1);
    }
}

/// The order of sequences of numbers is one in which items can be compared.
pub proof fn numbers_are_ordered(a: Seq<u32>, b: Seq<u32>, c: Seq<u32>)
    ensures
        numbers_before(a, b) ==> !numbers_before(b, a),
        numbers_before(a, b) && numbers_before(b, c) ==> numbers_before(a, c),
        !numbers_before(a, b) && !numbers_before(b, c) ==> !numbers_before(a, c),
{
    if numbers_before(a, b) {
        lemma_numbers_asymmetric(a, b, 0);
        if numbers_before(b, c) {
            lemma_numbers_transitive(a, b, c, 0);
        }
    } else if !numbers_before(b, c) {
        lemma_numbers_negatively_transitive(a, b, c, 0);
    }
}

} // verus!

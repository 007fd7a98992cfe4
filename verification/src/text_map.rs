//! A map from text to values, kept in the order of its keys.
use vstd::prelude::*;

use crate::text::{chars_of, comes_before, precedes, precedes_is_irreflexive, precedes_is_total,
    precedes_is_transitive, same};

verus! {

/// The texts stand in strictly ascending order.
pub open spec fn ascending(s: Seq<Seq<char>>) -> bool {
    forall|i: int, j: int| 0 <= i < j < s.len() ==> precedes(#[trigger] s[i], #[trigger] s[j])
}

/// The members of a finite set of texts in ascending order.
pub open spec fn in_order(s: Set<Seq<char>>) -> Seq<Seq<char>> {
    choose|q: Seq<Seq<char>>| ascending(q) && q.to_set() == s
}

/// An ascending sequence is the only one with its members.
pub proof fn ascending_is_unique(a: Seq<Seq<char>>, b: Seq<Seq<char>>)
    requires
        ascending(a),
        ascending(b),
        a.to_set() == b.to_set(),
    ensures
        a == b,
    decreases a.len(),
{
    if a.len() == 0 {
        if b.len() > 0 {
            assert(b.to_set().contains(b[0]));
            assert(a.to_set().contains(b[0]));
        }
        assert(a == b);
    } else {
        assert(a.to_set().contains(a[0]));
        assert(b.to_set().contains(a[0]));
        assert(b.len() > 0);
        assert(b.to_set().contains(b[0]));
        assert(a.to_set().contains(b[0]));
        let i = choose|i: int| 0 <= i < a.len() && a[i] == b[0];
        let j = choose|j: int| 0 <= j < b.len() && b[j] == a[0];
        if i > 0 && j > 0 {
            assert(precedes(a[0], a[i]));
            assert(precedes(b[0], b[j]));
            precedes_is_transitive(a[0], b[0], a[0]);
            precedes_is_irreflexive(a[0]);
        }
        assert(a[0] == b[0]);
        let ta = a.drop_first();
        let tb = b.drop_first();
        assert forall|x: Seq<char>| ta.to_set().contains(x) <==> tb.to_set().contains(x) by {
            if ta.contains(x) {
                let k = choose|k: int| 0 <= k < ta.len() && ta[k] == x;
                assert(a[k + 1] == x);
                assert(a.to_set().contains(x));
                assert(b.to_set().contains(x));
                let m = choose|m: int| 0 <= m < b.len() && b[m] == x;
                if m == 0 {
                    assert(precedes(a[0], a[k + 1]));
                    precedes_is_irreflexive(x);
                }
                assert(tb[m - 1] == x);
            }
            if tb.contains(x) {
                let k = choose|k: int| 0 <= k < tb.len() && tb[k] == x;
                assert(b[k + 1] == x);
                assert(b.to_set().contains(x));
                assert(a.to_set().contains(x));
                let m = choose|m: int| 0 <= m < a.len() && a[m] == x;
                if m == 0 {
                    assert(precedes(b[0], b[k + 1]));
                    precedes_is_irreflexive(x);
                }
                assert(ta[m - 1] == x);
            }
        }
        assert(ta.to_set() =~= tb.to_set());
        assert forall|i: int, j: int| 0 <= i < j < ta.len() implies precedes(#[trigger] ta[i], #[trigger] ta[j]) by {
            assert(precedes(a[i + 1], a[j + 1]));
        }
        assert forall|i: int, j: int| 0 <= i < j < tb.len() implies precedes(#[trigger] tb[i], #[trigger] tb[j]) by {
            assert(precedes(b[i + 1], b[j + 1]));
        }
        ascending_is_unique(ta, tb);
        assert(a == seq![a[0]] + ta);
        assert(b == seq![b[0]] + tb);
    }
}

/// The members of a finite set in order are ascending, and are the members.
pub proof fn in_order_holds(s: Set<Seq<char>>)
    requires
        s.finite(),
    ensures
        ascending(in_order(s)),
        in_order(s).to_set() == s,
        in_order(s).no_duplicates(),
        in_order(s).len() == s.len(),
{
    lemma_in_order_exists(s);
    let q = in_order(s);
    assert(ascending(q) && q.to_set() == s);
    assert forall|i: int, j: int| 0 <= i < j < q.len() implies q[i] != q[j] by {
        precedes_is_irreflexive(q[i]);
    }
    q.unique_seq_to_set();
}

proof fn lemma_in_order_exists(s: Set<Seq<char>>)
    requires
        s.finite(),
    ensures
        exists|q: Seq<Seq<char>>| ascending(q) && q.to_set() == s,
    decreases s.len(),
{
    if s.len() == 0 {
        let q = Seq::<Seq<char>>::empty();
        assert(q.to_set() =~= s);
        assert(ascending(q));
    } else {
        let x = s.choose();
        lemma_in_order_exists(s.remove(x));
        let q = choose|q: Seq<Seq<char>>| ascending(q) && q.to_set() == s.remove(x);
        lemma_insert_ascending(q, x);
        let r = choose|r: Seq<Seq<char>>| ascending(r) && r.to_set() == q.to_set().insert(x);
        assert(r.to_set() =~= s);
    }
}

proof fn lemma_insert_ascending(q: Seq<Seq<char>>, x: Seq<char>)
    requires
        ascending(q),
        !q.contains(x),
    ensures
        exists|r: Seq<Seq<char>>| ascending(r) && r.to_set() == q.to_set().insert(x),
    decreases q.len(),
{
    if q.len() == 0 || precedes(q.last(), x) {
        let r = q.push(x);
        assert forall|i: int, j: int| 0 <= i < j < r.len() implies precedes(#[trigger] r[i], #[trigger] r[j]) by {
            if j == q.len() && i < q.len() - 1 {
                precedes_is_transitive(q[i], q.last(), x);
            }
        }
        assert forall|y: Seq<char>| r.to_set().contains(y) <==> q.to_set().insert(x).contains(y) by {
            if q.contains(y) {
                let m = q.index_of(y);
                assert(r[m] == y);
            }
            assert(r[q.len() as int] == x);
        }
        assert(r.to_set() =~= q.to_set().insert(x));
    } else {
        precedes_is_total(q.last(), x);
        assert(q[q.len() - 1] == q.last());
        let front = q.drop_last();
        assert forall|y: Seq<char>| front.contains(y) implies q.contains(y) by {
            let m = front.index_of(y);
            assert(q[m] == y);
        }
        lemma_insert_ascending(front, x);
        let rf = choose|r: Seq<Seq<char>>| ascending(r) && r.to_set() == front.to_set().insert(x);
        let r = rf.push(q.last());
        assert forall|i: int, j: int| 0 <= i < j < r.len() implies precedes(#[trigger] r[i], #[trigger] r[j]) by {
            if j == rf.len() {
                assert(rf.to_set().contains(rf[i]));
                if rf[i] != x {
                    assert(front.contains(rf[i]));
                    let m = front.index_of(rf[i]);
                    assert(precedes(q[m], q[q.len() - 1]));
                }
            }
        }
        assert forall|y: Seq<char>| r.to_set().contains(y) <==> q.to_set().insert(x).contains(y) by {
            if r.contains(y) {
                let m = r.index_of(y);
                if m < rf.len() {
                    assert(rf.to_set().contains(rf[m]));
                    if y != x {
                        assert(front.contains(y));
                    }
                } else {
                    assert(q.contains(q.last()));
                }
            }
            if q.contains(y) {
                let m = q.index_of(y);
                if m < front.len() {
                    assert(front[m] == y);
                    assert(rf.to_set().contains(y));
                    let k = rf.index_of(y);
                    assert(r[k] == y);
                } else {
                    assert(r[rf.len() as int] == y);
                }
            }
            if y == x {
                assert(front.to_set().insert(x).contains(x));
                assert(rf.to_set().contains(x));
                let k = rf.index_of(x);
                assert(r[k] == x);
            }
        }
        assert(r.to_set() =~= q.to_set().insert(x));
    }
}

/// An ascending sequence holds nothing twice.
pub proof fn ascending_has_no_duplicates(s: Seq<Seq<char>>)
    requires
        ascending(s),
    ensures
        s.no_duplicates(),
{
    assert forall|i: int, j: int| 0 <= i < j < s.len() implies s[i] != s[j] by {
        precedes_is_irreflexive(s[i]);
    }
}

/// A map from text to values of type `T`.
#[derive(Debug, PartialEq, Eq)]
pub struct TextMap<T> {
    entries: Vec<(String, T)>,
}

impl<T: View> View for TextMap<T> {
    type V = Map<Seq<char>, T::V>;

    closed spec fn view(&self) -> Map<Seq<char>, T::V> {
        Map::new(
            |k: Seq<char>| self.keys().contains(k),
            |k: Seq<char>| self.entries@[self.keys().index_of(k)].1@,
        )
    }
}

impl<T> TextMap<T> {
    /// The keys, in ascending order.
    pub closed spec fn keys(&self) -> Seq<Seq<char>> {
        keys_of(self.entries@)
    }

    #[verifier::type_invariant]
    spec fn wf(self) -> bool {
        ascending(keys_of(self.entries@))
    }
}

spec fn keys_of<T>(e: Seq<(String, T)>) -> Seq<Seq<char>> {
    e.map_values(|p: (String, T)| p.0@)
}

proof fn lemma_index_of(s: Seq<Seq<char>>, i: int)
    requires
        ascending(s),
        0 <= i < s.len(),
    ensures
        s.contains(s[i]),
        s.index_of(s[i]) == i,
{
    let k = s.index_of(s[i]);
    assert(s[i] == s[i]);
    assert(0 <= k < s.len() && s[k] == s[i]);
    precedes_is_irreflexive(s[i]);
    if k < i {
        assert(precedes(s[k], s[i]));
    }
    if i < k {
        assert(precedes(s[i], s[k]));
    }
}

/// The number of keys of `s` that come before `k`.
spec fn slot(s: Seq<Seq<char>>, k: Seq<char>, i: int) -> bool {
    &&& 0 <= i <= s.len()
    &&& forall|j: int| 0 <= j < i ==> precedes(#[trigger] s[j], k)
    &&& forall|j: int| i <= j < s.len() ==> !precedes(#[trigger] s[j], k)
}

proof fn lemma_slot_found(s: Seq<Seq<char>>, k: Seq<char>, i: int)
    requires
        ascending(s),
        slot(s, k, i),
    ensures
        s.contains(k) <==> i < s.len() && s[i] == k,
        i < s.len() && s[i] != k ==> precedes(k, s[i]),
{
    if i < s.len() {
        precedes_is_total(s[i], k);
    }
    if s.contains(k) {
        let m = choose|m: int| 0 <= m < s.len() && s[m] == k;
        precedes_is_irreflexive(k);
        assert(m >= i);
        if m > i {
            assert(precedes(s[i], s[m]));
        }
    }
}

impl<T: View> TextMap<T> {
    /// The keys are those of the map, in ascending order.
    pub proof fn keys_in_order(&self)
        requires
            ascending(self.keys()),
        ensures
            self.keys() == in_order(self@.dom()),
            self@.dom() == self.keys().to_set(),
    {
        assert(self@.dom() =~= self.keys().to_set());
        let q = in_order(self@.dom());
        assert(ascending(q) && q.to_set() == self@.dom());
        ascending_is_unique(self.keys(), q);
    }
}

impl<T: View> TextMap<T> {
    /// A map has finitely many keys.
    pub proof fn keys_are_finite(&self)
        ensures
            self@.dom().finite(),
    {
        assert(self@.dom() =~= self.keys().to_set());
    }

    /// The empty map.
    pub fn new() -> (r: Self)
        ensures
            r@ == Map::<Seq<char>, T::V>::empty(),
            r.keys() == Seq::<Seq<char>>::empty(),
    {
        let r = TextMap { entries: Vec::new() };
        assert(r@ =~= Map::<Seq<char>, T::V>::empty());
        assert(r.keys() =~= Seq::<Seq<char>>::empty());
        r
    }

    fn position(&self, key: &str) -> (r: usize)
        ensures
            slot(keys_of(self.entries@), key@, r as int),
    {
        proof {
            use_type_invariant(self);
        }
        let k = chars_of(key);
        let ghost s = keys_of(self.entries@);
        let mut lo: usize = 0;
        let mut hi: usize = self.entries.len();
        while lo < hi
            invariant
                s == keys_of(self.entries@),
                ascending(s),
                k@ == key@,
                lo <= hi <= self.entries@.len(),
                forall|j: int| 0 <= j < lo ==> precedes(#[trigger] s[j], key@),
                forall|j: int| hi <= j < s.len() ==> !precedes(#[trigger] s[j], key@),
            decreases hi - lo,
        {
            let mid: usize = lo + (hi - lo) / 2;
            let e = chars_of(self.entries[mid].0.as_str());
            assert(e@ == s[mid as int]);
            if comes_before(e.as_slice(), k.as_slice()) {
                proof {
                    assert forall|j: int| 0 <= j < mid + 1 implies precedes(#[trigger] s[j], key@) by {
                        if j < mid {
                            precedes_is_transitive(s[j], s[mid as int], key@);
                        }
                    }
                }
                lo = mid + 1;
            } else {
                proof {
                    assert forall|j: int| mid <= j < s.len() implies !precedes(#[trigger] s[j], key@) by {
                        if precedes(s[j], key@) && j > mid {
                            precedes_is_transitive(s[mid as int], s[j], key@);
                        }
                    }
                }
                hi = mid;
            }
        }
        lo
    }

    fn key_is(&self, i: usize, key: &str) -> (r: bool)
        requires
            i < self.entries@.len(),
        ensures
            r == (keys_of(self.entries@)[i as int] == key@),
    {
        let k = chars_of(key);
        let e = chars_of(self.entries[i].0.as_str());
        same(e.as_slice(), k.as_slice())
    }

    /// The value stored under `key`, if there is one.
    pub fn get(&self, key: &str) -> (r: Option<&T>)
        ensures
            match r {
                Some(v) => self@.contains_key(key@) && v@ == self@[key@],
                None => !self@.contains_key(key@),
            },
    {
        proof {
            use_type_invariant(self);
        }
        let i: usize = self.position(key);
        proof {
            lemma_slot_found(self.keys(), key@, i as int);
        }
        if i < self.entries.len() && self.key_is(i, key) {
            proof {
                lemma_index_of(self.keys(), i as int);
            }
            Some(&self.entries[i].1)
        } else {
            None
        }
    }

    /// Whether a value is stored under `key`.
    pub fn contains_key(&self, key: &str) -> (r: bool)
        ensures
            r == self@.contains_key(key@),
    {
        self.get(key).is_some()
    }

    /// How many keys there are.
    pub fn len(&self) -> (r: usize)
        ensures
            r == self.keys().len(),
            ascending(self.keys()),
    {
        proof {
            use_type_invariant(self);
        }
        self.entries.len()
    }

    /// Whether there is no key.
    pub fn is_empty(&self) -> (r: bool)
        ensures
            r == (self.keys().len() == 0),
            ascending(self.keys()),
    {
        proof {
            use_type_invariant(self);
        }
        self.entries.len() == 0
    }

    /// The key at position `i` of the order.
    pub fn key_at(&self, i: usize) -> (r: &str)
        requires
            i < self.keys().len(),
        ensures
            r@ == self.keys()[i as int],
            self@.contains_key(r@),
    {
        let r = self.entries[i].0.as_str();
        assert(self.keys()[i as int] == r@);
        r
    }

    /// The value under the key at position `i` of the order.
    pub fn value_at(&self, i: usize) -> (r: &T)
        requires
            i < self.keys().len(),
        ensures
            r@ == self@[self.keys()[i as int]],
    {
        proof {
            use_type_invariant(self);
            lemma_index_of(self.keys(), i as int);
        }
        &self.entries[i].1
    }

    /// Stores `value` under `key`, in place of what was there.
    pub fn insert(&mut self, key: &str, value: T)
        ensures
            final(self)@ == old(self)@.insert(key@, value@),
            ascending(final(self).keys()),
    {
        proof {
            use_type_invariant(&*self);
        }
        let i: usize = self.position(key);
        proof {
            lemma_slot_found(self.keys(), key@, i as int);
        }
        let present = i < self.entries.len() && self.key_is(i, key);
        let ghost before = self.entries@;
        let ghost bk = keys_of(before);
        let ghost bv = self@;
        let mut entries: Vec<(String, T)> = Vec::new();
        std::mem::swap(&mut entries, &mut self.entries);
        let ghost gv = value@;
        let ghost (n, at) = (key@, i as int);
        if present {
            entries.set(i, (key.to_owned(), value));
            proof {
                assert(keys_of(entries@) =~= bk);
            }
        } else {
            entries.insert(i, (key.to_owned(), value));
            proof {
                assert(keys_of(entries@) =~= bk.insert(i as int, key@));
                let nk = keys_of(entries@);
                assert forall|a: int, b: int| 0 <= a < b < nk.len() implies precedes(#[trigger] nk[a], #[trigger] nk[b]) by {
                    let sa = if a < i { a } else { a - 1 };
                    let sb = if b < i { b } else { b - 1 };
                    if a == i {
                        if i < sb {
                            precedes_is_transitive(key@, bk[i as int], bk[sb]);
                        }
                    } else if b == i {
                    } else {
                        assert(precedes(bk[sa], bk[sb]));
                    }
                }
            }
        }
        self.entries = entries;
        proof {
            let after = self.entries@;
            let ak = keys_of(after);
            assert(ascending(ak));
            assert(ak[at] == n);
            lemma_index_of(ak, at);
            assert(self@.dom() =~= bv.insert(n, gv).dom()) by {
                assert forall|k: Seq<char>| ak.contains(k) <==> (bk.contains(k) || k == n) by {
                    if ak.contains(k) {
                        let m = choose|m: int| 0 <= m < ak.len() && ak[m] == k;
                        if !present && m > at {
                            assert(bk[m - 1] == k);
                        } else if m != at {
                            assert(bk[m] == k);
                        }
                    }
                    if bk.contains(k) {
                        let m = choose|m: int| 0 <= m < bk.len() && bk[m] == k;
                        if !present && m >= at {
                            assert(ak[m + 1] == k);
                        } else {
                            assert(ak[m] == k);
                        }
                    }
                }
            }
            assert forall|k: Seq<char>| self@.contains_key(k) implies #[trigger] self@[k] == bv.insert(n, gv)[k] by {
                if k != n {
                    assert(bk.contains(k));
                    let m = bk.index_of(k);
                    assert(bk[m] == k);
                    lemma_index_of(bk, m);
                    if !present && m >= at {
                        lemma_index_of(ak, m + 1);
                        assert(ak[m + 1] == k);
                    } else {
                        lemma_index_of(ak, m);
                        assert(ak[m] == k);
                    }
                }
            }
            assert(self@ =~= bv.insert(n, gv));
        }
    }

    /// Takes `key` out of the map. Says whether it was there.
    pub fn remove(&mut self, key: &str) -> (r: bool)
        ensures
            r == old(self)@.contains_key(key@),
            final(self)@ == old(self)@.remove(key@),
            ascending(final(self).keys()),
    {
        proof {
            use_type_invariant(&*self);
        }
        let i: usize = self.position(key);
        proof {
            lemma_slot_found(self.keys(), key@, i as int);
        }
        let ghost bk = keys_of(self.entries@);
        let ghost bv = self@;
        if !(i < self.entries.len() && self.key_is(i, key)) {
            assert(self@ =~= bv.remove(key@));
            return false;
        }
        let mut entries: Vec<(String, T)> = Vec::new();
        std::mem::swap(&mut entries, &mut self.entries);
        let _ = entries.remove(i);
        proof {
            let ak = keys_of(entries@);
            assert(ak =~= bk.remove(i as int));
            assert forall|a: int, b: int| 0 <= a < b < ak.len() implies precedes(#[trigger] ak[a], #[trigger] ak[b]) by {
                let sa = if a < i { a } else { a + 1 };
                let sb = if b < i { b } else { b + 1 };
                assert(precedes(bk[sa], bk[sb]));
            }
        }
        self.entries = entries;
        proof {
            let ak = keys_of(self.entries@);
            precedes_is_irreflexive(key@);
            lemma_index_of(bk, i as int);
            assert forall|k: Seq<char>| ak.contains(k) <==> (bk.contains(k) && k != key@) by {
                if ak.contains(k) {
                    let m = choose|m: int| 0 <= m < ak.len() && ak[m] == k;
                    let sm = if m < i { m } else { m + 1 };
                    assert(bk[sm] == k);
                    if m < i {
                        assert(precedes(bk[m], bk[i as int]));
                    } else {
                        assert(precedes(bk[i as int], bk[m + 1]));
                    }
                }
                if bk.contains(k) && k != key@ {
                    let m = choose|m: int| 0 <= m < bk.len() && bk[m] == k;
                    if m > i {
                        assert(ak[m - 1] == k);
                    } else {
                        assert(ak[m] == k);
                    }
                }
            }
            assert(self@.dom() =~= bv.remove(key@).dom());
            assert forall|k: Seq<char>| self@.contains_key(k) implies #[trigger] self@[k] == bv[k] by {
                let m = bk.index_of(k);
                assert(bk.contains(k));
                assert(bk[m] == k);
                lemma_index_of(bk, m);
                if m > i {
                    lemma_index_of(ak, m - 1);
                    assert(ak[m - 1] == k);
                } else {
                    assert(m != i);
                    lemma_index_of(ak, m);
                    assert(ak[m] == k);
                }
            }
            assert(self@ =~= bv.remove(key@));
        }
        true
    }
}

} // verus!

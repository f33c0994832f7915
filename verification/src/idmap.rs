//! Map from small integer ids to values, kept in key order.
use crate::ids::{ascending_ids, listing_is_unique};
use vstd::prelude::*;

verus! {

/// Map keyed by slot, label or value numbers. Entries are walked in ascending
/// key order.
#[derive(Debug, PartialEq, Eq)]
pub struct IdMap<V> {
    entries: Vec<(u32, V)>,
}

/// Keys strictly ascend.
pub open spec fn ascending<V>(s: Seq<(u32, V)>) -> bool {
    forall|i: int, j: int| 0 <= i < j < s.len() ==> (#[trigger] s[i]).0 < (#[trigger] s[j]).0
}

/// `s` has an entry for `k`.
pub open spec fn has_key<V>(s: Seq<(u32, V)>, k: u32) -> bool {
    exists|i: int| 0 <= i < s.len() && (#[trigger] s[i]).0 == k
}

/// The map that a list of entries stands for.
pub open spec fn pairs_map<V>(s: Seq<(u32, V)>) -> Map<u32, V> {
    Map::new(
        |k: u32| has_key(s, k),
        |k: u32| s[choose|i: int| 0 <= i < s.len() && (#[trigger] s[i]).0 == k].1,
    )
}

proof fn pairs_map_at<V>(s: Seq<(u32, V)>, i: int)
    requires
        ascending(s),
        0 <= i < s.len(),
    ensures
        pairs_map(s).dom().contains(s[i].0),
        pairs_map(s)[s[i].0] == s[i].1,
{
    let k = s[i].0;
    assert(has_key(s, k));
    let j = choose|j: int| 0 <= j < s.len() && (#[trigger] s[j]).0 == k;
    assert(s[j].0 == k);
    assert(j == i);
}

impl<V> View for IdMap<V> {
    type V = Map<u32, V>;

    closed spec fn view(&self) -> Map<u32, V> {
        pairs_map(self.entries@)
    }
}

impl<V> IdMap<V> {
    #[verifier::type_invariant]
    spec fn sorted(self) -> bool {
        ascending(self.entries@)
    }

    /// Entries in ascending key order.
    pub closed spec fn pairs(self) -> Seq<(u32, V)> {
        self.entries@
    }

    /// `pairs` lists every entry of the map once, by ascending key.
    pub proof fn pairs_are_the_entries(&self)
        requires
            ascending(self.pairs()),
        ensures
            self@ == pairs_map(self.pairs()),
            forall|i: int|
                0 <= i < self.pairs().len() ==> self@.dom().contains((#[trigger] self.pairs()[i]).0)
                    && self@[self.pairs()[i].0] == self.pairs()[i].1,
    {
        assert forall|i: int| 0 <= i < self.pairs().len() implies self@.dom().contains(
            (#[trigger] self.pairs()[i]).0,
        ) && self@[self.pairs()[i].0] == self.pairs()[i].1 by {
            pairs_map_at(self.pairs(), i);
        }
    }

    pub fn new() -> (r: Self)
        ensures
            r@ == Map::<u32, V>::empty(),
            r.pairs() == Seq::<(u32, V)>::empty(),
    {
        let r = IdMap { entries: Vec::new() };
        assert(r@ =~= Map::<u32, V>::empty());
        r
    }

    /// First position whose key is not below `k`.
    fn lower(&self, k: u32) -> (r: usize)
        ensures
            r <= self.entries@.len(),
            forall|i: int| 0 <= i < r ==> (#[trigger] self.entries@[i]).0 < k,
            forall|i: int| r <= i < self.entries@.len() ==> (#[trigger] self.entries@[i]).0 >= k,
    {
        proof {
            use_type_invariant(self);
        }
        let mut i: usize = 0;
        while i < self.entries.len() && self.entries[i].0 < k
            invariant
                i <= self.entries@.len(),
                forall|j: int| 0 <= j < i ==> (#[trigger] self.entries@[j]).0 < k,
            decreases self.entries@.len() - i,
        {
            i = i + 1;
        }
        i
    }

    pub fn get(&self, k: &u32) -> (r: Option<&V>)
        ensures
            match r {
                Some(v) => self@.dom().contains(*k) && self@[*k] == *v,
                None => !self@.dom().contains(*k),
            },
    {
        proof {
            use_type_invariant(self);
        }
        let i = self.lower(*k);
        if i < self.entries.len() && self.entries[i].0 == *k {
            proof {
                pairs_map_at(self.entries@, i as int);
            }
            Some(&self.entries[i].1)
        } else {
            None
        }
    }

    pub fn contains_key(&self, k: &u32) -> (r: bool)
        ensures
            r == self@.dom().contains(*k),
    {
        self.get(k).is_some()
    }

    pub fn insert(&mut self, k: u32, v: V)
        ensures
            final(self)@ == old(self)@.insert(k, v),
    {
        proof {
            use_type_invariant(&*self);
        }
        let i = self.lower(k);
        let mut e: Vec<(u32, V)> = Vec::new();
        std::mem::swap(&mut e, &mut self.entries);
        let ghost s0 = e@;
        if i < e.len() && e[i].0 == k {
            e.set(i, (k, v));
        } else {
            e.insert(i, (k, v));
        }
        let ghost s1 = e@;
        assert(ascending(s1)) by {
            assert forall|a: int, b: int| 0 <= a < b < s1.len() implies (#[trigger] s1[a]).0 < (
            #[trigger] s1[b]).0 by {
                if s1.len() == s0.len() {
                    assert(s0[a].0 < s0[b].0);
                } else if a < i && b > i {
                    assert(s0[a].0 < s0[b - 1].0);
                } else if a > i && b > i {
                    assert(s0[a - 1].0 < s0[b - 1].0);
                } else if a < i && b < i {
                    assert(s0[a].0 < s0[b].0);
                } else if a == i {
                    if s0.len() < s1.len() {
                        assert(s0[b - 1].0 >= k);
                        assert(s0[i as int].0 != k);
                        assert(b - 1 > i ==> s0[i as int].0 < s0[b - 1].0);
                    }
                }
            }
        }
        assert(pairs_map(s1) =~= pairs_map(s0).insert(k, v)) by {
            let m1 = pairs_map(s1);
            let m2 = pairs_map(s0).insert(k, v);
            assert forall|q: u32|
                (#[trigger] m1.dom().contains(q)) == m2.dom().contains(q) && (m2.dom().contains(q)
                    ==> m1[q] == m2[q]) by {
                assert(s1[i as int] == (k, v));
                pairs_map_at(s1, i as int);
                if q != k {
                    if has_key(s0, q) {
                        let j = choose|j: int| 0 <= j < s0.len() && (#[trigger] s0[j]).0 == q;
                        pairs_map_at(s0, j);
                        let j2 = if s1.len() > s0.len() && j >= i { j + 1 } else { j };
                        assert(s1[j2] == s0[j]);
                        pairs_map_at(s1, j2);
                    }
                    if has_key(s1, q) {
                        let j = choose|j: int| 0 <= j < s1.len() && (#[trigger] s1[j]).0 == q;
                        let j2 = if s1.len() > s0.len() && j > i { j - 1 } else { j };
                        assert(s0[j2] == s1[j]);
                        assert(has_key(s0, q));
                    }
                }
            }
            assert(m1.dom() =~= m2.dom());
        }
        self.entries = e;
    }

    pub fn remove(&mut self, k: &u32) -> (r: Option<V>)
        ensures
            final(self)@ == old(self)@.remove(*k),
            match r {
                Some(v) => old(self)@.dom().contains(*k) && old(self)@[*k] == v,
                None => !old(self)@.dom().contains(*k),
            },
    {
        proof {
            use_type_invariant(&*self);
        }
        let i = self.lower(*k);
        let mut e: Vec<(u32, V)> = Vec::new();
        std::mem::swap(&mut e, &mut self.entries);
        let ghost s0 = e@;
        if i < e.len() && e[i].0 == *k {
            proof {
                pairs_map_at(s0, i as int);
            }
            let x = e.remove(i);
            let ghost s1 = e@;
            assert(s1 =~= s0.remove(i as int));
            assert(ascending(s1)) by {
                assert forall|a: int, b: int| 0 <= a < b < s1.len() implies (#[trigger] s1[a]).0 < (
                #[trigger] s1[b]).0 by {
                    let a0 = if a >= i { a + 1 } else { a };
                    let b0 = if b >= i { b + 1 } else { b };
                    assert(s0[a0].0 < s0[b0].0);
                }
            }
            assert(pairs_map(s1) =~= pairs_map(s0).remove(*k)) by {
                let m1 = pairs_map(s1);
                let m2 = pairs_map(s0).remove(*k);
                assert forall|q: u32|
                    (#[trigger] m1.dom().contains(q)) == m2.dom().contains(q) && (m2.dom().contains(q)
                        ==> m1[q] == m2[q]) by {
                    if has_key(s1, q) {
                        let j = choose|j: int| 0 <= j < s1.len() && (#[trigger] s1[j]).0 == q;
                        let j0 = if j >= i { j + 1 } else { j };
                        assert(s0[j0] == s1[j]);
                        assert(j0 != i ==> s0[j0].0 != s0[i as int].0);
                        pairs_map_at(s0, j0);
                        pairs_map_at(s1, j);
                    }
                    if has_key(s0, q) && q != *k {
                        let j = choose|j: int| 0 <= j < s0.len() && (#[trigger] s0[j]).0 == q;
                        let j1 = if j > i { j - 1 } else { j };
                        assert(s1[j1] == s0[j]);
                        assert(has_key(s1, q));
                        pairs_map_at(s0, j);
                        pairs_map_at(s1, j1);
                    }
                }
                assert(m1.dom() =~= m2.dom());
            }
            self.entries = e;
            Some(x.1)
        } else {
            assert(pairs_map(s0) =~= pairs_map(s0).remove(*k));
            self.entries = e;
            None
        }
    }

    pub fn len(&self) -> (r: usize)
        ensures
            r == self.pairs().len(),
            r == ascending_ids(self@.dom()).len(),
    {
        let ks = self.keys();
        ks.len()
    }

    /// Keys, ascending.
    pub fn keys(&self) -> (r: Vec<u32>)
        ensures
            r@ == ascending_ids(self@.dom()),
            r@.len() == self.pairs().len(),
            forall|i: int| 0 <= i < r@.len() ==> #[trigger] r@[i] == self.pairs()[i].0,
    {
        proof {
            use_type_invariant(self);
        }
        let ghost s = self.entries@;
        let mut r: Vec<u32> = Vec::new();
        let mut i: usize = 0;
        while i < self.entries.len()
            invariant
                s == self.entries@,
                i <= s.len(),
                r@.len() == i,
                forall|k: int| 0 <= k < i ==> #[trigger] r@[k] == s[k].0,
            decreases s.len() - i,
        {
            r.push(self.entries[i].0);
            i = i + 1;
        }
        proof {
            assert forall|a: int, b: int| 0 <= a < b < r@.len() implies #[trigger] r@[a] < #[trigger] r@[b] by {
                assert(s[a].0 < s[b].0);
            }
            assert forall|x: u32| self@.dom().contains(x) <==> #[trigger] r@.contains(x) by {
                if has_key(s, x) {
                    let k = choose|k: int| 0 <= k < s.len() && (#[trigger] s[k]).0 == x;
                    assert(r@[k] == x);
                }
                if r@.contains(x) {
                    let k = r@.index_of(x);
                    assert(s[k].0 == x);
                }
            }
            listing_is_unique(self@.dom(), r@);
        }
        r
    }

    pub fn is_empty(&self) -> (r: bool)
        ensures
            r == (self@ == Map::<u32, V>::empty()),
    {
        let r = self.entries.len() == 0;
        proof {
            use_type_invariant(self);
            if r {
                assert(self@ =~= Map::<u32, V>::empty());
            } else {
                pairs_map_at(self.entries@, 0);
            }
        }
        r
    }

    /// Entry at position `i` of the key order.
    pub fn entry_at(&self, i: usize) -> (r: (u32, &V))
        requires
            i < self.pairs().len(),
        ensures
            r.0 == self.pairs()[i as int].0,
            *r.1 == self.pairs()[i as int].1,
            ascending(self.pairs()),
            self@.dom().contains(r.0),
            self@[r.0] == *r.1,
    {
        proof {
            use_type_invariant(self);
            pairs_map_at(self.entries@, i as int);
        }
        (self.entries[i].0, &self.entries[i].1)
    }

    /// States that `pairs` ascends and lists the entries of the view.
    pub fn check_order(&self)
        ensures
            ascending(self.pairs()),
            self@ == pairs_map(self.pairs()),
    {
        proof {
            use_type_invariant(self);
        }
    }
}

impl<V: Copy> IdMap<V> {
    /// Copy of the map.
    pub fn copied(&self) -> (r: Self)
        ensures
            r@ == self@,
            r.pairs() == self.pairs(),
    {
        proof {
            use_type_invariant(self);
        }
        let mut e: Vec<(u32, V)> = Vec::new();
        let mut i: usize = 0;
        while i < self.entries.len()
            invariant
                i <= self.entries@.len(),
                e@ == self.entries@.take(i as int),
            decreases self.entries@.len() - i,
        {
            e.push(self.entries[i]);
            i = i + 1;
            assert(e@ =~= self.entries@.take(i as int));
        }
        assert(e@ =~= self.entries@);
        IdMap { entries: e }
    }
}

} // verus!

//! Stable insertion sort.
use crate::mir::inst::{BlockId, ValueId};
use vstd::prelude::*;

verus! {

/// `s` with `x` placed behind every element whose key is not above that of `x`.
pub open spec fn place<T>(key: spec_fn(T) -> int, s: Seq<T>, x: T) -> Seq<T>
    decreases s.len(),
{
    if s.len() == 0 || key(s.last()) <= key(x) {
        s.push(x)
    } else {
        place(key, s.drop_last(), x).push(s.last())
    }
}

/// Stable sort by key.
pub open spec fn sort_by<T>(key: spec_fn(T) -> int, s: Seq<T>) -> Seq<T>
    decreases s.len(),
{
    if s.len() == 0 {
        s
    } else {
        place(key, sort_by(key, s.drop_last()), s.last())
    }
}

/// `place` inserts at the position that splits the keys.
proof fn place_at<T>(key: spec_fn(T) -> int, s: Seq<T>, x: T, p: int)
    requires
        0 <= p <= s.len(),
        p > 0 ==> key(s[p - 1]) <= key(x),
        forall|i: int| p <= i < s.len() ==> key(#[trigger] s[i]) > key(x),
    ensures
        place(key, s, x) == s.insert(p, x),
    decreases s.len(),
{
    if s.len() == 0 {
        assert(s.push(x) =~= s.insert(p, x));
    } else if p == s.len() {
        assert(s.push(x) =~= s.insert(p, x));
    } else {
        assert(key(s[s.len() - 1]) > key(x));
        let d = s.drop_last();
        place_at(key, d, x, p);
        assert(d.insert(p, x).push(s.last()) =~= s.insert(p, x));
    }
}

/// Keys do not descend.
pub open spec fn ordered<T>(key: spec_fn(T) -> int, s: Seq<T>) -> bool {
    forall|i: int, j: int| 0 <= i < j < s.len() ==> key(#[trigger] s[i]) <= key(#[trigger] s[j])
}

proof fn place_keeps_order<T>(key: spec_fn(T) -> int, s: Seq<T>, x: T)
    requires
        ordered(key, s),
    ensures
        ordered(key, place(key, s, x)),
        place(key, s, x).to_multiset() == s.to_multiset().insert(x),
        place(key, s, x).len() == s.len() + 1,
        forall|i: int|
            0 <= i < place(key, s, x).len() ==> s.contains(#[trigger] place(key, s, x)[i]) || place(key, s, x)[i] == x,
    decreases s.len(),
{
    broadcast use vstd::seq_lib::group_to_multiset_ensures;

    let r = place(key, s, x);
    if s.len() == 0 || key(s.last()) <= key(x) {
        assert(ordered(key, r)) by {
            assert forall|i: int, j: int| 0 <= i < j < r.len() implies key(#[trigger] r[i]) <= key(#[trigger] r[j]) by {
                if j == s.len() {
                    if i < s.len() - 1 {
                        assert(key(s[i]) <= key(s[s.len() - 1]));
                    }
                } else {
                    assert(key(s[i]) <= key(s[j]));
                }
            }
        }
        assert forall|i: int| 0 <= i < r.len() implies s.contains(#[trigger] r[i]) || r[i] == x by {
            if i < s.len() {
                assert(s[i] == r[i]);
            }
        }
    } else {
        let d = s.drop_last();
        assert forall|i: int, j: int| 0 <= i < j < d.len() implies key(#[trigger] d[i]) <= key(#[trigger] d[j]) by {
            assert(key(s[i]) <= key(s[j]));
        }
        place_keeps_order(key, d, x);
        let q = place(key, d, x);
        assert forall|i: int, j: int| 0 <= i < j < r.len() implies key(#[trigger] r[i]) <= key(#[trigger] r[j]) by {
            if j < q.len() {
                assert(key(q[i]) <= key(q[j]));
            } else {
                assert(r[i] == q[i]);
                if d.contains(q[i]) {
                    let k = choose|k: int| 0 <= k < d.len() && d[k] == q[i];
                    assert(key(s[k]) <= key(s[s.len() - 1]));
                }
            }
        }
        assert forall|i: int| 0 <= i < r.len() implies s.contains(#[trigger] r[i]) || r[i] == x by {
            if i < q.len() {
                assert(r[i] == q[i]);
                if d.contains(q[i]) {
                    let k = choose|k: int| 0 <= k < d.len() && d[k] == q[i];
                    assert(s[k] == q[i]);
                }
            } else {
                assert(s[s.len() - 1] == r[i]);
            }
        }
        assert(s =~= d.push(s.last()));
        assert(r.to_multiset() =~= s.to_multiset().insert(x));
    }
}

/// Sorting orders the elements and neither drops nor adds one.
pub proof fn sort_orders_and_permutes<T>(key: spec_fn(T) -> int, s: Seq<T>)
    ensures
        ordered(key, sort_by(key, s)),
        sort_by(key, s).to_multiset() == s.to_multiset(),
        sort_by(key, s).len() == s.len(),
    decreases s.len(),
{
    broadcast use vstd::seq_lib::group_to_multiset_ensures;

    if s.len() > 0 {
        sort_orders_and_permutes(key, s.drop_last());
        place_keeps_order(key, sort_by(key, s.drop_last()), s.last());
        assert(s =~= s.drop_last().push(s.last()));
    }
}

pub open spec fn block_key() -> spec_fn(BlockId) -> int {
    |b: BlockId| b.0 as int
}

/// Blocks in ascending order.
pub open spec fn sorted_blocks(s: Seq<BlockId>) -> Seq<BlockId> {
    sort_by(block_key(), s)
}

pub fn sort_blocks(s: &Vec<BlockId>) -> (r: Vec<BlockId>)
    ensures
        r@ == sorted_blocks(s@),
{
    let ghost key = block_key();
    let mut r: Vec<BlockId> = Vec::new();
    let mut i: usize = 0;
    while i < s.len()
        invariant
            i <= s@.len(),
            key == block_key(),
            r@ == sort_by(key, s@.take(i as int)),
        decreases s@.len() - i,
    {
        let x = s[i];
        let mut p: usize = r.len();
        while p > 0 && r[p - 1].0 > x.0
            invariant
                p <= r@.len(),
                key == block_key(),
                forall|k: int| p <= k < r@.len() ==> key(#[trigger] r@[k]) > key(x),
            decreases p,
        {
            p = p - 1;
        }
        proof {
            place_at(key, r@, x, p as int);
            assert(s@.take(i + 1).drop_last() =~= s@.take(i as int));
            assert(s@.take(i + 1).last() == x);
        }
        r.insert(p, x);
        i = i + 1;
    }
    assert(s@.take(i as int) =~= s@);
    r
}

pub open spec fn arg_key() -> spec_fn((BlockId, ValueId)) -> int {
    |a: (BlockId, ValueId)| a.0.0 as int
}

/// Phi arguments in ascending block order; arguments of one block keep their
/// order.
pub open spec fn sorted_args(s: Seq<(BlockId, ValueId)>) -> Seq<(BlockId, ValueId)> {
    sort_by(arg_key(), s)
}

pub fn sort_args(s: &Vec<(BlockId, ValueId)>) -> (r: Vec<(BlockId, ValueId)>)
    ensures
        r@ == sorted_args(s@),
{
    let ghost key = arg_key();
    let mut r: Vec<(BlockId, ValueId)> = Vec::new();
    let mut i: usize = 0;
    while i < s.len()
        invariant
            i <= s@.len(),
            key == arg_key(),
            r@ == sort_by(key, s@.take(i as int)),
        decreases s@.len() - i,
    {
        let x = s[i];
        let mut p: usize = r.len();
        while p > 0 && r[p - 1].0.0 > x.0.0
            invariant
                p <= r@.len(),
                key == arg_key(),
                forall|k: int| p <= k < r@.len() ==> key(#[trigger] r@[k]) > key(x),
            decreases p,
        {
            p = p - 1;
        }
        proof {
            place_at(key, r@, x, p as int);
            assert(s@.take(i + 1).drop_last() =~= s@.take(i as int));
            assert(s@.take(i + 1).last() == x);
        }
        r.insert(p, x);
        i = i + 1;
    }
    assert(s@.take(i as int) =~= s@);
    r
}

pub open spec fn keyed() -> spec_fn((usize, u32)) -> int {
    |e: (usize, u32)| e.1 as int
}

/// Numbered keys in ascending order; equal keys keep their order.
pub open spec fn sorted_keyed(s: Seq<(usize, u32)>) -> Seq<(usize, u32)> {
    sort_by(keyed(), s)
}

pub fn sort_keyed(s: &Vec<(usize, u32)>) -> (r: Vec<(usize, u32)>)
    ensures
        r@ == sorted_keyed(s@),
{
    let ghost key = keyed();
    let mut r: Vec<(usize, u32)> = Vec::new();
    let mut i: usize = 0;
    while i < s.len()
        invariant
            i <= s@.len(),
            key == keyed(),
            r@ == sort_by(key, s@.take(i as int)),
        decreases s@.len() - i,
    {
        let x = s[i];
        let mut p: usize = r.len();
        while p > 0 && r[p - 1].1 > x.1
            invariant
                p <= r@.len(),
                key == keyed(),
                forall|k: int| p <= k < r@.len() ==> key(#[trigger] r@[k]) > key(x),
            decreases p,
        {
            p = p - 1;
        }
        proof {
            place_at(key, r@, x, p as int);
            assert(s@.take(i + 1).drop_last() =~= s@.take(i as int));
            assert(s@.take(i + 1).last() == x);
        }
        r.insert(p, x);
        i = i + 1;
    }
    assert(s@.take(i as int) =~= s@);
    r
}

} // verus!

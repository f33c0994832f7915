//! Sets of small integer ids, listed in ascending order.
use vstd::prelude::*;

verus! {

/// Members of `s` from `i` on, ascending.
pub open spec fn ids_from(s: Set<u32>, i: nat) -> Seq<u32>
    decreases 0x1_0000_0000 - i,
{
    if i > u32::MAX {
        Seq::empty()
    } else if s.contains(i as u32) {
        seq![i as u32] + ids_from(s, i + 1)
    } else {
        ids_from(s, i + 1)
    }
}

/// Members of `s`, ascending.
pub open spec fn ascending_ids(s: Set<u32>) -> Seq<u32> {
    ids_from(s, 0)
}

/// Strictly ascending.
pub open spec fn rising(q: Seq<u32>) -> bool {
    forall|i: int, j: int| 0 <= i < j < q.len() ==> #[trigger] q[i] < #[trigger] q[j]
}

proof fn listing_from(s: Set<u32>, q: Seq<u32>, i: nat)
    requires
        rising(q),
        forall|k: int| 0 <= k < q.len() ==> #[trigger] q[k] >= i && s.contains(q[k]),
        forall|x: u32| s.contains(x) && x >= i ==> #[trigger] q.contains(x),
    ensures
        q == ids_from(s, i),
    decreases 0x1_0000_0000 - i,
{
    if i > u32::MAX {
        if q.len() > 0 {
            assert(q[0] >= i);
        }
        assert(q =~= Seq::empty());
    } else if s.contains(i as u32) {
        let x = i as u32;
        assert(q.contains(x));
        let k = q.index_of(x);
        assert(q[k] == x);
        assert(q[0] >= i);
        assert(k == 0);
        let t = q.skip(1);
        assert forall|a: int, b: int| 0 <= a < b < t.len() implies #[trigger] t[a] < #[trigger] t[b] by {
            assert(q[a + 1] < q[b + 1]);
        }
        assert forall|k: int| 0 <= k < t.len() implies #[trigger] t[k] >= i + 1 && s.contains(t[k]) by {
            assert(q[k + 1] == t[k]);
            assert(q[0] < q[k + 1]);
        }
        assert forall|y: u32| s.contains(y) && y >= i + 1 implies #[trigger] t.contains(y) by {
            assert(q.contains(y));
            let j = q.index_of(y);
            assert(q[j] == y);
            assert(t[j - 1] == y);
        }
        listing_from(s, t, i + 1);
        assert(q =~= seq![x] + t);
    } else {
        assert forall|k: int| 0 <= k < q.len() implies #[trigger] q[k] >= i + 1 && s.contains(q[k]) by {
            assert(q[k] != i as u32);
        }
        listing_from(s, q, i + 1);
    }
}

/// A strictly ascending list of the members of `s` is `ascending_ids(s)`.
pub proof fn listing_is_unique(s: Set<u32>, q: Seq<u32>)
    requires
        rising(q),
        forall|x: u32| s.contains(x) <==> #[trigger] q.contains(x),
    ensures
        q == ascending_ids(s),
{
    assert forall|k: int| 0 <= k < q.len() implies #[trigger] q[k] >= 0 && s.contains(q[k]) by {
        assert(q.contains(q[k]));
    }
    listing_from(s, q, 0);
}

proof fn ids_from_members(s: Set<u32>, i: nat)
    ensures
        rising(ids_from(s, i)),
        forall|k: int| 0 <= k < ids_from(s, i).len() ==> #[trigger] ids_from(s, i)[k] >= i && s.contains(
            ids_from(s, i)[k],
        ),
        forall|x: u32| s.contains(x) && x >= i ==> #[trigger] ids_from(s, i).contains(x),
    decreases 0x1_0000_0000 - i,
{
    if i <= u32::MAX {
        ids_from_members(s, i + 1);
        let t = ids_from(s, i + 1);
        let q = ids_from(s, i);
        if s.contains(i as u32) {
            assert(q == seq![i as u32] + t);
            assert forall|a: int, b: int| 0 <= a < b < q.len() implies #[trigger] q[a] < #[trigger] q[b] by {
                assert(q[b] == t[b - 1]);
                if a > 0 {
                    assert(q[a] == t[a - 1]);
                }
            }
            assert forall|k: int| 0 <= k < q.len() implies #[trigger] q[k] >= i && s.contains(q[k]) by {
                if k > 0 {
                    assert(q[k] == t[k - 1]);
                }
            }
            assert forall|x: u32| s.contains(x) && x >= i implies #[trigger] q.contains(x) by {
                if x == i {
                    assert(q[0] == x);
                } else {
                    assert(t.contains(x));
                    let j = t.index_of(x);
                    assert(q[j + 1] == x);
                }
            }
        } else {
            assert forall|x: u32| s.contains(x) && x >= i implies #[trigger] q.contains(x) by {
                assert(t.contains(x));
            }
        }
    }
}

/// The listing ascends strictly and holds the members and nothing else.
pub proof fn listing_holds_the_members(s: Set<u32>)
    ensures
        rising(ascending_ids(s)),
        forall|x: u32| s.contains(x) <==> #[trigger] ascending_ids(s).contains(x),
{
    ids_from_members(s, 0);
}

} // verus!

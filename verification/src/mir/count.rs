//! Counting instructions.
use super::func::FuncV;
use super::inst::{InstV, ValueId};
use super::rewrite::{has_inst, pruned, removed, renamed, stays, staying, without};
use vstd::prelude::*;
use vstd::set_lib::lemma_set_disjoint_lens;

verus! {

/// Number of instructions from `i` on with property `p`.
pub open spec fn count_in(insts: Seq<InstV>, p: spec_fn(InstV) -> bool, i: int) -> nat
    decreases insts.len() - i,
{
    if i >= insts.len() {
        0
    } else {
        (if p(insts[i]) {
            1nat
        } else {
            0nat
        }) + count_in(insts, p, i + 1)
    }
}

/// Number of instructions of the blocks from `b` on with property `p`.
pub open spec fn count_from(f: FuncV, p: spec_fn(InstV) -> bool, b: int) -> nat
    decreases f.blocks.len() - b,
{
    if b >= f.blocks.len() {
        0
    } else {
        count_in(f.blocks[b].insts, p, 0) + count_from(f, p, b + 1)
    }
}

/// Every instruction.
pub open spec fn any() -> spec_fn(InstV) -> bool {
    |x: InstV| true
}

/// Phis.
pub open spec fn joins() -> spec_fn(InstV) -> bool {
    |x: InstV| x.phi()
}

/// Number of instructions.
pub open spec fn size(f: FuncV) -> nat {
    count_from(f, any(), 0)
}

/// Number of phis.
pub open spec fn phis(f: FuncV) -> nat {
    count_from(f, joins(), 0)
}

/// Equal properties at equal places count the same.
pub proof fn count_in_agrees(
    s: Seq<InstV>,
    t: Seq<InstV>,
    p: spec_fn(InstV) -> bool,
    q: spec_fn(InstV) -> bool,
    i: int,
)
    requires
        0 <= i,
        s.len() == t.len(),
        forall|k: int| 0 <= k < s.len() ==> p(#[trigger] s[k]) == q(t[k]),
    ensures
        count_in(s, p, i) == count_in(t, q, i),
    decreases s.len() - i,
{
    if i < s.len() {
        count_in_agrees(s, t, p, q, i + 1);
    }
}

/// Renaming operands changes no count of what does not look at operands.
pub proof fn renaming_keeps_count(f: FuncV, m: Map<u32, ValueId>, p: spec_fn(InstV) -> bool, b: int)
    requires
        0 <= b,
        forall|x: InstV| #[trigger] p(x.renamed(m)) == p(x),
    ensures
        count_from(renamed(f, m), p, b) == count_from(f, p, b),
    decreases f.blocks.len() - b,
{
    if b < f.blocks.len() {
        count_in_agrees(renamed(f, m).blocks[b].insts, f.blocks[b].insts, p, p, 0);
        renaming_keeps_count(f, m, p, b + 1);
    }
}

proof fn without_splits(insts: Seq<InstV>, gone: Set<u32>, p: spec_fn(InstV) -> bool, i: int)
    requires
        0 <= i,
    ensures
        count_in(without(insts, gone, i), p, 0) + count_in(
            insts,
            |x: InstV| p(x) && gone.contains(x.dest().0),
            i,
        ) == count_in(insts, p, i),
    decreases insts.len() - i,
{
    if i < insts.len() {
        without_splits(insts, gone, p, i + 1);
        let rest = without(insts, gone, i + 1);
        if !gone.contains(insts[i].dest().0) {
            let all = without(insts, gone, i);
            assert(all == seq![insts[i]] + rest);
            assert(all[0] == insts[i]);
            count_of_tail(all, rest, p, 1);
        } else {
            assert(without(insts, gone, i) =~= rest);
        }
    }
}

/// A sequence behind its first elements counts as the sequence that follows them.
proof fn count_of_tail(s: Seq<InstV>, t: Seq<InstV>, p: spec_fn(InstV) -> bool, i: int)
    requires
        s.len() == t.len() + 1,
        1 <= i,
        forall|k: int| 0 <= k < t.len() ==> s[k + 1] == #[trigger] t[k],
    ensures
        count_in(s, p, i) == count_in(t, p, i - 1),
    decreases s.len() - i,
{
    if i < s.len() {
        assert(s[i - 1 + 1] == t[i - 1]);
        count_of_tail(s, t, p, i + 1);
    }
}

/// What removal leaves and what it takes are all there was.
pub proof fn removing_splits(f: FuncV, gone: Set<u32>, p: spec_fn(InstV) -> bool, b: int)
    requires
        0 <= b,
    ensures
        count_from(removed(f, gone), p, b) + count_from(
            f,
            |x: InstV| p(x) && gone.contains(x.dest().0),
            b,
        ) == count_from(f, p, b),
    decreases f.blocks.len() - b,
{
    if b < f.blocks.len() {
        without_splits(f.blocks[b].insts, gone, p, 0);
        removing_splits(f, gone, p, b + 1);
    }
}

proof fn staying_counts(f: FuncV, insts: Seq<InstV>, p: spec_fn(InstV) -> bool, i: int)
    requires
        0 <= i,
    ensures
        count_in(staying(f, insts, i), p, 0) <= count_in(insts, p, i),
        (forall|x: InstV| #[trigger] p(x) ==> stays(f, x)) ==> count_in(staying(f, insts, i), p, 0) == count_in(
            insts,
            p,
            i,
        ),
    decreases insts.len() - i,
{
    if i < insts.len() {
        staying_counts(f, insts, p, i + 1);
        let rest = staying(f, insts, i + 1);
        let all = staying(f, insts, i);
        if stays(f, insts[i]) {
            assert(all == seq![insts[i]] + rest);
            assert(all[0] == insts[i]);
            count_of_tail(all, rest, p, 1);
        } else {
            assert(all =~= rest);
            assert(p(insts[i]) ==> !(forall|x: InstV| #[trigger] p(x) ==> stays(f, x)));
        }
    }
}

/// Pruning adds nothing.
pub proof fn pruning_counts(f: FuncV, p: spec_fn(InstV) -> bool, b: int)
    requires
        0 <= b,
    ensures
        count_from(pruned(f), p, b) <= count_from(f, p, b),
        (forall|x: InstV| #[trigger] p(x) ==> stays(f, x)) ==> count_from(pruned(f), p, b) == count_from(
            f,
            p,
            b,
        ),
    decreases f.blocks.len() - b,
{
    if b < f.blocks.len() {
        staying_counts(f, f.blocks[b].insts, p, 0);
        pruning_counts(f, p, b + 1);
    }
}

/// First results of the instructions from `i` on with property `p`.
pub open spec fn results_in(insts: Seq<InstV>, p: spec_fn(InstV) -> bool, i: int) -> Set<u32>
    decreases insts.len() - i,
{
    if i >= insts.len() {
        Set::empty()
    } else if p(insts[i]) {
        results_in(insts, p, i + 1).insert(insts[i].dest().0)
    } else {
        results_in(insts, p, i + 1)
    }
}

/// First results of the instructions of the blocks from `b` on with property `p`.
pub open spec fn results_from(f: FuncV, p: spec_fn(InstV) -> bool, b: int) -> Set<u32>
    decreases f.blocks.len() - b,
{
    if b >= f.blocks.len() {
        Set::empty()
    } else {
        results_in(f.blocks[b].insts, p, 0).union(results_from(f, p, b + 1))
    }
}

/// Whether instruction `i` of block `b` has property `p` and first result `k`.
pub open spec fn gives(f: FuncV, p: spec_fn(InstV) -> bool, b: int, i: int, k: u32) -> bool {
    has_inst(f, b, i) && p(f.blocks[b].insts[i]) && f.blocks[b].insts[i].dest().0 == k
}

proof fn results_in_are_given(f: FuncV, p: spec_fn(InstV) -> bool, b: int, i: int)
    requires
        0 <= b < f.blocks.len(),
        0 <= i,
    ensures
        forall|k: u32| #[trigger]
            results_in(f.blocks[b].insts, p, i).contains(k) ==> exists|j: int|
                i <= j && #[trigger] gives(f, p, b, j, k),
        forall|k: u32, j: int|
            i <= j && #[trigger] gives(f, p, b, j, k) ==> results_in(f.blocks[b].insts, p, i).contains(k),
    decreases f.blocks[b].insts.len() - i,
{
    let insts = f.blocks[b].insts;
    if i < insts.len() {
        results_in_are_given(f, p, b, i + 1);
        assert forall|k: u32| #[trigger] results_in(insts, p, i).contains(k) implies exists|j: int|
            i <= j && #[trigger] gives(f, p, b, j, k) by {
            if results_in(insts, p, i + 1).contains(k) {
            } else {
                assert(gives(f, p, b, i, k));
            }
        }
        assert forall|k: u32, j: int| i <= j && #[trigger] gives(f, p, b, j, k) implies results_in(
            insts,
            p,
            i,
        ).contains(k) by {
            if j > i {
                assert(results_in(insts, p, i + 1).contains(k));
            }
        }
    }
}

proof fn results_are_given(f: FuncV, p: spec_fn(InstV) -> bool, b: int)
    requires
        0 <= b,
    ensures
        forall|k: u32| #[trigger]
            results_from(f, p, b).contains(k) ==> exists|c: int, j: int|
                b <= c && #[trigger] gives(f, p, c, j, k),
        forall|k: u32, c: int, j: int|
            b <= c && #[trigger] gives(f, p, c, j, k) ==> results_from(f, p, b).contains(k),
    decreases f.blocks.len() - b,
{
    if b < f.blocks.len() {
        results_are_given(f, p, b + 1);
        results_in_are_given(f, p, b, 0);
        let here = results_in(f.blocks[b].insts, p, 0);
        assert forall|k: u32| #[trigger] results_from(f, p, b).contains(k) implies exists|c: int, j: int|
            b <= c && #[trigger] gives(f, p, c, j, k) by {
            if here.contains(k) {
                let j = choose|j: int| 0 <= j && #[trigger] gives(f, p, b, j, k);
                assert(gives(f, p, b, j, k));
            } else {
                assert(results_from(f, p, b + 1).contains(k));
            }
        }
        assert forall|k: u32, c: int, j: int| b <= c && #[trigger] gives(f, p, c, j, k) implies results_from(
            f,
            p,
            b,
        ).contains(k) by {
            if c == b {
                assert(here.contains(k));
            } else {
                assert(results_from(f, p, b + 1).contains(k));
            }
        }
    }
}

/// Whether no two instructions with property `p` share their first result.
pub open spec fn given_once(f: FuncV, p: spec_fn(InstV) -> bool) -> bool {
    forall|b: int, i: int, c: int, j: int, k: u32| #[trigger]
        gives(f, p, b, i, k) && #[trigger] gives(f, p, c, j, k) ==> b == c && i == j
}

proof fn results_in_counted(f: FuncV, p: spec_fn(InstV) -> bool, b: int, i: int)
    requires
        0 <= b < f.blocks.len(),
        0 <= i,
    ensures
        results_in(f.blocks[b].insts, p, i).finite(),
        results_in(f.blocks[b].insts, p, i).len() <= count_in(f.blocks[b].insts, p, i),
        given_once(f, p) ==> results_in(f.blocks[b].insts, p, i).len() == count_in(f.blocks[b].insts, p, i),
    decreases f.blocks[b].insts.len() - i,
{
    let insts = f.blocks[b].insts;
    if i < insts.len() {
        results_in_counted(f, p, b, i + 1);
        results_in_are_given(f, p, b, i + 1);
        let k = insts[i].dest().0;
        let rest = results_in(insts, p, i + 1);
        if p(insts[i]) && given_once(f, p) && rest.contains(k) {
            let j = choose|j: int| i + 1 <= j && #[trigger] gives(f, p, b, j, k);
            assert(gives(f, p, b, i, k));
            assert(gives(f, p, b, j, k));
        }
    }
}

/// There are at least as many instructions with a property as results of such, and as many where
/// no result is given twice.
pub proof fn results_counted(f: FuncV, p: spec_fn(InstV) -> bool, b: int)
    requires
        0 <= b,
    ensures
        results_from(f, p, b).finite(),
        results_from(f, p, b).len() <= count_from(f, p, b),
        given_once(f, p) ==> results_from(f, p, b).len() == count_from(f, p, b),
    decreases f.blocks.len() - b,
{
    if b < f.blocks.len() {
        results_counted(f, p, b + 1);
        results_in_counted(f, p, b, 0);
        let here = results_in(f.blocks[b].insts, p, 0);
        let rest = results_from(f, p, b + 1);
        vstd::set_lib::lemma_len_union(here, rest);
        if given_once(f, p) {
            results_in_are_given(f, p, b, 0);
            results_are_given(f, p, b + 1);
            assert(here.disjoint(rest)) by {
                assert forall|k: u32| here.contains(k) && rest.contains(k) implies false by {
                    let j = choose|j: int| 0 <= j && #[trigger] gives(f, p, b, j, k);
                    let (c, i) = choose|c: int, i: int| b + 1 <= c && #[trigger] gives(f, p, c, i, k);
                    assert(gives(f, p, b, j, k) && gives(f, p, c, i, k));
                }
            }
            lemma_set_disjoint_lens(here, rest);
        }
    }
}

/// Removing the instructions that give the values of a set removes at least one for each.
pub proof fn removing_counts(f: FuncV, gone: Set<u32>, p: spec_fn(InstV) -> bool)
    requires
        forall|k: u32| #[trigger] gone.contains(k) ==> exists|b: int, i: int| #[trigger] gives(f, p, b, i, k),
    ensures
        gone.finite(),
        count_from(removed(f, gone), p, 0) + gone.len() <= count_from(f, p, 0),
        given_once(f, p) ==> count_from(removed(f, gone), p, 0) + gone.len() == count_from(f, p, 0),
{
    let q = |x: InstV| p(x) && gone.contains(x.dest().0);
    removing_splits(f, gone, p, 0);
    results_counted(f, q, 0);
    results_are_given(f, q, 0);
    let given = results_from(f, q, 0);
    assert forall|k: u32| #[trigger] gone.contains(k) implies given.contains(k) by {
        let (b, i) = choose|b: int, i: int| #[trigger] gives(f, p, b, i, k);
        assert(gives(f, q, b, i, k));
    }
    assert forall|k: u32| #[trigger] given.contains(k) implies gone.contains(k) by {
        let (b, i) = choose|b: int, i: int| 0 <= b && #[trigger] gives(f, q, b, i, k);
        assert(gives(f, q, b, i, k));
    }
    assert(given =~= gone);
    if given_once(f, p) {
        assert forall|b: int, i: int, c: int, j: int, k: u32| #[trigger]
            gives(f, q, b, i, k) && #[trigger] gives(f, q, c, j, k) implies b == c && i == j by {
            assert(gives(f, p, b, i, k) && gives(f, p, c, j, k));
        }
    }
}

} // verus!

//! Copies on control edges: phi arguments move to the phis' slots in parallel,
//! which straight-line code does one copy at a time.
use super::func::{FuncV, MirFunc};
use super::inst::{BlockId, InstV, MirInst, ValueId};
use vstd::prelude::*;

verus! {

/// Some copy reads slot `d`.
#[verifier::opaque]
pub open spec fn is_source(moves: Seq<(u8, u8)>, d: u8) -> bool {
    exists|i: int| 0 <= i < moves.len() && (#[trigger] moves[i]).1 == d
}

/// First copy from `i` on whose destination nothing reads.
pub open spec fn first_free(moves: Seq<(u8, u8)>, i: nat) -> Option<nat>
    decreases moves.len() - i,
{
    if i >= moves.len() {
        None
    } else if !is_source(moves, moves[i as int].0) {
        Some(i)
    } else {
        first_free(moves, i + 1)
    }
}

/// Copies that read `d` read `scratch` instead.
pub open spec fn redirect(moves: Seq<(u8, u8)>, d: u8, scratch: u8) -> Seq<(u8, u8)> {
    moves.map_values(
        |m: (u8, u8)|
            if m.1 == d {
                (m.0, scratch)
            } else {
                m
            },
    )
}

/// Order of parallel copies `(to, from)`. Copies whose destination is no longer
/// read go first; where none is left, a cycle is broken with `scratch`.
pub open spec fn sequenced(moves: Seq<(u8, u8)>, scratch: u8) -> Seq<(u8, u8)>
    decreases moves.len(),
{
    if moves.len() == 0 {
        Seq::empty()
    } else {
        match first_free(moves, 0) {
            Some(i) => if i < moves.len() {
                seq![moves[i as int]] + sequenced(moves.remove(i as int), scratch)
            } else {
                Seq::empty()
            },
            None => seq![(scratch, moves[0].0), moves[0]] + sequenced(
                redirect(moves.remove(0), moves[0].0, scratch),
                scratch,
            ),
        }
    }
}

fn reads_slot(moves: &Vec<(u8, u8)>, d: u8) -> (r: bool)
    ensures
        r == is_source(moves@, d),
{
    reveal(is_source);
    let mut i: usize = 0;
    while i < moves.len()
        invariant
            i <= moves@.len(),
            forall|j: int| 0 <= j < i ==> (#[trigger] moves@[j]).1 != d,
        decreases moves@.len() - i,
    {
        if moves[i].1 == d {
            reveal(is_source);
            return true;
        }
        i = i + 1;
    }
    false
}

fn find_free(moves: &Vec<(u8, u8)>) -> (r: Option<usize>)
    ensures
        match r {
            Some(i) => i < moves@.len() && first_free(moves@, 0) == Some(i as nat),
            None => first_free(moves@, 0) is None,
        },
{
    let mut i: usize = 0;
    while i < moves.len()
        invariant
            i <= moves@.len(),
            first_free(moves@, 0) == first_free(moves@, i as nat),
        decreases moves@.len() - i,
    {
        if !reads_slot(moves, moves[i].0) {
            return Some(i);
        }
        i = i + 1;
    }
    None
}

/// Sequentialize parallel copies with one scratch slot.
pub fn resolve_parallel(moves: Vec<(u8, u8)>, scratch: u8) -> (r: Vec<(u8, u8)>)
    ensures
        r@ == sequenced(moves@, scratch),
{
    let ghost m0 = moves@;
    let mut moves = moves;
    let mut out: Vec<(u8, u8)> = Vec::new();
    assert(sequenced(m0, scratch) =~= out@ + sequenced(moves@, scratch));
    while moves.len() > 0
        invariant
            sequenced(m0, scratch) == out@ + sequenced(moves@, scratch),
        decreases moves@.len(),
    {
        let ghost before = moves@;
        let ghost o0 = out@;
        match find_free(&moves) {
            Some(i) => {
                let m = moves.remove(i);
                out.push(m);
                assert(moves@ =~= before.remove(i as int));
                assert(out@ + sequenced(moves@, scratch) =~= o0 + (seq![m] + sequenced(moves@, scratch)));
            },
            None => {
                let (d0, s0) = moves.remove(0);
                assert(moves@ =~= before.remove(0));
                out.push((scratch, d0));
                out.push((d0, s0));
                let ghost rest = moves@;
                let mut i: usize = 0;
                while i < moves.len()
                    invariant
                        i <= moves@.len(),
                        moves@.len() == rest.len(),
                        forall|j: int| 0 <= j < i ==> moves@[j] == redirect(rest, d0, scratch)[j],
                        forall|j: int| i <= j < rest.len() ==> moves@[j] == rest[j],
                    decreases moves@.len() - i,
                {
                    if moves[i].1 == d0 {
                        let to = moves[i].0;
                        moves.set(i, (to, scratch));
                    }
                    i = i + 1;
                }
                assert(moves@ =~= redirect(rest, d0, scratch));
                assert(out@ + sequenced(moves@, scratch) =~= o0 + (seq![(scratch, d0), (d0, s0)] + sequenced(
                    moves@,
                    scratch,
                )));
            },
        }
    }
    assert(out@ + sequenced(moves@, scratch) =~= out@);
    out
}

/// First phi argument from `i` on that comes from `pred`.
pub open spec fn arg_from(args: Seq<(BlockId, ValueId)>, pred: BlockId, i: nat) -> Option<nat>
    decreases args.len() - i,
{
    if i >= args.len() {
        None
    } else if args[i as int].0 == pred {
        Some(i)
    } else {
        arg_from(args, pred, i + 1)
    }
}

pub fn find_arg(args: &Vec<(BlockId, ValueId)>, pred: BlockId) -> (r: Option<usize>)
    ensures
        match r {
            Some(k) => k < args@.len() && arg_from(args@, pred, 0) == Some(k as nat),
            None => arg_from(args@, pred, 0) is None,
        },
{
    let mut i: usize = 0;
    while i < args.len()
        invariant
            i <= args@.len(),
            arg_from(args@, pred, 0) == arg_from(args@, pred, i as nat),
        decreases args@.len() - i,
    {
        if args[i].0 == pred {
            return Some(i);
        }
        i = i + 1;
    }
    None
}

/// Copies that the phis from `i` on need on the edge from `pred`.
pub open spec fn edge_copies(insts: Seq<InstV>, pred: BlockId, regs: Seq<u8>, i: nat) -> Seq<(u8, u8)>
    decreases insts.len() - i,
{
    if i >= insts.len() {
        Seq::empty()
    } else {
        match insts[i as int] {
            InstV::Phi { dest, args, .. } => {
                let rest = edge_copies(insts, pred, regs, i + 1);
                match arg_from(args, pred, 0) {
                    Some(k) => {
                        let d = regs[dest.0 as int];
                        let s = regs[args[k as int].1.0 as int];
                        if d != s {
                            seq![(d, s)] + rest
                        } else {
                            rest
                        }
                    },
                    None => rest,
                }
            },
            _ => Seq::empty(),
        }
    }
}

/// Copies of the edge from `pred` to `succ`, in order.
pub open spec fn edge_moves(f: FuncV, pred: BlockId, succ: BlockId, regs: Seq<u8>, scratch: u8) -> Seq<(u8, u8)> {
    sequenced(edge_copies(f.blocks[succ.0 as int].insts, pred, regs, 0), scratch)
}

pub fn phi_moves(func: &MirFunc, pred: BlockId, succ: BlockId, regs: &Vec<u8>, scratch: u8) -> (r: Vec<(u8, u8)>)
    requires
        func@.indexed(),
        succ.0 < func@.blocks.len(),
        regs@.len() == func@.types.len(),
    ensures
        r@ == edge_moves(func@, pred, succ, regs@, scratch),
{
    let block = func.block(succ);
    let ghost insts = func@.blocks[succ.0 as int].insts;
    let mut moves: Vec<(u8, u8)> = Vec::new();
    let mut i: usize = 0;
    let mut go = true;
    assert(edge_copies(insts, pred, regs@, 0) =~= moves@ + edge_copies(insts, pred, regs@, 0));
    while go && i < block.insts.len()
        invariant
            func@.indexed(),
            succ.0 < func@.blocks.len(),
            regs@.len() == func@.types.len(),
            block@ == func@.blocks[succ.0 as int],
            insts == block@.insts,
            i <= block.insts@.len(),
            go ==> edge_copies(insts, pred, regs@, 0) == moves@ + edge_copies(insts, pred, regs@, i as nat),
            !go ==> edge_copies(insts, pred, regs@, 0) == moves@,
        decreases block.insts@.len() - i, (if go { 1int } else { 0int }),
    {
        assert(insts[i as int] == block.insts@[i as int]@);
        let ghost m0 = moves@;
        if let MirInst::Phi { dest, args, .. } = &block.insts[i] {
            if let Some(k) = find_arg(args, pred) {
                proof {
                    assert(func@.block_indexed(func@.blocks[succ.0 as int], succ.0 as int));
                    assert(func@.inst_indexed(insts[i as int]));
                    assert(insts[i as int].uses()[k as int] == args@[k as int].1);
                }
                let d = regs[dest.index()];
                let s = regs[args[k].1.index()];
                if d != s {
                    moves.push((d, s));
                    assert(m0 + (seq![(d, s)] + edge_copies(insts, pred, regs@, (i + 1) as nat)) =~= moves@
                        + edge_copies(insts, pred, regs@, (i + 1) as nat));
                }
            }
            i = i + 1;
        } else {
            go = false;
            assert(m0 + edge_copies(insts, pred, regs@, i as nat) =~= moves@);
        }
    }
    if go {
        assert(moves@ + edge_copies(insts, pred, regs@, i as nat) =~= moves@);
    }
    resolve_parallel(moves, scratch)
}

// What the copies do.

/// Slot contents after one copy.
pub open spec fn after(e: spec_fn(u8) -> int, m: (u8, u8)) -> spec_fn(u8) -> int {
    |r: u8|
        if r == m.0 {
            e(m.1)
        } else {
            e(r)
        }
}

/// Slot contents after the copies, one at a time.
pub open spec fn run(ms: Seq<(u8, u8)>, e: spec_fn(u8) -> int) -> spec_fn(u8) -> int
    decreases ms.len(),
{
    if ms.len() == 0 {
        e
    } else {
        run(ms.drop_first(), after(e, ms[0]))
    }
}

/// Contents of slot `r` after all the copies at once.
pub open spec fn parallel(ms: Seq<(u8, u8)>, e: spec_fn(u8) -> int, r: u8) -> int {
    if exists|i: int| 0 <= i < ms.len() && (#[trigger] ms[i]).0 == r {
        e(ms[choose|i: int| 0 <= i < ms.len() && (#[trigger] ms[i]).0 == r].1)
    } else {
        e(r)
    }
}

/// No slot is written twice.
pub open spec fn distinct_targets(ms: Seq<(u8, u8)>) -> bool {
    forall|i: int, j: int| 0 <= i < j < ms.len() ==> (#[trigger] ms[i]).0 != (#[trigger] ms[j]).0
}

/// A slot that a copy writes holds what the copy reads.
pub proof fn parallel_at(ms: Seq<(u8, u8)>, e: spec_fn(u8) -> int, i: int)
    requires
        distinct_targets(ms),
        0 <= i < ms.len(),
    ensures
        parallel(ms, e, ms[i].0) == e(ms[i].1),
{
    let r = ms[i].0;
    let j = choose|j: int| 0 <= j < ms.len() && (#[trigger] ms[j]).0 == r;
    assert(ms[i].0 == r);
    assert(ms[j].0 == r);
    if i < j {
        assert(ms[i].0 != ms[j].0);
    } else if j < i {
        assert(ms[j].0 != ms[i].0);
    }
}

proof fn source_at(ms: Seq<(u8, u8)>, d: u8) -> (k: int)
    requires
        is_source(ms, d),
    ensures
        0 <= k < ms.len(),
        ms[k].1 == d,
{
    reveal(is_source);
    choose|k: int| 0 <= k < ms.len() && (#[trigger] ms[k]).1 == d
}

proof fn copy_is_source(ms: Seq<(u8, u8)>, k: int)
    requires
        0 <= k < ms.len(),
    ensures
        is_source(ms, ms[k].1),
{
    reveal(is_source);
    assert(ms[k].1 == ms[k].1);
}

proof fn first_free_hit(ms: Seq<(u8, u8)>, i: nat)
    ensures
        match first_free(ms, i) {
            Some(k) => i <= k < ms.len() && !is_source(ms, ms[k as int].0),
            None => forall|k: int| i <= k < ms.len() ==> is_source(ms, (#[trigger] ms[k]).0),
        },
    decreases ms.len() - i,
{
    if i < ms.len() && is_source(ms, ms[i as int].0) {
        first_free_hit(ms, i + 1);
    }
}

/// Distinct elements do not fit into a shorter list.
proof fn distinct_do_not_fit(ds: Seq<u8>, rest: Seq<u8>)
    requires
        ds.no_duplicates(),
        forall|a: int| 0 <= a < ds.len() ==> rest.contains(#[trigger] ds[a]),
    ensures
        ds.len() <= rest.len(),
{
    ds.unique_seq_to_set();
    rest.lemma_cardinality_of_set();
    assert(ds.to_set().subset_of(rest.to_set())) by {
        assert forall|d: u8| ds.to_set().contains(d) implies rest.to_set().contains(d) by {
            let a = choose|a: int| 0 <= a < ds.len() && ds[a] == d;
            assert(rest.contains(ds[a]));
        }
    }
    vstd::set_lib::lemma_len_subset(ds.to_set(), rest.to_set());
}

/// While the scratch slot holds a value that is still to be copied, some copy
/// can go.
proof fn scratch_read_leaves_a_free_copy(ms: Seq<(u8, u8)>, scratch: u8)
    requires
        distinct_targets(ms),
        forall|i: int| 0 <= i < ms.len() ==> (#[trigger] ms[i]).0 != scratch,
        is_source(ms, scratch),
    ensures
        first_free(ms, 0) is Some,
{
    first_free_hit(ms, 0);
    if first_free(ms, 0) is None {
        let ds = Seq::new(ms.len(), |i: int| ms[i].0);
        let j = source_at(ms, scratch);
        let rest = Seq::new(
            (ms.len() - 1) as nat,
            |i: int|
                if i < j {
                    ms[i].1
                } else {
                    ms[i + 1].1
                },
        );
        assert forall|a: int, b: int| 0 <= a < ds.len() && 0 <= b < ds.len() && a != b implies ds[a] != ds[b] by {
            if a < b {
                assert(ms[a].0 != ms[b].0);
            } else {
                assert(ms[b].0 != ms[a].0);
            }
        }
        assert forall|a: int| 0 <= a < ds.len() implies rest.contains(#[trigger] ds[a]) by {
            let d = ms[a].0;
            assert(is_source(ms, d));
            let k = source_at(ms, d);
            assert(k != j);
            if k < j {
                assert(rest[k] == d);
            } else {
                assert(rest[k - 1] == d);
            }
        }
        distinct_do_not_fit(ds, rest);
    }
}

/// One at a time, the ordered copies do what the parallel copies do, on every
/// slot but the scratch slot.
pub proof fn sequenced_copies_are_parallel(ms: Seq<(u8, u8)>, scratch: u8, e: spec_fn(u8) -> int, r: u8)
    requires
        distinct_targets(ms),
        forall|i: int| 0 <= i < ms.len() ==> (#[trigger] ms[i]).0 != scratch,
        r != scratch,
    ensures
        run(sequenced(ms, scratch), e)(r) == parallel(ms, e, r),
    decreases ms.len(),
{
    if ms.len() > 0 {
        first_free_hit(ms, 0);
        match first_free(ms, 0) {
            Some(i) => {
                let m = ms[i as int];
                let rest = ms.remove(i as int);
                let e1 = after(e, m);
                let tail = sequenced(rest, scratch);
                assert((seq![m] + tail).drop_first() =~= tail);
                assert forall|a: int, b: int| 0 <= a < b < rest.len() implies (#[trigger] rest[a]).0 != (
                #[trigger] rest[b]).0 by {
                    let a0 = if a < i { a } else { a + 1 };
                    let b0 = if b < i { b } else { b + 1 };
                    assert(ms[a0].0 != ms[b0].0);
                }
                assert forall|a: int| 0 <= a < rest.len() implies (#[trigger] rest[a]).0 != scratch by {
                    let a0 = if a < i { a } else { a + 1 };
                    assert(ms[a0].0 != scratch);
                }
                sequenced_copies_are_parallel(rest, scratch, e1, r);
                if exists|k: int| 0 <= k < ms.len() && (#[trigger] ms[k]).0 == r {
                    let k = choose|k: int| 0 <= k < ms.len() && (#[trigger] ms[k]).0 == r;
                    parallel_at(ms, e, k);
                    if k == i {
                        assert forall|a: int| 0 <= a < rest.len() implies (#[trigger] rest[a]).0 != r by {
                            let a0 = if a < i { a } else { a + 1 };
                            if a0 < i {
                                assert(ms[a0].0 != ms[i as int].0);
                            } else {
                                assert(ms[i as int].0 != ms[a0].0);
                            }
                        }
                    } else {
                        let k2 = if k < i { k } else { k - 1 };
                        assert(rest[k2] == ms[k]);
                        parallel_at(rest, e1, k2);
                        copy_is_source(ms, k);
                        assert(ms[k].1 != m.0);
                    }
                } else {
                    assert(ms[i as int].0 != r);
                    assert forall|a: int| 0 <= a < rest.len() implies (#[trigger] rest[a]).0 != r by {
                        let a0 = if a < i { a } else { a + 1 };
                        assert(ms[a0].0 != r);
                    }
                }
            },
            None => {
                if is_source(ms, scratch) {
                    scratch_read_leaves_a_free_copy(ms, scratch);
                }
                let m = ms[0];
                let d0 = m.0;
                let cut = ms.remove(0);
                let rest = redirect(cut, d0, scratch);
                let e1 = after(e, (scratch, d0));
                let e2 = after(e1, m);
                let tail = sequenced(rest, scratch);
                let all = seq![(scratch, d0), m] + tail;
                assert(all.drop_first().drop_first() =~= tail);
                assert(run(all, e) == run(all.drop_first(), e1));
                assert(all.drop_first()[0] == m);
                assert(run(all.drop_first(), e1) == run(tail, e2));
                assert forall|a: int| 0 <= a < rest.len() implies (#[trigger] rest[a]).0 == ms[a + 1].0 by {}
                assert forall|a: int, b: int| 0 <= a < b < rest.len() implies (#[trigger] rest[a]).0 != (
                #[trigger] rest[b]).0 by {
                    assert(ms[a + 1].0 != ms[b + 1].0);
                }
                assert forall|a: int| 0 <= a < rest.len() implies (#[trigger] rest[a]).0 != scratch by {
                    assert(ms[a + 1].0 != scratch);
                }
                sequenced_copies_are_parallel(rest, scratch, e2, r);
                copy_is_source(ms, 0);
                assert(m.1 != scratch);
                if exists|k: int| 0 <= k < ms.len() && (#[trigger] ms[k]).0 == r {
                    let k = choose|k: int| 0 <= k < ms.len() && (#[trigger] ms[k]).0 == r;
                    parallel_at(ms, e, k);
                    if k == 0 {
                        assert forall|a: int| 0 <= a < rest.len() implies (#[trigger] rest[a]).0 != r by {
                            assert(ms[0].0 != ms[a + 1].0);
                        }
                    } else {
                        assert(rest[k - 1].0 == r);
                        parallel_at(rest, e2, k - 1);
                        copy_is_source(ms, k);
                        assert(ms[k].1 != scratch);
                        assert(d0 != scratch);
                    }
                } else {
                    assert(ms[0].0 != r);
                    assert forall|a: int| 0 <= a < rest.len() implies (#[trigger] rest[a]).0 != r by {
                        assert(ms[a + 1].0 != r);
                    }
                }
            },
        }
    }
}

} // verus!

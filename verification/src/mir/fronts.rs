//! A block in front of a loop changes no word: control comes through it where it came to the head,
//! and the head's phis get what they got.
use super::func::FuncV;
use super::inst::{BlockId, InstV, ValueId};
use super::licm::{args_of, one_value, parted_from, with_front, SplitV};
use super::moves::arg_from;
use super::sameness::{way, Way};
use vstd::prelude::*;

verus! {

/// The value that a phi takes over the edge from `p`.
pub open spec fn taken_from(args: Seq<(BlockId, ValueId)>, p: BlockId) -> Option<ValueId> {
    match arg_from(args, p, 0) {
        Some(k) => Some(args[k as int].1),
        None => None,
    }
}

/// The first argument from `p` is the first argument from `p` among those that come from `ext`, or
/// among those that do not.
proof fn parting_keeps_arguments(
    args: Seq<(BlockId, ValueId)>,
    ext: Seq<BlockId>,
    side: bool,
    p: BlockId,
    i: nat,
)
    requires
        ext.contains(p) == side,
        i <= args.len(),
    ensures
        taken_from(args_of(args, ext, side, i as int), p) == (match arg_from(args, p, i) {
            Some(k) => Some(args[k as int].1),
            None => None,
        }),
    decreases args.len() - i,
{
    let all = args_of(args, ext, side, i as int);
    if i < args.len() {
        let rest = args_of(args, ext, side, (i + 1) as int);
        parting_keeps_arguments(args, ext, side, p, i + 1);
        if ext.contains(args[i as int].0) == side {
            assert(all =~= seq![args[i as int]] + rest);
            shifted_arguments(args[i as int], rest, p, 0);
            if args[i as int].0 == p {
                assert(arg_from(all, p, 0) == Some(0nat));
            } else {
                assert(arg_from(all, p, 0) == arg_from(all, p, 1));
            }
        } else {
            assert(all =~= rest);
        }
    }
}

proof fn shifted_arguments(first: (BlockId, ValueId), rest: Seq<(BlockId, ValueId)>, p: BlockId, i: nat)
    requires
        i <= rest.len(),
    ensures
        arg_from(seq![first] + rest, p, i + 1) == (match arg_from(rest, p, i) {
            Some(k) => Some(k + 1),
            None => None,
        }),
        match arg_from(rest, p, i) {
            Some(k) => k < rest.len() && (seq![first] + rest)[(k + 1) as int] == rest[k as int],
            None => true,
        },
    decreases rest.len() - i,
{
    if i < rest.len() {
        assert((seq![first] + rest)[(i + 1) as int] == rest[i as int]);
        shifted_arguments(first, rest, p, i + 1);
    }
}

/// One more argument, of another block.
proof fn one_more_argument(args: Seq<(BlockId, ValueId)>, x: (BlockId, ValueId), p: BlockId, i: nat)
    requires
        i <= args.len(),
    ensures
        p != x.0 ==> arg_from(args.push(x), p, i) == arg_from(args, p, i),
        p == x.0 && arg_from(args, p, i) is None ==> arg_from(args.push(x), p, i) == Some(args.len()),
        arg_from(args, p, i) matches Some(k) ==> k < args.len(),
    decreases args.len() - i,
{
    if i < args.len() {
        assert(args.push(x)[i as int] == args[i as int]);
        one_more_argument(args, x, p, i + 1);
    } else {
        assert(args.push(x)[i as int] == x);
        reveal_with_fuel(arg_from, 2);
    }
}

proof fn absent_arguments(args: Seq<(BlockId, ValueId)>, ext: Seq<BlockId>, side: bool, ph: BlockId, i: nat)
    requires
        forall|k: int| 0 <= k < args.len() ==> (#[trigger] args[k]).0 != ph,
        i <= args.len(),
    ensures
        forall|k: int|
            0 <= k < args_of(args, ext, side, i as int).len() ==> (#[trigger] args_of(args, ext, side, i as int)[k]).0
                != ph,
    decreases args.len() - i,
{
    if i < args.len() {
        absent_arguments(args, ext, side, ph, i + 1);
        let all = args_of(args, ext, side, i as int);
        let rest = args_of(args, ext, side, (i + 1) as int);
        assert forall|k: int| 0 <= k < all.len() implies (#[trigger] all[k]).0 != ph by {
            if all.len() == rest.len() {
                assert(all =~= rest);
                assert(rest[k].0 != ph);
            } else if k > 0 {
                assert(all[k] == rest[k - 1]);
            } else {
                assert(all[0] == args[i as int]);
            }
        }
    }
}

proof fn nothing_from(args: Seq<(BlockId, ValueId)>, p: BlockId, i: nat)
    requires
        forall|k: int| 0 <= k < args.len() ==> (#[trigger] args[k]).0 != p,
    ensures
        arg_from(args, p, i) is None,
    decreases args.len() - i,
{
    if i < args.len() {
        nothing_from(args, p, i + 1);
    }
}

/// The head's phi `k` behind the parting: over edges inside the loop it takes what it took; over the
/// edge from the front it takes what it took over each edge from outside, directly or through a phi
/// of the front.
pub open spec fn parted_right(
    old_insts: Seq<InstV>,
    s: SplitV,
    ext: Seq<BlockId>,
    ph: BlockId,
    k: int,
    p: BlockId,
) -> bool {
    let old_args = old_insts[k]->Phi_args;
    let new_args = s.head[k]->Phi_args;
    &&& s.head[k] is Phi && s.head[k].dest() == old_insts[k].dest()
    &&& !ext.contains(p) && p != ph ==> taken_from(new_args, p) == taken_from(old_args, p)
    &&& ext.contains(p) && taken_from(old_args, p) is Some ==> match taken_from(new_args, ph) {
        Some(v) => Some(v) == taken_from(old_args, p) || exists|j: int|
            0 <= j < s.phis.len() && (#[trigger] s.phis[j]).dest() == v && s.phis[j] is Phi && taken_from(
                s.phis[j]->Phi_args,
                p,
            ) == taken_from(old_args, p),
        None => false,
    }
}

proof fn one_phi_is_parted(s: SplitV, inst: InstV, ext: Seq<BlockId>, ph: BlockId, p: BlockId)
    requires
        inst is Phi,
        !ext.contains(ph),
        forall|k: int| 0 <= k < inst->Phi_args.len() ==> (#[trigger] inst->Phi_args[k]).0 != ph,
    ensures
        ({
            let t = s.parted(inst, ext, ph);
            let new_args = t.head.last()->Phi_args;
            let old_args = inst->Phi_args;
            &&& t.head.len() == s.head.len() + 1 && t.head.drop_last() == s.head
            &&& s.phis.is_prefix_of(t.phis)
            &&& t.head.last() is Phi && t.head.last().dest() == inst.dest()
            &&& !ext.contains(p) && p != ph ==> taken_from(new_args, p) == taken_from(old_args, p)
            &&& ext.contains(p) && taken_from(old_args, p) is Some ==> match taken_from(new_args, ph) {
                Some(v) => Some(v) == taken_from(old_args, p) || (t.phis.len() == s.phis.len() + 1
                    && t.phis.last().dest() == v && t.phis.last() is Phi && taken_from(t.phis.last()->Phi_args, p)
                    == taken_from(old_args, p)),
                None => false,
            }
        }),
{
    let args = inst->Phi_args;
    let from = args_of(args, ext, true, 0);
    let inner = args_of(args, ext, false, 0);
    let t = s.parted(inst, ext, ph);
    if ext.contains(p) {
        parting_keeps_arguments(args, ext, true, p, 0);
        one_more_argument(from, (p, ValueId(0)), p, 0);
    } else {
        parting_keeps_arguments(args, ext, false, p, 0);
    }
    absent_arguments(args, ext, false, ph, 0);
    nothing_from(inner, ph, 0);
    let x = if one_value(from) {
        from[0].1
    } else {
        ValueId(s.types.len() as u32)
    };
    one_more_argument(inner, (ph, x), ph, 0);
    one_more_argument(inner, (ph, x), p, 0);
    assert(t.head.drop_last() =~= s.head);
    if from.len() > 0 {
        assert(inner.push((ph, x))[inner.len() as int] == (ph, x));
        if arg_from(inner, p, 0) is Some {
            let k = arg_from(inner, p, 0)->0;
            assert(inner.push((ph, x))[k as int] == inner[k as int]);
        }
    }
}

/// Parting the head's instructions.
proof fn all_phis_are_parted(
    insts: Seq<InstV>,
    s: SplitV,
    ext: Seq<BlockId>,
    ph: BlockId,
    i: int,
    k: int,
    p: BlockId,
)
    requires
        0 <= i <= insts.len(),
        s.head.len() == i,
        0 <= k < insts.len(),
        insts[k] is Phi,
        !ext.contains(ph),
        forall|x: int, y: int|
            0 <= x < insts.len() && insts[x] is Phi && 0 <= y < insts[x]->Phi_args.len() ==> (
            #[trigger] insts[x]->Phi_args[y]).0 != ph,
        k < i ==> parted_right(insts, s, ext, ph, k, p),
    ensures
        parted_right(insts, parted_from(s, insts, ext, ph, i), ext, ph, k, p),
    decreases insts.len() - i,
{
    if i < insts.len() {
        let t = s.parted(insts[i], ext, ph);
        if insts[i] is Phi {
            one_phi_is_parted(s, insts[i], ext, ph, p);
        }
        if k < i {
            assert(t.head[k] == s.head[k]) by {
                assert(t.head[k] == t.head.drop_last()[k]);
            }
            if exists|j: int|
                0 <= j < s.phis.len() && Some((#[trigger] s.phis[j]).dest()) == taken_from(s.head[k]->Phi_args, ph)
                    && s.phis[j] is Phi && taken_from(s.phis[j]->Phi_args, p) == taken_from(insts[k]->Phi_args, p) {
                let j = choose|j: int|
                    0 <= j < s.phis.len() && Some((#[trigger] s.phis[j]).dest()) == taken_from(
                        s.head[k]->Phi_args,
                        ph,
                    ) && s.phis[j] is Phi && taken_from(s.phis[j]->Phi_args, p) == taken_from(insts[k]->Phi_args, p);
                assert(t.phis[j] == s.phis[j]);
            }
        } else if k == i {
            assert(t.head[k] == t.head.last());
            if t.phis.len() == s.phis.len() + 1 {
                assert(t.phis[t.phis.len() - 1] == t.phis.last());
            }
        }
        all_phis_are_parted(insts, t, ext, ph, i + 1, k, p);
    }
}

/// A block in front of a loop: the head's phis take over every edge the value that they took, and
/// each block goes where it went, through the front where it went to the head from outside.
pub proof fn fronts_change_no_word(
    f: FuncV,
    h: int,
    ext: Seq<BlockId>,
    entry: BlockId,
    k: int,
    p: BlockId,
    b: int,
    tags: spec_fn(int) -> int,
    env: Map<u32, int>,
)
    requires
        0 <= h < f.blocks.len() < u32::MAX,
        forall|x: int| 0 <= x < ext.len() ==> (#[trigger] ext[x]).0 < f.blocks.len(),
        0 <= k < f.blocks[h].insts.len(),
        f.blocks[h].insts[k] is Phi,
        forall|x: int, y: int|
            0 <= x < f.blocks[h].insts.len() && f.blocks[h].insts[x] is Phi && 0 <= y
                < f.blocks[h].insts[x]->Phi_args.len() ==> (#[trigger] f.blocks[h].insts[x]->Phi_args[y]).0.0
                < f.blocks.len(),
        0 <= b < f.blocks.len(),
    ensures
        ({
            let g = with_front(f, h, ext, entry);
            let ph = BlockId(f.blocks.len() as u32);
            let head = BlockId(h as u32);
            let s = SplitV { types: g.types, phis: g.blocks[f.blocks.len() as int].insts, head: g.blocks[h].insts };
            let before = way(f.blocks[b].term, tags, env);
            let after = way(g.blocks[b].term, tags, env);
            &&& parted_right(f.blocks[h].insts, s, ext, ph, k, p)
            &&& after == (if ext.contains(BlockId(b as u32)) && before == Way::To(head) {
                Way::To(ph)
            } else {
                before
            })
            &&& way(g.blocks[f.blocks.len() as int].term, tags, env) == Way::To(head)
        }),
{
    let ph = BlockId(f.blocks.len() as u32);
    let start = SplitV { types: f.types, phis: Seq::empty(), head: Seq::empty() };
    if ext.contains(ph) {
        let x = choose|x: int| 0 <= x < ext.len() && ext[x] == ph;
        assert(ext[x].0 < f.blocks.len());
    }
    all_phis_are_parted(f.blocks[h].insts, start, ext, ph, 0, k, p);
    let s = parted_from(start, f.blocks[h].insts, ext, ph, 0);
    let g = with_front(f, h, ext, entry);
    assert(g.blocks[h].insts == s.head);
    assert(g.blocks[f.blocks.len() as int].insts == s.phis);
}

} // verus!

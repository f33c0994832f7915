//! Moving what a loop computes anew each time, with the same result, in front of the loop.
//!
//! Integer division stays in the loop, for a loop that does not run must not trap. Division of
//! floats moves.
use super::dom::{flows, loops_from, loops_view, natural_loops};
use super::effects::{host_may_hoist, row_may_hoist};
use super::func::{insts_view, BlockV, FuncV, MirBlock, MirFunc};
use super::host_allow::{row_in, HostNative};
use super::inst::{BlockId, InstV, MirAllocKind, MirBinOp, MirInst, TermV, Terminator, ValueId};
use super::instcombine::capped;
use super::rewrite::{dce, has_inst, pruned, pruning_keeps_index, remove_renamed, removed, removing_keeps_index};
use super::ty::MirTy;
use crate::idmap::IdMap;
use vstd::prelude::*;

verus! {

/// Whether an instruction changes the heap or calls.
pub open spec fn changes_heap(inst: InstV) -> bool {
    inst is StoreIndex || inst is Call || inst is FieldStore || inst is HeapFieldStore
}

/// Whether no instruction of the loop changes the heap or calls.
pub open spec fn calm(f: FuncV, mask: Seq<bool>) -> bool {
    forall|b: int, i: int|
        has_inst(f, b, i) && mask[b] ==> !changes_heap(#[trigger] f.blocks[b].insts[i])
}

/// Whether an instruction may leave a loop. Reads of arrays and allocations leave calm loops only.
pub open spec fn hoistable(inst: InstV, calm: bool, hosts: Seq<HostNative>) -> bool {
    match inst {
        InstV::Bin { op, ty, .. } => ty.float() || !(op is Div || op is Rem),
        InstV::Const { .. } | InstV::Cmp { .. } | InstV::Unary { .. } | InstV::Cast { .. } => true,
        InstV::HostInvoke { native_id, .. } => row_may_hoist(row_in(hosts, native_id)),
        InstV::Index { .. } => calm,
        InstV::ArrayLen { .. } => true,
        InstV::Alloc { kind, .. } => calm && (kind is Array || kind is Tuple),
        InstV::GcBarrier { .. } => calm,
        InstV::String { .. } => true,
        _ => false,
    }
}

/// Whether the loop defines value `v`.
pub open spec fn defines(f: FuncV, mask: Seq<bool>, v: int) -> bool {
    exists|b: int, i: int|
        has_inst(f, b, i) && mask[b] && (#[trigger] f.blocks[b].insts[i]).dests().contains(
            ValueId(v as u32),
        )
}

/// Which values the loop does not define.
pub open spec fn outside(f: FuncV, mask: Seq<bool>) -> Seq<bool> {
    Seq::new(f.types.len(), |v: int| !defines(f, mask, v))
}

/// Whether an instruction is ready to leave: it may, and whatever it reads stays the same.
pub open spec fn ready(inst: InstV, same: Seq<bool>, calm: bool, hosts: Seq<HostNative>) -> bool {
    &&& hoistable(inst, calm, hosts)
    &&& !same[inst.dest().0 as int]
    &&& forall|k: int| 0 <= k < inst.uses().len() ==> same[(#[trigger] inst.uses()[k]).0 as int]
}

/// The first instruction from `i` on that is ready.
pub open spec fn ready_in(
    insts: Seq<InstV>,
    same: Seq<bool>,
    calm: bool,
    hosts: Seq<HostNative>,
    i: int,
) -> Option<InstV>
    decreases insts.len() - i,
{
    if i >= insts.len() {
        None
    } else if ready(insts[i], same, calm, hosts) {
        Some(insts[i])
    } else {
        ready_in(insts, same, calm, hosts, i + 1)
    }
}

/// The first ready instruction of the loop's blocks from `b` on.
pub open spec fn ready_from(
    f: FuncV,
    mask: Seq<bool>,
    same: Seq<bool>,
    calm: bool,
    b: int,
) -> Option<InstV>
    decreases f.blocks.len() - b,
{
    if b >= f.blocks.len() {
        None
    } else if mask[b] && ready_in(f.blocks[b].insts, same, calm, f.hosts, 0) is Some {
        ready_in(f.blocks[b].insts, same, calm, f.hosts, 0)
    } else {
        ready_from(f, mask, same, calm, b + 1)
    }
}

/// What leaves the loop, in the order in which it becomes ready. Each makes its result one that
/// stays the same.
pub open spec fn leaving(f: FuncV, mask: Seq<bool>, same: Seq<bool>, calm: bool, k: nat) -> Seq<InstV>
    decreases k,
{
    if k == 0 {
        Seq::empty()
    } else {
        match ready_from(f, mask, same, calm, 0) {
            Some(inst) => seq![inst] + leaving(
                f,
                mask,
                same.update(inst.dest().0 as int, true),
                calm,
                (k - 1) as nat,
            ),
            None => Seq::empty(),
        }
    }
}

/// What leaves the loop.
pub open spec fn movers(f: FuncV, mask: Seq<bool>) -> Seq<InstV> {
    leaving(f, mask, outside(f, mask), calm(f, mask), f.types.len())
}

fn is_hoistable(inst: &MirInst, calm: bool, hosts: &Vec<HostNative>) -> (r: bool)
    ensures
        r == hoistable(inst@, calm, hosts@),
{
    match inst {
        MirInst::Bin { op, ty, .. } => ty.is_float() || !matches!(*op, MirBinOp::Div | MirBinOp::Rem),
        MirInst::Const { .. }
        | MirInst::Cmp { .. }
        | MirInst::Unary { .. }
        | MirInst::Cast { .. } => true,
        MirInst::HostInvoke { native_id, .. } => host_may_hoist(hosts, *native_id),
        MirInst::Index { .. } => calm,
        MirInst::ArrayLen { .. } => true,
        MirInst::Alloc { kind, .. } => calm && matches!(
            *kind,
            MirAllocKind::Array | MirAllocKind::Tuple
        ),
        MirInst::GcBarrier { .. } => calm,
        MirInst::String { .. } => true,
        _ => false,
    }
}

fn is_calm(func: &MirFunc, mask: &Vec<bool>) -> (r: bool)
    requires
        mask@.len() == func@.blocks.len(),
    ensures
        r == calm(func@, mask@),
{
    let ghost f = func@;
    let mut b: usize = 0;
    while b < func.blocks.len()
        invariant
            b <= func.blocks@.len(),
            f == func@,
            mask@.len() == f.blocks.len(),
            forall|p: int, i: int|
                p < b && has_inst(f, p, i) && mask@[p] ==> !changes_heap(
                    #[trigger] f.blocks[p].insts[i],
                ),
        decreases func.blocks@.len() - b,
    {
        if mask[b] {
            let block = &func.blocks[b];
            assert(f.blocks[b as int] == block@);
            let mut i: usize = 0;
            while i < block.insts.len()
                invariant
                    i <= block.insts@.len(),
                    b < func.blocks@.len(),
                    f == func@,
                    mask@[b as int],
                    f.blocks[b as int] == block@,
                    forall|k: int|
                        0 <= k < i ==> !changes_heap(#[trigger] f.blocks[b as int].insts[k]),
                decreases block.insts@.len() - i,
            {
                assert(f.blocks[b as int].insts[i as int] == block.insts@[i as int]@);
                match &block.insts[i] {
                    MirInst::StoreIndex { .. }
                    | MirInst::Call { .. }
                    | MirInst::FieldStore { .. }
                    | MirInst::HeapFieldStore { .. } => {
                        assert(has_inst(f, b as int, i as int));
                        return false;
                    },
                    _ => {},
                }
                i += 1;
            }
        }
        b += 1;
    }
    true
}

fn clear_dests(r: &mut Vec<bool>, ids: &Vec<ValueId>)
    requires
        old(r)@.len() <= u32::MAX,
        forall|k: int| 0 <= k < ids@.len() ==> (#[trigger] ids@[k]).0 < old(r)@.len(),
    ensures
        final(r)@ == Seq::new(
            old(r)@.len(),
            |v: int| old(r)@[v] && !ids@.contains(ValueId(v as u32)),
        ),
{
    let ghost r0 = r@;
    let mut k: usize = 0;
    while k < ids.len()
        invariant
            k <= ids@.len(),
            r@.len() == r0.len(),
            r0.len() <= u32::MAX,
            forall|x: int| 0 <= x < ids@.len() ==> (#[trigger] ids@[x]).0 < r0.len(),
            forall|v: int|
                0 <= v < r0.len() ==> (#[trigger] r@[v] <==> r0[v] && !(exists|x: int|
                    0 <= x < k && (#[trigger] ids@[x]).0 == v)),
        decreases ids@.len() - k,
    {
        let ghost r1 = r@;
        r.set(ids[k].index(), false);
        proof {
            assert forall|v: int| 0 <= v < r0.len() implies (#[trigger] r@[v] <==> r0[v] && !(exists|
                x: int,
            |
                0 <= x < k + 1 && (#[trigger] ids@[x]).0 == v)) by {
                if v == ids@[k as int].0 {
                } else {
                    assert(r@[v] == r1[v]);
                    if exists|x: int| 0 <= x < k + 1 && (#[trigger] ids@[x]).0 == v {
                        let x = choose|x: int| 0 <= x < k + 1 && (#[trigger] ids@[x]).0 == v;
                        assert(x < k);
                    }
                }
            }
        }
        k += 1;
    }
    proof {
        assert forall|v: int| 0 <= v < r0.len() implies r@[v] == (r0[v] && !ids@.contains(
            ValueId(v as u32),
        )) by {
            if ids@.contains(ValueId(v as u32)) {
                let x = ids@.index_of(ValueId(v as u32));
                assert(ids@[x].0 == v);
            }
            if exists|x: int| 0 <= x < k && (#[trigger] ids@[x]).0 == v {
                let x = choose|x: int| 0 <= x < k && (#[trigger] ids@[x]).0 == v;
                assert(ids@[x] == ValueId(v as u32));
            }
        }
    }
    assert(r@ =~= Seq::new(r0.len(), |v: int| r0[v] && !ids@.contains(ValueId(v as u32))));
}

fn find_outside(func: &MirFunc, mask: &Vec<bool>) -> (r: Vec<bool>)
    requires
        func@.indexed(),
        mask@.len() == func@.blocks.len(),
    ensures
        r@ == outside(func@, mask@),
{
    let ghost f = func@;
    let n = func.types.len();
    let mut r: Vec<bool> = Vec::new();
    let mut x: usize = 0;
    while x < n
        invariant
            x <= n,
            r@.len() == x,
            forall|v: int| 0 <= v < x ==> #[trigger] r@[v],
        decreases n - x,
    {
        r.push(true);
        x += 1;
    }
    let mut b: usize = 0;
    while b < func.blocks.len()
        invariant
            b <= func.blocks@.len(),
            f == func@,
            f.indexed(),
            mask@.len() == f.blocks.len(),
            r@.len() == f.types.len(),
            forall|v: int|
                0 <= v < r@.len() && !(#[trigger] r@[v]) ==> defines(f, mask@, v),
            forall|v: int, p: int, i: int|
                0 <= v < r@.len() && #[trigger] r@[v] && p < b && has_inst(f, p, i) && mask@[p] ==> !(
                #[trigger] f.blocks[p].insts[i]).dests().contains(ValueId(v as u32)),
        decreases func.blocks@.len() - b,
    {
        if mask[b] {
            let block = &func.blocks[b];
            assert(f.blocks[b as int] == block@);
            assert(f.block_indexed(f.blocks[b as int], b as int));
            let mut i: usize = 0;
            while i < block.insts.len()
                invariant
                    i <= block.insts@.len(),
                    b < func.blocks@.len(),
                    f == func@,
                    f.indexed(),
                    mask@.len() == f.blocks.len(),
                    mask@[b as int],
                    f.blocks[b as int] == block@,
                    f.block_indexed(f.blocks[b as int], b as int),
                    r@.len() == f.types.len(),
                    forall|v: int|
                        0 <= v < r@.len() && !(#[trigger] r@[v]) ==> defines(f, mask@, v),
                    forall|v: int, p: int, k: int|
                        0 <= v < r@.len() && #[trigger] r@[v] && p < b && has_inst(f, p, k)
                            && mask@[p] ==> !(#[trigger] f.blocks[p].insts[k]).dests().contains(
                            ValueId(v as u32),
                        ),
                    forall|v: int, k: int|
                        0 <= v < r@.len() && #[trigger] r@[v] && 0 <= k < i ==> !(
                        #[trigger] f.blocks[b as int].insts[k]).dests().contains(ValueId(v as u32)),
                decreases block.insts@.len() - i,
            {
                let ghost r0 = r@;
                assert(f.blocks[b as int].insts[i as int] == block.insts@[i as int]@);
                assert(f.inst_indexed(f.blocks[b as int].insts[i as int]));
                assert(has_inst(f, b as int, i as int));
                let ds = block.insts[i].dests();
                clear_dests(&mut r, &ds);
                proof {
                    assert forall|v: int| 0 <= v < r@.len() && !(#[trigger] r@[v]) implies defines(
                        f,
                        mask@,
                        v,
                    ) by {
                        if r0[v] {
                            assert(f.blocks[b as int].insts[i as int].dests().contains(
                                ValueId(v as u32),
                            ));
                        }
                    }
                    assert forall|v: int, p: int, k: int|
                        0 <= v < r@.len() && #[trigger] r@[v] && p < b && has_inst(f, p, k)
                            && mask@[p] implies !(#[trigger] f.blocks[p].insts[k]).dests().contains(
                        ValueId(v as u32),
                    ) by {
                        assert(r0[v]);
                    }
                    assert forall|v: int, k: int|
                        0 <= v < r@.len() && #[trigger] r@[v] && 0 <= k < i + 1 implies !(
                    #[trigger] f.blocks[b as int].insts[k]).dests().contains(
                        ValueId(v as u32),
                    ) by {
                        assert(r0[v]);
                    }
                }
                i += 1;
            }
        }
        b += 1;
    }
    assert(r@ =~= outside(f, mask@));
    r
}

fn is_ready(
    inst: &MirInst,
    same: &Vec<bool>,
    calm: bool,
    hosts: &Vec<HostNative>,
    Ghost(f): Ghost<FuncV>,
) -> (r: bool)
    requires
        f.inst_indexed(inst@),
        same@.len() == f.types.len(),
    ensures
        r == ready(inst@, same@, calm, hosts@),
{
    if !is_hoistable(inst, calm, hosts) || same[inst.dest().index()] {
        return false;
    }
    let us = inst.operands();
    let mut k: usize = 0;
    while k < us.len()
        invariant
            k <= us@.len(),
            us@ == inst@.uses(),
            f.inst_indexed(inst@),
            same@.len() == f.types.len(),
            forall|x: int| 0 <= x < k ==> same@[(#[trigger] us@[x]).0 as int],
        decreases us@.len() - k,
    {
        assert(inst@.uses()[k as int].0 < f.types.len());
        if !same[us[k].index()] {
            return false;
        }
        k += 1;
    }
    true
}

fn find_ready_in(
    block: &MirBlock,
    same: &Vec<bool>,
    calm: bool,
    hosts: &Vec<HostNative>,
    Ghost(f): Ghost<FuncV>,
) -> (r: Option<MirInst>)
    requires
        forall|k: int| 0 <= k < block@.insts.len() ==> f.inst_indexed(#[trigger] block@.insts[k]),
        same@.len() == f.types.len(),
    ensures
        (match r {
            Some(inst) => Some(inst@),
            None => None,
        }) == ready_in(block@.insts, same@, calm, hosts@, 0),
        r matches Some(inst) ==> f.inst_indexed(inst@),
{
    let ghost iv = block@.insts;
    let mut i: usize = 0;
    while i < block.insts.len()
        invariant
            i <= block.insts@.len(),
            iv == block@.insts,
            forall|k: int| 0 <= k < iv.len() ==> f.inst_indexed(#[trigger] iv[k]),
            same@.len() == f.types.len(),
            ready_in(iv, same@, calm, hosts@, 0) == ready_in(iv, same@, calm, hosts@, i as int),
        decreases block.insts@.len() - i,
    {
        assert(iv[i as int] == block.insts@[i as int]@);
        assert(f.inst_indexed(iv[i as int]));
        if is_ready(&block.insts[i], same, calm, hosts, Ghost(f)) {
            return Some(block.insts[i].clone());
        }
        i += 1;
    }
    None
}

fn find_ready(func: &MirFunc, mask: &Vec<bool>, same: &Vec<bool>, calm: bool) -> (r: Option<MirInst>)
    requires
        func@.indexed(),
        mask@.len() == func@.blocks.len(),
        same@.len() == func@.types.len(),
    ensures
        (match r {
            Some(inst) => Some(inst@),
            None => None,
        }) == ready_from(func@, mask@, same@, calm, 0),
        r matches Some(inst) ==> func@.inst_indexed(inst@),
{
    let ghost f = func@;
    let mut b: usize = 0;
    while b < func.blocks.len()
        invariant
            b <= func.blocks@.len(),
            f == func@,
            f.indexed(),
            mask@.len() == f.blocks.len(),
            same@.len() == f.types.len(),
            ready_from(f, mask@, same@, calm, 0) == ready_from(f, mask@, same@, calm, b as int),
        decreases func.blocks@.len() - b,
    {
        if mask[b] {
            assert(f.blocks[b as int] == func.blocks@[b as int]@);
            assert(f.block_indexed(f.blocks[b as int], b as int));
            let found = find_ready_in(&func.blocks[b], same, calm, &func.hosts, Ghost(f));
            if found.is_some() {
                return found;
            }
        }
        b += 1;
    }
    None
}

fn list_movers(func: &MirFunc, mask: &Vec<bool>) -> (r: Vec<MirInst>)
    requires
        func@.indexed(),
        mask@.len() == func@.blocks.len(),
    ensures
        insts_view(r@) == movers(func@, mask@),
        forall|k: int| 0 <= k < r@.len() ==> func@.inst_indexed(#[trigger] insts_view(r@)[k]),
{
    let ghost f = func@;
    let calm_loop = is_calm(func, mask);
    let mut same = find_outside(func, mask);
    let mut r: Vec<MirInst> = Vec::new();
    let mut k = func.types.len();
    let mut going = true;
    assert(insts_view(r@) + movers(f, mask@) =~= movers(f, mask@));
    while k > 0 && going
        invariant
            f == func@,
            f.indexed(),
            mask@.len() == f.blocks.len(),
            same@.len() == f.types.len(),
            calm_loop == calm(f, mask@),
            forall|x: int| 0 <= x < r@.len() ==> f.inst_indexed(#[trigger] insts_view(r@)[x]),
            going ==> insts_view(r@) + leaving(f, mask@, same@, calm_loop, k as nat) == movers(
                f,
                mask@,
            ),
            !going ==> insts_view(r@) == movers(f, mask@),
        decreases k,
    {
        let ghost r0 = insts_view(r@);
        match find_ready(func, mask, &same, calm_loop) {
            Some(inst) => {
                let ghost iv = inst@;
                let ghost rest = leaving(
                    f,
                    mask@,
                    same@.update(iv.dest().0 as int, true),
                    calm_loop,
                    (k - 1) as nat,
                );
                assert(f.inst_indexed(iv));
                same.set(inst.dest().index(), true);
                r.push(inst);
                assert(insts_view(r@) =~= r0.push(iv));
                assert(insts_view(r@) + rest =~= r0 + (seq![iv] + rest));
                proof {
                    assert forall|x: int| 0 <= x < r@.len() implies f.inst_indexed(
                        #[trigger] insts_view(r@)[x],
                    ) by {
                        if x < r0.len() {
                            assert(insts_view(r@)[x] == r0[x]);
                        }
                    }
                }
            },
            None => {
                going = false;
                assert(r0 + Seq::<InstV>::empty() =~= r0);
            },
        }
        k -= 1;
    }
    assert(insts_view(r@) + Seq::<InstV>::empty() =~= insts_view(r@));
    r
}

// The block in front of a loop.

/// The blocks from `b` on outside the loop that lead to its head.
pub open spec fn entrances(f: FuncV, h: int, mask: Seq<bool>, b: int) -> Seq<BlockId>
    decreases f.blocks.len() - b,
{
    if b >= f.blocks.len() {
        Seq::empty()
    } else {
        (if !mask[b] && flows(f, b, h) {
            seq![BlockId(b as u32)]
        } else {
            Seq::empty()
        }) + entrances(f, h, mask, b + 1)
    }
}

fn leads_to(term: &Option<Terminator>, h: BlockId) -> (r: bool)
    ensures
        r == (term is Some && exists|k: int|
            0 <= k < term->0@.targets().len() && (#[trigger] term->0@.targets()[k]).0 == h.0),
{
    match term {
        Some(t) => {
            let ts = t.succs();
            let mut k: usize = 0;
            while k < ts.len()
                invariant
                    k <= ts@.len(),
                    ts@ == t@.targets(),
                    term is Some,
                    term->0@ == t@,
                    forall|x: int| 0 <= x < k ==> (#[trigger] ts@[x]).0 != h.0,
                decreases ts@.len() - k,
            {
                if ts[k] == h {
                    assert(t@.targets()[k as int].0 == h.0);
                    return true;
                }
                k += 1;
            }
            false
        },
        None => false,
    }
}

/// Whether control can go from block `b` to block `h`.
pub(crate) fn block_leads_to(func: &MirFunc, b: usize, h: BlockId) -> (r: bool)
    requires
        b < func@.blocks.len(),
    ensures
        r == flows(func@, b as int, h.0 as int),
{
    let ghost f = func@;
    assert(f.blocks[b as int] == func.blocks@[b as int]@);
    let leads = leads_to(&func.blocks[b].term, h);
    proof {
        if leads {
            let t = func.blocks@[b as int].term->0@;
            let k = choose|k: int| 0 <= k < t.targets().len() && (#[trigger] t.targets()[k]).0 == h.0;
            assert(f.blocks[b as int].term->0.targets()[k].0 == h.0 as int);
        }
        if flows(f, b as int, h.0 as int) {
            let t = f.blocks[b as int].term->0;
            let k = choose|k: int|
                0 <= k < t.targets().len() && (#[trigger] t.targets()[k]).0 == h.0 as int;
            assert(func.blocks@[b as int].term->0@.targets()[k].0 == h.0);
        }
    }
    leads
}

fn list_entrances(func: &MirFunc, h: BlockId, mask: &Vec<bool>) -> (r: Vec<BlockId>)
    requires
        func@.indexed(),
        mask@.len() == func@.blocks.len(),
    ensures
        r@ == entrances(func@, h.0 as int, mask@, 0),
        forall|k: int| 0 <= k < r@.len() ==> (#[trigger] r@[k]).0 < func@.blocks.len(),
{
    let ghost f = func@;
    let ghost all = entrances(f, h.0 as int, mask@, 0);
    let mut r: Vec<BlockId> = Vec::new();
    assert(r@ + all =~= all);
    let mut b: usize = 0;
    while b < func.blocks.len()
        invariant
            b <= func.blocks@.len(),
            f == func@,
            f.indexed(),
            mask@.len() == f.blocks.len(),
            forall|k: int| 0 <= k < r@.len() ==> (#[trigger] r@[k]).0 < f.blocks.len(),
            r@ + entrances(f, h.0 as int, mask@, b as int) == all,
        decreases func.blocks@.len() - b,
    {
        let ghost r0 = r@;
        let leads = block_leads_to(func, b, h);
        if !mask[b] && leads {
            r.push(BlockId(b as u32));
        }
        assert(r@ + entrances(f, h.0 as int, mask@, b + 1) =~= r0 + entrances(
            f,
            h.0 as int,
            mask@,
            b as int,
        ));
        b += 1;
    }
    assert(r@ + entrances(f, h.0 as int, mask@, b as int) =~= r@);
    r
}

/// `to` where `b` is `from`.
pub open spec fn moved_to(b: BlockId, from: BlockId, to: BlockId) -> BlockId {
    if b == from {
        to
    } else {
        b
    }
}

/// The terminator with edges to `from` going to `to`.
pub open spec fn retargeted(term: TermV, from: BlockId, to: BlockId) -> TermV {
    match term {
        TermV::Jump { dest } => TermV::Jump { dest: moved_to(dest, from, to) },
        TermV::Br { cond, taken, not_taken } => TermV::Br {
            cond,
            taken: moved_to(taken, from, to),
            not_taken: moved_to(not_taken, from, to),
        },
        TermV::JumpIfMatch { scrutinee, tag, payloads, taken, not_taken } => TermV::JumpIfMatch {
            scrutinee,
            tag,
            payloads,
            taken: moved_to(taken, from, to),
            not_taken: moved_to(not_taken, from, to),
        },
        _ => term,
    }
}

fn retarget(term: &mut Terminator, from: BlockId, to: BlockId)
    ensures
        final(term)@ == retargeted(old(term)@, from, to),
{
    match term {
        Terminator::Jump { dest } => {
            if *dest == from {
                *dest = to;
            }
        },
        Terminator::Br { taken, not_taken, .. } => {
            if *taken == from {
                *taken = to;
            }
            if *not_taken == from {
                *not_taken = to;
            }
        },
        Terminator::JumpIfMatch { taken, not_taken, .. } => {
            if *taken == from {
                *taken = to;
            }
            if *not_taken == from {
                *not_taken = to;
            }
        },
        _ => {},
    }
}

/// The arguments from `i` on that come from `ext`, or those that do not.
pub open spec fn args_of(args: Seq<(BlockId, ValueId)>, ext: Seq<BlockId>, from_ext: bool, i: int) -> Seq<
    (BlockId, ValueId),
>
    decreases args.len() - i,
{
    if i >= args.len() {
        Seq::empty()
    } else {
        (if ext.contains(args[i].0) == from_ext {
            seq![args[i]]
        } else {
            Seq::empty()
        }) + args_of(args, ext, from_ext, i + 1)
    }
}

fn has_block(ext: &Vec<BlockId>, b: BlockId) -> (r: bool)
    ensures
        r == ext@.contains(b),
{
    let mut k: usize = 0;
    while k < ext.len()
        invariant
            k <= ext@.len(),
            forall|x: int| 0 <= x < k ==> ext@[x] != b,
        decreases ext@.len() - k,
    {
        if ext[k] == b {
            return true;
        }
        k += 1;
    }
    false
}

fn list_args(args: &Vec<(BlockId, ValueId)>, ext: &Vec<BlockId>, from_ext: bool, Ghost(f): Ghost<FuncV>) -> (r: Vec<
    (BlockId, ValueId),
>)
    requires
        forall|k: int| 0 <= k < args@.len() ==> (#[trigger] args@[k]).1.0 < f.types.len(),
    ensures
        r@ == args_of(args@, ext@, from_ext, 0),
        forall|k: int| 0 <= k < r@.len() ==> (#[trigger] r@[k]).1.0 < f.types.len(),
{
    let ghost all = args_of(args@, ext@, from_ext, 0);
    let mut r: Vec<(BlockId, ValueId)> = Vec::new();
    assert(r@ + all =~= all);
    let mut i: usize = 0;
    while i < args.len()
        invariant
            i <= args@.len(),
            forall|k: int| 0 <= k < args@.len() ==> (#[trigger] args@[k]).1.0 < f.types.len(),
            forall|k: int| 0 <= k < r@.len() ==> (#[trigger] r@[k]).1.0 < f.types.len(),
            r@ + args_of(args@, ext@, from_ext, i as int) == all,
        decreases args@.len() - i,
    {
        let ghost r0 = r@;
        if has_block(ext, args[i].0) == from_ext {
            assert(args@[i as int].1.0 < f.types.len());
            r.push(args[i]);
        }
        assert(r@ + args_of(args@, ext@, from_ext, i + 1) =~= r0 + args_of(
            args@,
            ext@,
            from_ext,
            i as int,
        ));
        i += 1;
    }
    assert(r@ + args_of(args@, ext@, from_ext, i as int) =~= r@);
    r
}

/// Whether all arguments are the same value.
pub open spec fn one_value(args: Seq<(BlockId, ValueId)>) -> bool {
    forall|k: int| 0 <= k < args.len() ==> (#[trigger] args[k]).1 == args[0].1
}

fn is_one_value(args: &Vec<(BlockId, ValueId)>) -> (r: bool)
    ensures
        r == one_value(args@),
{
    let mut k: usize = 0;
    while k < args.len()
        invariant
            k <= args@.len(),
            forall|x: int| 0 <= x < k ==> (#[trigger] args@[x]).1 == args@[0].1,
        decreases args@.len() - k,
    {
        if args[k].1 != args[0].1 {
            return false;
        }
        k += 1;
    }
    true
}

/// The phis of a head, parted: types of the values so far, phis of the block in front, and the
/// head's instructions.
#[verifier::ext_equal]
pub struct SplitV {
    pub types: Seq<MirTy>,
    pub phis: Seq<InstV>,
    pub head: Seq<InstV>,
}

impl SplitV {
    /// The next instruction of the head parted. What comes from outside meets in a phi of the
    /// block in front, unless it is one value.
    pub open spec fn parted(self, inst: InstV, ext: Seq<BlockId>, ph: BlockId) -> SplitV {
        match inst {
            InstV::Phi { dest, ty, args } => {
                let from = args_of(args, ext, true, 0);
                let inner = args_of(args, ext, false, 0);
                if from.len() == 0 {
                    SplitV { head: self.head.push(InstV::Phi { dest, ty, args: inner }), ..self }
                } else if one_value(from) {
                    SplitV {
                        head: self.head.push(
                            InstV::Phi { dest, ty, args: inner.push((ph, from[0].1)) },
                        ),
                        ..self
                    }
                } else {
                    let met = ValueId(self.types.len() as u32);
                    SplitV {
                        types: self.types.push(ty),
                        phis: self.phis.push(InstV::Phi { dest: met, ty, args: from }),
                        head: self.head.push(InstV::Phi { dest, ty, args: inner.push((ph, met)) }),
                    }
                }
            },
            _ => SplitV { head: self.head.push(inst), ..self },
        }
    }
}

/// The head's instructions from `i` on parted.
pub open spec fn parted_from(s: SplitV, insts: Seq<InstV>, ext: Seq<BlockId>, ph: BlockId, i: int) -> SplitV
    decreases insts.len() - i,
{
    if i >= insts.len() {
        s
    } else {
        parted_from(s.parted(insts[i], ext, ph), insts, ext, ph, i + 1)
    }
}

/// The function with a new block in front of head `h`, through which `ext` comes.
pub open spec fn with_front(f: FuncV, h: int, ext: Seq<BlockId>, entry: BlockId) -> FuncV {
    let ph = BlockId(f.blocks.len() as u32);
    let head = BlockId(h as u32);
    let s = parted_from(
        SplitV { types: f.types, phis: Seq::empty(), head: Seq::empty() },
        f.blocks[h].insts,
        ext,
        ph,
        0,
    );
    let led = Seq::new(
        f.blocks.len(),
        |b: int|
            BlockV {
                id: f.blocks[b].id,
                insts: if b == h {
                    s.head
                } else {
                    f.blocks[b].insts
                },
                term: match f.blocks[b].term {
                    Some(t) => if ext.contains(BlockId(b as u32)) {
                        Some(retargeted(t, head, ph))
                    } else {
                        Some(t)
                    },
                    None => None,
                },
            },
    );
    FuncV {
        types: s.types,
        entry,
        blocks: led.push(BlockV { id: ph, insts: s.phis, term: Some(TermV::Jump { dest: head }) }),
        ..f
    }
}

/// The function with a block in front of head `h`, and that block. A block outside that is the
/// only one to lead to the head, by a jump, is that block.
pub open spec fn fronted(f: FuncV, h: int, mask: Seq<bool>) -> (FuncV, int) {
    let ext = entrances(f, h, mask, 0);
    if ext.len() == 1 && f.blocks[ext[0].0 as int].term == Some(
        TermV::Jump { dest: BlockId(h as u32) },
    ) {
        (f, ext[0].0 as int)
    } else if ext.len() == 0 && f.entry.0 == h {
        (with_front(f, h, ext, BlockId(f.blocks.len() as u32)), f.blocks.len() as int)
    } else {
        (with_front(f, h, ext, f.entry), f.blocks.len() as int)
    }
}

/// Whether the values of an instruction are among the first `n`.
pub open spec fn fits(inst: InstV, n: nat) -> bool {
    &&& inst.dest().0 < n
    &&& forall|k: int| 0 <= k < inst.dests().len() ==> (#[trigger] inst.dests()[k]).0 < n
    &&& forall|k: int| 0 <= k < inst.uses().len() ==> (#[trigger] inst.uses()[k]).0 < n
}

pub open spec fn all_fit(insts: Seq<InstV>, n: nat) -> bool {
    forall|k: int| 0 <= k < insts.len() ==> fits(#[trigger] insts[k], n)
}

proof fn phi_fits(dest: ValueId, ty: MirTy, args: Seq<(BlockId, ValueId)>, n: nat)
    requires
        dest.0 < n,
        forall|k: int| 0 <= k < args.len() ==> (#[trigger] args[k]).1.0 < n,
    ensures
        fits(InstV::Phi { dest, ty, args }, n),
{
    let inst = InstV::Phi { dest, ty, args };
    assert forall|k: int| 0 <= k < inst.uses().len() implies (#[trigger] inst.uses()[k]).0 < n by {
        assert(inst.uses()[k] == args[k].1);
    }
}

proof fn pushed_fit(insts: Seq<InstV>, inst: InstV, n: nat, m: nat)
    requires
        all_fit(insts, n),
        n <= m,
        fits(inst, m),
    ensures
        all_fit(insts.push(inst), m),
{
    assert forall|k: int| 0 <= k < insts.len() + 1 implies fits(#[trigger] insts.push(inst)[k], m) by {
        if k < insts.len() {
            assert(fits(insts[k], n));
        }
    }
}

fn part_head(
    insts: &Vec<MirInst>,
    types: &mut Vec<MirTy>,
    ext: &Vec<BlockId>,
    ph: BlockId,
    Ghost(f): Ghost<FuncV>,
) -> (r: (Vec<MirInst>, Vec<MirInst>))
    requires
        old(types)@ == f.types,
        f.types.len() + insts@.len() <= u32::MAX,
        all_fit(insts_view(insts@), f.types.len()),
    ensures
        ({
            let s = parted_from(
                SplitV { types: f.types, phis: Seq::empty(), head: Seq::empty() },
                insts_view(insts@),
                ext@,
                ph,
                0,
            );
            &&& final(types)@ == s.types
            &&& insts_view(r.0@) == s.phis
            &&& insts_view(r.1@) == s.head
        }),
        f.types.len() <= final(types)@.len() <= u32::MAX,
        all_fit(insts_view(r.0@), final(types)@.len()),
        all_fit(insts_view(r.1@), final(types)@.len()),
{
    let ghost iv = insts_view(insts@);
    let ghost s0 = SplitV { types: f.types, phis: Seq::empty(), head: Seq::empty() };
    let ghost mut s = s0;
    let mut phis: Vec<MirInst> = Vec::new();
    let mut head: Vec<MirInst> = Vec::new();
    assert(insts_view(phis@) =~= Seq::empty());
    assert(insts_view(head@) =~= Seq::empty());
    let n = insts.len();
    let mut i: usize = 0;
    while i < n
        invariant
            i <= n,
            n == insts@.len(),
            iv == insts_view(insts@),
            all_fit(iv, f.types.len()),
            f.types.len() + n <= u32::MAX,
            s.types == types@,
            s.phis == insts_view(phis@),
            s.head == insts_view(head@),
            f.types.len() <= types@.len() <= f.types.len() + i,
            all_fit(s.phis, types@.len()),
            all_fit(s.head, types@.len()),
            parted_from(s0, iv, ext@, ph, 0) == parted_from(s, iv, ext@, ph, i as int),
        decreases n - i,
    {
        let ghost inst = iv[i as int];
        assert(inst == insts@[i as int]@);
        assert(fits(inst, f.types.len()));
        let ghost m = types@.len();
        match &insts[i] {
            MirInst::Phi { dest, ty, args } => {
                proof {
                    assert forall|k: int| 0 <= k < args@.len() implies (#[trigger] args@[k]).1.0
                        < f.types.len() by {
                        assert(inst.uses()[k] == args@[k].1);
                    }
                }
                let from = list_args(args, ext, true, Ghost(f));
                let mut inner = list_args(args, ext, false, Ghost(f));
                if from.len() > 0 {
                    if is_one_value(&from) {
                        inner.push((ph, from[0].1));
                    } else {
                        let met = ValueId(types.len() as u32);
                        types.push(*ty);
                        inner.push((ph, met));
                        proof {
                            phi_fits(met, *ty, from@, types@.len());
                        }
                        let phi = MirInst::Phi { dest: met, ty: *ty, args: from };
                        proof {
                            pushed_fit(s.phis, phi@, m, types@.len());
                        }
                        phis.push(phi);
                        assert(insts_view(phis@) =~= s.phis.push(phi@));
                    }
                }
                proof {
                    phi_fits(*dest, *ty, inner@, types@.len());
                }
                let phi = MirInst::Phi { dest: *dest, ty: *ty, args: inner };
                proof {
                    pushed_fit(s.head, phi@, m, types@.len());
                }
                head.push(phi);
                assert(insts_view(head@) =~= s.head.push(phi@));
            },
            _ => {
                let c = insts[i].clone();
                proof {
                    pushed_fit(s.head, inst, m, m);
                }
                head.push(c);
                assert(insts_view(head@) =~= s.head.push(inst));
            },
        }
        proof {
            s = s.parted(inst, ext@, ph);
        }
        i += 1;
    }
    (phis, head)
}

proof fn front_keeps_index(f: FuncV, h: int, ext: Seq<BlockId>, entry: BlockId)
    requires
        f.indexed(),
        0 <= h < f.blocks.len(),
        f.blocks.len() < u32::MAX,
        entry.0 <= f.blocks.len(),
        f.types.len() <= with_front(f, h, ext, entry).types.len() <= u32::MAX,
        all_fit(with_front(f, h, ext, entry).blocks[h].insts, with_front(f, h, ext, entry).types.len()),
        all_fit(
            with_front(f, h, ext, entry).blocks[f.blocks.len() as int].insts,
            with_front(f, h, ext, entry).types.len(),
        ),
    ensures
        with_front(f, h, ext, entry).indexed(),
{
    let g = with_front(f, h, ext, entry);
    let n = f.blocks.len() as int;
    let ph = BlockId(n as u32);
    let head = BlockId(h as u32);
    assert forall|i: int| 0 <= i < g.params.len() implies (#[trigger] g.params[i]).0 < g.types.len() by {
        assert(f.params[i].0 < f.types.len());
    }
    assert forall|b: int| 0 <= b < g.blocks.len() implies g.block_indexed(#[trigger] g.blocks[b], b) by {
        if b < n {
            assert(f.block_indexed(f.blocks[b], b));
        }
        assert forall|i: int| 0 <= i < g.blocks[b].insts.len() implies g.inst_indexed(
            #[trigger] g.blocks[b].insts[i],
        ) by {
            if b != n && b != h {
                assert(f.inst_indexed(f.blocks[b].insts[i]));
            } else {
                assert(fits(g.blocks[b].insts[i], g.types.len()));
            }
        }
        if g.blocks[b].term is Some {
            let t = g.blocks[b].term->0;
            if b < n {
                let t0 = f.blocks[b].term->0;
                assert(f.term_indexed(t0));
                assert(t.uses() =~= t0.uses());
                assert forall|k: int| 0 <= k < t.targets().len() implies (
                #[trigger] t.targets()[k]).0 < g.blocks.len() by {
                    assert(t0.targets()[k].0 < f.blocks.len());
                    assert(t.targets()[k] == t0.targets()[k] || t.targets()[k] == moved_to(
                        t0.targets()[k],
                        head,
                        ph,
                    ));
                }
                assert forall|k: int| 0 <= k < t.uses().len() implies (#[trigger] t.uses()[k]).0
                    < g.types.len() by {
                    assert(t0.uses()[k].0 < f.types.len());
                }
            }
        }
    }
}

fn add_front(func: &mut MirFunc, h: BlockId, ext: &Vec<BlockId>, entry: BlockId)
    requires
        old(func)@.indexed(),
        h.0 < old(func)@.blocks.len(),
        old(func)@.blocks.len() < u32::MAX,
        old(func)@.types.len() + old(func)@.blocks[h.0 as int].insts.len() <= u32::MAX,
        entry.0 <= old(func)@.blocks.len(),
    ensures
        final(func)@ == with_front(old(func)@, h.0 as int, ext@, entry),
        final(func)@.indexed(),
        final(func)@.types.len() >= old(func)@.types.len(),
{
    let ghost f = func@;
    let n = func.blocks.len();
    let ph = BlockId(n as u32);
    let ghost want = with_front(f, h.0 as int, ext@, entry);
    assert(f.blocks[h.0 as int] == func.blocks@[h.0 as int]@);
    proof {
        assert(f.block_indexed(f.blocks[h.0 as int], h.0 as int));
        assert forall|k: int| 0 <= k < f.blocks[h.0 as int].insts.len() implies fits(
            #[trigger] f.blocks[h.0 as int].insts[k],
            f.types.len(),
        ) by {
            assert(f.inst_indexed(f.blocks[h.0 as int].insts[k]));
        }
    }
    let (phis, head) = part_head(&func.blocks[h.index()].insts, &mut func.types, ext, ph, Ghost(f));
    let ghost hv = insts_view(head@);
    func.blocks[h.index()].insts = head;
    func.entry = entry;
    let ghost mid = func@;
    assert(mid.blocks =~= f.blocks.update(
        h.0 as int,
        BlockV { insts: hv, ..f.blocks[h.0 as int] },
    ));
    let mut b: usize = 0;
    while b < n
        invariant
            b <= n,
            n == func.blocks@.len(),
            n == mid.blocks.len(),
            n == f.blocks.len(),
            n < u32::MAX,
            h.0 < n,
            ph == BlockId(n as u32),
            want == with_front(f, h.0 as int, ext@, entry),
            mid.blocks == f.blocks.update(h.0 as int, BlockV { insts: hv, ..f.blocks[h.0 as int] }),
            want.blocks[h.0 as int].insts == hv,
            func@ == (FuncV { blocks: func@.blocks, ..mid }),
            forall|k: int| 0 <= k < b ==> (#[trigger] func@.blocks[k]) == want.blocks[k],
            forall|k: int| b <= k < n ==> (#[trigger] func@.blocks[k]) == mid.blocks[k],
        decreases n - b,
    {
        let ghost fb = func@;
        assert(fb.blocks[b as int] == func.blocks@[b as int]@);
        if has_block(ext, BlockId(b as u32)) {
            let mut term = None;
            std::mem::swap(&mut term, &mut func.blocks[b].term);
            if let Some(mut t) = term {
                retarget(&mut t, h, ph);
                func.blocks[b].term = Some(t);
            }
        }
        assert(func@.blocks[b as int] =~= want.blocks[b as int]);
        assert(func@.blocks =~= fb.blocks.update(b as int, want.blocks[b as int]));
        b += 1;
    }
    let front = MirBlock { id: ph, insts: phis, term: Some(Terminator::Jump { dest: h }) };
    let ghost before = func@.blocks;
    func.blocks.push(front);
    assert(func@.blocks =~= before.push(front@));
    assert(func@.blocks =~= want.blocks);
    proof {
        front_keeps_index(f, h.0 as int, ext@, entry);
    }
}

/// Whether names are left for a block in front of head `h` and its phis.
pub open spec fn roomy(f: FuncV, h: int) -> bool {
    f.blocks.len() < u32::MAX && f.types.len() + f.blocks[h].insts.len() <= u32::MAX
}

/// Makes sure that there is a block in front of a loop. Returns that block.
fn ensure_preheader(func: &mut MirFunc, h: BlockId, mask: &Vec<bool>) -> (r: usize)
    requires
        old(func)@.indexed(),
        mask@.len() == old(func)@.blocks.len(),
        h.0 < old(func)@.blocks.len(),
        roomy(old(func)@, h.0 as int),
    ensures
        (final(func)@, r as int) == fronted(old(func)@, h.0 as int, mask@),
        final(func)@.indexed(),
        r < final(func)@.blocks.len(),
        final(func)@.types.len() >= old(func)@.types.len(),
{
    let ghost f = func@;
    let ext = list_entrances(func, h, mask);
    if ext.len() == 1 {
        let p = ext[0].index();
        assert(ext@[0].0 < f.blocks.len());
        assert(f.blocks[p as int] == func.blocks@[p as int]@);
        if let Some(Terminator::Jump { dest }) = &func.blocks[p].term {
            if *dest == h {
                return p;
            }
        }
    }
    let n = func.blocks.len();
    if ext.len() == 0 && func.entry == h {
        add_front(func, h, &ext, BlockId(n as u32));
    } else {
        let entry = func.entry;
        add_front(func, h, &ext, entry);
    }
    n
}

// Hoisting.

/// First results of the instructions.
pub open spec fn dest_set(insts: Seq<InstV>) -> Set<u32> {
    Set::new(|v: u32| exists|k: int| 0 <= k < insts.len() && (#[trigger] insts[k]).dest().0 == v)
}

/// How many phis the instructions begin with, from `i` on.
pub open spec fn first_plain(insts: Seq<InstV>, i: int) -> int
    decreases insts.len() - i,
{
    if i >= insts.len() {
        insts.len() as int
    } else if !insts[i].phi() {
        i
    } else {
        first_plain(insts, i + 1)
    }
}

/// `more` behind the phis of `insts`.
pub open spec fn behind_phis(insts: Seq<InstV>, more: Seq<InstV>) -> Seq<InstV> {
    let at = first_plain(insts, 0);
    insts.subrange(0, at) + more + insts.subrange(at, insts.len() as int)
}

/// The function after what leaves the loop has moved to the block in front, and how much that is.
pub open spec fn hoisted(f: FuncV, h: int, mask: Seq<bool>) -> (FuncV, nat) {
    let out = movers(f, mask);
    if out.len() == 0 || !roomy(f, h) {
        (f, 0)
    } else {
        let (g, pre) = fronted(f, h, mask);
        let r = removed(g, dest_set(out));
        (
            FuncV {
                blocks: r.blocks.update(
                    pre,
                    BlockV { insts: behind_phis(r.blocks[pre].insts, out), ..r.blocks[pre] },
                ),
                ..r
            },
            out.len(),
        )
    }
}

/// Removes the instructions whose first result is one of `out`.
fn remove_dests(func: &mut MirFunc, out: &Vec<MirInst>)
    ensures
        final(func)@ == removed(old(func)@, dest_set(insts_view(out@))),
{
    let ghost ov = insts_view(out@);
    let mut gone: IdMap<ValueId> = IdMap::new();
    let mut k: usize = 0;
    while k < out.len()
        invariant
            k <= out@.len(),
            ov == insts_view(out@),
            forall|v: u32|
                #[trigger] gone@.dom().contains(v) <==> (exists|x: int|
                    0 <= x < k && (#[trigger] ov[x]).dest().0 == v),
        decreases out@.len() - k,
    {
        let ghost g0 = gone@;
        let d = out[k].dest();
        assert(ov[k as int] == out@[k as int]@);
        gone.insert(d.0, d);
        proof {
            assert forall|v: u32|
                #[trigger] gone@.dom().contains(v) <==> (exists|x: int|
                    0 <= x < k + 1 && (#[trigger] ov[x]).dest().0 == v) by {
                if gone@.dom().contains(v) && v != d.0 {
                    assert(g0.dom().contains(v));
                    let x = choose|x: int| 0 <= x < k && (#[trigger] ov[x]).dest().0 == v;
                    assert(ov[x].dest().0 == v);
                }
                if exists|x: int| 0 <= x < k + 1 && (#[trigger] ov[x]).dest().0 == v {
                    let x = choose|x: int| 0 <= x < k + 1 && (#[trigger] ov[x]).dest().0 == v;
                    if x < k {
                        assert(g0.dom().contains(v));
                    }
                }
            }
        }
        k += 1;
    }
    assert(gone@.dom() =~= dest_set(ov));
    remove_renamed(func, &gone);
}

fn put_behind_phis(insts: &mut Vec<MirInst>, more: &Vec<MirInst>)
    ensures
        insts_view(final(insts)@) == behind_phis(insts_view(old(insts)@), insts_view(more@)),
{
    let ghost iv = insts_view(insts@);
    let ghost mv = insts_view(more@);
    let mut at: usize = 0;
    while at < insts.len() && insts[at].is_phi()
        invariant
            at <= insts@.len(),
            iv == insts_view(insts@),
            first_plain(iv, 0) == first_plain(iv, at as int),
        decreases insts@.len() - at,
    {
        assert(iv[at as int] == insts@[at as int]@);
        at += 1;
    }
    proof {
        if at < iv.len() {
            assert(iv[at as int] == insts@[at as int]@);
        }
    }
    let mut r: Vec<MirInst> = Vec::new();
    let mut i: usize = 0;
    while i < at
        invariant
            i <= at <= insts@.len(),
            iv == insts_view(insts@),
            insts_view(r@) == iv.subrange(0, i as int),
        decreases at - i,
    {
        let ghost r0 = insts_view(r@);
        let c = insts[i].clone();
        assert(iv[i as int] == insts@[i as int]@);
        r.push(c);
        assert(insts_view(r@) =~= r0.push(iv[i as int]));
        i += 1;
        assert(insts_view(r@) =~= iv.subrange(0, i as int));
    }
    let ghost front = iv.subrange(0, at as int);
    assert(insts_view(r@) =~= front + mv.subrange(0, 0));
    let mut k: usize = 0;
    while k < more.len()
        invariant
            k <= more@.len(),
            mv == insts_view(more@),
            insts_view(r@) == front + mv.subrange(0, k as int),
        decreases more@.len() - k,
    {
        let ghost r0 = insts_view(r@);
        let c = more[k].clone();
        assert(mv[k as int] == more@[k as int]@);
        r.push(c);
        assert(insts_view(r@) =~= r0.push(mv[k as int]));
        k += 1;
        assert(insts_view(r@) =~= front + mv.subrange(0, k as int));
    }
    assert(insts_view(r@) =~= front + mv + iv.subrange(at as int, i as int));
    while i < insts.len()
        invariant
            at <= i <= insts@.len(),
            iv == insts_view(insts@),
            insts_view(r@) == front + mv + iv.subrange(at as int, i as int),
        decreases insts@.len() - i,
    {
        let ghost r0 = insts_view(r@);
        let c = insts[i].clone();
        assert(iv[i as int] == insts@[i as int]@);
        r.push(c);
        assert(insts_view(r@) =~= r0.push(iv[i as int]));
        i += 1;
        assert(insts_view(r@) =~= front + mv + iv.subrange(at as int, i as int));
    }
    *insts = r;
}

/// Instructions of a function may be put behind the phis of a block.
pub proof fn filling_keeps_index(r: FuncV, pre: int, more: Seq<InstV>)
    requires
        r.indexed(),
        0 <= pre < r.blocks.len(),
        forall|k: int| 0 <= k < more.len() ==> r.inst_indexed(#[trigger] more[k]),
    ensures
        (FuncV {
            blocks: r.blocks.update(
                pre,
                BlockV { insts: behind_phis(r.blocks[pre].insts, more), ..r.blocks[pre] },
            ),
            ..r
        }).indexed(),
{
    let g = FuncV {
        blocks: r.blocks.update(
            pre,
            BlockV { insts: behind_phis(r.blocks[pre].insts, more), ..r.blocks[pre] },
        ),
        ..r
    };
    first_plain_in_range(r.blocks[pre].insts, 0);
    assert forall|b: int| 0 <= b < g.blocks.len() implies g.block_indexed(#[trigger] g.blocks[b], b) by {
        assert(r.block_indexed(r.blocks[b], b));
        assert forall|i: int| 0 <= i < g.blocks[b].insts.len() implies g.inst_indexed(
            #[trigger] g.blocks[b].insts[i],
        ) by {
            if b != pre {
                assert(r.inst_indexed(r.blocks[b].insts[i]));
            } else {
                let old_insts = r.blocks[pre].insts;
                let at = first_plain(old_insts, 0);
                if i < at {
                    assert(g.blocks[b].insts[i] == old_insts[i]);
                    assert(r.inst_indexed(old_insts[i]));
                } else if i < at + more.len() {
                    assert(g.blocks[b].insts[i] == more[i - at]);
                    assert(r.inst_indexed(more[i - at]));
                } else {
                    assert(g.blocks[b].insts[i] == old_insts[i - more.len()]);
                    assert(r.inst_indexed(old_insts[i - more.len()]));
                }
            }
        }
    }
}

/// The phis end within the instructions.
pub proof fn first_plain_in_range(insts: Seq<InstV>, i: int)
    requires
        0 <= i <= insts.len(),
    ensures
        i <= first_plain(insts, i) <= insts.len(),
    decreases insts.len() - i,
{
    if i < insts.len() {
        first_plain_in_range(insts, i + 1);
    }
}

/// Moves what may leave a loop to the block in front of it. Returns how much that is.
fn hoist_loop(func: &mut MirFunc, h: BlockId, mask: &Vec<bool>) -> (r: usize)
    requires
        old(func)@.indexed(),
        mask@.len() == old(func)@.blocks.len(),
        h.0 < old(func)@.blocks.len(),
    ensures
        (final(func)@, r as nat) == hoisted(old(func)@, h.0 as int, mask@),
        final(func)@.indexed(),
{
    let ghost f = func@;
    let out = list_movers(func, mask);
    let ghost ov = insts_view(out@);
    assert(f.blocks[h.0 as int] == func.blocks@[h.0 as int]@);
    if out.len() == 0 || func.blocks.len() >= u32::MAX as usize || func.blocks[h.index()].insts.len()
        > u32::MAX as usize - func.types.len() {
        return 0;
    }
    let pre = ensure_preheader(func, h, mask);
    let ghost g = func@;
    proof {
        removing_keeps_index(g, dest_set(ov));
    }
    remove_dests(func, &out);
    let ghost r = func@;
    proof {
        assert forall|k: int| 0 <= k < ov.len() implies r.inst_indexed(#[trigger] ov[k]) by {
            assert(f.inst_indexed(ov[k]));
        }
        filling_keeps_index(r, pre as int, ov);
    }
    assert(r.blocks[pre as int] == func.blocks@[pre as int]@);
    let mut insts: Vec<MirInst> = Vec::new();
    std::mem::swap(&mut insts, &mut func.blocks[pre].insts);
    put_behind_phis(&mut insts, &out);
    let ghost filled = insts_view(insts@);
    func.blocks[pre].insts = insts;
    assert(func@.blocks =~= r.blocks.update(
        pre as int,
        BlockV { insts: filled, ..r.blocks[pre as int] },
    ));
    out.len()
}

// Every loop.

/// How many of the first `n` marks are set.
pub open spec fn size_below(mask: Seq<bool>, n: int) -> nat
    decreases n,
{
    if n <= 0 {
        0
    } else {
        size_below(mask, n - 1) + (if mask[n - 1] {
            1nat
        } else {
            0nat
        })
    }
}

/// The first loop of `s` or more blocks that something leaves, by ascending size: what becomes of
/// the function, and how much leaves. Loops of size `s` are looked at from `i` on.
pub open spec fn smallest_hoisted(
    f: FuncV,
    loops: Seq<(BlockId, Seq<bool>)>,
    s: int,
    i: int,
) -> (FuncV, nat)
    decreases f.blocks.len() + 1 - s, loops.len() - i,
{
    if s > f.blocks.len() {
        (f, 0)
    } else if i >= loops.len() {
        smallest_hoisted(f, loops, s + 1, 0)
    } else if size_below(loops[i].1, loops[i].1.len() as int) == s && hoisted(
        f,
        loops[i].0.0 as int,
        loops[i].1,
    ).1 > 0 {
        hoisted(f, loops[i].0.0 as int, loops[i].1)
    } else {
        smallest_hoisted(f, loops, s, i + 1)
    }
}

/// Up to `k` rounds, until nothing leaves any loop.
pub open spec fn licm_rounds(f: FuncV, k: nat, n: nat) -> (FuncV, nat)
    decreases k,
{
    if k == 0 {
        (f, n)
    } else {
        let (g, m) = smallest_hoisted(f, loops_from(f, 0), 0, 0);
        if m == 0 {
            (f, n)
        } else {
            licm_rounds(g, (k - 1) as nat, n + m)
        }
    }
}

/// How many rounds a function of `n` blocks gets.
pub open spec fn round_limit(n: nat) -> nat {
    if n == 0 {
        4
    } else {
        4 * n
    }
}

/// The function after up to four rounds for each of its blocks, without the code that nothing
/// needs, and how much left a loop.
pub open spec fn emptied(f: FuncV) -> (FuncV, nat) {
    let (g, n) = licm_rounds(f, round_limit(f.blocks.len()), 0);
    if n > 0 {
        (pruned(g), n)
    } else {
        (g, n)
    }
}

fn loop_size(mask: &Vec<bool>) -> (r: usize)
    ensures
        r == size_below(mask@, mask@.len() as int),
        r <= mask@.len(),
{
    let mut r: usize = 0;
    let mut i: usize = 0;
    while i < mask.len()
        invariant
            i <= mask@.len(),
            r <= i,
            r == size_below(mask@, i as int),
        decreases mask@.len() - i,
    {
        if mask[i] {
            r += 1;
        }
        i += 1;
    }
    r
}

/// Loops name blocks of the function.
pub proof fn loops_are_blocks(f: FuncV, h: int)
    requires
        f.indexed(),
        0 <= h,
    ensures
        forall|k: int|
            0 <= k < loops_from(f, h).len() ==> (#[trigger] loops_from(f, h)[k]).0.0 < f.blocks.len()
                && loops_from(f, h)[k].1.len() == f.blocks.len(),
    decreases f.blocks.len() - h,
{
    if h < f.blocks.len() {
        loops_are_blocks(f, h + 1);
        let rest = loops_from(f, h + 1);
        let all = loops_from(f, h);
        assert forall|k: int| 0 <= k < all.len() implies (#[trigger] all[k]).0.0 < f.blocks.len()
            && all[k].1.len() == f.blocks.len() by {
            let head = all.len() - rest.len();
            if k >= head {
                assert(all[k] == rest[k - head]);
            }
        }
    }
}

/// Hoists from the smallest loop that something leaves.
fn hoist_smallest(func: &mut MirFunc) -> (r: usize)
    requires
        old(func)@.indexed(),
    ensures
        (final(func)@, r as nat) == smallest_hoisted(old(func)@, loops_from(old(func)@, 0), 0, 0),
        final(func)@.indexed(),
        r == 0 ==> final(func)@ == old(func)@,
{
    let ghost f = func@;
    let loops = natural_loops(func);
    let ghost lv = loops_from(f, 0);
    proof {
        loops_are_blocks(f, 0);
    }
    let n = func.blocks.len() as u64;
    let mut s: u64 = 0;
    while s <= n
        invariant
            s <= n + 1,
            f == old(func)@,
            lv == loops_from(f, 0),
            n == f.blocks.len(),
            n <= u32::MAX,
            f == func@,
            f.indexed(),
            loops_view(loops@) == lv,
            forall|k: int|
                0 <= k < lv.len() ==> (#[trigger] lv[k]).0.0 < f.blocks.len() && lv[k].1.len()
                    == f.blocks.len(),
            smallest_hoisted(f, lv, 0, 0) == smallest_hoisted(f, lv, s as int, 0),
        decreases n + 1 - s,
    {
        let mut i: usize = 0;
        while i < loops.len()
            invariant
                i <= loops@.len(),
                s <= n,
                f == old(func)@,
                lv == loops_from(f, 0),
                n == f.blocks.len(),
                f == func@,
                f.indexed(),
                loops_view(loops@) == lv,
                forall|k: int|
                    0 <= k < lv.len() ==> (#[trigger] lv[k]).0.0 < f.blocks.len() && lv[k].1.len()
                        == f.blocks.len(),
                smallest_hoisted(f, lv, 0, 0) == smallest_hoisted(f, lv, s as int, i as int),
            decreases loops@.len() - i,
        {
            let lp = &loops[i];
            assert(lv[i as int] == (lp.header, lp.blocks@));
            if loop_size(&lp.blocks) as u64 == s {
                let moved = hoist_loop(func, lp.header, &lp.blocks);
                if moved > 0 {
                    return moved;
                }
                assert(func@ == f);
            }
            i += 1;
        }
        s += 1;
    }
    0
}

/// Moves loop-invariant code out of loops, innermost first. Returns how many instructions moved.
pub fn licm(func: &mut MirFunc) -> (r: usize)
    requires
        old(func)@.indexed(),
    ensures
        final(func)@ == emptied(old(func)@).0,
        r == capped(emptied(old(func)@).1),
        final(func)@.indexed(),
{
    let ghost f = func@;
    let ghost want = licm_rounds(f, round_limit(f.blocks.len()), 0);
    let mut k: u64 = if func.blocks.len() == 0 {
        4
    } else {
        4 * func.blocks.len() as u64
    };
    let ghost mut n: nat = 0;
    let mut total: usize = 0;
    let mut going = true;
    while k > 0 && going
        invariant
            func@.indexed(),
            total == capped(n),
            going ==> want == licm_rounds(func@, k as nat, n),
            !going ==> want == (func@, n),
        decreases k,
    {
        let ghost g = func@;
        let m = hoist_smallest(func);
        if m == 0 {
            going = false;
        } else {
            total = total.saturating_add(m);
            proof {
                n = n + m as nat;
            }
        }
        k -= 1;
    }
    if total > 0 {
        proof {
            pruning_keeps_index(func@);
        }
        dce(func);
    }
    total
}

/// Whatever leaves a loop may leave it and reads only values that the loop does not define, or
/// that left before it.
pub proof fn movers_are_invariant(f: FuncV, mask: Seq<bool>, k: int, u: int)
    requires
        f.indexed(),
        0 <= k < movers(f, mask).len(),
        0 <= u < movers(f, mask)[k].uses().len(),
    ensures
        hoistable(movers(f, mask)[k], calm(f, mask), f.hosts),
        !defines(f, mask, movers(f, mask)[k].uses()[u].0 as int) || exists|e: int|
            0 <= e < k && (#[trigger] movers(f, mask)[e]).dest() == movers(f, mask)[k].uses()[u],
{
    leaving_is_invariant(f, mask, outside(f, mask), calm(f, mask), f.types.len(), k, u);
}

proof fn leaving_is_invariant(
    f: FuncV,
    mask: Seq<bool>,
    same: Seq<bool>,
    calm: bool,
    n: nat,
    k: int,
    u: int,
)
    requires
        f.indexed(),
        same.len() == f.types.len(),
        0 <= k < leaving(f, mask, same, calm, n).len(),
        0 <= u < leaving(f, mask, same, calm, n)[k].uses().len(),
    ensures
        hoistable(leaving(f, mask, same, calm, n)[k], calm, f.hosts),
        ({
            let all = leaving(f, mask, same, calm, n);
            same[all[k].uses()[u].0 as int] || exists|e: int|
                0 <= e < k && (#[trigger] all[e]).dest() == all[k].uses()[u]
        }),
        ({
            let all = leaving(f, mask, same, calm, n);
            all[k].uses()[u].0 < f.types.len()
        }),
    decreases n,
{
    let all = leaving(f, mask, same, calm, n);
    ready_is_found(f, mask, same, calm, 0);
    let first = ready_from(f, mask, same, calm, 0)->0;
    let same2 = same.update(first.dest().0 as int, true);
    let rest = leaving(f, mask, same2, calm, (n - 1) as nat);
    assert(all =~= seq![first] + rest);
    if k > 0 {
        assert(all[k] == rest[k - 1]);
        leaving_is_invariant(f, mask, same2, calm, (n - 1) as nat, k - 1, u);
        let v = all[k].uses()[u];
        if v == first.dest() {
            assert(all[0].dest() == v);
        } else if !same[v.0 as int] {
            assert(!same2[v.0 as int]);
            let e = choose|e: int| 0 <= e < k - 1 && (#[trigger] rest[e]).dest() == v;
            assert(all[e + 1].dest() == v);
        }
    } else {
        assert(first.uses()[u].0 < f.types.len());
    }
}

/// What is found ready is.
pub proof fn ready_is_found(f: FuncV, mask: Seq<bool>, same: Seq<bool>, calm: bool, b: int)
    requires
        f.indexed(),
        0 <= b,
        ready_from(f, mask, same, calm, b) is Some,
    ensures
        ready(ready_from(f, mask, same, calm, b)->0, same, calm, f.hosts),
        f.inst_indexed(ready_from(f, mask, same, calm, b)->0),
    decreases f.blocks.len() - b,
{
    if mask[b] && ready_in(f.blocks[b].insts, same, calm, f.hosts, 0) is Some {
        assert(f.block_indexed(f.blocks[b], b));
        ready_is_found_in(f, f.blocks[b].insts, same, calm, 0);
    } else {
        ready_is_found(f, mask, same, calm, b + 1);
    }
}

proof fn ready_is_found_in(f: FuncV, insts: Seq<InstV>, same: Seq<bool>, calm: bool, i: int)
    requires
        0 <= i,
        forall|k: int| 0 <= k < insts.len() ==> f.inst_indexed(#[trigger] insts[k]),
        ready_in(insts, same, calm, f.hosts, i) is Some,
    ensures
        ready(ready_in(insts, same, calm, f.hosts, i)->0, same, calm, f.hosts),
        f.inst_indexed(ready_in(insts, same, calm, f.hosts, i)->0),
    decreases insts.len() - i,
{
    if !ready(insts[i], same, calm, f.hosts) {
        ready_is_found_in(f, insts, same, calm, i + 1);
    }
}

} // verus!

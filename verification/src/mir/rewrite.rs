//! Renaming values throughout a function, and removing instructions.
use super::func::{insts_view, BlockV, FuncV, MirBlock, MirFunc};
use super::inst::{map_opt, map_value, map_values, opt_seq, BlockId, InstV, MirInst, TermV, ValueId};
use crate::idmap::IdMap;
use crate::reach::{close, edge_set, marked, reached};
use vstd::prelude::*;

verus! {

/// The block with every operand renamed by `m`.
pub open spec fn block_renamed(b: BlockV, m: Map<u32, ValueId>) -> BlockV {
    BlockV {
        id: b.id,
        insts: Seq::new(b.insts.len(), |i: int| b.insts[i].renamed(m)),
        term: match b.term {
            Some(t) => Some(t.renamed(m)),
            None => None,
        },
    }
}

/// The function with every operand of its code renamed by `m`.
pub open spec fn renamed(f: FuncV, m: Map<u32, ValueId>) -> FuncV {
    FuncV { blocks: Seq::new(f.blocks.len(), |b: int| block_renamed(f.blocks[b], m)), ..f }
}

fn rename_insts(insts: &mut Vec<MirInst>, map: &IdMap<ValueId>)
    ensures
        insts_view(final(insts)@) == Seq::new(
            old(insts)@.len(),
            |i: int| insts_view(old(insts)@)[i].renamed(map@),
        ),
{
    let ghost v0 = insts_view(insts@);
    let mut r: Vec<MirInst> = Vec::new();
    let mut i: usize = 0;
    while i < insts.len()
        invariant
            i <= insts@.len(),
            v0 == insts_view(insts@),
            r@.len() == i,
            forall|k: int| 0 <= k < i ==> (#[trigger] r@[k])@ == v0[k].renamed(map@),
        decreases insts@.len() - i,
    {
        let mut inst = insts[i].clone();
        assert(v0[i as int] == insts@[i as int]@);
        inst.rewrite_values(map);
        r.push(inst);
        i += 1;
    }
    assert(insts_view(r@) =~= Seq::new(v0.len(), |k: int| v0[k].renamed(map@)));
    *insts = r;
}

/// Renames every operand of the code.
pub fn rename_all(func: &mut MirFunc, map: &IdMap<ValueId>)
    ensures
        final(func)@ == renamed(old(func)@, map@),
{
    let ghost f0 = func@;
    let n = func.blocks.len();
    let mut b: usize = 0;
    while b < n
        invariant
            b <= n,
            n == func.blocks@.len(),
            n == f0.blocks.len(),
            func@ == (FuncV { blocks: func@.blocks, ..f0 }),
            forall|k: int| 0 <= k < b ==> (#[trigger] func@.blocks[k]) == block_renamed(f0.blocks[k], map@),
            forall|k: int| b <= k < n ==> (#[trigger] func@.blocks[k]) == f0.blocks[k],
        decreases n - b,
    {
        let ghost fb = func@;
        assert(fb.blocks[b as int] == func.blocks@[b as int]@);
        let mut block = MirBlock::new(BlockId(0));
        std::mem::swap(&mut block, &mut func.blocks[b]);
        assert(block@ == f0.blocks[b as int]);
        rename_insts(&mut block.insts, map);
        let mut term = None;
        std::mem::swap(&mut term, &mut block.term);
        if let Some(mut t) = term {
            t.rewrite_values(map);
            block.term = Some(t);
        }
        assert(block@ =~= block_renamed(f0.blocks[b as int], map@));
        func.blocks.set(b, block);
        assert(func@.blocks =~= fb.blocks.update(b as int, block@));
        b += 1;
    }
    assert(func@.blocks =~= renamed(f0, map@).blocks);
}

/// Renaming an instruction renames what it reads and keeps what it defines.
pub proof fn renaming_renames_uses(inst: InstV, m: Map<u32, ValueId>)
    ensures
        inst.renamed(m).uses() == map_values(m, inst.uses()),
        inst.renamed(m).dest() == inst.dest(),
        inst.renamed(m).dests() == inst.dests(),
        inst.renamed(m).phi() == inst.phi(),
{
    match inst {
        InstV::HeapFieldLoad { object, name, .. } => {
            assert(opt_seq(map_opt(m, name)) =~= map_values(m, opt_seq(name)));
        },
        InstV::HeapFieldStore { object, value, name, .. } => {
            assert(opt_seq(map_opt(m, name)) =~= map_values(m, opt_seq(name)));
        },
        _ => {},
    }
    assert(inst.renamed(m).uses() =~= map_values(m, inst.uses()));
}

/// Renaming a terminator renames what it reads and keeps where it goes.
pub proof fn renaming_renames_term(t: TermV, m: Map<u32, ValueId>)
    ensures
        t.renamed(m).uses() == map_values(m, t.uses()),
        t.renamed(m).targets() == t.targets(),
{
    match t {
        TermV::Return { lo, hi } => {
            assert(opt_seq(map_opt(m, lo)) =~= map_values(m, opt_seq(lo)));
            assert(opt_seq(map_opt(m, hi)) =~= map_values(m, opt_seq(hi)));
        },
        _ => {},
    }
    assert(t.renamed(m).uses() =~= map_values(m, t.uses()));
}

/// Whether `m` renames to values of the function only.
pub open spec fn map_in_range(f: FuncV, m: Map<u32, ValueId>) -> bool {
    forall|k: u32| #[trigger] m.dom().contains(k) ==> m[k].0 < f.types.len()
}

/// Renaming to values of the function keeps every reference in range.
pub proof fn renaming_keeps_index(f: FuncV, m: Map<u32, ValueId>)
    requires
        f.indexed(),
        map_in_range(f, m),
    ensures
        renamed(f, m).indexed(),
{
    let g = renamed(f, m);
    assert forall|b: int| 0 <= b < g.blocks.len() implies g.block_indexed(#[trigger] g.blocks[b], b) by {
        assert(f.block_indexed(f.blocks[b], b));
        assert forall|i: int| 0 <= i < g.blocks[b].insts.len() implies g.inst_indexed(
            #[trigger] g.blocks[b].insts[i],
        ) by {
            let inst = f.blocks[b].insts[i];
            assert(f.inst_indexed(inst));
            renaming_renames_uses(inst, m);
            let n = g.blocks[b].insts[i];
            assert forall|k: int| 0 <= k < n.uses().len() implies (#[trigger] n.uses()[k]).0
                < g.types.len() by {
                assert(n.uses()[k] == map_value(m, inst.uses()[k]));
            }
        }
        if let Some(t) = f.blocks[b].term {
            renaming_renames_term(t, m);
            let n = t.renamed(m);
            assert forall|k: int| 0 <= k < n.uses().len() implies (#[trigger] n.uses()[k]).0
                < g.types.len() by {
                assert(n.uses()[k] == map_value(m, t.uses()[k]));
            }
        }
    }
}

/// The instructions from `i` on whose first result is not in `gone`.
pub open spec fn without(insts: Seq<InstV>, gone: Set<u32>, i: int) -> Seq<InstV>
    decreases insts.len() - i,
{
    if i >= insts.len() {
        Seq::empty()
    } else {
        (if gone.contains(insts[i].dest().0) {
            Seq::empty()
        } else {
            seq![insts[i]]
        }) + without(insts, gone, i + 1)
    }
}

/// The function without the instructions whose first result is in `gone`.
pub open spec fn removed(f: FuncV, gone: Set<u32>) -> FuncV {
    FuncV {
        blocks: Seq::new(
            f.blocks.len(),
            |b: int| BlockV { insts: without(f.blocks[b].insts, gone, 0), ..f.blocks[b] },
        ),
        ..f
    }
}

/// Removes the instructions whose first result `map` renames.
pub fn remove_renamed(func: &mut MirFunc, map: &IdMap<ValueId>)
    ensures
        final(func)@ == removed(old(func)@, map@.dom()),
{
    let ghost f0 = func@;
    let ghost gone = map@.dom();
    let n = func.blocks.len();
    let mut b: usize = 0;
    while b < n
        invariant
            b <= n,
            n == func.blocks@.len(),
            n == f0.blocks.len(),
            gone == map@.dom(),
            func@ == (FuncV { blocks: func@.blocks, ..f0 }),
            forall|k: int| 0 <= k < b ==> (#[trigger] func@.blocks[k]) == removed(f0, gone).blocks[k],
            forall|k: int| b <= k < n ==> (#[trigger] func@.blocks[k]) == f0.blocks[k],
        decreases n - b,
    {
        let ghost fb = func@;
        assert(fb.blocks[b as int] == func.blocks@[b as int]@);
        let mut insts: Vec<MirInst> = Vec::new();
        std::mem::swap(&mut insts, &mut func.blocks[b].insts);
        let ghost iv = insts_view(insts@);
        assert(iv == f0.blocks[b as int].insts);
        let mut r: Vec<MirInst> = Vec::new();
        let mut i: usize = 0;
        assert(insts_view(r@) + without(iv, gone, 0) =~= without(iv, gone, 0));
        while i < insts.len()
            invariant
                i <= insts@.len(),
                iv == insts_view(insts@),
                gone == map@.dom(),
                insts_view(r@) + without(iv, gone, i as int) == without(iv, gone, 0),
            decreases insts@.len() - i,
        {
            let ghost r0 = insts_view(r@);
            assert(iv[i as int] == insts@[i as int]@);
            if !map.contains_key(&insts[i].dest().0) {
                let c = insts[i].clone();
                r.push(c);
                assert(insts_view(r@) =~= r0.push(iv[i as int]));
            }
            assert(insts_view(r@) + without(iv, gone, i + 1) =~= r0 + without(iv, gone, i as int));
            i += 1;
        }
        assert(insts_view(r@) + without(iv, gone, i as int) =~= insts_view(r@));
        func.blocks[b].insts = r;
        assert(func@.blocks =~= fb.blocks.update(
            b as int,
            BlockV { insts: without(iv, gone, 0), ..f0.blocks[b as int] },
        ));
        b += 1;
    }
    assert(func@.blocks =~= removed(f0, gone).blocks);
}

proof fn without_keeps_members(insts: Seq<InstV>, gone: Set<u32>, i: int)
    requires
        0 <= i,
    ensures
        forall|k: int|
            0 <= k < without(insts, gone, i).len() ==> insts.contains(
                #[trigger] without(insts, gone, i)[k],
            ),
    decreases insts.len() - i,
{
    if i < insts.len() {
        without_keeps_members(insts, gone, i + 1);
        let rest = without(insts, gone, i + 1);
        assert forall|k: int| 0 <= k < without(insts, gone, i).len() implies insts.contains(
            #[trigger] without(insts, gone, i)[k],
        ) by {
            let head = without(insts, gone, i).len() - rest.len();
            if k >= head {
                assert(without(insts, gone, i)[k] == rest[k - head]);
            } else {
                assert(insts[i] == without(insts, gone, i)[k]);
            }
        }
    }
}

/// Removing instructions keeps every reference in range.
pub proof fn removing_keeps_index(f: FuncV, gone: Set<u32>)
    requires
        f.indexed(),
    ensures
        removed(f, gone).indexed(),
{
    let g = removed(f, gone);
    assert forall|b: int| 0 <= b < g.blocks.len() implies g.block_indexed(#[trigger] g.blocks[b], b) by {
        assert(f.block_indexed(f.blocks[b], b));
        without_keeps_members(f.blocks[b].insts, gone, 0);
        assert forall|i: int| 0 <= i < g.blocks[b].insts.len() implies g.inst_indexed(
            #[trigger] g.blocks[b].insts[i],
        ) by {
            let inst = g.blocks[b].insts[i];
            let k = f.blocks[b].insts.index_of(inst);
            assert(f.inst_indexed(f.blocks[b].insts[k]));
        }
    }
}

// What the code needs.

/// Whether instruction `i` of block `b` exists.
pub open spec fn has_inst(f: FuncV, b: int, i: int) -> bool {
    0 <= b < f.blocks.len() && 0 <= i < f.blocks[b].insts.len()
}

/// Values that terminators read, and that instructions with effects read.
pub open spec fn needed_first(f: FuncV) -> Set<int> {
    Set::new(
        |v: int|
            0 <= v <= u32::MAX && ((exists|b: int|
                0 <= b < f.blocks.len() && (#[trigger] f.blocks[b]).term is Some && f.blocks[b].term->0.uses().contains(
                    ValueId(v as u32),
                )) || (exists|b: int, i: int|
                has_inst(f, b, i) && (#[trigger] f.blocks[b].insts[i]).effect_barrier(f.hosts)
                    && f.blocks[b].insts[i].uses().contains(ValueId(v as u32)))),
    )
}

/// From each first result to the values that its instruction reads.
pub open spec fn reads_of(f: FuncV) -> Set<(int, int)> {
    Set::new(
        |e: (int, int)|
            0 <= e.1 <= u32::MAX && exists|b: int, i: int|
                has_inst(f, b, i) && (#[trigger] f.blocks[b].insts[i]).dest().0 == e.0
                    && f.blocks[b].insts[i].uses().contains(ValueId(e.1 as u32)),
    )
}

/// Whether the code needs value `v`: a terminator or an instruction with effects reads it, or an
/// instruction does whose result is needed.
pub open spec fn needed(f: FuncV, v: int) -> bool {
    reached(needed_first(f), reads_of(f), v)
}

/// Whether an instruction stays: phis stay, and so does what has effects or a needed result.
pub open spec fn stays(f: FuncV, inst: InstV) -> bool {
    inst.phi() || inst.effect_barrier(f.hosts) || needed(f, inst.dest().0 as int)
}

/// The instructions from `i` on that stay.
pub open spec fn staying(f: FuncV, insts: Seq<InstV>, i: int) -> Seq<InstV>
    decreases insts.len() - i,
{
    if i >= insts.len() {
        Seq::empty()
    } else {
        (if stays(f, insts[i]) {
            seq![insts[i]]
        } else {
            Seq::empty()
        }) + staying(f, insts, i + 1)
    }
}

/// The function without the code that nothing needs.
pub open spec fn pruned(f: FuncV) -> FuncV {
    FuncV {
        blocks: Seq::new(
            f.blocks.len(),
            |b: int| BlockV { insts: staying(f, f.blocks[b].insts, 0), ..f.blocks[b] },
        ),
        ..f
    }
}

fn mark_first(func: &MirFunc) -> (r: Vec<bool>)
    requires
        func@.indexed(),
    ensures
        r@.len() == func@.types.len(),
        marked(r@) == needed_first(func@),
{
    let ghost f = func@;
    let n = func.types.len();
    let mut r: Vec<bool> = Vec::new();
    let mut x: usize = 0;
    while x < n
        invariant
            x <= n,
            r@.len() == x,
            forall|v: int| 0 <= v < x ==> !#[trigger] r@[v],
        decreases n - x,
    {
        r.push(false);
        x += 1;
    }
    let mut b: usize = 0;
    while b < func.blocks.len()
        invariant
            b <= func.blocks@.len(),
            f == func@,
            f.indexed(),
            n == f.types.len(),
            r@.len() == n,
            forall|v: int| 0 <= v < n && #[trigger] r@[v] ==> needed_first(f).contains(v),
            forall|p: int, v: ValueId|
                0 <= p < b && (#[trigger] f.blocks[p]).term is Some && f.blocks[p].term->0.uses().contains(v)
                    ==> r@[#[trigger] v.0 as int],
            forall|p: int, i: int, v: ValueId|
                0 <= p < b && has_inst(f, p, i) && (#[trigger] f.blocks[p].insts[i]).effect_barrier(f.hosts)
                    && f.blocks[p].insts[i].uses().contains(v) ==> r@[#[trigger] v.0 as int],
        decreases func.blocks@.len() - b,
    {
        assert(f.blocks[b as int] == func.blocks@[b as int]@);
        assert(f.block_indexed(f.blocks[b as int], b as int));
        let block = &func.blocks[b];
        if let Some(term) = &block.term {
            let us = term.operands();
            assert(us@ == f.blocks[b as int].term->0.uses());
            assert(f.term_indexed(f.blocks[b as int].term->0));
            mark_ids(&mut r, &us, Ghost(f));
        }
        let ghost r1 = r@;
        let mut i: usize = 0;
        while i < block.insts.len()
            invariant
                b < func.blocks@.len(),
                i <= block.insts@.len(),
                f == func@,
                f.indexed(),
                *block == func.blocks@[b as int],
                f.blocks[b as int] == block@,
                n == f.types.len(),
                r@.len() == n,
                r1.len() == n,
                forall|v: int| 0 <= v < n && #[trigger] r1[v] ==> r@[v],
                forall|v: int| 0 <= v < n && #[trigger] r@[v] ==> needed_first(f).contains(v),
                forall|k: int, v: ValueId|
                    0 <= k < i && (#[trigger] f.blocks[b as int].insts[k]).effect_barrier(f.hosts)
                        && f.blocks[b as int].insts[k].uses().contains(v) ==> r@[#[trigger] v.0 as int],
            decreases block.insts@.len() - i,
        {
            assert(block@.insts[i as int] == block.insts@[i as int]@);
            if block.insts[i].is_effect_barrier(&func.hosts) {
                let us = block.insts[i].operands();
                assert(f.block_indexed(f.blocks[b as int], b as int));
                assert(f.inst_indexed(f.blocks[b as int].insts[i as int]));
                assert(us@ == f.blocks[b as int].insts[i as int].uses());
                assert(has_inst(f, b as int, i as int));
                mark_ids(&mut r, &us, Ghost(f));
            }
            i += 1;
        }
        b += 1;
    }
    assert forall|v: int| marked(r@).contains(v) == needed_first(f).contains(v) by {
        if needed_first(f).contains(v) {
            let id = ValueId(v as u32);
            if exists|p: int|
                0 <= p < f.blocks.len() && (#[trigger] f.blocks[p]).term is Some && f.blocks[p].term->0.uses().contains(
                    id,
                ) {
                let p = choose|p: int|
                    0 <= p < f.blocks.len() && (#[trigger] f.blocks[p]).term is Some && f.blocks[p].term->0.uses().contains(
                        id,
                    );
                assert(f.block_indexed(f.blocks[p], p));
                let us = f.blocks[p].term->0.uses();
                assert(us[us.index_of(id)].0 < f.types.len());
                assert(r@[id.0 as int]);
            } else {
                let (p, i) = choose|p: int, i: int|
                    has_inst(f, p, i) && (#[trigger] f.blocks[p].insts[i]).effect_barrier(f.hosts)
                        && f.blocks[p].insts[i].uses().contains(id);
                assert(f.block_indexed(f.blocks[p], p));
                assert(f.inst_indexed(f.blocks[p].insts[i]));
                let us = f.blocks[p].insts[i].uses();
                assert(us[us.index_of(id)].0 < f.types.len());
                assert(r@[id.0 as int]);
            }
        }
    }
    assert(marked(r@) =~= needed_first(f));
    r
}

/// Marks the values of `ids`, all of which are needed first.
fn mark_ids(r: &mut Vec<bool>, ids: &Vec<ValueId>, Ghost(f): Ghost<FuncV>)
    requires
        old(r)@.len() == f.types.len(),
        forall|k: int| 0 <= k < ids@.len() ==> (#[trigger] ids@[k]).0 < f.types.len(),
        forall|v: int| 0 <= v < old(r)@.len() && #[trigger] old(r)@[v] ==> needed_first(f).contains(v),
        forall|v: ValueId| #[trigger] ids@.contains(v) ==> needed_first(f).contains(v.0 as int),
    ensures
        final(r)@.len() == old(r)@.len(),
        forall|v: int| 0 <= v < final(r)@.len() && #[trigger] old(r)@[v] ==> final(r)@[v],
        forall|v: int| 0 <= v < final(r)@.len() && #[trigger] final(r)@[v] ==> needed_first(f).contains(v),
        forall|v: ValueId| ids@.contains(v) ==> final(r)@[#[trigger] v.0 as int],
{
    let ghost r0 = r@;
    let mut k: usize = 0;
    while k < ids.len()
        invariant
            k <= ids@.len(),
            r@.len() == f.types.len(),
            r0.len() == r@.len(),
            forall|x: int| 0 <= x < ids@.len() ==> (#[trigger] ids@[x]).0 < f.types.len(),
            forall|v: ValueId| #[trigger] ids@.contains(v) ==> needed_first(f).contains(v.0 as int),
            forall|v: int| 0 <= v < r@.len() && #[trigger] r0[v] ==> r@[v],
            forall|v: int| 0 <= v < r@.len() && #[trigger] r@[v] ==> needed_first(f).contains(v),
            forall|x: int| 0 <= x < k ==> r@[(#[trigger] ids@[x]).0 as int],
        decreases ids@.len() - k,
    {
        assert(ids@.contains(ids@[k as int]));
        r.set(ids[k].index(), true);
        k += 1;
    }
    assert forall|v: ValueId| ids@.contains(v) implies r@[#[trigger] v.0 as int] by {
        let x = ids@.index_of(v);
        assert(r@[ids@[x].0 as int]);
    }
}

fn list_reads(func: &MirFunc) -> (r: Vec<(usize, usize)>)
    requires
        func@.indexed(),
    ensures
        edge_set(r@) == reads_of(func@),
        forall|k: int|
            0 <= k < r@.len() ==> (#[trigger] r@[k]).0 < func@.types.len() && r@[k].1
                < func@.types.len(),
{
    let ghost f = func@;
    let mut r: Vec<(usize, usize)> = Vec::new();
    let mut b: usize = 0;
    while b < func.blocks.len()
        invariant
            b <= func.blocks@.len(),
            f == func@,
            f.indexed(),
            forall|k: int|
                0 <= k < r@.len() ==> (#[trigger] r@[k]).0 < f.types.len() && r@[k].1
                    < f.types.len() && reads_of(f).contains((r@[k].0 as int, r@[k].1 as int)),
            forall|p: int, i: int, v: ValueId|
                0 <= p < b && has_inst(f, p, i) && (#[trigger] f.blocks[p].insts[i]).uses().contains(v)
                    ==> r@.contains(
                    (f.blocks[p].insts[i].dest().0 as usize, #[trigger] v.0 as usize),
                ),
        decreases func.blocks@.len() - b,
    {
        let block = &func.blocks[b];
        assert(f.blocks[b as int] == block@);
        assert(f.block_indexed(f.blocks[b as int], b as int));
        let mut i: usize = 0;
        while i < block.insts.len()
            invariant
                b < func.blocks@.len(),
                i <= block.insts@.len(),
                f == func@,
                f.indexed(),
                f.blocks[b as int] == block@,
                forall|k: int|
                    0 <= k < r@.len() ==> (#[trigger] r@[k]).0 < f.types.len() && r@[k].1
                        < f.types.len() && reads_of(f).contains((r@[k].0 as int, r@[k].1 as int)),
                forall|p: int, j: int, v: ValueId|
                    0 <= p < b && has_inst(f, p, j) && (#[trigger] f.blocks[p].insts[j]).uses().contains(v)
                        ==> r@.contains(
                        (f.blocks[p].insts[j].dest().0 as usize, #[trigger] v.0 as usize),
                    ),
                forall|j: int, v: ValueId|
                    0 <= j < i && (#[trigger] f.blocks[b as int].insts[j]).uses().contains(v)
                        ==> r@.contains(
                        (f.blocks[b as int].insts[j].dest().0 as usize, #[trigger] v.0 as usize),
                    ),
            decreases block.insts@.len() - i,
        {
            let ghost inst = f.blocks[b as int].insts[i as int];
            assert(inst == block.insts@[i as int]@);
            assert(f.block_indexed(f.blocks[b as int], b as int));
            assert(f.inst_indexed(inst));
            let us = block.insts[i].operands();
            let d = block.insts[i].dest().index();
            let ghost r0 = r@;
            let mut k: usize = 0;
            while k < us.len()
                invariant
                    k <= us@.len(),
                    has_inst(f, b as int, i as int),
                    inst == f.blocks[b as int].insts[i as int],
                    f.inst_indexed(inst),
                    us@ == inst.uses(),
                    d == inst.dest().0,
                    forall|x: int|
                        0 <= x < r@.len() ==> (#[trigger] r@[x]).0 < f.types.len() && r@[x].1
                            < f.types.len() && reads_of(f).contains(
                            (r@[x].0 as int, r@[x].1 as int),
                        ),
                    forall|e: (usize, usize)| #[trigger] r0.contains(e) ==> r@.contains(e),
                    forall|x: int|
                        0 <= x < k ==> r@.contains((d, (#[trigger] us@[x]).0 as usize)),
                decreases us@.len() - k,
            {
                let ghost r1 = r@;
                let u = us[k];
                assert(inst.uses()[k as int] == u);
                assert(inst.uses().contains(u));
                r.push((d, u.index()));
                proof {
                    assert(r@[r1.len() as int] == (d, u.0 as usize));
                    assert forall|e: (usize, usize)| #[trigger] r0.contains(e) implies r@.contains(
                        e,
                    ) by {
                        assert(r1.contains(e));
                        let y = r1.index_of(e);
                        assert(r@[y] == e);
                    }
                    assert forall|x: int| 0 <= x < k + 1 implies r@.contains(
                        (d, (#[trigger] us@[x]).0 as usize),
                    ) by {
                        if x < k {
                            assert(r1.contains((d, us@[x].0 as usize)));
                            let y = r1.index_of((d, us@[x].0 as usize));
                            assert(r@[y] == (d, us@[x].0 as usize));
                        }
                    }
                    assert(ValueId(u.0) == u);
                    assert(reads_of(f).contains((d as int, u.0 as int)));
                }
                k += 1;
            }
            proof {
                assert forall|j: int, v: ValueId|
                    0 <= j < i + 1 && (#[trigger] f.blocks[b as int].insts[j]).uses().contains(
                        v,
                    ) implies r@.contains(
                    (f.blocks[b as int].insts[j].dest().0 as usize, #[trigger] v.0 as usize),
                ) by {
                    if j == i {
                        let x = us@.index_of(v);
                        assert(r@.contains((d, us@[x].0 as usize)));
                    } else {
                        assert(r0.contains(
                            (f.blocks[b as int].insts[j].dest().0 as usize, v.0 as usize),
                        ));
                    }
                }
                assert forall|p: int, j: int, v: ValueId|
                    0 <= p < b && has_inst(f, p, j) && (#[trigger] f.blocks[p].insts[j]).uses().contains(
                        v,
                    ) implies r@.contains(
                    (f.blocks[p].insts[j].dest().0 as usize, #[trigger] v.0 as usize),
                ) by {
                    assert(r0.contains((f.blocks[p].insts[j].dest().0 as usize, v.0 as usize)));
                }
            }
            i += 1;
        }
        b += 1;
    }
    proof {
        assert forall|e: (int, int)| edge_set(r@).contains(e) == reads_of(f).contains(e) by {
            if edge_set(r@).contains(e) {
                let k = choose|k: int|
                    0 <= k < r@.len() && (#[trigger] r@[k]).0 == e.0 && r@[k].1 == e.1;
                assert(reads_of(f).contains((r@[k].0 as int, r@[k].1 as int)));
            }
            if reads_of(f).contains(e) {
                let (p, i) = choose|p: int, i: int|
                    has_inst(f, p, i) && (#[trigger] f.blocks[p].insts[i]).dest().0 == e.0
                        && f.blocks[p].insts[i].uses().contains(ValueId(e.1 as u32));
                let v = ValueId(e.1 as u32);
                assert(r@.contains((f.blocks[p].insts[i].dest().0 as usize, v.0 as usize)));
                let y = r@.index_of((f.blocks[p].insts[i].dest().0 as usize, v.0 as usize));
                assert(r@[y].0 == e.0 && r@[y].1 == e.1);
            }
        }
        assert(edge_set(r@) =~= reads_of(f));
    }
    r
}

/// Removes the code that nothing needs. Phis and instructions with effects stay.
pub fn dce(func: &mut MirFunc)
    requires
        old(func)@.indexed(),
    ensures
        final(func)@ == pruned(old(func)@),
{
    let ghost f0 = func@;
    let mut marks = mark_first(func);
    let reads = list_reads(func);
    close(&mut marks, &reads);
    let n = func.blocks.len();
    let mut b: usize = 0;
    while b < n
        invariant
            b <= n,
            n == func.blocks@.len(),
            n == f0.blocks.len(),
            f0.indexed(),
            marks@.len() == f0.types.len(),
            forall|v: int| 0 <= v < marks@.len() ==> #[trigger] marks@[v] == needed(f0, v),
            func@ == (FuncV { blocks: func@.blocks, ..f0 }),
            forall|k: int| 0 <= k < b ==> (#[trigger] func@.blocks[k]) == pruned(f0).blocks[k],
            forall|k: int| b <= k < n ==> (#[trigger] func@.blocks[k]) == f0.blocks[k],
        decreases n - b,
    {
        let ghost fb = func@;
        assert(fb.blocks[b as int] == func.blocks@[b as int]@);
        assert(f0.block_indexed(f0.blocks[b as int], b as int));
        let mut insts: Vec<MirInst> = Vec::new();
        std::mem::swap(&mut insts, &mut func.blocks[b].insts);
        let ghost iv = insts_view(insts@);
        assert(iv == f0.blocks[b as int].insts);
        let mut r: Vec<MirInst> = Vec::new();
        let mut i: usize = 0;
        assert(insts_view(r@) + staying(f0, iv, 0) =~= staying(f0, iv, 0));
        while i < insts.len()
            invariant
                i <= insts@.len(),
                iv == insts_view(insts@),
                func.hosts@ == f0.hosts,
                marks@.len() == f0.types.len(),
                forall|v: int| 0 <= v < marks@.len() ==> #[trigger] marks@[v] == needed(f0, v),
                forall|k: int| 0 <= k < iv.len() ==> f0.inst_indexed(#[trigger] iv[k]),
                insts_view(r@) + staying(f0, iv, i as int) == staying(f0, iv, 0),
            decreases insts@.len() - i,
        {
            let ghost r0 = insts_view(r@);
            assert(iv[i as int] == insts@[i as int]@);
            assert(f0.inst_indexed(iv[i as int]));
            let d = insts[i].dest().index();
            assert(marks@[d as int] == needed(f0, d as int));
            if insts[i].is_phi() || insts[i].is_effect_barrier(&func.hosts) || marks[d] {
                let c = insts[i].clone();
                r.push(c);
                assert(insts_view(r@) =~= r0.push(iv[i as int]));
            }
            assert(insts_view(r@) + staying(f0, iv, i + 1) =~= r0 + staying(f0, iv, i as int));
            i += 1;
        }
        assert(insts_view(r@) + staying(f0, iv, i as int) =~= insts_view(r@));
        func.blocks[b].insts = r;
        assert(func@.blocks =~= fb.blocks.update(
            b as int,
            BlockV { insts: staying(f0, iv, 0), ..f0.blocks[b as int] },
        ));
        b += 1;
    }
    assert(func@.blocks =~= pruned(f0).blocks);
}

proof fn staying_are_members(f: FuncV, insts: Seq<InstV>, i: int)
    requires
        0 <= i,
    ensures
        forall|k: int|
            0 <= k < staying(f, insts, i).len() ==> insts.contains(
                #[trigger] staying(f, insts, i)[k],
            ) && stays(f, staying(f, insts, i)[k]),
    decreases insts.len() - i,
{
    if i < insts.len() {
        staying_are_members(f, insts, i + 1);
        let rest = staying(f, insts, i + 1);
        assert forall|k: int| 0 <= k < staying(f, insts, i).len() implies insts.contains(
            #[trigger] staying(f, insts, i)[k],
        ) && stays(f, staying(f, insts, i)[k]) by {
            let head = staying(f, insts, i).len() - rest.len();
            if k >= head {
                assert(staying(f, insts, i)[k] == rest[k - head]);
            } else {
                assert(insts[i] == staying(f, insts, i)[k]);
            }
        }
    }
}

/// Pruning keeps every reference in range.
pub proof fn pruning_keeps_index(f: FuncV)
    requires
        f.indexed(),
    ensures
        pruned(f).indexed(),
{
    let g = pruned(f);
    assert forall|b: int| 0 <= b < g.blocks.len() implies g.block_indexed(#[trigger] g.blocks[b], b) by {
        assert(f.block_indexed(f.blocks[b], b));
        staying_are_members(f, f.blocks[b].insts, 0);
        assert forall|i: int| 0 <= i < g.blocks[b].insts.len() implies g.inst_indexed(
            #[trigger] g.blocks[b].insts[i],
        ) by {
            let inst = g.blocks[b].insts[i];
            let k = f.blocks[b].insts.index_of(inst);
            assert(f.inst_indexed(f.blocks[b].insts[k]));
        }
    }
}

/// Whatever stays and has a use for a value is left with it: an instruction that is no phi and
/// stays reads only results of instructions that stay.
pub proof fn kept_code_keeps_its_operands(f: FuncV, user: InstV, b: int, i: int)
    requires
        exists|p: int, q: int| has_inst(f, p, q) && #[trigger] f.blocks[p].insts[q] == user,
        !user.phi(),
        stays(f, user),
        has_inst(f, b, i),
        user.uses().contains(f.blocks[b].insts[i].dest()),
    ensures
        stays(f, f.blocks[b].insts[i]),
{
    let v = f.blocks[b].insts[i].dest();
    let (p, q) = choose|p: int, q: int| has_inst(f, p, q) && #[trigger] f.blocks[p].insts[q] == user;
    assert(ValueId(v.0) == v);
    if user.effect_barrier(f.hosts) {
        assert(needed_first(f).contains(v.0 as int));
        crate::reach::seeds_are_reached(needed_first(f), reads_of(f), v.0 as int);
    } else {
        assert(reads_of(f).contains((user.dest().0 as int, v.0 as int)));
        crate::reach::reaching_is_closed(
            needed_first(f),
            reads_of(f),
            user.dest().0 as int,
            v.0 as int,
        );
    }
}

} // verus!

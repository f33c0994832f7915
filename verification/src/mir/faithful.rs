//! What emitted and lowered code computes: stack code, run on words, gives what the instructions
//! in SSA form give.
use super::emit::{
    abc, bin_number, compare_number, cond_jumps, copy, fits_i16, jump, pool_index, pool_pos, stack_bin, stack_compare,
    CtxV, Emit,
};
use super::eval::{bin_value, compare_holds, computes, const_value, inst_value};
use super::func::FuncV;
use super::inst::{BlockId, InstV, MirBinOp, MirCmpOp, MirConst, ValueId};
use super::lower::{arithmetic, comparison, float_op};
use super::moves::{
    after, arg_from, distinct_targets, edge_copies, edge_moves, parallel, parallel_at, sequenced, sequenced_copies_are_parallel,
};
use super::moves;
use super::regs::{falls_through, laid_out_after, next_block};
use super::ty::MirTy;
use crate::il::op::{DebugLoc, IlJumpKind, IlOp, Instruction, Label};
use crate::il::run::{
    dense_holds, dense_outcome, leaves, leaving_behind, leaving_straight_code, outcome, place_of, place_of_in_pieces,
    run, running_in_pieces, signed16, step, with_slot, Frame,
};
use crate::words::{truth, wrap64, Machine};
use vstd::prelude::*;

verus! {

// Operation tables.

/// Arithmetic is lowered to the operation that gives the same word, on all operands. Integer
/// instructions work on 64-bit numbers, float instructions on floats.
pub proof fn lowered_arithmetic_is_the_instruction(m: Machine, inst: Instruction, a: int, b: int)
    ensures
        match arithmetic(inst) {
            Some(op) => outcome(m, inst, a, b) == bin_value(
                m,
                op,
                if float_op(inst) {
                    MirTy::F64
                } else {
                    MirTy::I64
                },
                a,
                b,
            ),
            None => true,
        },
{
}

/// Comparisons are lowered to the compare that holds on the same operands.
pub proof fn lowered_comparisons_are_the_instruction(m: Machine, inst: Instruction, a: int, b: int)
    ensures
        match comparison(inst) {
            Some(op) => outcome(m, inst, a, b) == Some(
                truth(
                    compare_holds(
                        m,
                        op,
                        if float_op(inst) {
                            MirTy::F64
                        } else {
                            MirTy::I64
                        },
                        a,
                        b,
                    ),
                ),
            ),
            None => true,
        },
{
}

/// Every instruction that gives something of two words is lowered.
pub proof fn what_computes_is_lowered(m: Machine, inst: Instruction, a: int, b: int)
    ensures
        outcome(m, inst, a, b) is Some ==> arithmetic(inst) is Some || comparison(inst) is Some,
{
}

/// The stack instruction of an operation gives what the operation gives on 64-bit numbers and
/// floats.
pub proof fn stack_arithmetic_is_the_operation(m: Machine, op: MirBinOp, ty: MirTy, a: int, b: int)
    requires
        !(ty is I32) && !(ty is F32),
        bin_value(m, op, ty, a, b) is Some,
    ensures
        outcome(m, stack_bin(op, ty), a, b) == bin_value(m, op, ty, a, b),
{
}

/// The stack instruction of a compare holds where the compare holds. Equality has one
/// instruction, which compares words: floats other than 0 and those that are no numbers are equal
/// as words only if they are equal.
pub proof fn stack_compares_are_the_compare(m: Machine, op: MirCmpOp, ty: MirTy, a: int, b: int)
    requires
        !(ty is F32),
        ty.float() && (op is Eq || op is Ne) ==> (m.wide.same)(a, b) == (a == b),
    ensures
        outcome(m, stack_compare(op, ty), a, b) == Some(truth(compare_holds(m, op, ty, a, b))),
{
}

/// The number of a dense operation stands for the operation, on all operands of its type.
pub proof fn dense_arithmetic_is_the_operation(m: Machine, op: MirBinOp, ty: MirTy, a: int, b: int)
    ensures
        match bin_number(op, ty) {
            Some(k) => dense_outcome(m, k, a, b) == bin_value(m, op, ty, a, b),
            None => true,
        },
{
}

/// The number of a dense compare stands for the compare.
pub proof fn dense_compares_are_the_compare(m: Machine, op: MirCmpOp, ty: MirTy, a: int, b: int)
    ensures
        match compare_number(op, ty) {
            Some(k) => dense_holds(m, k, a, b) == Some(compare_holds(m, op, ty, a, b)),
            None => true,
        },
{
}

// Branches.

proof fn next_block_is_ahead(f: FuncV, i: nat)
    requires
        forall|b: int| 0 <= b < f.blocks.len() ==> (#[trigger] f.blocks[b]).id.0 == b,
        f.entry.0 == 0,
    ensures
        i > 0 && i < f.blocks.len() ==> next_block(f, i) == Some(BlockId(i as u32)),
        i >= f.blocks.len() ==> next_block(f, i) is None,
{
    reveal_with_fuel(next_block, 2);
}

/// A block falls through to the block behind it, and to no other.
pub proof fn falling_through_reaches_the_next_block(f: FuncV, from: BlockId, to: BlockId)
    requires
        forall|b: int| 0 <= b < f.blocks.len() ==> (#[trigger] f.blocks[b]).id.0 == b,
        f.entry.0 == 0,
        from.0 < f.blocks.len(),
    ensures
        falls_through(f, from, to) <==> (to.0 == from.0 + 1 && to.0 < f.blocks.len()),
{
    reveal_with_fuel(next_block, 2);
    next_block_is_ahead(f, (from.0 + 1) as nat);
}

/// The jumps of a two-way branch, run with a condition on top of the stack, pop it and arrive at
/// the label of the block that the condition chooses, or at their end if that block is laid out
/// next.
pub proof fn branches_arrive(
    m: Machine,
    pool: Seq<u64>,
    f: FuncV,
    from: BlockId,
    taken: BlockId,
    not_taken: BlockId,
    labs: Seq<Label>,
    loc: DebugLoc,
    s: Frame,
    c: int,
)
    ensures
        ({
            let to = if c != 0 {
                taken
            } else {
                not_taken
            };
            match leaves(m, pool, cond_jumps(f, from, taken, not_taken, labs, loc), 0, s.push(c)) {
                Some((Some(l), t)) => l == labs[to.0 as int] && t == s,
                Some((None, t)) => laid_out_after(f, from) == Some(to) && t == s,
                None => false,
            }
        }),
{
    reveal_with_fuel(leaves, 3);
    reveal_with_fuel(place_of, 3);
    assert(s.push(c).less(1) =~= s);
}

// Dense instructions.

/// Constants keep their word in 64 bits and in a signed 16-bit immediate.
pub proof fn bits_keep_numbers(v: i64, w: i32)
    ensures
        wrap64((v as u64) as int) == v,
        wrap64((w as u64) as int) == w,
        wrap64((w as i64 as u64) as int) == w,
        fits_i16(v) ==> signed16((v as i16) as u16) == v,
        fits_i16(w as i64) ==> signed16((w as i16) as u16) == w,
{
    assert(v >= 0 ==> (v as u64) == v) by (bit_vector);
    assert(v < 0 ==> (v as u64) - 0x1_0000_0000_0000_0000 == v) by (bit_vector);
    assert(w >= 0 ==> (w as u64) == w && (w as i64 as u64) == w) by (bit_vector);
    assert(w < 0 ==> (w as u64) - 0x1_0000_0000_0000_0000 == w && (w as i64 as u64) - 0x1_0000_0000_0000_0000 == w)
        by (bit_vector);
    let x = v as i16;
    let y = w as i16;
    assert(x >= 0 ==> (x as u16) == x) by (bit_vector);
    assert(x < 0 ==> (x as u16) - 0x1_0000 == x) by (bit_vector);
    assert(y >= 0 ==> (y as u16) == y) by (bit_vector);
    assert(y < 0 ==> (y as u16) - 0x1_0000 == y) by (bit_vector);
}

/// Bits that are found in the pool stand there.
pub proof fn pool_pos_holds(pool: Seq<u64>, bits: u64, i: nat)
    ensures
        match pool_pos(pool, bits, i) {
            Some(k) => i <= k < pool.len() && pool[k as int] == bits,
            None => true,
        },
    decreases pool.len() - i,
{
    if i < pool.len() && pool[i as int] != bits {
        pool_pos_holds(pool, bits, i + 1);
    }
}

/// Interned bits stand in the pool at their index, and what was in the pool stays.
pub proof fn interned_bits_stand(e: Emit, bits: u64)
    requires
        e.err is None,
        e.intern(bits).err is None,
    ensures
        pool_index(e.pool, bits) < e.intern(bits).pool.len(),
        pool_index(e.pool, bits) <= 0xffff,
        e.intern(bits).pool[pool_index(e.pool, bits) as int] == bits,
        e.intern(bits).out == e.out,
        e.pool.is_prefix_of(e.intern(bits).pool),
{
    pool_pos_holds(e.pool, bits, 0);
}

/// What emission appends to the code.
pub open spec fn appended(e: Emit, t: Emit) -> Seq<IlOp> {
    t.out.skip(e.out.len() as int)
}

/// Emission went on from `e` to `t`: code was appended, and the pool grew.
pub open spec fn went_on(e: Emit, t: Emit) -> bool {
    e.out.is_prefix_of(t.out) && e.pool.is_prefix_of(t.pool)
}

/// Running one operation.
pub proof fn one_operation(m: Machine, pool: Seq<u64>, op: IlOp, s: Frame)
    ensures
        run(m, pool, seq![op], 0, s) == step(m, pool, op, s),
{
    reveal_with_fuel(run, 2);
}

/// An emitted constant puts its word in the slot.
pub proof fn emitted_constants_are_loaded(m: Machine, e: Emit, k: MirConst, dest: u8, loc: DebugLoc, s: Frame)
    requires
        e.err is None,
        e.load_const(k, dest, loc).err is None,
    ensures
        went_on(e, e.load_const(k, dest, loc)),
        run(m, e.load_const(k, dest, loc).pool, appended(e, e.load_const(k, dest, loc)), 0, s) == Some(
            s.put(dest as u32, const_value(k)),
        ),
{
    let t = e.load_const(k, dest, loc);
    let bits = match k {
        MirConst::I64(v) => v as u64,
        MirConst::I32(v) => v as u64,
        MirConst::F64(b) => b,
        MirConst::F32(b) => b as u64,
        MirConst::Bool(_) => 0,
    };
    match k {
        MirConst::I64(v) => bits_keep_numbers(v, 0),
        MirConst::I32(v) => bits_keep_numbers(0, v),
        _ => {},
    }
    if e.intern(bits).err is None {
        interned_bits_stand(e, bits);
    }
    assert(appended(e, t) =~= seq![t.out.last()]);
    one_operation(m, t.pool, t.out.last(), s);
}

/// Dense code of an instruction puts what the instruction computes in the slot of its result, and
/// traps where the instruction does. Negation and conversion work on 64 bits.
pub proof fn dense_code_computes(
    m: Machine,
    e: Emit,
    c: CtxV,
    inst: InstV,
    loc: DebugLoc,
    words: Map<u32, int>,
    s: Frame,
)
    requires
        computes(inst),
        e.err is None,
        e.inst(c, inst, loc).err is None,
        forall|u: int|
            0 <= u < inst.uses().len() ==> words[(#[trigger] inst.uses()[u]).0] == s.slot(c.reg(inst.uses()[u]) as u32),
        inst matches InstV::Unary { op, src, .. } ==> src.0 < c.f.types.len() && (op is Not || !(c.f.ty(src) is I32
            || c.f.ty(src) is F32)),
        inst matches InstV::Cast { kind, to, .. } ==> kind is Sext || !(to is F32),
    ensures
        went_on(e, e.inst(c, inst, loc)),
        run(m, e.inst(c, inst, loc).pool, appended(e, e.inst(c, inst, loc)), 0, s) == (match inst_value(
            m,
            c.f.types,
            inst,
            words,
        ) {
            Some(x) => Some(s.put(c.reg(inst.dest()) as u32, x)),
            None => None,
        }),
{
    let t = e.inst(c, inst, loc);
    match inst {
        InstV::Const { dest, c: k } => {
            emitted_constants_are_loaded(m, e, k, c.reg(dest), loc, s);
        },
        InstV::Bin { op, ty, lhs, rhs, .. } => {
            assert(inst.uses()[0] == lhs && inst.uses()[1] == rhs);
            dense_arithmetic_is_the_operation(m, op, ty, words[lhs.0], words[rhs.0]);
            let k = bin_number(op, ty)->0;
            assert(t.out.last() == abc(Instruction::DenseBin, k, c.reg(inst.dest()), c.reg(lhs), c.reg(rhs), loc));
            assert(step(m, t.pool, t.out.last(), s) == with_slot(
                s,
                c.reg(inst.dest()) as u32,
                dense_outcome(m, k, words[lhs.0], words[rhs.0]),
            ));
        },
        InstV::Cmp { op, ty, lhs, rhs, .. } => {
            assert(inst.uses()[0] == lhs && inst.uses()[1] == rhs);
            dense_compares_are_the_compare(m, op, ty, words[lhs.0], words[rhs.0]);
        },
        InstV::Unary { src, .. } => {
            assert(inst.uses()[0] == src);
        },
        InstV::Cast { src, .. } => {
            assert(inst.uses()[0] == src);
        },
        _ => {},
    }
    assert(appended(e, t) =~= seq![t.out.last()]);
    one_operation(m, t.pool, t.out.last(), s);
}

// Edges.

/// The code of copies.
pub open spec fn copy_code(ms: Seq<(u8, u8)>) -> Seq<IlOp> {
    Seq::new(ms.len(), |i: int| copy(ms[i].0, ms[i].1))
}

/// The frame behind copies, one at a time.
pub open spec fn copied(s: Frame, ms: Seq<(u8, u8)>) -> Frame
    decreases ms.len(),
{
    if ms.len() == 0 {
        s
    } else {
        copied(s.put(ms[0].0 as u32, s.slot(ms[0].1 as u32)), ms.drop_first())
    }
}

/// What the slots hold, by number.
pub open spec fn contents(s: Frame) -> spec_fn(u8) -> int {
    |r: u8| s.slot(r as u32)
}

/// Copies are emitted one behind the other.
pub proof fn copies_are_appended(e: Emit, ms: Seq<(u8, u8)>, i: nat)
    requires
        e.err is None,
        i <= ms.len(),
    ensures
        e.copies(ms, i) == (Emit { out: e.out + copy_code(ms.skip(i as int)), ..e }),
    decreases ms.len() - i,
{
    if i < ms.len() {
        let next = e.emit(copy(ms[i as int].0, ms[i as int].1));
        copies_are_appended(next, ms, i + 1);
        assert(e.out.push(copy(ms[i as int].0, ms[i as int].1)) + copy_code(ms.skip((i + 1) as int)) =~= e.out + copy_code(
            ms.skip(i as int),
        ));
    } else {
        assert(e.out + copy_code(ms.skip(i as int)) =~= e.out);
    }
}

/// The code of copies copies, and leaves the stack alone.
pub proof fn copies_run(m: Machine, pool: Seq<u64>, ms: Seq<(u8, u8)>, s: Frame)
    ensures
        run(m, pool, copy_code(ms), 0, s) == Some(copied(s, ms)),
        copied(s, ms).stack == s.stack,
    decreases ms.len(),
{
    if ms.len() > 0 {
        let first = seq![copy(ms[0].0, ms[0].1)];
        let rest = ms.drop_first();
        assert(copy_code(ms) =~= first + copy_code(rest));
        running_in_pieces(m, pool, first, copy_code(rest), 0, s);
        one_operation(m, pool, first[0], s);
        copies_run(m, pool, rest, s.put(ms[0].0 as u32, s.slot(ms[0].1 as u32)));
    }
}

/// Copies move what slots hold.
pub proof fn copies_move_slots(s: Frame, ms: Seq<(u8, u8)>)
    ensures
        contents(copied(s, ms)) == moves::run(ms, contents(s)),
    decreases ms.len(),
{
    if ms.len() > 0 {
        let t = s.put(ms[0].0 as u32, s.slot(ms[0].1 as u32));
        assert(contents(t) =~= after(contents(s), ms[0]));
        copies_move_slots(t, ms.drop_first());
    }
}

/// Copies of an edge come from phis, in their order.
proof fn edge_copies_come_from_phis(insts: Seq<InstV>, pred: BlockId, regs: Seq<u8>, i: nat, k: int) -> (j: int)
    requires
        0 <= k < edge_copies(insts, pred, regs, i).len(),
    ensures
        i <= j < insts.len(),
        insts[j] is Phi,
        edge_copies(insts, pred, regs, i)[k].0 == regs[insts[j].dest().0 as int],
        k > 0 ==> edge_copies(insts, pred, regs, i)[0].0 != edge_copies(insts, pred, regs, i)[k].0
            || exists|a: int, b: int|
            i <= a < b < insts.len() && #[trigger] insts[a] is Phi && #[trigger] insts[b] is Phi
                && regs[insts[a].dest().0 as int] == regs[insts[b].dest().0 as int],
    decreases insts.len() - i,
{
    let all = edge_copies(insts, pred, regs, i);
    let rest = edge_copies(insts, pred, regs, i + 1);
    if all.len() == rest.len() {
        assert(all =~= rest);
        edge_copies_come_from_phis(insts, pred, regs, i + 1, k)
    } else if k == 0 {
        i as int
    } else {
        assert(all[k] == rest[k - 1]);
        let j = edge_copies_come_from_phis(insts, pred, regs, i + 1, k - 1);
        if all[0].0 == all[k].0 {
            assert(insts[i as int] is Phi && insts[j] is Phi);
        }
        j
    }
}

/// Phis of a block that comes first have slots of their own.
pub open spec fn phis_apart(insts: Seq<InstV>, regs: Seq<u8>, scratch: u8) -> bool {
    &&& forall|a: int, b: int|
        0 <= a < b < insts.len() && #[trigger] insts[a] is Phi && #[trigger] insts[b] is Phi
            ==> regs[insts[a].dest().0 as int] != regs[insts[b].dest().0 as int]
    &&& forall|a: int| 0 <= a < insts.len() && #[trigger] insts[a] is Phi ==> regs[insts[a].dest().0 as int] != scratch
}

proof fn edge_copies_are_apart(insts: Seq<InstV>, pred: BlockId, regs: Seq<u8>, scratch: u8, i: nat)
    requires
        phis_apart(insts, regs, scratch),
    ensures
        distinct_targets(edge_copies(insts, pred, regs, i)),
        forall|k: int|
            0 <= k < edge_copies(insts, pred, regs, i).len() ==> (#[trigger] edge_copies(insts, pred, regs, i)[k]).0
                != scratch,
    decreases insts.len() - i,
{
    let all = edge_copies(insts, pred, regs, i);
    let rest = edge_copies(insts, pred, regs, i + 1);
    assert forall|k: int| 0 <= k < all.len() implies (#[trigger] all[k]).0 != scratch by {
        let j = edge_copies_come_from_phis(insts, pred, regs, i, k);
    }
    if i < insts.len() && insts[i as int] is Phi {
        edge_copies_are_apart(insts, pred, regs, scratch, i + 1);
        if all.len() == rest.len() {
            assert(all =~= rest);
        } else {
            assert forall|a: int, b: int| 0 <= a < b < all.len() implies (#[trigger] all[a]).0 != (
            #[trigger] all[b]).0 by {
                assert(all[b] == rest[b - 1]);
                if a > 0 {
                    assert(all[a] == rest[a - 1]);
                } else {
                    let j = edge_copies_come_from_phis(insts, pred, regs, i, b);
                }
            }
        }
    }
}

proof fn phi_is_copied(insts: Seq<InstV>, pred: BlockId, regs: Seq<u8>, scratch: u8, i: nat, j: int) -> (k: int)
    requires
        phis_apart(insts, regs, scratch),
        i <= j < insts.len(),
        forall|a: int| i <= a <= j ==> #[trigger] insts[a] is Phi,
        arg_from(insts[j]->Phi_args, pred, 0) is Some,
    ensures
        ({
            let all = edge_copies(insts, pred, regs, i);
            let d = regs[insts[j].dest().0 as int];
            let a = insts[j]->Phi_args[arg_from(insts[j]->Phi_args, pred, 0)->0 as int];
            if d != regs[a.1.0 as int] {
                0 <= k < all.len() && all[k] == (d, regs[a.1.0 as int])
            } else {
                forall|x: int| 0 <= x < all.len() ==> (#[trigger] all[x]).0 != d
            }
        }),
    decreases insts.len() - i,
{
    let all = edge_copies(insts, pred, regs, i);
    let rest = edge_copies(insts, pred, regs, i + 1);
    let d = regs[insts[j].dest().0 as int];
    let a = insts[j]->Phi_args[arg_from(insts[j]->Phi_args, pred, 0)->0 as int];
    assert(insts[i as int] is Phi);
    if i == j {
        if d == regs[a.1.0 as int] {
            assert forall|x: int| 0 <= x < all.len() implies (#[trigger] all[x]).0 != d by {
                assert(all =~= rest);
                let y = edge_copies_come_from_phis(insts, pred, regs, i + 1, x);
            }
        }
        0
    } else {
        let k = phi_is_copied(insts, pred, regs, scratch, i + 1, j);
        if all.len() == rest.len() {
            assert(all =~= rest);
            k
        } else {
            assert(all =~= seq![all[0]] + rest);
            if d == regs[a.1.0 as int] {
                assert forall|x: int| 0 <= x < all.len() implies (#[trigger] all[x]).0 != d by {
                    if x > 0 {
                        assert(all[x] == rest[x - 1]);
                    } else {
                        assert(insts[j] is Phi);
                    }
                }
            } else {
                assert(all[k + 1] == rest[k]);
            }
            k + 1
        }
    }
}

/// The copies of an edge give each phi of the block that the edge leads to the word that its
/// argument had, all at once, and leave the stack alone.
pub proof fn edges_move_phi_arguments(
    m: Machine,
    pool: Seq<u64>,
    f: FuncV,
    pred: BlockId,
    succ: BlockId,
    regs: Seq<u8>,
    scratch: u8,
    s: Frame,
    j: int,
)
    requires
        phis_apart(f.blocks[succ.0 as int].insts, regs, scratch),
        0 <= j < f.blocks[succ.0 as int].insts.len(),
        forall|a: int| 0 <= a <= j ==> #[trigger] f.blocks[succ.0 as int].insts[a] is Phi,
        arg_from(f.blocks[succ.0 as int].insts[j]->Phi_args, pred, 0) is Some,
    ensures
        ({
            let phi = f.blocks[succ.0 as int].insts[j];
            let arg = phi->Phi_args[arg_from(phi->Phi_args, pred, 0)->0 as int];
            match run(m, pool, copy_code(edge_moves(f, pred, succ, regs, scratch)), 0, s) {
                Some(t) => t.slot(regs[phi.dest().0 as int] as u32) == s.slot(regs[arg.1.0 as int] as u32) && t.stack
                    == s.stack && arg.0 == pred,
                None => false,
            }
        }),
{
    let insts = f.blocks[succ.0 as int].insts;
    let ms = edge_copies(insts, pred, regs, 0);
    let seqd = sequenced(ms, scratch);
    let d = regs[insts[j].dest().0 as int];
    let args = insts[j]->Phi_args;
    arg_is_from(args, pred, 0);
    edge_copies_are_apart(insts, pred, regs, scratch, 0);
    copies_run(m, pool, seqd, s);
    copies_move_slots(s, seqd);
    sequenced_copies_are_parallel(ms, scratch, contents(s), d);
    let k = phi_is_copied(insts, pred, regs, scratch, 0, j);
    if d != regs[args[arg_from(args, pred, 0)->0 as int].1.0 as int] {
        parallel_at(ms, contents(s), k);
    }
    assert(contents(copied(s, seqd))(d) == parallel(ms, contents(s), d));
}

proof fn arg_is_from(args: Seq<(BlockId, ValueId)>, pred: BlockId, i: nat)
    ensures
        arg_from(args, pred, i) matches Some(k) ==> i <= k < args.len() && args[k as int].0 == pred,
    decreases args.len() - i,
{
    if i < args.len() && args[i as int].0 != pred {
        arg_is_from(args, pred, i + 1);
    }
}

/// Code without jumps and labels.
pub open spec fn straight_code(a: Seq<IlOp>) -> bool {
    forall|k: int| 0 <= k < a.len() ==> !(#[trigger] a[k] is Jump) && !(a[k] is Label) && !(a[k] is JoinLabel)
}

/// The code of a branch with code on both edges.
pub open spec fn fork_code(l: Label, a: Seq<IlOp>, tl: Label, b: Seq<IlOp>, fl: Label, loc: DebugLoc) -> Seq<IlOp> {
    seq![jump(IlJumpKind::JumpIfFalse, l, loc)] + (a + (seq![jump(IlJumpKind::Unconditional, tl, loc)] + (seq![
        IlOp::Label(l),
    ] + (b + seq![jump(IlJumpKind::Unconditional, fl, loc)]))))
}

/// A branch with code on both edges does the code of the edge that the condition chooses, and
/// arrives at the label of that edge.
pub proof fn forks_arrive(
    m: Machine,
    pool: Seq<u64>,
    l: Label,
    a: Seq<IlOp>,
    tl: Label,
    b: Seq<IlOp>,
    fl: Label,
    loc: DebugLoc,
    s: Frame,
    x: int,
)
    requires
        l != tl,
        l != fl,
        straight_code(a),
        straight_code(b),
        run(m, pool, a, 0, s) is Some,
        run(m, pool, b, 0, s) is Some,
    ensures
        leaves(m, pool, fork_code(l, a, tl, b, fl, loc), 0, s.push(x)) == (if x != 0 {
            Some((Some(tl), run(m, pool, a, 0, s)->0))
        } else {
            Some((Some(fl), run(m, pool, b, 0, s)->0))
        }),
{
    let first = seq![jump(IlJumpKind::JumpIfFalse, l, loc)];
    let to = seq![jump(IlJumpKind::Unconditional, tl, loc)];
    let lab = seq![IlOp::Label(l)];
    let fin = seq![jump(IlJumpKind::Unconditional, fl, loc)];
    let tail = lab + (b + fin);
    let code = first + (a + (to + tail));
    assert(code == fork_code(l, a, tl, b, fl, loc));
    let s1 = s.push(x);
    assert(s1.less(1) =~= s);
    leaving_straight_code(m, pool, b, fin, 0, s);
    let s3 = run(m, pool, b, 0, s)->0;
    assert(leaves(m, pool, fin, 0, s3) == Some((Some(fl), s3))) by {
        reveal_with_fuel(leaves, 2);
        reveal_with_fuel(place_of, 2);
    }
    assert(leaves(m, pool, tail, 0, s) == Some((Some(fl), s3))) by {
        leaving_straight_code(m, pool, lab, b + fin, 0, s);
        one_operation(m, pool, lab[0], s);
    }
    if x == 0 {
        place_of_in_pieces(first + (a + to), tail, l, 1);
        assert(tail[0] == lab[0]);
        assert(place_of(tail, l, 0) == Some(0int));
        let front = first + (a + to);
        assert(code =~= front + tail);
        leaving_behind(m, pool, front, tail, 0, s);
        assert(leaves(m, pool, code, front.len() as int, s) == leaves(m, pool, tail, 0, s));
        assert(code[0] == first[0]);
    } else {
        let rest = a + (to + tail);
        leaving_behind(m, pool, first, rest, 0, s);
        leaving_straight_code(m, pool, a, to + tail, 0, s);
        let s2 = run(m, pool, a, 0, s)->0;
        assert(place_of(to + tail, tl, 1) is None) by {
            let all = to + tail;
            place_of_in_pieces(all, Seq::empty(), tl, 1);
            assert(all + Seq::<IlOp>::empty() =~= all);
            assert(place_of(Seq::<IlOp>::empty(), tl, 0) is None);
        }
        assert((to + tail)[0] == to[0]);
        assert(leaves(m, pool, to + tail, 0, s2) == Some((Some(tl), s2)));
        assert(code[0] == first[0]);
    }
}

/// A branch whose edges copy arrives at the block that the condition chooses, with the copies of
/// that edge done.
pub proof fn split_branches_arrive(
    m: Machine,
    pool: Seq<u64>,
    e: Emit,
    c: CtxV,
    ts: Seq<(u8, u8)>,
    tl: Label,
    fs: Seq<(u8, u8)>,
    fl: Label,
    loc: DebugLoc,
    s: Frame,
    x: int,
)
    requires
        e.err is None,
        e.label(c) != tl,
        e.label(c) != fl,
    ensures
        went_on(e, e.split(c, ts, tl, fs, fl, loc)),
        leaves(m, pool, appended(e, e.split(c, ts, tl, fs, fl, loc)), 0, s.push(x)) == (if x != 0 {
            Some((Some(tl), copied(s, ts)))
        } else {
            Some((Some(fl), copied(s, fs)))
        }),
{
    let l = e.label(c);
    let first = jump(IlJumpKind::JumpIfFalse, l, loc);
    let a = copy_code(ts);
    let b = copy_code(fs);
    let e1 = e.fresh(c).emit(first);
    copies_are_appended(e1, ts, 0);
    assert(ts.skip(0) =~= ts && fs.skip(0) =~= fs);
    let e2 = e1.copies(ts, 0).emit(jump(IlJumpKind::Unconditional, tl, loc)).emit(IlOp::Label(l));
    copies_are_appended(e2, fs, 0);
    let done = e.split(c, ts, tl, fs, fl, loc);
    assert(done.out =~= e.out + fork_code(l, a, tl, b, fl, loc));
    assert(appended(e, done) =~= fork_code(l, a, tl, b, fl, loc));
    copies_run(m, pool, ts, s);
    copies_run(m, pool, fs, s);
    forks_arrive(m, pool, l, a, tl, b, fl, loc, s, x);
}

} // verus!

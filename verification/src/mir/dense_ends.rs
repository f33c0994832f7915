//! Ends of dense blocks: jumps, branches and tag matches go where the words send them.
use super::call_convoy::{compare_from, flag};
use super::emit::{cond_jumps, jump, stack_compare, CtxV, Emit};
use super::eval::{const_value, inst_value};
use super::faithful::{
    appended, bits_keep_numbers, branches_arrive, copied, copies_are_appended, copies_run, copy_code, interned_bits_stand,
    one_operation, split_branches_arrive, stack_compares_are_the_compare, went_on,
};
use super::inst::{BlockId, InstV, MirConst, TermV, ValueId};
use super::moves::edge_moves;
use super::regs::{falls_through, laid_out_after};
use super::trees::{
    compare_is_found, going_on_twice, nothing_yet, one_more_operation, runs_have_no_jumps, small_constants_are_words,
};
use super::ty::MirTy;
use crate::il::op::{DebugLoc, IlJumpKind, IlOp, Instruction, Label};
use crate::il::run::{leaves, leaving_straight_code, place_of, run, running_in_pieces, Frame};
use crate::words::{both_bits, truth, Machine};
use vstd::prelude::*;

verus! {

/// A constant pushed by dense code is its word.
pub proof fn dense_constants_are_pushed(m: Machine, pool: Seq<u64>, e: Emit, k: MirConst, loc: DebugLoc, s: Frame)
    requires
        e.err is None,
        e.push_const(k, loc).err is None,
        e.push_const(k, loc).pool.is_prefix_of(pool),
    ensures
        went_on(e, e.push_const(k, loc)),
        run(m, pool, appended(e, e.push_const(k, loc)), 0, s) == Some(s.push(const_value(k))),
{
    let t = e.push_const(k, loc);
    let bits = match k {
        MirConst::I64(v) => v as u64,
        MirConst::I32(v) => v as i64 as u64,
        MirConst::F64(b) => b,
        MirConst::F32(b) => b as u64,
        MirConst::Bool(_) => 0,
    };
    match k {
        MirConst::I64(v) => bits_keep_numbers(v, 0),
        MirConst::I32(v) => bits_keep_numbers(0, v),
        _ => {},
    }
    if e.intern(bits).err is None {
        interned_bits_stand(e, bits);
    }
    assert(appended(e, t) =~= seq![t.out.last()]);
    assert(e.out =~= t.out.take(e.out.len() as int));
    assert(t.pool =~= pool.take(t.pool.len() as int));
    if let IlOp::ConstPool { idx, .. } = t.out.last() {
        assert(t.pool[idx as int] == bits);
        assert(pool[idx as int] == bits) by {
            assert(t.pool[idx as int] == pool.take(t.pool.len() as int)[idx as int]);
        }
    } else {
        assert(e.pool =~= t.pool.take(e.pool.len() as int));
    }
    one_operation(m, pool, t.out.last(), s);
}

/// The slot of a value holds its word.
pub open spec fn holds(c: CtxV, v: ValueId, words: Map<u32, int>, s: Frame) -> bool {
    s.slot(c.reg(v) as u32) == words[v.0]
}

/// The condition of a branch: the compare that gives it works on 64 bits, its left operand has a
/// slot, and its right operand has one or is a constant.
pub open spec fn condition_ready(
    m: Machine,
    c: CtxV,
    insts: Seq<InstV>,
    cond: ValueId,
    words: Map<u32, int>,
    s: Frame,
) -> bool {
    match compare_from(insts, cond, 0) {
        Some(k) => {
            let inst = insts[k as int];
            let lhs = inst->Cmp_lhs;
            let rhs = inst->Cmp_rhs;
            let op = inst->Cmp_op;
            let ty = inst->Cmp_ty;
            &&& inst_value(m, c.f.types, inst, words) == Some(words[cond.0])
            &&& !(ty is F32)
            &&& ty.float() && (op is Eq || op is Ne) ==> (m.wide.same)(words[lhs.0], words[rhs.0]) == (words[lhs.0]
                == words[rhs.0])
            &&& holds(c, lhs, words, s)
            &&& flag(c.slots, rhs) ==> holds(c, rhs, words, s)
            &&& c.f.def_inst(rhs) matches Some(InstV::Const { c: k, .. }) ==> words[rhs.0] == const_value(k)
            &&& flag(c.slots, rhs) || c.f.def_inst(rhs) matches Some(InstV::Const { .. })
        },
        None => holds(c, cond, words, s),
    }
}

/// Dense code leaves the condition of a branch on the stack.
pub proof fn dense_conditions_are_pushed(
    m: Machine,
    pool: Seq<u64>,
    e: Emit,
    c: CtxV,
    b: int,
    cond: ValueId,
    loc: DebugLoc,
    words: Map<u32, int>,
    s: Frame,
)
    requires
        e.err is None,
        e.br_cond(c, c.f.blocks[b], cond, loc).err is None,
        e.br_cond(c, c.f.blocks[b], cond, loc).pool.is_prefix_of(pool),
        condition_ready(m, c, c.f.blocks[b].insts, cond, words, s),
    ensures
        went_on(e, e.br_cond(c, c.f.blocks[b], cond, loc)),
        run(m, pool, appended(e, e.br_cond(c, c.f.blocks[b], cond, loc)), 0, s) == Some(s.push(words[cond.0])),
{
    let block = c.f.blocks[b];
    let t = e.br_cond(c, block, cond, loc);
    nothing_yet(m, pool, e, s);
    compare_is_found(block.insts, cond, 0);
    match compare_from(block.insts, cond, 0) {
        None => {
            one_more_operation(m, pool, e, e, IlOp::Load { slot: c.reg(cond) as u32, loc }, s, s);
        },
        Some(k) => {
            let inst = block.insts[k as int];
            let op = stack_compare(inst->Cmp_op, inst->Cmp_ty);
            let lhs = inst->Cmp_lhs;
            let rhs = inst->Cmp_rhs;
            stack_compares_are_the_compare(m, inst->Cmp_op, inst->Cmp_ty, words[lhs.0], words[rhs.0]);
            let last = IlOp::Bin { op, loc };
            let x1 = s.push(words[lhs.0]);
            let x2 = x1.push(words[rhs.0]);
            assert(x2.less(2) =~= s);
            if flag(c.slots, lhs) && c.small(rhs) is Some {
                if let Some(InstV::Const { c: k, .. }) = c.f.def_inst(rhs) {
                    small_constants_are_words(k);
                }
                one_more_operation(
                    m,
                    pool,
                    e,
                    e,
                    IlOp::BinSlotImm { op, slot: c.reg(lhs), imm: c.small(rhs)->0, loc },
                    s,
                    s,
                );
            } else {
                let e1 = e.load(c.reg(lhs), loc);
                one_more_operation(m, pool, e, e, IlOp::Load { slot: c.reg(lhs) as u32, loc }, s, s);
                if flag(c.slots, rhs) {
                    let e2 = e1.load(c.reg(rhs), loc);
                    one_more_operation(m, pool, e, e1, IlOp::Load { slot: c.reg(rhs) as u32, loc }, s, x1);
                    one_more_operation(m, pool, e, e2, last, s, x2);
                } else {
                    let k = (c.f.def_inst(rhs)->0)->Const_c;
                    let clean = Emit { stacked: Seq::empty(), ..e1 };
                    let e2 = clean.on_stack(c, rhs, loc);
                    let pushed = clean.push_const(k, loc);
                    assert(c.f.def(rhs) is Some);
                    assert(e2 == pushed.park(rhs));
                    assert(e2.err is None);
                    assert(pushed.err is None);
                    let e3 = Emit { stacked: e.stacked, ..e2 };
                    assert(t == e3.emit(last));
                    assert(pushed.pool == t.pool && pushed.out == e3.out && e3.pool == pushed.pool);
                    dense_constants_are_pushed(m, pool, clean, k, loc, x1);
                    assert(went_on(e1, e3));
                    assert(appended(e1, e3) == appended(clean, pushed));
                    going_on_twice(e, e1, e3);
                    running_in_pieces(m, pool, appended(e, e1), appended(e1, e3), 0, s);
                    one_more_operation(m, pool, e, e3, last, s, x2);
                }
            }
        },
    }
}

/// A dense two-way branch goes to the block that the word of the condition chooses, with the copies
/// of that edge done and the stack as it was.
pub proof fn dense_branches_arrive(
    m: Machine,
    pool: Seq<u64>,
    e: Emit,
    c: CtxV,
    b: int,
    cond: ValueId,
    taken: BlockId,
    not_taken: BlockId,
    loc: DebugLoc,
    words: Map<u32, int>,
    s: Frame,
)
    requires
        c.f.blocks[b].term == Some(TermV::Br { cond, taken, not_taken }),
        e.err is None,
        e.term(c, b, loc).err is None,
        e.term(c, b, loc).pool.is_prefix_of(pool),
        condition_ready(m, c, c.f.blocks[b].insts, cond, words, s),
        e.br_cond(c, c.f.blocks[b], cond, loc).label(c) != c.labs[taken.0 as int],
        e.br_cond(c, c.f.blocks[b], cond, loc).label(c) != c.labs[not_taken.0 as int],
    ensures
        ({
            let to = if words[cond.0] != 0 {
                taken
            } else {
                not_taken
            };
            let from = c.f.blocks[b].id;
            let copies = edge_moves(c.f, from, to, c.regs, c.scratch);
            match leaves(m, pool, appended(e, e.term(c, b, loc)), 0, s) {
                Some((Some(l), t)) => l == c.labs[to.0 as int] && t == copied(s, copies),
                Some((None, t)) => laid_out_after(c.f, from) == Some(to) && t == copied(s, copies),
                None => false,
            }
        }),
{
    let block = c.f.blocks[b];
    let from = block.id;
    let ts = edge_moves(c.f, from, taken, c.regs, c.scratch);
    let fs = edge_moves(c.f, from, not_taken, c.regs, c.scratch);
    let x = words[cond.0];
    let e1 = e.br_cond(c, block, cond, loc);
    let t = e.term(c, b, loc);
    let tl = c.labs[taken.0 as int];
    let fl = c.labs[not_taken.0 as int];
    assert(e1.err is None) by {
        if e1.err is Some {
            failures_stay(e1, c, ts, tl, fs, fl, loc);
        }
    }
    if !(ts.len() == 0 && fs.len() == 0) {
        split_branches_arrive(m, pool, e1, c, ts, tl, fs, fl, loc, s, x);
        splits_keep_the_pool(e1, c, ts, tl, fs, fl, loc);
    }
    assert(t.pool == e1.pool);
    dense_conditions_are_pushed(m, pool, e, c, b, cond, loc, words, s);
    let code = appended(e, e1);
    runs_have_no_jumps(m, pool, code, 0, s);
    if ts.len() == 0 && fs.len() == 0 {
        let jumps = cond_jumps(c.f, from, taken, not_taken, c.labs, loc);
        assert(e1.out =~= t.out.take(e1.out.len() as int));
        assert(e1.pool =~= t.pool.take(e1.pool.len() as int));
        going_on_twice(e, e1, t);
        assert(appended(e1, t) =~= jumps);
        leaving_straight_code(m, pool, code, jumps, 0, s);
        branches_arrive(m, pool, c.f, from, taken, not_taken, c.labs, loc, s, x);
    } else {
        going_on_twice(e, e1, t);
        leaving_straight_code(m, pool, code, appended(e1, t), 0, s);
    }
}

proof fn failures_stay(e: Emit, c: CtxV, ts: Seq<(u8, u8)>, tl: Label, fs: Seq<(u8, u8)>, fl: Label, loc: DebugLoc)
    requires
        e.err is Some,
    ensures
        e.split(c, ts, tl, fs, fl, loc).err is Some,
{
}

proof fn splits_keep_the_pool(e: Emit, c: CtxV, ts: Seq<(u8, u8)>, tl: Label, fs: Seq<(u8, u8)>, fl: Label, loc: DebugLoc)
    requires
        e.err is None,
    ensures
        e.split(c, ts, tl, fs, fl, loc).pool == e.pool,
{
    let l = e.label(c);
    let e1 = e.fresh(c).emit(jump(IlJumpKind::JumpIfFalse, l, loc));
    copies_are_appended(e1, ts, 0);
    let e2 = e1.copies(ts, 0).emit(jump(IlJumpKind::Unconditional, tl, loc)).emit(IlOp::Label(l));
    copies_are_appended(e2, fs, 0);
}

/// A dense jump goes to its block with the copies of the edge done.
pub proof fn dense_jumps_arrive(
    m: Machine,
    pool: Seq<u64>,
    e: Emit,
    c: CtxV,
    b: int,
    dest: BlockId,
    loc: DebugLoc,
    s: Frame,
)
    requires
        c.f.blocks[b].term == Some(TermV::Jump { dest }),
        e.err is None,
    ensures
        ({
            let from = c.f.blocks[b].id;
            let copies = edge_moves(c.f, from, dest, c.regs, c.scratch);
            match leaves(m, pool, appended(e, e.term(c, b, loc)), 0, s) {
                Some((Some(l), t)) => l == c.labs[dest.0 as int] && t == copied(s, copies),
                Some((None, t)) => laid_out_after(c.f, from) == Some(dest) && t == copied(s, copies),
                None => false,
            }
        }),
{
    let from = c.f.blocks[b].id;
    let ms = edge_moves(c.f, from, dest, c.regs, c.scratch);
    let t = e.term(c, b, loc);
    copies_are_appended(e, ms, 0);
    assert(ms.skip(0) =~= ms);
    copies_run(m, pool, ms, s);
    let code = copy_code(ms);
    let last = if falls_through(c.f, from, dest) {
        Seq::<IlOp>::empty()
    } else {
        seq![jump(IlJumpKind::Unconditional, c.labs[dest.0 as int], loc)]
    };
    assert(t.out =~= e.out + (code + last));
    assert(appended(e, t) =~= code + last);
    leaving_straight_code(m, pool, code, last, 0, s);
    reveal_with_fuel(leaves, 2);
    reveal_with_fuel(place_of, 2);
}

/// The tag of a word that packs one: an option is nothing as 0, and the lowest bit marks the error
/// of a result.
pub open spec fn packed_tag(ty: MirTy, x: int) -> int {
    if ty is NicheOpt {
        truth(x != 0)
    } else {
        truth(both_bits(x, 1) != 0)
    }
}

/// A dense tag match goes to the block that the tag of the word chooses.
pub proof fn dense_matches_arrive(
    m: Machine,
    pool: Seq<u64>,
    e: Emit,
    c: CtxV,
    from: BlockId,
    scrutinee: ValueId,
    tag: u32,
    taken: BlockId,
    not_taken: BlockId,
    loc: DebugLoc,
    words: Map<u32, int>,
    s: Frame,
)
    requires
        e.err is None,
        e.match_jump(c, from, scrutinee, tag, taken, not_taken, loc).err is None,
        holds(c, scrutinee, words, s),
        e.label(c) != c.labs[taken.0 as int],
        e.label(c) != c.labs[not_taken.0 as int],
    ensures
        ({
            let to = if packed_tag(c.f.ty(scrutinee), words[scrutinee.0]) == tag {
                taken
            } else {
                not_taken
            };
            let copies = edge_moves(c.f, from, to, c.regs, c.scratch);
            match leaves(m, pool, appended(e, e.match_jump(c, from, scrutinee, tag, taken, not_taken, loc)), 0, s) {
                Some((Some(l), t)) => l == c.labs[to.0 as int] && t == copied(s, copies),
                Some((None, t)) => laid_out_after(c.f, from) == Some(to) && t == copied(s, copies),
                None => false,
            }
        }),
{
    let st = c.f.ty(scrutinee);
    let w = words[scrutinee.0];
    let t = e.match_jump(c, from, scrutinee, tag, taken, not_taken, loc);
    let o1 = IlOp::Load { slot: c.reg(scrutinee) as u32, loc };
    let imm: i32 = if st is NicheOpt {
        0
    } else {
        1
    };
    let o2 = IlOp::Const { imm, loc };
    let o3 = IlOp::Bin {
        op: if st is NicheOpt {
            Instruction::EQ
        } else {
            Instruction::BITAND
        },
        loc,
    };
    let x = if st is NicheOpt {
        truth(w == 0)
    } else {
        both_bits(w, 1)
    };
    let e1 = e.emit(o1);
    let e2 = e1.emit(o2);
    let e3 = e2.emit(o3);
    let x1 = s.push(w);
    let x2 = x1.push(imm as int);
    assert(x2.less(2) =~= s);
    nothing_yet(m, pool, e, s);
    one_more_operation(m, pool, e, e, o1, s, s);
    one_more_operation(m, pool, e, e1, o2, s, x1);
    one_more_operation(m, pool, e, e2, o3, s, x2);
    let direct = if st is NicheOpt {
        tag == 0
    } else {
        tag == 1
    };
    let yes = if direct {
        taken
    } else {
        not_taken
    };
    let no = if direct {
        not_taken
    } else {
        taken
    };
    let ys = edge_moves(c.f, from, yes, c.regs, c.scratch);
    let ns = edge_moves(c.f, from, no, c.regs, c.scratch);
    let code = appended(e, e3);
    runs_have_no_jumps(m, pool, code, 0, s);
    let yl = c.labs[yes.0 as int];
    let nl = c.labs[no.0 as int];
    if ys.len() == 0 && ns.len() == 0 {
        let jumps = cond_jumps(c.f, from, yes, no, c.labs, loc);
        assert(t == e3.emit_all(jumps));
        assert(e3.out =~= t.out.take(e3.out.len() as int));
        assert(e3.pool =~= t.pool.take(e3.pool.len() as int));
        going_on_twice(e, e3, t);
        assert(appended(e3, t) =~= jumps);
        leaving_straight_code(m, pool, code, jumps, 0, s);
        branches_arrive(m, pool, c.f, from, yes, no, c.labs, loc, s, x);
    } else {
        assert(t == e3.split(c, ys, yl, ns, nl, loc));
        assert(e3.label(c) == e.label(c));
        split_branches_arrive(m, pool, e3, c, ys, yl, ns, nl, loc, s, x);
        going_on_twice(e, e3, t);
        leaving_straight_code(m, pool, code, appended(e3, t), 0, s);
    }
}

} // verus!

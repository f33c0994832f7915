//! Rebuilt values: stack code for a tree of definitions pushes the word of the value.
use super::call_convoy::{compare_from, flag};
use super::emit::{bump, cond_jumps, const_i16, jump, ret_words, stack_bin, stack_compare, Emit};
use super::emit_lir;
use super::emit_lir::{block_reads, in_tree, inst_reads, leaf, occurs, reads_below, tail_op, LirV};
use super::eval::{computes, const_value, inst_value};
use super::faithful::{
    appended, bits_keep_numbers, branches_arrive, contents, fork_code, forks_arrive, one_operation, pool_pos_holds,
    stack_arithmetic_is_the_operation, stack_compares_are_the_compare, straight_code, went_on,
};
use super::func::FuncV;
use super::inst::{BlockId, InstV, MirConst, TermV, ValueId};
use super::moves;
use super::moves::{after, edge_moves};
use super::regs::laid_out_after;
use super::rewrite::has_inst;
use crate::il::op::{DebugLoc, IlJumpKind, IlOp, Instruction, Label};
use crate::il::run::{leaves, leaving_straight_code, outcome, run, running_in_pieces, step, Frame};
use crate::words::Machine;
use vstd::prelude::*;

verus! {

/// The stack has an instruction for what `inst` computes: it works on 64 bits, and compares floats
/// for equality as words.
pub open spec fn on_stack(m: Machine, c: LirV, inst: InstV, words: Map<u32, int>) -> bool {
    match inst {
        InstV::Const { .. } => true,
        InstV::Bin { ty, .. } => !(ty is I32) && !(ty is F32),
        InstV::Cmp { op, ty, lhs, rhs, .. } => !(ty is F32) && (ty.float() && (op is Eq || op is Ne) ==> (m.wide.same)(
            words[lhs.0],
            words[rhs.0],
        ) == (words[lhs.0] == words[rhs.0])),
        InstV::Unary { op, src, .. } => src.0 < c.f.types.len() && (op is Not || !(c.f.ty(src) is I32 || c.f.ty(src)
            is F32)),
        InstV::Cast { kind, to, .. } => kind is IntToFloat && !(to is F32),
        _ => false,
    }
}

/// The slot of a value holds its word.
pub open spec fn in_slot(c: LirV, v: ValueId, words: Map<u32, int>, slots: Map<u32, int>) -> bool {
    slots[c.reg(v) as u32] == words[v.0]
}

/// The tree of definitions under `v` computes: every value of it has the word that its definition
/// gives, and values with a slot have it there.
pub open spec fn rebuilt(
    m: Machine,
    c: LirV,
    v: ValueId,
    words: Map<u32, int>,
    slots: Map<u32, int>,
    depth: nat,
) -> bool
    decreases depth,
{
    &&& flag(c.slots, v) || !flag(c.tree, v) ==> in_slot(c, v, words, slots)
    &&& flag(c.tree, v) ==> match c.f.def_inst(v) {
        Some(inst) => {
            &&& computes(inst)
            &&& inst_value(m, c.f.types, inst, words) == Some(words[v.0])
            &&& on_stack(m, c, inst, words)
            &&& !leaf(inst) && depth > 0 ==> forall|u: int|
                0 <= u < inst.uses().len() ==> rebuilt(
                    m,
                    c,
                    #[trigger] inst.uses()[u],
                    words,
                    slots,
                    (depth - 1) as nat,
                )
        },
        None => false,
    }
}

/// Emission goes on in steps.
pub proof fn going_on_twice(e: Emit, t: Emit, u: Emit)
    requires
        went_on(e, t),
        went_on(t, u),
    ensures
        went_on(e, u),
        appended(e, u) == appended(e, t) + appended(t, u),
{
    assert(appended(e, u) =~= appended(e, t) + appended(t, u)) by {
        assert(t.out =~= u.out.take(t.out.len() as int));
        assert(e.out =~= t.out.take(e.out.len() as int));
    }
    assert(e.out =~= u.out.take(e.out.len() as int)) by {
        assert(t.out =~= u.out.take(t.out.len() as int));
        assert(e.out =~= t.out.take(e.out.len() as int));
    }
    assert(e.pool =~= u.pool.take(e.pool.len() as int)) by {
        assert(t.pool =~= u.pool.take(t.pool.len() as int));
        assert(e.pool =~= t.pool.take(e.pool.len() as int));
    }
}

/// A longer pool holds what a shorter one holds.
pub proof fn prefixes_are_joined(a: Seq<u64>, b: Seq<u64>, c: Seq<u64>)
    requires
        a.is_prefix_of(b),
        b.is_prefix_of(c),
    ensures
        a.is_prefix_of(c),
        forall|i: int| 0 <= i < a.len() ==> a[i] == #[trigger] c[i],
        a.len() <= c.len(),
{
    assert(a =~= b.take(a.len() as int));
    assert(b =~= c.take(b.len() as int));
    assert(a =~= c.take(a.len() as int));
    assert forall|i: int| 0 <= i < a.len() implies a[i] == #[trigger] c[i] by {
        assert(a[i] == c.take(a.len() as int)[i]);
    }
}

/// One more operation.
pub proof fn one_more_operation(m: Machine, pool: Seq<u64>, e: Emit, t: Emit, op: IlOp, s: Frame, x: Frame)
    requires
        t.err is None,
        went_on(e, t),
        run(m, pool, appended(e, t), 0, s) == Some(x),
    ensures
        went_on(e, t.emit(op)),
        run(m, pool, appended(e, t.emit(op)), 0, s) == step(m, pool, op, x),
{
    let u = t.emit(op);
    assert(t.out =~= u.out.take(t.out.len() as int));
    assert(t.pool =~= u.pool.take(t.pool.len() as int));
    going_on_twice(e, t, u);
    assert(appended(t, u) =~= seq![op]);
    running_in_pieces(m, pool, appended(e, t), seq![op], 0, s);
    one_operation(m, pool, op, x);
}

/// Nothing emitted does nothing.
pub proof fn nothing_yet(m: Machine, pool: Seq<u64>, e: Emit, s: Frame)
    ensures
        went_on(e, e),
        run(m, pool, appended(e, e), 0, s) == Some(s),
{
    assert(e.out =~= e.out.take(e.out.len() as int));
    assert(e.pool =~= e.pool.take(e.pool.len() as int));
    assert(appended(e, e).len() == 0);
}

/// A pushed constant is its word.
pub proof fn pushed_constants_are_words(m: Machine, pool: Seq<u64>, e: Emit, k: MirConst, loc: DebugLoc, s: Frame)
    requires
        e.err is None,
        e.lir_const(k, loc).err is None,
        e.lir_const(k, loc).pool.is_prefix_of(pool),
    ensures
        went_on(e, e.lir_const(k, loc)),
        run(m, pool, appended(e, e.lir_const(k, loc)), 0, s) == Some(s.push(const_value(k))),
{
    let t = e.lir_const(k, loc);
    let bits = match k {
        MirConst::I64(v) => v as u64,
        MirConst::I32(v) => v as i64 as u64,
        MirConst::F64(b) => b,
        MirConst::F32(b) => b as u64,
        MirConst::Bool(_) => 0,
    };
    match k {
        MirConst::I64(v) => bits_keep_numbers(v, 0),
        MirConst::I32(v) => bits_keep_numbers(0, v),
        _ => {},
    }
    pool_pos_holds(e.pool, bits, 0);
    assert(appended(e, t) =~= seq![t.out.last()]);
    assert(e.out =~= t.out.take(e.out.len() as int));
    assert(e.pool =~= t.pool.take(e.pool.len() as int));
    assert(t.pool =~= pool.take(t.pool.len() as int));
    if let IlOp::ConstPool { idx, .. } = t.out.last() {
        assert(t.pool[idx as int] == bits);
        assert(pool[idx as int] == bits) by {
            assert(t.pool[idx as int] == pool.take(t.pool.len() as int)[idx as int]);
        }
    }
    one_operation(m, pool, t.out.last(), s);
}

/// The immediate of a small constant is its word.
pub proof fn small_constants_are_words(k: MirConst)
    ensures
        const_i16(k) matches Some(i) ==> i as int == const_value(k),
{
}

/// Stack code of a rebuilt value pushes its word and leaves the slots alone.
pub proof fn rebuilt_values_are_pushed(
    m: Machine,
    pool: Seq<u64>,
    e: Emit,
    c: LirV,
    v: ValueId,
    loc: DebugLoc,
    depth: nat,
    words: Map<u32, int>,
    s: Frame,
)
    requires
        e.err is None,
        e.lir_stack(c, v, loc, depth).err is None,
        e.lir_stack(c, v, loc, depth).pool.is_prefix_of(pool),
        rebuilt(m, c, v, words, s.slots, depth),
    ensures
        went_on(e, e.lir_stack(c, v, loc, depth)),
        run(m, pool, appended(e, e.lir_stack(c, v, loc, depth)), 0, s) == Some(s.push(words[v.0])),
    decreases depth, 0nat,
{
    let t = e.lir_stack(c, v, loc, depth);
    nothing_yet(m, pool, e, s);
    if !flag(c.tree, v) {
        one_more_operation(m, pool, e, e, IlOp::Load { slot: c.reg(v) as u32, loc }, s, s);
    } else {
        let inst = c.f.def_inst(v)->0;
        if leaf(inst) {
            pushed_constants_are_words(m, pool, e, inst->Const_c, loc, s);
        } else {
            let less = (depth - 1) as nat;
            match inst {
                InstV::Bin { op, ty, lhs, rhs, .. } => {
                    assert(inst.uses()[0] == lhs && inst.uses()[1] == rhs);
                    stack_arithmetic_is_the_operation(m, op, ty, words[lhs.0], words[rhs.0]);
                    rebuilt_pairs_are_pushed(m, pool, e, c, stack_bin(op, ty), lhs, rhs, loc, less, words, s, words[v.0]);
                },
                InstV::Cmp { op, ty, lhs, rhs, .. } => {
                    assert(inst.uses()[0] == lhs && inst.uses()[1] == rhs);
                    stack_compares_are_the_compare(m, op, ty, words[lhs.0], words[rhs.0]);
                    rebuilt_pairs_are_pushed(
                        m,
                        pool,
                        e,
                        c,
                        stack_compare(op, ty),
                        lhs,
                        rhs,
                        loc,
                        less,
                        words,
                        s,
                        words[v.0],
                    );
                },
                _ => {
                    let src = inst.uses()[0];
                    let us = inst.uses();
                    assert(us.len() == 1);
                    let e1 = e.lir_stack(c, src, loc, less);
                    assert(e.lir_all(c, us, 0, loc, less) == e1) by {
                        reveal_with_fuel(Emit::lir_all, 3);
                    }
                    let op = (tail_op(c.f, inst, loc)->Ok_0)->0;
                    assert(t == e1.emit(op));
                    assert(e1.err is None);
                    assert(rebuilt(m, c, us[0], words, s.slots, less));
                    rebuilt_values_are_pushed(m, pool, e, c, src, loc, less, words, s);
                    let x = s.push(words[src.0]);
                    one_more_operation(m, pool, e, e1, op, s, x);
                    assert(x.less(1) =~= s);
                },
            }
        }
    }
}

/// Two rebuilt operands and the operation.
pub proof fn rebuilt_pairs_are_pushed(
    m: Machine,
    pool: Seq<u64>,
    e: Emit,
    c: LirV,
    op: Instruction,
    lhs: ValueId,
    rhs: ValueId,
    loc: DebugLoc,
    depth: nat,
    words: Map<u32, int>,
    s: Frame,
    r: int,
)
    requires
        e.err is None,
        e.lir_bin(c, op, lhs, rhs, loc, depth).err is None,
        e.lir_bin(c, op, lhs, rhs, loc, depth).pool.is_prefix_of(pool),
        rebuilt(m, c, lhs, words, s.slots, depth),
        rebuilt(m, c, rhs, words, s.slots, depth),
        outcome(m, op, words[lhs.0], words[rhs.0]) == Some(r),
    ensures
        went_on(e, e.lir_bin(c, op, lhs, rhs, loc, depth)),
        run(m, pool, appended(e, e.lir_bin(c, op, lhs, rhs, loc, depth)), 0, s) == Some(s.push(r)),
    decreases depth, 1nat,
{
    let t = e.lir_bin(c, op, lhs, rhs, loc, depth);
    nothing_yet(m, pool, e, s);
    if flag(c.slots, lhs) && c.small(rhs) is Some {
        let k = (c.f.def_inst(rhs)->0)->Const_c;
        small_constants_are_words(k);
        one_more_operation(
            m,
            pool,
            e,
            e,
            IlOp::BinSlotImm { op, slot: c.reg(lhs), imm: c.small(rhs)->0, loc },
            s,
            s,
        );
    } else if flag(c.slots, lhs) && flag(c.slots, rhs) {
        one_more_operation(m, pool, e, e, IlOp::BinSlotSlot { op, a: c.reg(lhs), b: c.reg(rhs), loc }, s, s);
    } else {
        let e1 = e.lir_stack(c, lhs, loc, depth);
        let e2 = e1.lir_stack(c, rhs, loc, depth);
        assert(t == e2.emit(IlOp::Bin { op, loc }));
        assert(e2.err is None);
        assert(e1.err is None);
        assert(t.pool == e2.pool);
        let x1 = s.push(words[lhs.0]);
        let x2 = x1.push(words[rhs.0]);
        rebuilt_values_are_pushed(m, pool, e1, c, rhs, loc, depth, words, x1);
        prefixes_are_joined(e1.pool, e2.pool, pool);
        rebuilt_values_are_pushed(m, pool, e, c, lhs, loc, depth, words, s);
        going_on_twice(e, e1, e2);
        running_in_pieces(m, pool, appended(e, e1), appended(e1, e2), 0, s);
        one_more_operation(m, pool, e, e2, IlOp::Bin { op, loc }, s, x2);
        assert(x2.less(2) =~= s);
    }
}

// Stored results.

/// An instruction whose result has a slot leaves what it computes there, and nothing on the stack.
pub proof fn stored_results_are_words(
    m: Machine,
    pool: Seq<u64>,
    e: Emit,
    c: LirV,
    inst: InstV,
    loc: DebugLoc,
    words: Map<u32, int>,
    s: Frame,
    x: int,
)
    requires
        computes(inst),
        on_stack(m, c, inst, words),
        inst_value(m, c.f.types, inst, words) == Some(x),
        forall|u: int|
            0 <= u < inst.uses().len() ==> rebuilt(m, c, #[trigger] inst.uses()[u], words, s.slots, c.f.types.len()),
        e.err is None,
        e.lir_stored(c, inst, loc).err is None,
        e.lir_stored(c, inst, loc).pool.is_prefix_of(pool),
    ensures
        went_on(e, e.lir_stored(c, inst, loc)),
        run(m, pool, appended(e, e.lir_stored(c, inst, loc)), 0, s) == Some(s.put(c.reg(inst.dest()) as u32, x)),
{
    let d = c.f.types.len();
    let store = IlOp::StorePop { slot: c.reg(inst.dest()) as u32, loc };
    let t = e.lir_stored(c, inst, loc);
    let us = inst.uses();
    assert(s.push(x).less(1) =~= s);
    match inst {
        InstV::Const { c: k, .. } => {
            let e1 = e.lir_const(k, loc);
            assert(e1.err is None);
            pushed_constants_are_words(m, pool, e, k, loc, s);
            one_more_operation(m, pool, e, e1, store, s, s.push(x));
        },
        InstV::Bin { op, ty, lhs, rhs, .. } => {
            assert(us[0] == lhs && us[1] == rhs);
            let e1 = e.lir_bin(c, stack_bin(op, ty), lhs, rhs, loc, d);
            assert(e1.err is None);
            stack_arithmetic_is_the_operation(m, op, ty, words[lhs.0], words[rhs.0]);
            rebuilt_pairs_are_pushed(m, pool, e, c, stack_bin(op, ty), lhs, rhs, loc, d, words, s, x);
            one_more_operation(m, pool, e, e1, store, s, s.push(x));
        },
        InstV::Cmp { op, ty, lhs, rhs, .. } => {
            assert(us[0] == lhs && us[1] == rhs && us.len() == 2);
            let e1 = e.lir_stack(c, lhs, loc, d);
            let e2 = e1.lir_stack(c, rhs, loc, d);
            assert(e.lir_all(c, us, 0, loc, d) == e2) by {
                reveal_with_fuel(Emit::lir_all, 4);
            }
            let last = IlOp::Bin { op: stack_compare(op, ty), loc };
            let e3 = e2.emit(last);
            assert(t == e3.emit(store));
            assert(e3.err is None);
            assert(e2.err is None);
            assert(e1.err is None);
            stack_compares_are_the_compare(m, op, ty, words[lhs.0], words[rhs.0]);
            let x1 = s.push(words[lhs.0]);
            let x2 = x1.push(words[rhs.0]);
            rebuilt_values_are_pushed(m, pool, e1, c, rhs, loc, d, words, x1);
            prefixes_are_joined(e1.pool, e2.pool, pool);
            rebuilt_values_are_pushed(m, pool, e, c, lhs, loc, d, words, s);
            going_on_twice(e, e1, e2);
            running_in_pieces(m, pool, appended(e, e1), appended(e1, e2), 0, s);
            one_more_operation(m, pool, e, e2, last, s, x2);
            assert(x2.less(2) =~= s);
            one_more_operation(m, pool, e, e3, store, s, s.push(x));
        },
        _ => {
            assert(us.len() == 1);
            let src = us[0];
            let e1 = e.lir_stack(c, src, loc, d);
            assert(e.lir_all(c, us, 0, loc, d) == e1) by {
                reveal_with_fuel(Emit::lir_all, 3);
            }
            let op = (tail_op(c.f, inst, loc)->Ok_0)->0;
            let e2 = e1.emit(op);
            assert(t == e2.emit(store));
            assert(e2.err is None);
            assert(e1.err is None);
            rebuilt_values_are_pushed(m, pool, e, c, src, loc, d, words, s);
            let x1 = s.push(words[src.0]);
            one_more_operation(m, pool, e, e1, op, s, x1);
            assert(x1.less(1) =~= s);
            one_more_operation(m, pool, e, e2, store, s, s.push(x));
        },
    }
}

// Branches.

/// Copies between slots, through the stack.
pub open spec fn stack_copy_code(ms: Seq<(u8, u8)>, loc: DebugLoc) -> Seq<IlOp>
    decreases ms.len(),
{
    if ms.len() == 0 {
        Seq::empty()
    } else {
        (if ms[0].0 == ms[0].1 {
            Seq::empty()
        } else {
            seq![IlOp::Load { slot: ms[0].1 as u32, loc }, IlOp::StorePop { slot: ms[0].0 as u32, loc }]
        }) + stack_copy_code(ms.drop_first(), loc)
    }
}

/// The frame behind such copies.
pub open spec fn stack_copied(s: Frame, ms: Seq<(u8, u8)>) -> Frame
    decreases ms.len(),
{
    if ms.len() == 0 {
        s
    } else if ms[0].0 == ms[0].1 {
        stack_copied(s, ms.drop_first())
    } else {
        stack_copied(s.put(ms[0].0 as u32, s.slot(ms[0].1 as u32)), ms.drop_first())
    }
}

proof fn stack_copies_are_appended(e: Emit, ms: Seq<(u8, u8)>, i: nat, loc: DebugLoc)
    requires
        e.err is None,
        i <= ms.len(),
    ensures
        e.lir_copies(ms, i, loc) == (Emit { out: e.out + stack_copy_code(ms.skip(i as int), loc), ..e }),
    decreases ms.len() - i,
{
    if i < ms.len() {
        let p = ms[i as int];
        let next = if p.0 == p.1 {
            e
        } else {
            e.load(p.1, loc).store(p.0, loc)
        };
        stack_copies_are_appended(next, ms, i + 1, loc);
        assert(ms.skip(i as int).drop_first() =~= ms.skip((i + 1) as int));
        assert(next.out + stack_copy_code(ms.skip((i + 1) as int), loc) =~= e.out + stack_copy_code(
            ms.skip(i as int),
            loc,
        ));
    } else {
        assert(e.out + stack_copy_code(ms.skip(i as int), loc) =~= e.out);
    }
}

/// The copies move what slots hold, one at a time, and leave the stack alone.
pub proof fn stack_copies_run(m: Machine, pool: Seq<u64>, ms: Seq<(u8, u8)>, loc: DebugLoc, s: Frame)
    ensures
        run(m, pool, stack_copy_code(ms, loc), 0, s) == Some(stack_copied(s, ms)),
        stack_copied(s, ms).stack == s.stack,
        contents(stack_copied(s, ms)) == moves::run(ms, contents(s)),
        straight_code(stack_copy_code(ms, loc)),
    decreases ms.len(),
{
    if ms.len() > 0 {
        let rest = ms.drop_first();
        if ms[0].0 == ms[0].1 {
            assert(stack_copy_code(ms, loc) =~= stack_copy_code(rest, loc));
            assert(after(contents(s), ms[0]) =~= contents(s));
            stack_copies_run(m, pool, rest, loc, s);
        } else {
            let load = IlOp::Load { slot: ms[0].1 as u32, loc };
            let store = IlOp::StorePop { slot: ms[0].0 as u32, loc };
            let pair = seq![load, store];
            let t = s.put(ms[0].0 as u32, s.slot(ms[0].1 as u32));
            assert(stack_copy_code(ms, loc) =~= pair + stack_copy_code(rest, loc));
            running_in_pieces(m, pool, pair, stack_copy_code(rest, loc), 0, s);
            assert(run(m, pool, pair, 0, s) == Some(t)) by {
                reveal_with_fuel(run, 3);
                let x = s.push(s.slot(ms[0].1 as u32));
                assert(step(m, pool, pair[0], s) == Some(x));
                assert(x.less(1) =~= s);
                assert(step(m, pool, pair[1], x) == Some(t));
            }
            assert(contents(t) =~= after(contents(s), ms[0]));
            stack_copies_run(m, pool, rest, loc, t);
        }
    }
}

/// Code that runs without jumping has no jumps.
pub proof fn runs_have_no_jumps(m: Machine, pool: Seq<u64>, a: Seq<IlOp>, i: int, s: Frame)
    requires
        0 <= i,
        run(m, pool, a, i, s) is Some,
    ensures
        forall|k: int| i <= k < a.len() ==> !(#[trigger] a[k] is Jump),
    decreases a.len() - i,
{
    if i < a.len() {
        let t = step(m, pool, a[i], s)->0;
        runs_have_no_jumps(m, pool, a, i + 1, t);
    }
}

/// The condition of a branch is rebuilt: by the compare that the branch takes over, or as a value.
pub open spec fn condition_rebuilt(
    m: Machine,
    c: LirV,
    insts: Seq<InstV>,
    cond: ValueId,
    words: Map<u32, int>,
    slots: Map<u32, int>,
) -> bool {
    let d = c.f.types.len();
    match compare_from(insts, cond, 0) {
        Some(k) => {
            let inst = insts[k as int];
            &&& on_stack(m, c, inst, words)
            &&& inst_value(m, c.f.types, inst, words) == Some(words[cond.0])
            &&& rebuilt(m, c, inst->Cmp_lhs, words, slots, d)
            &&& rebuilt(m, c, inst->Cmp_rhs, words, slots, d)
        },
        None => rebuilt(m, c, cond, words, slots, d),
    }
}

/// The compare that is found is one.
pub proof fn compare_is_found(insts: Seq<InstV>, cond: ValueId, i: nat)
    ensures
        compare_from(insts, cond, i) matches Some(k) ==> i <= k < insts.len() && insts[k as int] is Cmp,
    decreases insts.len() - i,
{
    if i < insts.len() {
        compare_is_found(insts, cond, i + 1);
    }
}

/// Stack code of a two-way branch goes to the block that the word of the condition chooses, with
/// the copies of that edge done and the stack as it was.
pub proof fn stack_branches_arrive(
    m: Machine,
    pool: Seq<u64>,
    e: Emit,
    c: LirV,
    b: int,
    cond: ValueId,
    taken: BlockId,
    not_taken: BlockId,
    loc: DebugLoc,
    words: Map<u32, int>,
    s: Frame,
)
    requires
        c.f.blocks[b].term == Some(TermV::Br { cond, taken, not_taken }),
        e.err is None,
        e.lir_term(c, b, loc).err is None,
        e.lir_term(c, b, loc).pool.is_prefix_of(pool),
        condition_rebuilt(m, c, c.f.blocks[b].insts, cond, words, s.slots),
        e.lir_cond(c, c.f.blocks[b], cond, loc).next != c.labs[taken.0 as int].0,
        e.lir_cond(c, c.f.blocks[b], cond, loc).next != c.labs[not_taken.0 as int].0,
    ensures
        ({
            let to = if words[cond.0] != 0 {
                taken
            } else {
                not_taken
            };
            let from = c.f.blocks[b].id;
            let copies = edge_moves(c.f, from, to, c.regs, c.scratch);
            match leaves(m, pool, appended(e, e.lir_term(c, b, loc)), 0, s) {
                Some((Some(l), t)) => l == c.labs[to.0 as int] && t == stack_copied(s, copies),
                Some((None, t)) => laid_out_after(c.f, from) == Some(to) && t == stack_copied(s, copies),
                None => false,
            }
        }),
{
    let block = c.f.blocks[b];
    let d = c.f.types.len();
    let from = block.id;
    let ts = edge_moves(c.f, from, taken, c.regs, c.scratch);
    let fs = edge_moves(c.f, from, not_taken, c.regs, c.scratch);
    let x = words[cond.0];
    let e1 = e.lir_cond(c, block, cond, loc);
    let t = e.lir_term(c, b, loc);
    assert(e1.err is None);
    assert(t.pool == e1.pool) by {
        if !(ts.len() == 0 && fs.len() == 0) {
            split_is_appended(e1, ts, c.labs[taken.0 as int], fs, c.labs[not_taken.0 as int], loc);
        }
    }
    compare_is_found(block.insts, cond, 0);
    match compare_from(block.insts, cond, 0) {
        Some(k) => {
            let inst = block.insts[k as int];
            stack_compares_are_the_compare(
                m,
                inst->Cmp_op,
                inst->Cmp_ty,
                words[(inst->Cmp_lhs).0],
                words[(inst->Cmp_rhs).0],
            );
            rebuilt_pairs_are_pushed(
                m,
                pool,
                e,
                c,
                stack_compare(inst->Cmp_op, inst->Cmp_ty),
                inst->Cmp_lhs,
                inst->Cmp_rhs,
                loc,
                d,
                words,
                s,
                x,
            );
        },
        None => {
            rebuilt_values_are_pushed(m, pool, e, c, cond, loc, d, words, s);
        },
    }
    let code = appended(e, e1);
    runs_have_no_jumps(m, pool, code, 0, s);
    if ts.len() == 0 && fs.len() == 0 {
        let jumps = cond_jumps(c.f, from, taken, not_taken, c.labs, loc);
        assert(t.out =~= e1.out + jumps);
        assert(e1.out =~= t.out.take(e1.out.len() as int));
        assert(e1.pool =~= t.pool.take(e1.pool.len() as int));
        going_on_twice(e, e1, t);
        assert(appended(e1, t) =~= jumps);
        leaving_straight_code(m, pool, code, jumps, 0, s);
        branches_arrive(m, pool, c.f, from, taken, not_taken, c.labs, loc, s, x);
    } else {
        let l = Label(e1.next);
        let tl = c.labs[taken.0 as int];
        let fl = c.labs[not_taken.0 as int];
        let jumps = fork_code(l, stack_copy_code(ts, loc), tl, stack_copy_code(fs, loc), fl, loc);
        split_is_appended(e1, ts, tl, fs, fl, loc);
        assert(e1.out =~= t.out.take(e1.out.len() as int));
        assert(e1.pool =~= t.pool.take(e1.pool.len() as int));
        going_on_twice(e, e1, t);
        assert(appended(e1, t) =~= jumps);
        leaving_straight_code(m, pool, code, jumps, 0, s);
        stack_copies_run(m, pool, ts, loc, s);
        stack_copies_run(m, pool, fs, loc, s);
        forks_arrive(m, pool, l, stack_copy_code(ts, loc), tl, stack_copy_code(fs, loc), fl, loc, s, x);
    }
}

proof fn split_is_appended(e: Emit, ts: Seq<(u8, u8)>, tl: Label, fs: Seq<(u8, u8)>, fl: Label, loc: DebugLoc)
    requires
        e.err is None,
    ensures
        e.lir_split(ts, tl, fs, fl, loc).out == e.out + fork_code(
            Label(e.next),
            stack_copy_code(ts, loc),
            tl,
            stack_copy_code(fs, loc),
            fl,
            loc,
        ),
        e.lir_split(ts, tl, fs, fl, loc).pool == e.pool,
{
    let l = Label(e.next);
    let e0 = Emit { next: bump(e.next), ..e }.emit(jump(IlJumpKind::JumpIfFalse, l, loc));
    stack_copies_are_appended(e0, ts, 0, loc);
    assert(ts.skip(0) =~= ts && fs.skip(0) =~= fs);
    let e2 = e0.lir_copies(ts, 0, loc).emit(jump(IlJumpKind::Unconditional, tl, loc)).emit(IlOp::Label(l));
    stack_copies_are_appended(e2, fs, 0, loc);
    assert(e.lir_split(ts, tl, fs, fl, loc).out =~= e.out + fork_code(
        l,
        stack_copy_code(ts, loc),
        tl,
        stack_copy_code(fs, loc),
        fl,
        loc,
    ));
}

// Returns.

/// Stack code of a second return word pushes it on top of the first.
proof fn second_words_are_pushed(
    m: Machine,
    pool: Seq<u64>,
    e: Emit,
    c: LirV,
    lo: ValueId,
    hi: ValueId,
    loc: DebugLoc,
    words: Map<u32, int>,
    s: Frame,
)
    requires
        e.err is None,
        e.lir_second(c, lo, hi, loc).err is None,
        e.lir_second(c, lo, hi, loc).pool.is_prefix_of(pool),
        rebuilt(m, c, hi, words, s.slots, c.f.types.len()),
        rebuilt(m, c, hi, words, s.slots, c.f.types.len() + 1),
    ensures
        went_on(e, e.lir_second(c, lo, hi, loc)),
        run(m, pool, appended(e, e.lir_second(c, lo, hi, loc)), 0, s.push(words[lo.0])) == Some(
            s.push(words[lo.0]).push(words[hi.0]),
        ),
{
    let d = c.f.types.len();
    let x = s.push(words[lo.0]);
    let t = e.lir_second(c, lo, hi, loc);
    let pair = match c.f.def_inst(hi) {
        Some(InstV::Bin { lhs, .. }) => flag(c.tree, hi) && lhs == lo,
        _ => false,
    };
    if pair {
        let inst = c.f.def_inst(hi)->0;
        let rhs = inst->Bin_rhs;
        let op = stack_bin(inst->Bin_op, inst->Bin_ty);
        assert(inst.uses()[0] == lo && inst.uses()[1] == rhs);
        assert(rebuilt(m, c, inst.uses()[1], words, s.slots, d));
        let e1 = e.emit(IlOp::Dup { loc });
        let e2 = e1.lir_value(c, rhs, loc);
        let last = IlOp::Bin { op, loc };
        assert(t == e2.emit(last));
        assert(e2.err is None);
        assert(e1.err is None);
        stack_arithmetic_is_the_operation(m, inst->Bin_op, inst->Bin_ty, words[lo.0], words[rhs.0]);
        let y1 = x.push(words[lo.0]);
        let y2 = y1.push(words[rhs.0]);
        nothing_yet(m, pool, e, x);
        one_more_operation(m, pool, e, e, IlOp::Dup { loc }, x, x);
        rebuilt_values_are_pushed(m, pool, e1, c, rhs, loc, d, words, y1);
        going_on_twice(e, e1, e2);
        running_in_pieces(m, pool, appended(e, e1), appended(e1, e2), 0, x);
        one_more_operation(m, pool, e, e2, last, x, y2);
        assert(y2.less(2) =~= x);
    } else {
        assert(t == e.lir_value(c, hi, loc));
        rebuilt_values_are_pushed(m, pool, e, c, hi, loc, d, words, x);
    }
}

/// Stack code of a return leaves the words of the returned values on top of the stack, and returns
/// as many words as there are.
pub proof fn stack_returns_give_the_words(
    m: Machine,
    pool: Seq<u64>,
    e: Emit,
    c: LirV,
    lo: ValueId,
    hi: Option<ValueId>,
    loc: DebugLoc,
    words: Map<u32, int>,
    s: Frame,
)
    requires
        e.err is None,
        e.lir_return(c, Some(lo), hi, loc).err is None,
        e.lir_return(c, Some(lo), hi, loc).pool.is_prefix_of(pool),
        rebuilt(m, c, lo, words, s.slots, c.f.types.len()),
        hi matches Some(h) ==> rebuilt(m, c, h, words, s.slots, c.f.types.len()) && rebuilt(
            m,
            c,
            h,
            words,
            s.slots,
            c.f.types.len() + 1,
        ),
    ensures
        ({
            let t = e.lir_return(c, Some(lo), hi, loc);
            let code = appended(e, t);
            &&& went_on(e, t)
            &&& code.len() > 0
            &&& code.last() == (IlOp::Return {
                loc,
                ret_words: if hi is Some {
                    2
                } else {
                    1
                },
            })
            &&& run(m, pool, code.drop_last(), 0, s) == Some(
                match hi {
                    Some(h) => s.push(words[lo.0]).push(words[h.0]),
                    None => s.push(words[lo.0]),
                },
            )
        }),
{
    let d = c.f.types.len();
    let t = e.lir_return(c, Some(lo), hi, loc);
    let e1 = e.lir_value(c, lo, loc);
    let e2 = match hi {
        Some(h) => e1.lir_second(c, lo, h, loc),
        None => e1,
    };
    let last = IlOp::Return { loc, ret_words: ret_words(hi) };
    assert(t == e2.emit(last));
    assert(e2.err is None);
    assert(e1.err is None);
    let x = s.push(words[lo.0]);
    if let Some(h) = hi {
        second_words_are_pushed(m, pool, e1, c, lo, h, loc, words, s);
        prefixes_are_joined(e1.pool, e2.pool, pool);
    }
    rebuilt_values_are_pushed(m, pool, e, c, lo, loc, d, words, s);
    if hi is Some {
        going_on_twice(e, e1, e2);
        running_in_pieces(m, pool, appended(e, e1), appended(e1, e2), 0, s);
    }
    assert(e2.out =~= t.out.take(e2.out.len() as int));
    assert(e2.pool =~= t.pool.take(e2.pool.len() as int));
    going_on_twice(e, e2, t);
    assert(appended(e2, t) =~= seq![last]);
    assert(appended(e, t).drop_last() =~= appended(e, e2));
}

// Which values are rebuilt.

proof fn reading_counts(s: Seq<ValueId>, v: ValueId, k: nat)
    requires
        k <= s.len(),
        exists|i: int| 0 <= i < k && s[i] == v,
    ensures
        occurs(s, v, k) >= 1,
    decreases k,
{
    if k > 0 && s[k - 1] != v {
        let i = choose|i: int| 0 <= i < k && s[i] == v;
        assert(i < k - 1);
        reading_counts(s, v, (k - 1) as nat);
    }
}

proof fn one_reader_counts(insts: Seq<InstV>, v: ValueId, k: nat, i: int)
    requires
        0 <= i < k <= insts.len(),
        insts[i].uses().contains(v),
    ensures
        inst_reads(insts, v, k) >= 1,
    decreases k,
{
    if i == k - 1 {
        reading_counts(insts[i].uses(), v, insts[i].uses().len());
    } else {
        one_reader_counts(insts, v, (k - 1) as nat, i);
    }
}

proof fn two_readers_count(insts: Seq<InstV>, v: ValueId, k: nat, i: int, j: int)
    requires
        0 <= i < j < k <= insts.len(),
        insts[i].uses().contains(v),
        insts[j].uses().contains(v),
    ensures
        inst_reads(insts, v, k) >= 2,
    decreases k,
{
    if j == k - 1 {
        reading_counts(insts[j].uses(), v, insts[j].uses().len());
        one_reader_counts(insts, v, (k - 1) as nat, i);
    } else {
        two_readers_count(insts, v, (k - 1) as nat, i, j);
    }
}

proof fn reads_of_a_block_count(f: FuncV, v: ValueId, n: nat, b: int)
    requires
        0 <= b < n <= f.blocks.len(),
    ensures
        reads_below(f, v, n) >= block_reads(f.blocks[b], v),
    decreases n,
{
    if b < n - 1 {
        reads_of_a_block_count(f, v, (n - 1) as nat, b);
    }
}

proof fn reads_of_two_blocks_count(f: FuncV, v: ValueId, n: nat, a: int, b: int)
    requires
        0 <= a < b < n <= f.blocks.len(),
    ensures
        reads_below(f, v, n) >= block_reads(f.blocks[a], v) + block_reads(f.blocks[b], v),
    decreases n,
{
    if b < n - 1 {
        reads_of_two_blocks_count(f, v, (n - 1) as nat, a, b);
    } else {
        reads_of_a_block_count(f, v, (n - 1) as nat, a);
    }
}

/// A value that is rebuilt where it is read is read by one instruction only, so it is computed once
/// where it was computed once: no two instructions read it, and no instruction besides a terminator.
pub proof fn rebuilt_values_have_one_reader(f: FuncV, v: ValueId, a: int, i: int, b: int, j: int)
    requires
        in_tree(f, v),
        has_inst(f, a, i) && f.blocks[a].insts[i].uses().contains(v),
    ensures
        has_inst(f, b, j) && f.blocks[b].insts[j].uses().contains(v) ==> a == b && i == j,
        0 <= b < f.blocks.len() && f.blocks[b].term is Some ==> !f.blocks[b].term->0.uses().contains(v),
        !f.blocks[a].insts[i].phi(),
        !emit_lir::in_slot(f, v),
{
    let n = f.blocks.len();
    let ia = f.blocks[a].insts;
    one_reader_counts(ia, v, ia.len(), i);
    reads_of_a_block_count(f, v, n, a);
    if has_inst(f, b, j) && f.blocks[b].insts[j].uses().contains(v) {
        let ib = f.blocks[b].insts;
        one_reader_counts(ib, v, ib.len(), j);
        if a < b {
            reads_of_two_blocks_count(f, v, n, a, b);
        } else if b < a {
            reads_of_two_blocks_count(f, v, n, b, a);
        } else if i < j {
            two_readers_count(ia, v, ia.len(), i, j);
        } else if j < i {
            two_readers_count(ia, v, ia.len(), j, i);
        }
    }
    if 0 <= b < n && f.blocks[b].term is Some && f.blocks[b].term->0.uses().contains(v) {
        let us = f.blocks[b].term->0.uses();
        reading_counts(us, v, us.len());
        if a < b {
            reads_of_two_blocks_count(f, v, n, a, b);
        } else if b < a {
            reads_of_two_blocks_count(f, v, n, b, a);
        }
    }
}

/// Every value of the function can be found where it is read: it has a slot, it is rebuilt, or the
/// branch takes its compare over.
pub proof fn values_are_found(f: FuncV, v: ValueId)
    requires
        f.home(v) is Some || f.param(v.0 as int),
        !(f.def_inst(v) matches Some(InstV::Print { .. })),
    ensures
        emit_lir::in_slot(f, v) || in_tree(f, v) || f.is_fused(v),
        !(emit_lir::in_slot(f, v) && in_tree(f, v)),
{
}

} // verus!

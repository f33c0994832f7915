//! Lowered operations compute what stack code computes.
//!
//! While a block is lowered, the operand stack and the slots hold values. In a run of the code each
//! value has a word. Stack and slots of the run hold the words of those values, before and behind
//! every operation.
use super::builder::{bin_ty, chase, compare_ty, BuildV};
use super::eval::{agrees, bin_value, compare_holds, computes, const_value, inst_value};
use super::faithful::{lowered_arithmetic_is_the_instruction, lowered_comparisons_are_the_instruction};
use super::inst::{
    BlockId, InstV, LocalId, MirAllocKind, MirBinOp, MirCastKind, MirConst, MirGcKind, MirUnaryOp, ValueId,
};
use super::lower::{
    arithmetic, bound_block, comparison, float_op, native_id, HintsV, LowV, LowerErrV, Stacks, FLOAT_ONE,
};
use super::sameness::{way, Way};
use super::ty::MirTy;
use crate::ids::ascending_ids;
use crate::il::op::{Byte, IlOp, Instruction};
use crate::il::run::{after_jump, outcome, run, step, Frame};
use crate::il::sp::{byte_delta, op_delta};
use crate::words::{truth, wrap64, Machine};
use vstd::prelude::*;

verus! {

/// Stack and slots of the frame hold the words of the values that the lowered stack and the locals
/// of the block hold, and the words agree with the block's instructions.
pub open spec fn mirrors(m: Machine, l: LowV, env: Map<u32, int>, s: Frame) -> bool {
    let b = l.b;
    let n = b.f.types.len();
    let cur = b.cur().0 as int;
    &&& b.current is Some && cur < b.f.blocks.len() && b.defs.len() == b.f.blocks.len()
    &&& s.stack.len() == l.tos.len()
    &&& forall|i: int| 0 <= i < l.tos.len() ==> (#[trigger] l.tos[i]).0 < n && s.stack[i] == env[l.tos[i].0]
    &&& forall|k: u32| #[trigger]
        b.defs[cur].dom().contains(k) ==> b.defs[cur][k].0 < n && s.slots[k] == env[b.defs[cur][k].0]
    &&& forall|k: u32| #[trigger] b.subst.dom().contains(k) ==> k < n && b.subst[k].0 < n && env[k] == env[b.subst[k].0]
    &&& forall|i: int|
        0 <= i < b.f.blocks[cur].insts.len() ==> b.f.inst_indexed(#[trigger] b.f.blocks[cur].insts[i]) && agrees(
            m,
            b.f.types,
            b.f.blocks[cur].insts[i],
            env,
        )
}

/// A value and the value that stands for it have one word.
proof fn chased_values_have_the_word(subst: Map<u32, ValueId>, v: ValueId, fuel: nat, n: nat, env: Map<u32, int>)
    requires
        v.0 < n,
        forall|k: u32| #[trigger] subst.dom().contains(k) ==> k < n && subst[k].0 < n && env[k] == env[subst[k].0],
    ensures
        env[chase(subst, v, fuel).0] == env[v.0],
        chase(subst, v, fuel).0 < n,
    decreases fuel,
{
    if fuel > 0 && subst.dom().contains(v.0) && subst[v.0] != v {
        chased_values_have_the_word(subst, subst[v.0], (fuel - 1) as nat, n, env);
    }
}

proof fn resolved_values_have_the_word(m: Machine, l: LowV, env: Map<u32, int>, s: Frame, v: ValueId)
    requires
        mirrors(m, l, env, s),
        v.0 < l.b.f.types.len(),
    ensures
        env[l.b.resolve(v).0] == env[v.0],
        l.b.resolve(v).0 < l.b.f.types.len(),
{
    chased_values_have_the_word(l.b.subst, v, ascending_ids(l.b.subst.dom()).len(), l.b.f.types.len(), env);
}

/// An instruction that is placed gives the next value its word.
proof fn placed_instructions_agree(
    m: Machine,
    l: LowV,
    env: Map<u32, int>,
    s: Frame,
    ty: MirTy,
    inst: InstV,
    x: int,
)
    requires
        mirrors(m, l, env, s),
        l.b.f.types.len() < u32::MAX,
        l.b.place(ty, inst).1 is Ok,
        computes(inst),
        inst.dest() == l.b.next(),
        forall|u: int| 0 <= u < inst.uses().len() ==> (#[trigger] inst.uses()[u]).0 < l.b.f.types.len(),
        inst_value(m, l.b.f.types, inst, env) == Some(x),
    ensures
        l.b.place(ty, inst).1 == Ok::<ValueId, Seq<char>>(l.b.next()),
        mirrors(m, LowV { b: l.b.place(ty, inst).0, tos: l.tos }, env.insert(l.b.next().0, x), s),
        mirrors(
            m,
            LowV { b: l.b.place(ty, inst).0, tos: l.tos.push(l.b.next()) },
            env.insert(l.b.next().0, x),
            s.push(x),
        ),
        l.b.place(ty, inst).0.f.types == l.b.f.types.push(ty),
        l.b.place(ty, inst).0.subst == l.b.subst,
        l.b.place(ty, inst).0.defs == l.b.defs,
        l.b.place(ty, inst).0.current == l.b.current,
{
    let b = l.b;
    let t = b.place(ty, inst).0;
    let v = b.next().0;
    let n = b.f.types.len();
    let cur = b.cur().0 as int;
    let new = env.insert(v, x);
    let insts = b.f.blocks[cur].insts;
    assert(t.f.types =~= b.f.types.push(ty));
    assert(t.f.blocks[cur].insts =~= insts.push(inst));
    assert(inst.dests() =~= seq![inst.dest()]);
    assert forall|i: int| 0 <= i < t.f.blocks[cur].insts.len() implies t.f.inst_indexed(
        #[trigger] t.f.blocks[cur].insts[i],
    ) && agrees(m, t.f.types, t.f.blocks[cur].insts[i], new) by {
        let y = t.f.blocks[cur].insts[i];
        if i < insts.len() {
            assert(y == insts[i]);
            assert(b.f.inst_indexed(insts[i]));
            assert forall|k: int| 0 <= k < y.dests().len() implies (#[trigger] y.dests()[k]).0 < t.f.types.len() by {
                assert(y.dests()[k].0 < b.f.types.len());
            }
        } else {
            assert(y == inst);
        }
        assert forall|k: int| 0 <= k < y.uses().len() implies (#[trigger] y.uses()[k]).0 < n by {}
        same_value_among_more(m, b.f.types, y, ty, env, v, x);
    }
    let tos = l.tos.push(b.next());
    let f2 = s.push(x);
    assert forall|i: int| 0 <= i < tos.len() implies (#[trigger] tos[i]).0 < t.f.types.len() && f2.stack[i]
        == new[tos[i].0] by {
        if i < l.tos.len() {
            assert(tos[i] == l.tos[i]);
        }
    }
    assert forall|i: int| 0 <= i < l.tos.len() implies (#[trigger] l.tos[i]).0 < t.f.types.len() && s.stack[i]
        == new[l.tos[i].0] by {}
}

proof fn same_value_among_more(
    m: Machine,
    types: Seq<MirTy>,
    inst: InstV,
    ty: MirTy,
    env: Map<u32, int>,
    v: u32,
    x: int,
)
    requires
        v == types.len(),
        forall|u: int| 0 <= u < inst.uses().len() ==> (#[trigger] inst.uses()[u]).0 < types.len(),
    ensures
        inst_value(m, types.push(ty), inst, env.insert(v, x)) == inst_value(m, types, inst, env),
{
    let us = inst.uses();
    match inst {
        InstV::Bin { lhs, rhs, .. } => {
            assert(us[0] == lhs && us[1] == rhs);
        },
        InstV::Cmp { lhs, rhs, .. } => {
            assert(us[0] == lhs && us[1] == rhs);
        },
        InstV::Unary { src, .. } => {
            assert(us[0] == src);
        },
        InstV::Cast { src, .. } => {
            assert(us[0] == src);
        },
        _ => {},
    }
}

/// The instruction works on the type of its operands: 64-bit numbers, heap words, or floats.
pub open spec fn suits(inst: Instruction, ty: MirTy) -> bool {
    !(ty is I32) && !(ty is F32) && float_op(inst) == ty.float()
}

/// Arithmetic and comparisons give the word that the stack instruction gives.
proof fn applied_operations_agree(
    m: Machine,
    l: LowV,
    env: Map<u32, int>,
    s: Frame,
    inst: Instruction,
    lhs: ValueId,
    rhs: ValueId,
    x: int,
)
    requires
        mirrors(m, l, env, s),
        l.b.f.types.len() < u32::MAX,
        l.apply(inst, lhs, rhs) is Ok,
        lhs.0 < l.b.f.types.len() && rhs.0 < l.b.f.types.len(),
        suits(inst, l.b.ty(lhs)) && suits(inst, l.b.ty(rhs)),
        outcome(m, inst, env[lhs.0], env[rhs.0]) == Some(x),
    ensures
        mirrors(m, l.apply(inst, lhs, rhs)->Ok_0, env.insert(l.b.next().0, x), s.push(x)),
{
    resolved_values_have_the_word(m, l, env, s, lhs);
    resolved_values_have_the_word(m, l, env, s, rhs);
    let a = l.b.resolve(lhs);
    let b = l.b.resolve(rhs);
    let dest = l.b.next();
    match arithmetic(inst) {
        Some(op) => {
            let ty = bin_ty(op, l.b.ty(lhs), l.b.ty(rhs))->Ok_0;
            let new = InstV::Bin { dest, op, ty, lhs: a, rhs: b };
            assert(new.uses() =~= seq![a, b]);
            lowered_arithmetic_is_the_instruction(m, inst, env[lhs.0], env[rhs.0]);
            assert(bin_value(m, op, ty, env[a.0], env[b.0]) == Some(x));
            placed_instructions_agree(m, l, env, s, ty, new, x);
        },
        None => {
            let op = comparison(inst)->0;
            let ty = compare_ty(op, l.b.ty(lhs), l.b.ty(rhs))->Ok_0;
            let new = InstV::Cmp { dest, op, ty, lhs: a, rhs: b };
            assert(new.uses() =~= seq![a, b]);
            lowered_comparisons_are_the_instruction(m, inst, env[lhs.0], env[rhs.0]);
            assert(truth(compare_holds(m, op, ty, env[a.0], env[b.0])) == x);
            placed_instructions_agree(m, l, env, s, MirTy::Bool, new, x);
        },
    }
}

// One operation.

/// Slots that the operation reads.
pub open spec fn slots_read(op: IlOp) -> Seq<u32> {
    match op {
        IlOp::Load { slot, .. } => seq![slot],
        IlOp::BinSlotImm { slot, .. } => seq![slot as u32],
        IlOp::BinSlotSlot { a, b, .. } => seq![a as u32, b as u32],
        IlOp::Byte { byte, .. } => if byte.inst is INC || byte.inst is DEC {
            seq![byte.inc_dec().0]
        } else {
            Seq::empty()
        },
        _ => Seq::empty(),
    }
}

/// The value that a local has in the block.
pub open spec fn local_value(l: LowV, slot: u32) -> ValueId {
    l.b.resolve(l.b.defs[l.b.cur().0 as int][slot])
}

/// The code is typed: instructions work on the types of their operands, and numbers and floats have
/// 64 bits.
pub open spec fn fitting(l: LowV, op: IlOp, h: HintsV) -> bool {
    &&& h.default_int is I64 && h.default_float is F64
    &&& match op {
        IlOp::Load { slot, .. } => h.field_of(slot) is None,
        IlOp::StorePop { slot, .. } => h.field_of(slot) is None,
        IlOp::ConstPool { idx, .. } => h.pool_const(idx) matches Ok(c) && (c is I64 || c is F64),
        IlOp::Bin { op: inst, .. } => l.tos.len() >= 2 ==> suits(inst, l.b.ty(l.second())) && suits(
            inst,
            l.b.ty(l.top()),
        ),
        IlOp::BinSlotImm { op: inst, slot, .. } => suits(inst, l.b.ty(local_value(l, slot as u32))) && !float_op(inst),
        IlOp::BinSlotSlot { op: inst, a, b, .. } => suits(inst, l.b.ty(local_value(l, a as u32))) && suits(
            inst,
            l.b.ty(local_value(l, b as u32)),
        ),
        IlOp::Byte { byte, .. } => {
            let ty = l.b.ty(l.top());
            &&& byte.inst is NEG && l.tos.len() > 0 ==> ty is I64
            &&& byte.inst is NEGF && l.tos.len() > 0 ==> ty is F64
            &&& byte.inst is INC || byte.inst is DEC ==> byte.arg is IncDec && l.b.ty(
                local_value(l, byte.inc_dec().0),
            ) == (if byte.inc_dec().2 {
                MirTy::F64
            } else {
                MirTy::I64
            })
        },
        _ => true,
    }
}

proof fn local_values_have_the_word(m: Machine, l: LowV, env: Map<u32, int>, s: Frame, slot: u32, ty: MirTy)
    requires
        mirrors(m, l, env, s),
        l.b.defs[l.b.cur().0 as int].dom().contains(slot),
    ensures
        l.local(slot, ty) == Ok::<(BuildV, ValueId), LowerErrV>((l.b, local_value(l, slot))),
        env[local_value(l, slot).0] == s.slot(slot),
        local_value(l, slot).0 < l.b.f.types.len(),
{
    let v = l.b.defs[l.b.cur().0 as int][slot];
    resolved_values_have_the_word(m, l, env, s, v);
}

/// Fewer values on the stack.
proof fn less_mirrors(m: Machine, l: LowV, env: Map<u32, int>, s: Frame, k: nat)
    requires
        mirrors(m, l, env, s),
        k <= l.tos.len(),
    ensures
        mirrors(m, l.less(k), env, s.less(k as int)),
{
    let t = l.less(k);
    let f = s.less(k as int);
    assert forall|i: int| 0 <= i < t.tos.len() implies (#[trigger] t.tos[i]).0 < t.b.f.types.len() && f.stack[i]
        == env[t.tos[i].0] by {
        assert(t.tos[i] == l.tos[i]);
        assert(f.stack[i] == s.stack[i]);
    }
}

/// A local that is set.
proof fn writing_mirrors(m: Machine, l: LowV, env: Map<u32, int>, s: Frame, slot: u32, v: ValueId)
    requires
        mirrors(m, l, env, s),
        v.0 < l.b.f.types.len(),
    ensures
        l.define(slot, v) is Ok,
        mirrors(m, l.define(slot, v)->Ok_0, env, s.put(slot, env[v.0])),
{
    let t = l.define(slot, v)->Ok_0;
    let cur = l.b.cur().0 as int;
    assert(t.b == l.b.write(LocalId(slot), l.b.cur(), v));
    assert(t.b.defs[cur] == l.b.defs[cur].insert(slot, v));
}

proof fn pool_words_are_constants(h: HintsV, idx: u32)
    ensures
        h.pool_const(idx) matches Ok(c) ==> idx < h.pool.len() && (c is I64 || c is F64 ==> const_value(c) == wrap64(
            h.pool[idx as int] as int,
        )),
{
    if idx < h.pool.len() {
        let bits = h.pool[idx as int];
        assert(bits < 0x8000_0000_0000_0000 ==> (bits as i64) == bits) by (bit_vector);
        assert(bits >= 0x8000_0000_0000_0000 ==> (bits as i64) == bits - 0x1_0000_0000_0000_0000) by (bit_vector);
    }
}

/// Reading a slot, or the top of the stack again.
proof fn read_values_mirror(
    m: Machine,
    l: LowV,
    h: HintsV,
    op: IlOp,
    env: Map<u32, int>,
    s: Frame,
) -> (new: Map<u32, int>)
    requires
        mirrors(m, l, env, s),
        l.b.f.types.len() + 2 < u32::MAX,
        forall|k: int|
            0 <= k < slots_read(op).len() ==> l.b.defs[l.b.cur().0 as int].dom().contains(
                #[trigger] slots_read(op)[k],
            ),
        fitting(l, op, h),
        l.step(op, h) is Ok,
        step(m, h.pool, op, s) is Some,
        op is Load || op is Dup,
    ensures
        mirrors(m, l.step(op, h)->Ok_0, new, step(m, h.pool, op, s)->0),
        forall|k: u32| k < l.b.f.types.len() ==> #[trigger] new[k] == env[k],
{
    let t = l.step(op, h)->Ok_0;
    let u = step(m, h.pool, op, s)->0;
    let n = l.b.next();
    let dest = n.0;
    let k = l.tos.len();
    if k >= 1 {
        assert(l.tos[k - 1].0 < l.b.f.types.len());
        resolved_values_have_the_word(m, l, env, s, l.top());
        less_mirrors(m, l, env, s, 1);
        assert(s.below(0) == env[l.top().0]);
    }
    if op is Load {
        let slot = op->Load_slot;
        assert(slots_read(op)[0] == slot);
        local_values_have_the_word(m, l, env, s, slot, h.slot(slot));
    }
    assert forall|i: int| 0 <= i < t.tos.len() implies (#[trigger] t.tos[i]).0 < t.b.f.types.len() && u.stack[i]
        == env[t.tos[i].0] by {
        if i < l.tos.len() {
            assert(t.tos[i] == l.tos[i]);
        }
    }
    env
}

/// Pushing a constant.
proof fn constants_mirror(
    m: Machine,
    l: LowV,
    h: HintsV,
    op: IlOp,
    env: Map<u32, int>,
    s: Frame,
) -> (new: Map<u32, int>)
    requires
        mirrors(m, l, env, s),
        l.b.f.types.len() + 2 < u32::MAX,
        forall|k: int|
            0 <= k < slots_read(op).len() ==> l.b.defs[l.b.cur().0 as int].dom().contains(
                #[trigger] slots_read(op)[k],
            ),
        fitting(l, op, h),
        l.step(op, h) is Ok,
        step(m, h.pool, op, s) is Some,
        op is Const || op is ConstPool,
    ensures
        mirrors(m, l.step(op, h)->Ok_0, new, step(m, h.pool, op, s)->0),
        forall|k: u32| k < l.b.f.types.len() ==> #[trigger] new[k] == env[k],
{
    let t = l.step(op, h)->Ok_0;
    let u = step(m, h.pool, op, s)->0;
    let n = l.b.next();
    let dest = n.0;
    let k = l.tos.len();
    if op is Const {
        let imm = op->Const_imm;
        let c = MirConst::I64(imm as i64);
        let inst = InstV::Const { dest: n, c };
        placed_instructions_agree(m, l, env, s, c.const_ty(), inst, imm as int);
        env.insert(dest, imm as int)
    } else {
        let idx = op->ConstPool_idx;
        let c = h.pool_const(idx)->Ok_0;
        let inst = InstV::Const { dest: n, c };
        pool_words_are_constants(h, idx);
        placed_instructions_agree(m, l, env, s, c.const_ty(), inst, const_value(c));
        env.insert(dest, const_value(c))
    }
}

/// Operations on two values of the stack.
proof fn operations_mirror(
    m: Machine,
    l: LowV,
    h: HintsV,
    op: IlOp,
    env: Map<u32, int>,
    s: Frame,
) -> (new: Map<u32, int>)
    requires
        mirrors(m, l, env, s),
        l.b.f.types.len() + 2 < u32::MAX,
        forall|k: int|
            0 <= k < slots_read(op).len() ==> l.b.defs[l.b.cur().0 as int].dom().contains(
                #[trigger] slots_read(op)[k],
            ),
        fitting(l, op, h),
        l.step(op, h) is Ok,
        step(m, h.pool, op, s) is Some,
        op is Bin,
    ensures
        mirrors(m, l.step(op, h)->Ok_0, new, step(m, h.pool, op, s)->0),
        forall|k: u32| k < l.b.f.types.len() ==> #[trigger] new[k] == env[k],
{
    let t = l.step(op, h)->Ok_0;
    let u = step(m, h.pool, op, s)->0;
    let n = l.b.next();
    let dest = n.0;
    let k = l.tos.len();
    if k >= 1 {
        assert(l.tos[k - 1].0 < l.b.f.types.len());
        resolved_values_have_the_word(m, l, env, s, l.top());
        less_mirrors(m, l, env, s, 1);
        assert(s.below(0) == env[l.top().0]);
    }
    let inst = op->Bin_op;
    assert(l.tos[k - 2].0 < l.b.f.types.len());
    assert(s.below(1) == env[l.second().0]);
    let x = outcome(m, inst, s.below(1), s.below(0))->0;
    less_mirrors(m, l, env, s, 2);
    applied_operations_agree(m, l.less(2), env, s.less(2), inst, l.second(), l.top(), x);
    env.insert(dest, x)

}

/// Operations on a slot and an immediate.
proof fn immediates_mirror(
    m: Machine,
    l: LowV,
    h: HintsV,
    op: IlOp,
    env: Map<u32, int>,
    s: Frame,
) -> (new: Map<u32, int>)
    requires
        mirrors(m, l, env, s),
        l.b.f.types.len() + 2 < u32::MAX,
        forall|k: int|
            0 <= k < slots_read(op).len() ==> l.b.defs[l.b.cur().0 as int].dom().contains(
                #[trigger] slots_read(op)[k],
            ),
        fitting(l, op, h),
        l.step(op, h) is Ok,
        step(m, h.pool, op, s) is Some,
        op is BinSlotImm,
    ensures
        mirrors(m, l.step(op, h)->Ok_0, new, step(m, h.pool, op, s)->0),
        forall|k: u32| k < l.b.f.types.len() ==> #[trigger] new[k] == env[k],
{
    let t = l.step(op, h)->Ok_0;
    let u = step(m, h.pool, op, s)->0;
    let n = l.b.next();
    let dest = n.0;
    let k = l.tos.len();
    let inst = op->BinSlotImm_op;
    let slot = op->BinSlotImm_slot;
    let imm = op->BinSlotImm_imm;
    assert(slots_read(op)[0] == slot as u32);
    local_values_have_the_word(m, l, env, s, slot as u32, h.default_int);
    let v = local_value(l, slot as u32);
    let c = MirConst::I64(imm as i64);
    let k = InstV::Const { dest: n, c };
    placed_instructions_agree(m, l, env, s, c.const_ty(), k, imm as int);
    let mid = LowV { b: l.b.ins_const(c).0, ..l };
    let e1 = env.insert(dest, imm as int);
    let x = outcome(m, inst, s.slot(slot as u32), imm as int)->0;
    resolved_values_have_the_word(m, mid, e1, s, v);
    resolved_values_have_the_word(m, l, env, s, v);
    fresh_values_stand_for_themselves(m, l, env, s, n);
    assert(mid.b.resolve(v) == l.b.resolve(v));
    assert(mid.b.ty(v) == l.b.ty(v));
    assert(mid.b.resolve(n) == n && mid.b.ty(n) is I64);
    applied_operations_agree(m, mid, e1, s, inst, v, n, x);
    e1.insert(mid.b.next().0, x)

}

/// Operations on two slots.
proof fn slots_mirror(
    m: Machine,
    l: LowV,
    h: HintsV,
    op: IlOp,
    env: Map<u32, int>,
    s: Frame,
) -> (new: Map<u32, int>)
    requires
        mirrors(m, l, env, s),
        l.b.f.types.len() + 2 < u32::MAX,
        forall|k: int|
            0 <= k < slots_read(op).len() ==> l.b.defs[l.b.cur().0 as int].dom().contains(
                #[trigger] slots_read(op)[k],
            ),
        fitting(l, op, h),
        l.step(op, h) is Ok,
        step(m, h.pool, op, s) is Some,
        op is BinSlotSlot,
    ensures
        mirrors(m, l.step(op, h)->Ok_0, new, step(m, h.pool, op, s)->0),
        forall|k: u32| k < l.b.f.types.len() ==> #[trigger] new[k] == env[k],
{
    let t = l.step(op, h)->Ok_0;
    let u = step(m, h.pool, op, s)->0;
    let n = l.b.next();
    let dest = n.0;
    let k = l.tos.len();
    let inst = op->BinSlotSlot_op;
    let a = op->BinSlotSlot_a;
    let b = op->BinSlotSlot_b;
    assert(slots_read(op)[0] == a as u32 && slots_read(op)[1] == b as u32);
    let ty = if float_op(inst) {
        h.default_float
    } else {
        h.default_int
    };
    local_values_have_the_word(m, l, env, s, a as u32, ty);
    local_values_have_the_word(m, l, env, s, b as u32, ty);
    let x = outcome(m, inst, s.slot(a as u32), s.slot(b as u32))->0;
    assert(LowV { b: l.b, ..l } == l);
    applied_operations_agree(m, l, env, s, inst, local_value(l, a as u32), local_value(l, b as u32), x);
    env.insert(dest, x)

}

/// Operations on the top of the stack.
proof fn single_values_mirror(
    m: Machine,
    l: LowV,
    h: HintsV,
    op: IlOp,
    env: Map<u32, int>,
    s: Frame,
) -> (new: Map<u32, int>)
    requires
        mirrors(m, l, env, s),
        l.b.f.types.len() + 2 < u32::MAX,
        forall|k: int|
            0 <= k < slots_read(op).len() ==> l.b.defs[l.b.cur().0 as int].dom().contains(
                #[trigger] slots_read(op)[k],
            ),
        fitting(l, op, h),
        l.step(op, h) is Ok,
        step(m, h.pool, op, s) is Some,
        op is LogNot || op is Byte,
    ensures
        mirrors(m, l.step(op, h)->Ok_0, new, step(m, h.pool, op, s)->0),
        forall|k: u32| k < l.b.f.types.len() ==> #[trigger] new[k] == env[k],
{
    let t = l.step(op, h)->Ok_0;
    let u = step(m, h.pool, op, s)->0;
    let n = l.b.next();
    let dest = n.0;
    let k = l.tos.len();
    if k >= 1 {
        assert(l.tos[k - 1].0 < l.b.f.types.len());
        resolved_values_have_the_word(m, l, env, s, l.top());
        less_mirrors(m, l, env, s, 1);
        assert(s.below(0) == env[l.top().0]);
    }
    if op is LogNot {
        let x = truth(s.below(0) == 0);
        let inst = InstV::Unary { dest: n, op: MirUnaryOp::Not, src: l.b.resolve(l.top()) };
        assert(inst.uses() =~= seq![l.b.resolve(l.top())]);
        placed_instructions_agree(m, l.less(1), env, s.less(1), MirTy::Bool, inst, x);
        env.insert(dest, x)
    } else {
        let byte = op->byte;
        let src = l.b.resolve(l.top());
        if byte.inst is INC || byte.inst is DEC {
            assert(slots_read(op)[0] == byte.inc_dec().0);
            counted_slots_mirror(m, l, h, op, env, s)
        } else if byte.inst is CastIntToFloat {
            let x = (m.wide.of_number)(s.below(0));
            let inst = InstV::Cast { dest: n, kind: MirCastKind::IntToFloat, to: h.default_float, src };
            assert(inst.uses() =~= seq![src]);
            placed_instructions_agree(m, l.less(1), env, s.less(1), h.default_float, inst, x);
            env.insert(dest, x)
        } else if byte.inst is NEG || byte.inst is NEGF {
            let inst = InstV::Unary { dest: n, op: MirUnaryOp::Neg, src };
            let x = u.below(0);
            assert(inst.uses() =~= seq![src]);
            placed_instructions_agree(m, l.less(1), env, s.less(1), l.b.ty(l.top()), inst, x);
            env.insert(dest, x)
        } else {
            let x = truth(s.below(0) == 0);
            let inst = InstV::Unary { dest: n, op: MirUnaryOp::Not, src };
            assert(inst.uses() =~= seq![src]);
            placed_instructions_agree(m, l.less(1), env, s.less(1), MirTy::Bool, inst, x);
            env.insert(dest, x)
        }
    }
}

/// Lowering one operation: where stack and slots of a run mirrored the values of the lowered state,
/// the run's next frame mirrors the next state, with words for the values that the operation adds.
pub proof fn lowered_operations_mirror_the_run(
    m: Machine,
    l: LowV,
    h: HintsV,
    op: IlOp,
    env: Map<u32, int>,
    s: Frame,
) -> (new: Map<u32, int>)
    requires
        mirrors(m, l, env, s),
        l.b.f.types.len() + 2 < u32::MAX,
        forall|k: int|
            0 <= k < slots_read(op).len() ==> l.b.defs[l.b.cur().0 as int].dom().contains(
                #[trigger] slots_read(op)[k],
            ),
        fitting(l, op, h),
        l.step(op, h) is Ok,
        step(m, h.pool, op, s) is Some,
    ensures
        mirrors(m, l.step(op, h)->Ok_0, new, step(m, h.pool, op, s)->0),
        forall|k: u32| k < l.b.f.types.len() ==> #[trigger] new[k] == env[k],
{
    match op {
        IlOp::Load { .. } | IlOp::Dup { .. } => read_values_mirror(m, l, h, op, env, s),
        IlOp::Const { .. } | IlOp::ConstPool { .. } => constants_mirror(m, l, h, op, env, s),
        IlOp::Bin { .. } => operations_mirror(m, l, h, op, env, s),
        IlOp::BinSlotImm { .. } => immediates_mirror(m, l, h, op, env, s),
        IlOp::BinSlotSlot { .. } => slots_mirror(m, l, h, op, env, s),
        IlOp::LogNot { .. } | IlOp::Byte { .. } => single_values_mirror(m, l, h, op, env, s),
        IlOp::StorePop { slot, .. } => {
            let k = l.tos.len();
            assert(l.tos[k - 1].0 < l.b.f.types.len());
            less_mirrors(m, l, env, s, 1);
            writing_mirrors(m, l.less(1), env, s.less(1), slot, l.top());
            env
        },
        IlOp::Pop { .. } => {
            less_mirrors(m, l, env, s, 1);
            env
        },
        _ => env,
    }
}

/// The next value stands for itself.
proof fn fresh_values_stand_for_themselves(m: Machine, l: LowV, env: Map<u32, int>, s: Frame, v: ValueId)
    requires
        mirrors(m, l, env, s),
        v.0 == l.b.f.types.len(),
    ensures
        l.b.resolve(v) == v,
{
    assert(!l.b.subst.dom().contains(v.0));
}

/// Counting a slot up or down.
proof fn counted_slots_mirror(m: Machine, l: LowV, h: HintsV, op: IlOp, env: Map<u32, int>, s: Frame) -> (new: Map<
    u32,
    int,
>)
    requires
        mirrors(m, l, env, s),
        l.b.f.types.len() + 2 < u32::MAX,
        op is Byte && (op->byte.inst is INC || op->byte.inst is DEC),
        l.b.defs[l.b.cur().0 as int].dom().contains(op->byte.inc_dec().0),
        fitting(l, op, h),
        l.step(op, h) is Ok,
    ensures
        mirrors(m, l.step(op, h)->Ok_0, new, step(m, h.pool, op, s)->0),
        forall|k: u32| k < l.b.f.types.len() ==> #[trigger] new[k] == env[k],
{
    let byte = op->byte;
    let (slot, prefix, float) = byte.inc_dec();
    let t = l.step(op, h)->Ok_0;
    let n = l.b.next();
    let ty = if float {
        MirTy::F64
    } else {
        MirTy::I64
    };
    let c = if float {
        MirConst::F64(FLOAT_ONE)
    } else {
        MirConst::I64(1)
    };
    let one = const_value(c);
    let act = if byte.inst is DEC {
        MirBinOp::Sub
    } else {
        MirBinOp::Add
    };
    local_values_have_the_word(m, l, env, s, slot, ty);
    let v = local_value(l, slot);
    placed_instructions_agree(m, l, env, s, c.const_ty(), InstV::Const { dest: n, c }, one);
    let mid = LowV { b: l.b.ins_const(c).0, ..l };
    let e1 = env.insert(n.0, one);
    resolved_values_have_the_word(m, mid, e1, s, v);
    resolved_values_have_the_word(m, l, env, s, v);
    fresh_values_stand_for_themselves(m, l, env, s, n);
    assert(mid.b.resolve(v) == l.b.resolve(v));
    assert(mid.b.ty(v) == l.b.ty(v));
    assert(mid.b.resolve(n) == n && mid.b.ty(n) == ty);
    let a = mid.b.resolve(v);
    let dest = mid.b.next();
    let inst = InstV::Bin { dest, op: act, ty, lhs: a, rhs: n };
    assert(inst.uses() =~= seq![a, n]);
    let x = bin_value(m, act, ty, e1[a.0], one)->0;
    assert(bin_ty(act, mid.b.ty(v), mid.b.ty(n)) == Ok::<MirTy, Seq<char>>(ty));
    placed_instructions_agree(m, mid, e1, s, ty, inst, x);
    let e2 = e1.insert(dest.0, x);
    let last = LowV { b: mid.b.ins_binop(act, v, n).0, ..l };
    writing_mirrors(m, last, e2, s, slot, dest);
    e2
}

// Code of a block.

/// All operations from `i` to `end` are typed and read slots that the block knows.
pub open spec fn suited(l: LowV, ops: Seq<IlOp>, i: nat, end: nat, h: HintsV) -> bool
    decreases end - i,
{
    i < end ==> {
        &&& forall|k: int|
            0 <= k < slots_read(ops[i as int]).len() ==> l.b.defs[l.b.cur().0 as int].dom().contains(
                #[trigger] slots_read(ops[i as int])[k],
            )
        &&& fitting(l, ops[i as int], h)
        &&& l.b.f.types.len() + 2 < u32::MAX
        &&& l.step(ops[i as int], h) matches Ok(t) ==> suited(t, ops, i + 1, end, h)
    }
}

/// Lowering the operations of a block: the frame behind their run mirrors the state behind their
/// lowering.
pub proof fn lowered_code_mirrors_the_run(
    m: Machine,
    l: LowV,
    ops: Seq<IlOp>,
    i: nat,
    end: nat,
    h: HintsV,
    env: Map<u32, int>,
    s: Frame,
) -> (new: Map<u32, int>)
    requires
        mirrors(m, l, env, s),
        i <= end <= ops.len(),
        suited(l, ops, i, end, h),
        l.steps(ops, i, end, h) is Ok,
        run(m, h.pool, ops.take(end as int), i as int, s) is Some,
    ensures
        mirrors(m, l.steps(ops, i, end, h)->Ok_0, new, run(m, h.pool, ops.take(end as int), i as int, s)->0),
    decreases end - i,
{
    if i >= end {
        env
    } else {
        let op = ops[i as int];
        assert(ops.take(end as int)[i as int] == op);
        let t = l.step(op, h)->Ok_0;
        let u = step(m, h.pool, op, s)->0;
        let mid = lowered_operations_mirror_the_run(m, l, h, op, env, s);
        lowered_code_mirrors_the_run(m, t, ops, i + 1, end, h, mid, u)
    }
}

/// The end of a lowered block goes where the stack code goes from the frame: a jump that is taken
/// to the block of its target, one that is not to the next block, and a return back with the words
/// on top of the stack.
pub proof fn lowered_ends_go_the_same_way(
    m: Machine,
    l: LowV,
    last: IlOp,
    ops: Seq<IlOp>,
    ranges: Seq<(nat, nat)>,
    next: Option<BlockId>,
    h: HintsV,
    edges: Map<u32, Stacks>,
    env: Map<u32, int>,
    s: Frame,
    tags: spec_fn(int) -> int,
)
    requires
        mirrors(m, l, env, s),
        l.finish_block(last, ops, ranges, next, l.b.cur(), h, edges) is Ok,
        last matches IlOp::Jump { kind, .. } ==> !(kind is JumpIfMatch),
    ensures
        ({
            let t = (l.finish_block(last, ops, ranges, next, l.b.cur(), h, edges)->Ok_0).0;
            let went = way(t.b.f.blocks[l.b.cur().0 as int].term, tags, env);
            match last {
                IlOp::Jump { kind, target, .. } => match after_jump(kind, s) {
                    Some((taken, u)) => {
                        &&& went == Way::To(
                            if taken {
                                bound_block(ops, ranges, target, ranges.len())->0
                            } else {
                                next->0
                            },
                        )
                        &&& t.tos.len() == u.stack.len()
                        &&& forall|i: int| 0 <= i < t.tos.len() ==> u.stack[i] == env[(#[trigger] t.tos[i]).0]
                    },
                    None => false,
                },
                IlOp::Return { ret_words, .. } => if ret_words >= 2 {
                    went == Way::Back(Some(s.below(1)), Some(s.below(0)))
                } else if s.stack.len() > 0 {
                    went == Way::Back(Some(s.below(0)), None)
                } else {
                    went == Way::Back(None, None)
                },
                IlOp::Halt { .. } => went is Back,
                _ => next matches Some(b) ==> went == Way::To(b),
            }
        }),
{
    let k = l.tos.len();
    if k >= 1 {
        assert(l.tos[k - 1].0 < l.b.f.types.len());
        assert(s.below(0) == env[l.top().0]);
        resolved_values_have_the_word(m, l, env, s, l.top());
        less_mirrors(m, l, env, s, 1);
    }
    if k >= 2 {
        assert(l.tos[k - 2].0 < l.b.f.types.len());
        assert(s.below(1) == env[l.second().0]);
        resolved_values_have_the_word(m, l, env, s, l.second());
    }
}

// Heights.

proof fn pushing_raises(l: LowV, r: (BuildV, Result<ValueId, Seq<char>>))
    ensures
        l.pushed(r) matches Ok(t) ==> t.tos.len() == l.tos.len() + 1,
        l.kept(r) matches Ok(t) ==> t.tos.len() == l.tos.len(),
{
}

proof fn edges_raise(l: LowV, r: (BuildV, Result<ValueId, Seq<char>>))
    ensures
        l.edged(r) matches Ok(t) ==> t.tos.len() == l.tos.len() + 1,
{
    if let Ok(v) = r.1 {
        pushing_raises(l, r.0.ins_gc_barrier(MirGcKind::Safepoint, seq![v]));
    }
}

proof fn operations_raise(l: LowV, inst: Instruction, lhs: ValueId, rhs: ValueId)
    ensures
        l.apply(inst, lhs, rhs) matches Ok(t) ==> t.tos.len() == l.tos.len() + 1,
{
    if let Some(op) = arithmetic(inst) {
        pushing_raises(l, l.b.ins_binop(op, lhs, rhs));
    } else if let Some(op) = comparison(inst) {
        pushing_raises(l, l.b.ins_compare(op, lhs, rhs));
    }
}

/// Lowering a byte-level instruction changes the height as the instruction does.
#[verifier::spinoff_prover]
#[verifier::rlimit(60)]
proof fn lowering_bytes_changes_the_height(l: LowV, h: HintsV, byte: Byte)
    requires
        l.byte(byte, h) is Ok,
        byte_delta(byte) is Some,
        !(byte.inst is DenseMake),
        l.tos.len() < i32::MAX,
    ensures
        (l.byte(byte, h)->Ok_0).tos.len() == l.tos.len() + byte_delta(byte)->0,
{
    let inst = byte.inst;
    let s = l.less(1);
    if inst is INC || inst is DEC {
    } else if inst is CastIntToFloat {
        pushing_raises(s, s.b.ins_cast(MirCastKind::IntToFloat, h.default_float, l.top()));
    } else if inst is NEGF || inst is NEG {
        pushing_raises(s, s.b.ins_neg(l.top()));
    } else if inst is NOT {
        pushing_raises(s, s.b.ins_not(l.top()));
    } else if inst is FORMAT || inst is STRINGIFY {
        if inst is STRINGIFY {
            edges_raise(s, s.b.ins_stringify(l.top()));
        } else {
            let n = byte.word() as nat;
            let t = l.less(n + 1);
            edges_raise(t, t.b.ins_format(l.tos[l.tos.len() - n - 1], l.args(n)));
        }
    } else if inst is ArrayLen {
        pushing_raises(s, s.b.ins_array_len(l.top()));
    } else if inst is StoreIndex || inst is StoreIndexUnchecked {
        let t = l.less(3);
        pushing_raises(t, t.b.ins_store_index(l.third(), l.second(), l.top(), inst is StoreIndexUnchecked));
    } else if inst is ArrayPush {
        let t = l.less(2);
        edges_raise(t, t.b.ins_array_push(l.second(), l.top()));
    } else if inst is INIT || inst is InitTyped {
        let (type_id, nfields) = if inst is InitTyped {
            byte.object()
        } else {
            (0u32, 0u32)
        };
        edges_raise(l, l.b.ins_alloc(MirAllocKind::Object { type_id, nfields }, Seq::empty()));
    }
}

/// Lowering an operation changes the height of the lowered stack as the operation changes the
/// height of the operand stack. Objects made in numbered slots are the exception: their value is
/// pushed when it is lowered.
#[verifier::spinoff_prover]
#[verifier::rlimit(60)]
pub proof fn lowering_changes_the_height_by_the_delta(l: LowV, h: HintsV, op: IlOp)
    requires
        l.step(op, h) is Ok,
        op_delta(op) is Some,
        op matches IlOp::Byte { byte, .. } ==> !(byte.inst is DenseMake),
        l.tos.len() < i32::MAX,
    ensures
        (l.step(op, h)->Ok_0).tos.len() == l.tos.len() + op_delta(op)->0,
{
    match op {
        IlOp::Byte { byte, .. } => lowering_bytes_changes_the_height(l, h, byte),
        IlOp::Load { slot, .. } => {
            let r = l.local(slot, h.slot(slot))->Ok_0;
            if let Some(p) = h.field_of(slot) {
                pushing_raises(l, r.0.ins_field_load(r.1, p.0, p.1));
            }
        },
        IlOp::StorePop { slot, .. } => {
            let s = l.less(1);
            if let Some(p) = h.field_of(slot) {
                pushing_raises(s, s.b.ins_field_store(l.top(), p.0, p.1));
            }
        },
        IlOp::Const { imm, .. } => pushing_raises(
            l,
            l.b.ins_const(
                if h.default_int is I32 {
                    MirConst::I32(imm)
                } else {
                    MirConst::I64(imm as i64)
                },
            ),
        ),
        IlOp::ConstPool { idx, .. } => pushing_raises(l, l.b.ins_const(h.pool_const(idx)->Ok_0)),
        IlOp::LogNot { .. } => pushing_raises(l.less(1), l.b.ins_not(l.top())),
        IlOp::Bin { op: inst, .. } => operations_raise(l.less(2), inst, l.second(), l.top()),
        IlOp::BinSlotImm { op: inst, slot, imm, .. } => {
            let r = l.local(slot as u32, if float_op(inst) { h.default_float } else { h.default_int })->Ok_0;
            let c = if h.default_int is I32 {
                MirConst::I32(imm as i32)
            } else {
                MirConst::I64(imm as i64)
            };
            let c2 = if h.default_float is I32 {
                MirConst::I32(imm as i32)
            } else {
                MirConst::I64(imm as i64)
            };
            let k = r.0.ins_const(if float_op(inst) { c2 } else { c });
            operations_raise(LowV { b: k.0, ..l }, inst, r.1, k.1->Ok_0);
        },
        IlOp::BinSlotSlot { op: inst, a, b, .. } => {
            let ty = if float_op(inst) { h.default_float } else { h.default_int };
            let r = l.local(a as u32, ty)->Ok_0;
            let q = LowV { b: r.0, ..l }.local(b as u32, ty)->Ok_0;
            operations_raise(LowV { b: q.0, ..l }, inst, r.1, q.1);
        },
        IlOp::HostInvoke { arity, .. } => {
            let s = l.less(arity as nat + 1);
            let id = native_id(l.b.f, l.tos[l.tos.len() - arity - 1]);
            if id is Some {
                pushing_raises(s, s.b.ins_host_invoke(id->0, l.args(arity as nat)));
            }
        },
        IlOp::MakeTuple { arity, .. } => {
            let s = l.less(arity as nat);
            edges_raise(s, s.b.ins_alloc(MirAllocKind::Tuple, l.args(arity as nat)));
        },
        IlOp::MakeArray { arity, .. } => {
            let s = l.less(arity as nat);
            edges_raise(s, s.b.ins_alloc(MirAllocKind::Array, l.args(arity as nat)));
        },
        IlOp::MakeEnum { tag, arity, .. } => {
            let s = l.less(arity as nat);
            edges_raise(s, s.b.ins_alloc(MirAllocKind::Enum { tag: tag as u32 }, l.args(arity as nat)));
        },
        IlOp::Index { .. } => {
            let s = l.less(2);
            pushing_raises(s, s.b.ins_index(l.second(), l.top(), h.default_int, false));
        },
        IlOp::IndexUnchecked { .. } => {
            let s = l.less(2);
            pushing_raises(s, s.b.ins_index(l.second(), l.top(), h.default_int, true));
        },
        IlOp::GetField { .. } => {
            let s = l.less(2);
            pushing_raises(s, s.b.ins_heap_field_load(l.second(), Some(l.top()), 0, h.default_int));
        },
        IlOp::SetField { index, .. } => {
            if index is Some {
                let s = l.less(2);
                pushing_raises(s, s.b.ins_heap_field_store(l.top(), l.second(), None, index));
            } else {
                let s = l.less(3);
                pushing_raises(s, s.b.ins_heap_field_store(l.second(), l.third(), Some(l.top()), None));
            }
        },
        IlOp::String { idx, .. } => pushing_raises(l, l.b.ins_string(idx)),
        IlOp::Print { .. } => pushing_raises(l.less(1), l.b.ins_print(l.top())),
        _ => {},
    }
}

} // verus!

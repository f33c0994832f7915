//! What instructions in SSA form compute, and which rewrites give the same value.
//!
//! An assignment gives each value a word. It agrees with code where each instruction's result is
//! what the instruction computes of its operands; a run of the code leaves such an assignment.
use super::cse::{held, key_of, ExprKey, NumberV};
use super::func::FuncV;
use super::inst::{map_value, BlockId, InstV, MirBinOp, MirCastKind, MirCmpOp, MirConst, MirUnaryOp, ValueId};
use super::ty::MirTy;
use crate::words::{
    both_bits, down32, down64, either_bits, odd_bits, quotient, remainder, truth, up32, up64, words_commute, wrap32,
    wrap64, Floats, Machine,
};
use vstd::prelude::*;

verus! {

/// Float arithmetic of a type.
pub open spec fn floats(m: Machine, ty: MirTy) -> Floats {
    if ty is F32 {
        m.narrow
    } else {
        m.wide
    }
}

/// `x` wrapped around to a number of the type.
pub open spec fn wrapped(ty: MirTy, x: int) -> int {
    if ty is I32 {
        wrap32(x)
    } else {
        wrap64(x)
    }
}

/// Lowest number of the type.
pub open spec fn lowest(ty: MirTy) -> int {
    if ty is I32 {
        i32::MIN as int
    } else {
        i64::MIN as int
    }
}

/// Bits of a number of the type.
pub open spec fn width(ty: MirTy) -> int {
    if ty is I32 {
        32
    } else {
        64
    }
}

/// A number of the type shifted up by `n` bits.
pub open spec fn shifted_up(ty: MirTy, a: int, n: int) -> int {
    if ty is I32 {
        up32(a, n)
    } else {
        up64(a, n)
    }
}

/// A number of the type shifted down by `n` bits.
pub open spec fn shifted_down(ty: MirTy, a: int, n: int) -> int {
    if ty is I32 {
        down32(a, n)
    } else {
        down64(a, n)
    }
}

/// What an arithmetic operation gives; nothing where it traps or is not defined.
pub open spec fn bin_value(m: Machine, op: MirBinOp, ty: MirTy, a: int, b: int) -> Option<int> {
    if ty.float() {
        let f = floats(m, ty);
        match op {
            MirBinOp::Add => Some((f.plus)(a, b)),
            MirBinOp::Sub => Some((f.minus)(a, b)),
            MirBinOp::Mul => Some((f.times)(a, b)),
            MirBinOp::Div => Some((f.over)(a, b)),
            MirBinOp::Rem => Some((f.rest)(a, b)),
            _ => None,
        }
    } else {
        match op {
            MirBinOp::Add => Some(wrapped(ty, a + b)),
            MirBinOp::Sub => Some(wrapped(ty, a - b)),
            MirBinOp::Mul => Some(wrapped(ty, a * b)),
            MirBinOp::Div => if b == 0 || (a == lowest(ty) && b == -1) {
                None
            } else {
                Some(quotient(a, b))
            },
            MirBinOp::Rem => if b == 0 || (a == lowest(ty) && b == -1) {
                None
            } else {
                Some(remainder(a, b))
            },
            MirBinOp::BitAnd => Some(both_bits(a, b)),
            MirBinOp::BitOr => Some(either_bits(a, b)),
            MirBinOp::Xor => Some(odd_bits(a, b)),
            MirBinOp::Shl => if 0 <= b < width(ty) {
                Some(shifted_up(ty, a, b))
            } else {
                None
            },
            MirBinOp::Shr => if 0 <= b < width(ty) {
                Some(shifted_down(ty, a, b))
            } else {
                None
            },
        }
    }
}

/// Whether a compare holds.
pub open spec fn compare_holds(m: Machine, op: MirCmpOp, ty: MirTy, a: int, b: int) -> bool {
    if ty.float() {
        let f = floats(m, ty);
        match op {
            MirCmpOp::Lt => (f.less)(a, b),
            MirCmpOp::Le => (f.at_most)(a, b),
            MirCmpOp::Gt => (f.less)(b, a),
            MirCmpOp::Ge => (f.at_most)(b, a),
            MirCmpOp::Eq => (f.same)(a, b),
            MirCmpOp::Ne => !(f.same)(a, b),
        }
    } else {
        match op {
            MirCmpOp::Lt => a < b,
            MirCmpOp::Le => a <= b,
            MirCmpOp::Gt => b < a,
            MirCmpOp::Ge => b <= a,
            MirCmpOp::Eq => a == b,
            MirCmpOp::Ne => a != b,
        }
    }
}

/// What a negation or a logical not gives.
pub open spec fn unary_value(m: Machine, op: MirUnaryOp, ty: MirTy, a: int) -> int {
    match op {
        MirUnaryOp::Neg => if ty.float() {
            (floats(m, ty).negated)(a)
        } else {
            wrapped(ty, -a)
        },
        MirUnaryOp::Not => truth(a == 0),
    }
}

/// What a conversion gives.
pub open spec fn cast_value(m: Machine, kind: MirCastKind, to: MirTy, a: int) -> int {
    match kind {
        MirCastKind::IntToFloat => (floats(m, to).of_number)(a),
        MirCastKind::Sext => a,
    }
}

/// The word of a constant.
pub open spec fn const_value(c: MirConst) -> int {
    match c {
        MirConst::I64(v) => v as int,
        MirConst::I32(v) => v as int,
        MirConst::F64(bits) => wrap64(bits as int),
        MirConst::F32(bits) => bits as int,
        MirConst::Bool(b) => truth(b),
    }
}

/// What an instruction computes of the words of its operands; nothing for instructions that do
/// more than compute, and where it traps.
pub open spec fn inst_value(m: Machine, types: Seq<MirTy>, inst: InstV, env: Map<u32, int>) -> Option<int> {
    match inst {
        InstV::Const { c, .. } => Some(const_value(c)),
        InstV::Bin { op, ty, lhs, rhs, .. } => bin_value(m, op, ty, env[lhs.0], env[rhs.0]),
        InstV::Cmp { op, ty, lhs, rhs, .. } => Some(truth(compare_holds(m, op, ty, env[lhs.0], env[rhs.0]))),
        InstV::Unary { op, src, .. } => Some(unary_value(m, op, types[src.0 as int], env[src.0])),
        InstV::Cast { kind, to, src, .. } => Some(cast_value(m, kind, to, env[src.0])),
        _ => None,
    }
}

/// Instructions that only compute.
pub open spec fn computes(inst: InstV) -> bool {
    inst is Const || inst is Bin || inst is Cmp || inst is Unary || inst is Cast
}

/// The assignment holds the result of an instruction that only computes.
pub open spec fn agrees(m: Machine, types: Seq<MirTy>, inst: InstV, env: Map<u32, int>) -> bool {
    computes(inst) ==> inst_value(m, types, inst, env) == Some(env[inst.dest().0])
}

/// The assignment holds the results of all instructions.
pub open spec fn agrees_with(m: Machine, types: Seq<MirTy>, insts: Seq<InstV>, env: Map<u32, int>) -> bool {
    forall|i: int| 0 <= i < insts.len() ==> agrees(m, types, #[trigger] insts[i], env)
}

/// Each value has the word of the value that stands for it, and the types agree.
pub open spec fn stands_for(types: Seq<MirTy>, subst: Map<u32, ValueId>, env: Map<u32, int>) -> bool {
    forall|k: u32| #[trigger]
        subst.dom().contains(k) ==> env[k] == env[subst[k].0] && types[k as int] == types[subst[k].0 as int]
}

/// Renaming operands to values with the same words changes no result.
pub proof fn renaming_keeps_values(
    m: Machine,
    types: Seq<MirTy>,
    inst: InstV,
    subst: Map<u32, ValueId>,
    env: Map<u32, int>,
)
    requires
        stands_for(types, subst, env),
    ensures
        inst_value(m, types, inst.renamed(subst), env) == inst_value(m, types, inst, env),
        computes(inst.renamed(subst)) == computes(inst),
        inst.renamed(subst).dest() == inst.dest(),
{
    assert forall|v: ValueId| env[#[trigger] map_value(subst, v).0] == env[v.0] && types[map_value(subst, v).0 as int]
        == types[v.0 as int] by {}
}

/// Two instructions with one key compute the same, whatever the words of their operands are.
pub proof fn equal_keys_compute_the_same(
    m: Machine,
    types: Seq<MirTy>,
    a: InstV,
    b: InstV,
    env: Map<u32, int>,
)
    requires
        m.commutes(),
        key_of(a) is Some,
        key_of(a) == key_of(b),
    ensures
        computes(a) && computes(b),
        inst_value(m, types, a, env) == inst_value(m, types, b, env),
{
    if let InstV::Bin { lhs, rhs, .. } = a {
        words_commute(env[lhs.0], env[rhs.0]);
    }
    if let InstV::Bin { lhs, rhs, .. } = b {
        words_commute(env[lhs.0], env[rhs.0]);
    }
}

/// Type of what an instruction computes.
pub open spec fn result_ty(types: Seq<MirTy>, inst: InstV) -> MirTy {
    match inst {
        InstV::Const { c, .. } => c.const_ty(),
        InstV::Bin { ty, .. } => ty,
        InstV::Unary { op, src, .. } => if op is Not {
            MirTy::Bool
        } else {
            types[src.0 as int]
        },
        InstV::Cast { to, .. } => to,
        _ => MirTy::Bool,
    }
}

/// Results have the types that the instructions give them.
pub open spec fn typed(types: Seq<MirTy>, insts: Seq<InstV>) -> bool {
    forall|i: int|
        0 <= i < insts.len() && computes(#[trigger] insts[i]) ==> types[insts[i].dest().0 as int] == result_ty(
            types,
            insts[i],
        )
}

/// An available value has the word and the type of every instruction with its key.
pub open spec fn has_key(
    m: Machine,
    types: Seq<MirTy>,
    e: (ExprKey, ValueId),
    inst: InstV,
    env: Map<u32, int>,
) -> bool {
    key_of(inst) == Some(e.0) ==> inst_value(m, types, inst, env) == Some(env[e.1.0]) && result_ty(types, inst)
        == types[e.1.0 as int]
}

pub open spec fn has_keys(
    m: Machine,
    types: Seq<MirTy>,
    avail: Seq<(ExprKey, ValueId)>,
    env: Map<u32, int>,
) -> bool {
    forall|k: int, inst: InstV| 0 <= k < avail.len() ==> #[trigger] has_key(m, types, avail[k], inst, env)
}

proof fn held_is_available(avail: Seq<(ExprKey, ValueId)>, key: ExprKey, n: int) -> (k: int)
    requires
        n <= avail.len(),
        held(avail, key, n) is Some,
    ensures
        0 <= k < n,
        avail[k].0 == key,
        held(avail, key, n) == Some(avail[k].1),
    decreases n,
{
    if avail[n - 1].0 == key {
        n - 1
    } else {
        held_is_available(avail, key, n - 1)
    }
}

/// What sharing substitutes has the same word, in every assignment that agrees with the code. This
/// holds inside a block, and with what is available from the blocks that dominate it. So an
/// operand that is renamed still reads the word it read.
pub proof fn sharing_substitutes_equal_words(
    m: Machine,
    types: Seq<MirTy>,
    n: NumberV,
    insts: Seq<InstV>,
    home: Option<(FuncV, BlockId)>,
    i: int,
    env: Map<u32, int>,
)
    requires
        m.commutes(),
        0 <= i,
        agrees_with(m, types, insts, env),
        typed(types, insts),
        stands_for(types, n.subst, env),
        has_keys(m, types, n.avail, env),
    ensures
        stands_for(types, n.seen_from(insts, home, i).subst, env),
        has_keys(m, types, n.seen_from(insts, home, i).avail, env),
        forall|v: ValueId| env[(#[trigger] map_value(n.seen_from(insts, home, i).subst, v)).0] == env[v.0],
    decreases insts.len() - i,
{
    if i < insts.len() {
        let inst = insts[i];
        let here = inst.renamed(n.subst);
        let next = n.seen(inst, home);
        renaming_keeps_values(m, types, inst, n.subst, env);
        assert(agrees(m, types, inst, env));
        if !here.phi() && key_of(here) is Some {
            let key = key_of(here)->0;
            assert(computes(inst));
            assert(result_ty(types, here) == result_ty(types, inst)) by {
                if let InstV::Unary { src, .. } = inst {
                    if n.subst.dom().contains(src.0) {
                        assert(types[src.0 as int] == types[n.subst[src.0].0 as int]);
                    }
                }
            }
            if held(n.avail, key, n.avail.len() as int) is Some {
                let k = held_is_available(n.avail, key, n.avail.len() as int);
                assert(has_key(m, types, n.avail[k], here, env));
            }
            assert forall|k: int, x: InstV| 0 <= k < next.avail.len() implies #[trigger] has_key(
                m,
                types,
                next.avail[k],
                x,
                env,
            ) by {
                if k < n.avail.len() {
                    assert(has_key(m, types, n.avail[k], x, env));
                } else if key_of(x) == Some(key) {
                    equal_keys_compute_the_same(m, types, x, here, env);
                }
            }
        }
        sharing_substitutes_equal_words(m, types, next, insts, home, i + 1, env);
    }
}

} // verus!

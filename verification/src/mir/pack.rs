//! Counted loops that sum `a * x + y` become one host call.
//!
//! The loop counts `i` from 0 to `n` and sums floats from 0. `x` steps by `dx`, or is
//! `(i as float) * dx + x0`. Loops whose trip count depends on their data stay.
use super::dom::{flows, loops_from, loops_view, natural_loops};
use super::func::{FuncV, MirBlock, MirFunc};
use super::host_allow::SIMD_AXPY_REDUCE_ID;
use super::index::first_in;
use super::inst::{
    has_id, BlockId, InstV, MirBinOp, MirCastKind, MirCmpOp, MirConst, MirInst, TermV, Terminator,
    ValueId,
};
use super::instcombine::F64_ONE;
use super::emit::{find_in_pool, pool_pos, pool_pos_bound};
use super::ty::MirTy;
use crate::il::op::{no_loc, DebugLoc, IlOp, Label};
use vstd::prelude::*;

verus! {

/// An argument of the host call: a value, or the bits of a float.
#[derive(Copy, Clone, Debug, PartialEq, Eq, Structural)]
pub enum PackVal {
    Ssa(ValueId),
    F64(u64),
}

/// Arguments of the host call.
#[derive(Copy, Clone, Debug, PartialEq, Eq, Structural)]
pub struct AxpySpec {
    pub n: ValueId,
    pub a: ValueId,
    pub x0: PackVal,
    pub dx: PackVal,
    pub y: PackVal,
}

// What values are made of.

/// The first block from `b` on that makes `v`.
pub open spec fn made_in(f: FuncV, v: ValueId, b: int) -> Option<int>
    decreases f.blocks.len() - b,
{
    if b >= f.blocks.len() {
        None
    } else if first_in(f.blocks[b].insts, v, 0) is Some {
        Some(b)
    } else {
        made_in(f, v, b + 1)
    }
}

/// The instruction that makes `v`.
pub open spec fn maker(f: FuncV, v: ValueId) -> Option<InstV> {
    match made_in(f, v, 0) {
        Some(b) => Some(f.blocks[b].insts[first_in(f.blocks[b].insts, v, 0)->0 as int]),
        None => None,
    }
}

/// Operands of the operation that makes `v`.
pub open spec fn operands_of(f: FuncV, v: ValueId, op: MirBinOp, ty: MirTy) -> Option<(ValueId, ValueId)> {
    match maker(f, v) {
        Some(InstV::Bin { op: o, ty: t, lhs, rhs, .. }) => if o == op && t == ty {
            Some((lhs, rhs))
        } else {
            None
        },
        _ => None,
    }
}

/// Addends of a float sum.
pub open spec fn fadd(f: FuncV, v: ValueId) -> Option<(ValueId, ValueId)> {
    operands_of(f, v, MirBinOp::Add, MirTy::F64)
}

/// Factors of a float product.
pub open spec fn fmul(f: FuncV, v: ValueId) -> Option<(ValueId, ValueId)> {
    operands_of(f, v, MirBinOp::Mul, MirTy::F64)
}

/// The constant that `v` is.
pub open spec fn constant(f: FuncV, v: ValueId) -> Option<MirConst> {
    match maker(f, v) {
        Some(InstV::Const { c, .. }) => Some(c),
        _ => None,
    }
}

/// The constant integer that `v` is.
pub open spec fn constant_int(f: FuncV, v: ValueId) -> Option<i64> {
    match constant(f, v) {
        Some(MirConst::I64(n)) => Some(n),
        Some(MirConst::I32(n)) => Some(n as i64),
        _ => None,
    }
}

/// The integer that `v` is the float of.
pub open spec fn int_of(f: FuncV, v: ValueId) -> Option<ValueId> {
    match maker(f, v) {
        Some(InstV::Cast { kind, src, .. }) => if kind is IntToFloat {
            Some(src)
        } else {
            None
        },
        _ => None,
    }
}

/// The other of two values.
pub open spec fn other(l: ValueId, r: ValueId, known: ValueId) -> Option<ValueId> {
    if l == known {
        Some(r)
    } else if r == known {
        Some(l)
    } else {
        None
    }
}

/// The factor that `v` multiplies `x` with.
pub open spec fn factor(f: FuncV, v: ValueId, x: ValueId) -> Option<ValueId> {
    match fmul(f, v) {
        Some(p) => other(p.0, p.1, x),
        None => None,
    }
}

/// Whether the value stays the same in the loop.
pub open spec fn invariant_in(f: FuncV, v: ValueId, mask: Seq<bool>) -> bool {
    f.params.contains(v) || (match made_in(f, v, 0) {
        Some(b) => !mask[b],
        None => true,
    })
}

pub open spec fn pack_invariant_in(f: FuncV, v: PackVal, mask: Seq<bool>) -> bool {
    match v {
        PackVal::F64(_) => true,
        PackVal::Ssa(id) => invariant_in(f, id, mask),
    }
}

/// Whether `v` is `iv + 1`.
pub open spec fn counts_up(f: FuncV, v: ValueId, iv: ValueId) -> bool {
    match operands_of(f, v, MirBinOp::Add, MirTy::I64) {
        Some(p) => (p.0 == iv && constant_int(f, p.1) == Some(1i64)) || (p.1 == iv && constant_int(
            f,
            p.0,
        ) == Some(1i64)),
        None => false,
    }
}

/// The unchanging value that `v` adds to `x`.
pub open spec fn step_of(f: FuncV, v: ValueId, x: ValueId, mask: Seq<bool>) -> Option<ValueId> {
    match fadd(f, v) {
        Some(p) => match other(p.0, p.1, x) {
            Some(s) => if invariant_in(f, s, mask) {
                Some(s)
            } else {
                None
            },
            None => None,
        },
        None => None,
    }
}

// The loop's phis.

/// The first argument from `i` on that comes from `latch`, or that does not.
pub open spec fn phi_arg(args: Seq<(BlockId, ValueId)>, latch: BlockId, from_latch: bool, i: int) -> Option<
    ValueId,
>
    decreases args.len() - i,
{
    if i >= args.len() {
        None
    } else if (args[i].0 == latch) == from_latch {
        Some(args[i].1)
    } else {
        phi_arg(args, latch, from_latch, i + 1)
    }
}

/// What the phis of a loop's head are.
#[derive(Copy, Clone, Debug, PartialEq, Eq)]
pub struct HeadPhis {
    /// The counter.
    pub iv: Option<ValueId>,
    /// The sum, and what it becomes.
    pub acc: Option<(ValueId, ValueId)>,
    /// The stepping value, where it begins, and its step.
    pub x: Option<(ValueId, ValueId, ValueId)>,
}

impl HeadPhis {
    /// With one more phi; none where it fits nothing.
    pub open spec fn with(
        self,
        f: FuncV,
        dest: ValueId,
        ty: MirTy,
        init: ValueId,
        step: ValueId,
        mask: Seq<bool>,
    ) -> Option<HeadPhis> {
        if ty is I64 && self.iv is None && constant_int(f, init) == Some(0i64) && counts_up(f, step, dest) {
            Some(HeadPhis { iv: Some(dest), ..self })
        } else if ty is F64 && self.acc is None && constant(f, init) == Some(MirConst::F64(0)) {
            Some(HeadPhis { acc: Some((dest, step)), ..self })
        } else if ty is F64 && self.x is None {
            match step_of(f, step, dest, mask) {
                Some(dx) => if invariant_in(f, init, mask) {
                    Some(HeadPhis { x: Some((dest, init, dx)), ..self })
                } else {
                    Some(self)
                },
                None => Some(self),
            }
        } else {
            None
        }
    }
}

/// The phis from instruction `i` on sorted out.
pub open spec fn head_phis(
    f: FuncV,
    insts: Seq<InstV>,
    latch: BlockId,
    mask: Seq<bool>,
    i: int,
    s: HeadPhis,
) -> Option<HeadPhis>
    decreases insts.len() - i,
{
    if i >= insts.len() {
        Some(s)
    } else {
        match insts[i] {
            InstV::Phi { dest, ty, args } => match (
                phi_arg(args, latch, false, 0),
                phi_arg(args, latch, true, 0),
            ) {
                (Some(init), Some(step)) => match s.with(f, dest, ty, init, step, mask) {
                    Some(t) => head_phis(f, insts, latch, mask, i + 1, t),
                    None => None,
                },
                _ => None,
            },
            _ => head_phis(f, insts, latch, mask, i + 1, s),
        }
    }
}

/// How many of the first `n` instructions are phis.
pub open spec fn phi_count(insts: Seq<InstV>, n: int) -> nat
    decreases n,
{
    if n <= 0 {
        0
    } else {
        phi_count(insts, n - 1) + (if insts[n - 1].phi() {
            1nat
        } else {
            0nat
        })
    }
}

// What is summed.

/// The factor of `x` in a sum of `acc` and a product.
pub open spec fn inner_sum(f: FuncV, v: ValueId, acc: ValueId, x: ValueId) -> Option<ValueId> {
    match fadd(f, v) {
        Some(p) => match other(p.0, p.1, acc) {
            Some(m) => factor(f, m, x),
            None => None,
        },
        None => None,
    }
}

/// `a` and `y` where `step` is `(acc + a*x) + y` or `acc + (a*x + y)` or `acc + a*x`.
pub open spec fn summed(f: FuncV, step: ValueId, acc: ValueId, x: ValueId) -> Option<(ValueId, PackVal)> {
    match fadd(f, step) {
        None => None,
        Some(p) => {
            let rest = other(p.0, p.1, acc);
            let plain = match rest {
                Some(o) => factor(f, o, x),
                None => None,
            };
            let pair = match rest {
                Some(o) => fadd(f, o),
                None => None,
            };
            if plain is Some {
                Some((plain->0, PackVal::F64(0)))
            } else if pair is Some {
                let (ml, mr) = pair->0;
                match factor(f, ml, x) {
                    Some(a) => Some((a, PackVal::Ssa(mr))),
                    None => match factor(f, mr, x) {
                        Some(a) => Some((a, PackVal::Ssa(ml))),
                        None => None,
                    },
                }
            } else {
                match inner_sum(f, p.0, acc, x) {
                    Some(a) => Some((a, PackVal::Ssa(p.1))),
                    None => match inner_sum(f, p.1, acc, x) {
                        Some(a) => Some((a, PackVal::Ssa(p.0))),
                        None => None,
                    },
                }
            }
        },
    }
}

/// The step where `v` is the counter as a float, or that times the step.
pub open spec fn scaled(f: FuncV, v: ValueId, iv: ValueId) -> Option<PackVal> {
    if int_of(f, v) == Some(iv) {
        Some(PackVal::F64(F64_ONE))
    } else {
        match fmul(f, v) {
            Some(p) => if int_of(f, p.0) == Some(iv) {
                Some(PackVal::Ssa(p.1))
            } else if int_of(f, p.1) == Some(iv) {
                Some(PackVal::Ssa(p.0))
            } else {
                None
            },
            None => None,
        }
    }
}

/// Where `v` begins and its step, where it is `(iv as float) * dx + x0`.
pub open spec fn affine(f: FuncV, v: ValueId, iv: ValueId) -> Option<(PackVal, PackVal)> {
    match scaled(f, v, iv) {
        Some(dx) => Some((PackVal::F64(0), dx)),
        None => match fadd(f, v) {
            Some(p) => match scaled(f, p.0, iv) {
                Some(dx) => Some((PackVal::Ssa(p.1), dx)),
                None => match scaled(f, p.1, iv) {
                    Some(dx) => Some((PackVal::Ssa(p.0), dx)),
                    None => None,
                },
            },
            None => None,
        },
    }
}

/// Arguments where `x` is computed from the counter and is a factor of product `m`.
pub open spec fn cast_via(
    f: FuncV,
    m: Option<ValueId>,
    step: ValueId,
    acc: ValueId,
    iv: ValueId,
    second: bool,
) -> Option<(ValueId, PackVal, PackVal, PackVal)> {
    match m {
        Some(v) => match fmul(f, v) {
            Some(p) => {
                let x = if second {
                    p.1
                } else {
                    p.0
                };
                match (affine(f, x, iv), summed(f, step, acc, x)) {
                    (Some(q), Some(s)) => Some((s.0, q.0, q.1, s.1)),
                    _ => None,
                }
            },
            None => None,
        },
        None => None,
    }
}

/// The product that may hold `x`: number `k` of the summands that `step` is made of.
pub open spec fn summand(f: FuncV, step: ValueId, k: int) -> Option<ValueId> {
    match fadd(f, step) {
        None => None,
        Some(p) => if k == 0 {
            Some(p.0)
        } else if k == 1 {
            Some(p.1)
        } else {
            match fadd(
                f,
                if k < 4 {
                    p.0
                } else {
                    p.1
                },
            ) {
                Some(q) => Some(
                    if k % 2 == 0 {
                        q.0
                    } else {
                        q.1
                    },
                ),
                None => None,
            }
        },
    }
}

/// Arguments where `x` is computed from the counter, by the summands from `k` on.
pub open spec fn cast_from(f: FuncV, step: ValueId, acc: ValueId, iv: ValueId, k: int) -> Option<
    (ValueId, PackVal, PackVal, PackVal),
>
    decreases 6 - k,
{
    if k >= 6 {
        None
    } else {
        let m = summand(f, step, k);
        match cast_via(f, m, step, acc, iv, false) {
            Some(r) => Some(r),
            None => match cast_via(f, m, step, acc, iv, true) {
                Some(r) => Some(r),
                None => cast_from(f, step, acc, iv, k + 1),
            },
        }
    }
}

/// The bound of the counter.
pub open spec fn bound_of(f: FuncV, cond: ValueId, iv: ValueId, taken_is_body: bool) -> Option<ValueId> {
    match maker(f, cond) {
        Some(InstV::Cmp { op, ty, lhs, rhs, .. }) => if !(ty is I64) {
            None
        } else if lhs == iv && ((op is Lt && taken_is_body) || (op is Ge && !taken_is_body)) {
            Some(rhs)
        } else if rhs == iv && ((op is Gt && taken_is_body) || (op is Le && !taken_is_body)) {
            Some(lhs)
        } else {
            None
        },
        _ => None,
    }
}

/// The first block from `b` on in the loop that jumps to its head.
pub open spec fn latch_from(f: FuncV, h: int, mask: Seq<bool>, b: int) -> Option<BlockId>
    decreases f.blocks.len() - b,
{
    if b >= f.blocks.len() {
        None
    } else if mask[b] && flows(f, b, h) {
        Some(BlockId(b as u32))
    } else {
        latch_from(f, h, mask, b + 1)
    }
}

/// Whether no block but `exit` returns.
pub open spec fn sole_return(f: FuncV, exit: BlockId) -> bool {
    forall|b: int|
        0 <= b < f.blocks.len() && b != exit.0 && (#[trigger] f.blocks[b]).term is Some
            ==> !(f.blocks[b].term->0 is Return)
}

pub open spec fn same_as(f: FuncV, a: ValueId, b: ValueId) -> bool {
    a == b || (constant(f, a) is Some && constant(f, a) == constant(f, b))
}

/// Arguments of the host call for the loop with head `h`, where control leaves to `exit`.
pub open spec fn axpy_of(
    f: FuncV,
    h: int,
    mask: Seq<bool>,
    latch: BlockId,
    cond: ValueId,
    taken_is_body: bool,
    exit: BlockId,
) -> Option<AxpySpec> {
    let insts = f.blocks[h].insts;
    let n_phis = phi_count(insts, insts.len() as int);
    match f.blocks[exit.0 as int].term {
        Some(TermV::Return { lo: Some(ret), hi: None }) => if !sole_return(f, exit) || n_phis < 2
            || n_phis > 3 {
            None
        } else {
            match head_phis(f, insts, latch, mask, 0, HeadPhis { iv: None, acc: None, x: None }) {
                Some(HeadPhis { iv: Some(iv), acc: Some(acc), x }) => if !same_as(f, ret, acc.0) {
                    None
                } else {
                    match bound_of(f, cond, iv, taken_is_body) {
                        Some(n) => if !invariant_in(f, n, mask) || (constant_int(f, n) is Some
                            && constant_int(f, n)->0 < 8) {
                            None
                        } else {
                            let parts = match x {
                                Some(x) => match summed(f, acc.1, acc.0, x.0) {
                                    Some(s) => Some(
                                        (s.0, PackVal::Ssa(x.1), PackVal::Ssa(x.2), s.1),
                                    ),
                                    None => None,
                                },
                                None => cast_from(f, acc.1, acc.0, iv, 0),
                            };
                            match parts {
                                Some(p) => if invariant_in(f, p.0, mask) && pack_invariant_in(
                                    f,
                                    p.1,
                                    mask,
                                ) && pack_invariant_in(f, p.2, mask) && pack_invariant_in(
                                    f,
                                    p.3,
                                    mask,
                                ) {
                                    Some(AxpySpec { n, a: p.0, x0: p.1, dx: p.2, y: p.3 })
                                } else {
                                    None
                                },
                                None => None,
                            }
                        },
                        None => None,
                    }
                },
                _ => None,
            }
        },
        _ => None,
    }
}

/// Arguments of the host call that a function becomes.
pub open spec fn axpy(f: FuncV) -> Option<AxpySpec> {
    let loops = loops_from(f, 0);
    if f.ret_ty != Some(MirTy::F64) || loops.len() != 1 {
        None
    } else {
        let h = loops[0].0.0 as int;
        let mask = loops[0].1;
        match (latch_from(f, h, mask, 0), f.blocks[h].term) {
            (Some(latch), Some(TermV::Br { cond, taken, not_taken })) => if mask[taken.0 as int]
                && !mask[not_taken.0 as int] {
                axpy_of(f, h, mask, latch, cond, true, not_taken)
            } else if mask[not_taken.0 as int] && !mask[taken.0 as int] {
                axpy_of(f, h, mask, latch, cond, false, taken)
            } else {
                None
            },
            _ => None,
        }
    }
}

// The host call.

/// Position of `v` among the parameters from `i` on.
pub open spec fn param_at(params: Seq<ValueId>, v: ValueId, i: int) -> Option<u32>
    decreases params.len() - i,
{
    if i >= params.len() {
        None
    } else if params[i] == v {
        Some(i as u32)
    } else {
        param_at(params, v, i + 1)
    }
}

/// Pool index of the bits, and the pool with them.
pub open spec fn interned(pool: Seq<u64>, bits: u64) -> (Option<u32>, Seq<u64>) {
    match pool_pos(pool, bits, 0) {
        Some(i) => (
            if i <= u32::MAX {
                Some(i as u32)
            } else {
                None
            },
            pool,
        ),
        None => if pool.len() > u32::MAX {
            (None, pool)
        } else {
            (Some(pool.len() as u32), pool.push(bits))
        },
    }
}

/// Operation that pushes the bits, and the pool with them.
pub open spec fn bits_op(pool: Seq<u64>, bits: u64) -> (Option<IlOp>, Seq<u64>) {
    let (idx, p) = interned(pool, bits);
    (
        match idx {
            Some(idx) => Some(IlOp::ConstPool { idx, loc: no_loc() }),
            None => None,
        },
        p,
    )
}

/// Operation that pushes an argument, and the pool behind it. Values that are neither parameters
/// nor constants have none.
pub open spec fn value_op(f: FuncV, v: PackVal, pool: Seq<u64>) -> (Option<IlOp>, Seq<u64>) {
    match v {
        PackVal::F64(bits) => bits_op(pool, bits),
        PackVal::Ssa(id) => match param_at(f.params, id, 0) {
            Some(slot) => (Some(IlOp::Load { slot, loc: no_loc() }), pool),
            None => match constant(f, id) {
                Some(MirConst::I64(n)) => if i32::MIN <= n <= i32::MAX {
                    (Some(IlOp::Const { imm: n as i32, loc: no_loc() }), pool)
                } else {
                    (None, pool)
                },
                Some(MirConst::F64(bits)) => bits_op(pool, bits),
                _ => (None, pool),
            },
        },
    }
}

/// Operations that push the arguments from `i` on behind `done`, and the pool behind them.
pub open spec fn value_ops(
    f: FuncV,
    vs: Seq<PackVal>,
    i: int,
    pool: Seq<u64>,
    done: Seq<IlOp>,
) -> (Option<Seq<IlOp>>, Seq<u64>)
    decreases vs.len() - i,
{
    if i >= vs.len() {
        (Some(done), pool)
    } else {
        let (op, p) = value_op(f, vs[i], pool);
        match op {
            Some(op) => value_ops(f, vs, i + 1, p, done.push(op)),
            None => (None, p),
        }
    }
}

/// Arguments in call order.
pub open spec fn arguments(s: AxpySpec) -> Seq<PackVal> {
    seq![PackVal::Ssa(s.n), PackVal::Ssa(s.a), s.x0, s.dx, s.y]
}

/// Label and native of the host call.
pub open spec fn call_head(entry: Option<Label>) -> Seq<IlOp> {
    seq![
        IlOp::Label(
            match entry {
                Some(l) => l,
                None => Label(0),
            },
        ),
        IlOp::Const { imm: SIMD_AXPY_REDUCE_ID as i32, loc: no_loc() },
    ]
}

/// The body that makes the host call, and the pool behind it.
pub open spec fn packed(f: FuncV, entry: Option<Label>, pool: Seq<u64>) -> (Option<Seq<IlOp>>, Seq<u64>) {
    match axpy(f) {
        None => (None, pool),
        Some(s) => {
            let (ops, p) = value_ops(f, arguments(s), 0, pool, call_head(entry));
            (
                match ops {
                    Some(ops) => Some(
                        ops.push(IlOp::HostInvoke { arity: 5, layout: 0, loc: no_loc() }).push(
                            IlOp::Return { loc: no_loc(), ret_words: 1 },
                        ),
                    ),
                    None => None,
                },
                p,
            )
        },
    }
}

// Executable form.

fn find_maker(func: &MirFunc, v: ValueId) -> (r: Option<(usize, usize)>)
    ensures
        match r {
            Some(p) => made_in(func@, v, 0) == Some(p.0 as int) && p.0 < func@.blocks.len() && p.1
                < func@.blocks[p.0 as int].insts.len() && maker(func@, v) == Some(
                func@.blocks[p.0 as int].insts[p.1 as int],
            ),
            None => made_in(func@, v, 0) is None && maker(func@, v) is None,
        },
{
    let ghost f = func@;
    let mut b: usize = 0;
    while b < func.blocks.len()
        invariant
            b <= func.blocks@.len(),
            f == func@,
            made_in(f, v, 0) == made_in(f, v, b as int),
        decreases func.blocks@.len() - b,
    {
        let block = &func.blocks[b];
        assert(f.blocks[b as int] == block@);
        let ghost iv = block@.insts;
        let mut i: usize = 0;
        while i < block.insts.len()
            invariant
                i <= block.insts@.len(),
                b < func.blocks@.len(),
                f == func@,
                iv == block@.insts,
                f.blocks[b as int] == block@,
                made_in(f, v, 0) == made_in(f, v, b as int),
                first_in(iv, v, 0) == first_in(iv, v, i as nat),
            decreases block.insts@.len() - i,
        {
            assert(iv[i as int] == block.insts@[i as int]@);
            if block.insts[i].dest() == v {
                return Some((b, i));
            }
            i += 1;
        }
        b += 1;
    }
    None
}

fn find_operands(func: &MirFunc, v: ValueId, op: MirBinOp, ty: MirTy) -> (r: Option<(ValueId, ValueId)>)
    ensures
        r == operands_of(func@, v, op, ty),
{
    if let Some((b, i)) = find_maker(func, v) {
        assert(func@.blocks[b as int].insts[i as int] == func.blocks@[b as int].insts@[i as int]@);
        if let MirInst::Bin { op: o, ty: t, lhs, rhs, .. } = &func.blocks[b].insts[i] {
            if *o == op && *t == ty {
                return Some((*lhs, *rhs));
            }
        }
    }
    None
}

fn as_fadd(func: &MirFunc, v: ValueId) -> (r: Option<(ValueId, ValueId)>)
    ensures
        r == fadd(func@, v),
{
    find_operands(func, v, MirBinOp::Add, MirTy::F64)
}

fn as_fmul(func: &MirFunc, v: ValueId) -> (r: Option<(ValueId, ValueId)>)
    ensures
        r == fmul(func@, v),
{
    find_operands(func, v, MirBinOp::Mul, MirTy::F64)
}

fn as_const(func: &MirFunc, v: ValueId) -> (r: Option<MirConst>)
    ensures
        r == constant(func@, v),
{
    if let Some((b, i)) = find_maker(func, v) {
        assert(func@.blocks[b as int].insts[i as int] == func.blocks@[b as int].insts@[i as int]@);
        if let MirInst::Const { c, .. } = &func.blocks[b].insts[i] {
            return Some(*c);
        }
    }
    None
}

fn as_const_i64(func: &MirFunc, v: ValueId) -> (r: Option<i64>)
    ensures
        r == constant_int(func@, v),
{
    match as_const(func, v) {
        Some(MirConst::I64(n)) => Some(n),
        Some(MirConst::I32(n)) => Some(n as i64),
        _ => None,
    }
}

fn as_i2f(func: &MirFunc, v: ValueId) -> (r: Option<ValueId>)
    ensures
        r == int_of(func@, v),
{
    if let Some((b, i)) = find_maker(func, v) {
        assert(func@.blocks[b as int].insts[i as int] == func.blocks@[b as int].insts@[i as int]@);
        if let MirInst::Cast { kind, src, .. } = &func.blocks[b].insts[i] {
            if *kind == MirCastKind::IntToFloat {
                return Some(*src);
            }
        }
    }
    None
}

fn other_of(l: ValueId, r: ValueId, known: ValueId) -> (o: Option<ValueId>)
    ensures
        o == other(l, r, known),
{
    if l == known {
        Some(r)
    } else if r == known {
        Some(l)
    } else {
        None
    }
}

fn factor_of(func: &MirFunc, v: ValueId, x: ValueId) -> (r: Option<ValueId>)
    ensures
        r == factor(func@, v, x),
{
    match as_fmul(func, v) {
        Some(p) => other_of(p.0, p.1, x),
        None => None,
    }
}

fn is_invariant(func: &MirFunc, v: ValueId, mask: &Vec<bool>) -> (r: bool)
    requires
        mask@.len() == func@.blocks.len(),
    ensures
        r == invariant_in(func@, v, mask@),
{
    if has_id(&func.params, v) {
        return true;
    }
    match find_maker(func, v) {
        Some((b, _)) => !mask[b],
        None => true,
    }
}

fn pack_invariant(func: &MirFunc, v: PackVal, mask: &Vec<bool>) -> (r: bool)
    requires
        mask@.len() == func@.blocks.len(),
    ensures
        r == pack_invariant_in(func@, v, mask@),
{
    match v {
        PackVal::F64(_) => true,
        PackVal::Ssa(id) => is_invariant(func, id, mask),
    }
}

fn is_iadd_one(func: &MirFunc, v: ValueId, iv: ValueId) -> (r: bool)
    ensures
        r == counts_up(func@, v, iv),
{
    match find_operands(func, v, MirBinOp::Add, MirTy::I64) {
        Some(p) => (p.0 == iv && as_const_i64(func, p.1) == Some(1i64)) || (p.1 == iv && as_const_i64(
            func,
            p.0,
        ) == Some(1i64)),
        None => false,
    }
}

fn find_step(func: &MirFunc, v: ValueId, x: ValueId, mask: &Vec<bool>) -> (r: Option<ValueId>)
    requires
        mask@.len() == func@.blocks.len(),
    ensures
        r == step_of(func@, v, x, mask@),
{
    match as_fadd(func, v) {
        Some(p) => match other_of(p.0, p.1, x) {
            Some(s) => if is_invariant(func, s, mask) {
                Some(s)
            } else {
                None
            },
            None => None,
        },
        None => None,
    }
}

fn phi_from(args: &Vec<(BlockId, ValueId)>, latch: BlockId, from_latch: bool) -> (r: Option<ValueId>)
    ensures
        r == phi_arg(args@, latch, from_latch, 0),
{
    let mut i: usize = 0;
    while i < args.len()
        invariant
            i <= args@.len(),
            phi_arg(args@, latch, from_latch, 0) == phi_arg(args@, latch, from_latch, i as int),
        decreases args@.len() - i,
    {
        if (args[i].0 == latch) == from_latch {
            return Some(args[i].1);
        }
        i += 1;
    }
    None
}

fn with_phi(
    s: HeadPhis,
    func: &MirFunc,
    dest: ValueId,
    ty: MirTy,
    init: ValueId,
    step: ValueId,
    mask: &Vec<bool>,
) -> (r: Option<HeadPhis>)
    requires
        mask@.len() == func@.blocks.len(),
    ensures
        r == s.with(func@, dest, ty, init, step, mask@),
{
    if ty == MirTy::I64 && s.iv.is_none() && as_const_i64(func, init) == Some(0i64) && is_iadd_one(
        func,
        step,
        dest,
    ) {
        Some(HeadPhis { iv: Some(dest), ..s })
    } else if ty == MirTy::F64 && s.acc.is_none() && as_const(func, init) == Some(MirConst::F64(0)) {
        Some(HeadPhis { acc: Some((dest, step)), ..s })
    } else if ty == MirTy::F64 && s.x.is_none() {
        match find_step(func, step, dest, mask) {
            Some(dx) => if is_invariant(func, init, mask) {
                Some(HeadPhis { x: Some((dest, init, dx)), ..s })
            } else {
                Some(s)
            },
            None => Some(s),
        }
    } else {
        None
    }
}

fn sort_phis(func: &MirFunc, h: usize, latch: BlockId, mask: &Vec<bool>) -> (r: Option<HeadPhis>)
    requires
        h < func@.blocks.len(),
        mask@.len() == func@.blocks.len(),
    ensures
        r == head_phis(
            func@,
            func@.blocks[h as int].insts,
            latch,
            mask@,
            0,
            HeadPhis { iv: None, acc: None, x: None },
        ),
{
    let ghost f = func@;
    let block = &func.blocks[h];
    assert(f.blocks[h as int] == block@);
    let ghost iv = block@.insts;
    let ghost s0 = HeadPhis { iv: None, acc: None, x: None };
    let mut s = HeadPhis { iv: None, acc: None, x: None };
    let mut i: usize = 0;
    while i < block.insts.len()
        invariant
            i <= block.insts@.len(),
            f == func@,
            iv == block@.insts,
            iv == f.blocks[h as int].insts,
            s0 == (HeadPhis { iv: None, acc: None, x: None }),
            mask@.len() == f.blocks.len(),
            head_phis(f, iv, latch, mask@, 0, s0) == head_phis(f, iv, latch, mask@, i as int, s),
        decreases block.insts@.len() - i,
    {
        assert(iv[i as int] == block.insts@[i as int]@);
        if let MirInst::Phi { dest, ty, args } = &block.insts[i] {
            match (phi_from(args, latch, false), phi_from(args, latch, true)) {
                (Some(init), Some(step)) => {
                    match with_phi(s, func, *dest, *ty, init, step, mask) {
                        Some(t) => {
                            s = t;
                        },
                        None => {
                            return None;
                        },
                    }
                },
                _ => {
                    return None;
                },
            }
        }
        i += 1;
    }
    Some(s)
}

fn count_phis(block: &MirBlock) -> (r: usize)
    ensures
        r == phi_count(block@.insts, block@.insts.len() as int),
{
    let mut r: usize = 0;
    let mut i: usize = 0;
    while i < block.insts.len()
        invariant
            i <= block.insts@.len(),
            r <= i,
            r == phi_count(block@.insts, i as int),
        decreases block.insts@.len() - i,
    {
        assert(block@.insts[i as int] == block.insts@[i as int]@);
        if block.insts[i].is_phi() {
            r += 1;
        }
        i += 1;
    }
    r
}

fn find_inner_sum(func: &MirFunc, v: ValueId, acc: ValueId, x: ValueId) -> (r: Option<ValueId>)
    ensures
        r == inner_sum(func@, v, acc, x),
{
    match as_fadd(func, v) {
        Some(p) => match other_of(p.0, p.1, acc) {
            Some(m) => factor_of(func, m, x),
            None => None,
        },
        None => None,
    }
}

fn match_acc_from_x(func: &MirFunc, step: ValueId, acc: ValueId, x: ValueId) -> (r: Option<
    (ValueId, PackVal),
>)
    ensures
        r == summed(func@, step, acc, x),
{
    let p = match as_fadd(func, step) {
        Some(p) => p,
        None => return None,
    };
    if let Some(o) = other_of(p.0, p.1, acc) {
        if let Some(a) = factor_of(func, o, x) {
            return Some((a, PackVal::F64(0)));
        }
        if let Some((ml, mr)) = as_fadd(func, o) {
            if let Some(a) = factor_of(func, ml, x) {
                return Some((a, PackVal::Ssa(mr)));
            }
            return match factor_of(func, mr, x) {
                Some(a) => Some((a, PackVal::Ssa(ml))),
                None => None,
            };
        }
    }
    if let Some(a) = find_inner_sum(func, p.0, acc, x) {
        return Some((a, PackVal::Ssa(p.1)));
    }
    match find_inner_sum(func, p.1, acc, x) {
        Some(a) => Some((a, PackVal::Ssa(p.0))),
        None => None,
    }
}

fn find_scaled(func: &MirFunc, v: ValueId, iv: ValueId) -> (r: Option<PackVal>)
    ensures
        r == scaled(func@, v, iv),
{
    if as_i2f(func, v) == Some(iv) {
        return Some(PackVal::F64(F64_ONE));
    }
    match as_fmul(func, v) {
        Some(p) => if as_i2f(func, p.0) == Some(iv) {
            Some(PackVal::Ssa(p.1))
        } else if as_i2f(func, p.1) == Some(iv) {
            Some(PackVal::Ssa(p.0))
        } else {
            None
        },
        None => None,
    }
}

fn find_affine(func: &MirFunc, v: ValueId, iv: ValueId) -> (r: Option<(PackVal, PackVal)>)
    ensures
        r == affine(func@, v, iv),
{
    if let Some(dx) = find_scaled(func, v, iv) {
        return Some((PackVal::F64(0), dx));
    }
    match as_fadd(func, v) {
        Some(p) => match find_scaled(func, p.0, iv) {
            Some(dx) => Some((PackVal::Ssa(p.1), dx)),
            None => match find_scaled(func, p.1, iv) {
                Some(dx) => Some((PackVal::Ssa(p.0), dx)),
                None => None,
            },
        },
        None => None,
    }
}

fn try_cast_via(func: &MirFunc, m: Option<ValueId>, step: ValueId, acc: ValueId, iv: ValueId, second: bool) -> (r: Option<
    (ValueId, PackVal, PackVal, PackVal),
>)
    ensures
        r == cast_via(func@, m, step, acc, iv, second),
{
    match m {
        Some(v) => match as_fmul(func, v) {
            Some(p) => {
                let x = if second {
                    p.1
                } else {
                    p.0
                };
                match (find_affine(func, x, iv), match_acc_from_x(func, step, acc, x)) {
                    (Some(q), Some(s)) => Some((s.0, q.0, q.1, s.1)),
                    _ => None,
                }
            },
            None => None,
        },
        None => None,
    }
}

fn find_summand(func: &MirFunc, step: ValueId, k: u64) -> (r: Option<ValueId>)
    ensures
        r == summand(func@, step, k as int),
{
    let p = match as_fadd(func, step) {
        Some(p) => p,
        None => return None,
    };
    if k == 0 {
        return Some(p.0);
    }
    if k == 1 {
        return Some(p.1);
    }
    match as_fadd(
        func,
        if k < 4 {
            p.0
        } else {
            p.1
        },
    ) {
        Some(q) => Some(
            if k % 2 == 0 {
                q.0
            } else {
                q.1
            },
        ),
        None => None,
    }
}

fn match_acc_from_cast(func: &MirFunc, step: ValueId, acc: ValueId, iv: ValueId) -> (r: Option<
    (ValueId, PackVal, PackVal, PackVal),
>)
    ensures
        r == cast_from(func@, step, acc, iv, 0),
{
    let ghost f = func@;
    let mut k: u64 = 0;
    while k < 6
        invariant
            k <= 6,
            f == func@,
            cast_from(f, step, acc, iv, 0) == cast_from(f, step, acc, iv, k as int),
        decreases 6 - k,
    {
        let m = find_summand(func, step, k);
        let first = try_cast_via(func, m, step, acc, iv, false);
        if first.is_some() {
            return first;
        }
        let second = try_cast_via(func, m, step, acc, iv, true);
        if second.is_some() {
            return second;
        }
        k += 1;
    }
    None
}

fn match_iv_bound(func: &MirFunc, cond: ValueId, iv: ValueId, taken_is_body: bool) -> (r: Option<ValueId>)
    ensures
        r == bound_of(func@, cond, iv, taken_is_body),
{
    if let Some((b, i)) = find_maker(func, cond) {
        assert(func@.blocks[b as int].insts[i as int] == func.blocks@[b as int].insts@[i as int]@);
        if let MirInst::Cmp { op, ty, lhs, rhs, .. } = &func.blocks[b].insts[i] {
            if *ty != MirTy::I64 {
                return None;
            }
            if *lhs == iv && ((*op == MirCmpOp::Lt && taken_is_body) || (*op == MirCmpOp::Ge
                && !taken_is_body)) {
                return Some(*rhs);
            }
            if *rhs == iv && ((*op == MirCmpOp::Gt && taken_is_body) || (*op == MirCmpOp::Le
                && !taken_is_body)) {
                return Some(*lhs);
            }
        }
    }
    None
}

fn find_latch(func: &MirFunc, h: BlockId, mask: &Vec<bool>) -> (r: Option<BlockId>)
    requires
        func@.indexed(),
        mask@.len() == func@.blocks.len(),
    ensures
        r == latch_from(func@, h.0 as int, mask@, 0),
{
    let ghost f = func@;
    let mut b: usize = 0;
    while b < func.blocks.len()
        invariant
            b <= func.blocks@.len(),
            f == func@,
            f.indexed(),
            mask@.len() == f.blocks.len(),
            latch_from(f, h.0 as int, mask@, 0) == latch_from(f, h.0 as int, mask@, b as int),
        decreases func.blocks@.len() - b,
    {
        if mask[b] && super::licm::block_leads_to(func, b, h) {
            return Some(BlockId(b as u32));
        }
        b += 1;
    }
    None
}

fn is_sole_return(func: &MirFunc, exit: BlockId) -> (r: bool)
    ensures
        r == sole_return(func@, exit),
{
    let ghost f = func@;
    let mut b: usize = 0;
    while b < func.blocks.len()
        invariant
            b <= func.blocks@.len(),
            f == func@,
            forall|x: int|
                0 <= x < b && x != exit.0 && (#[trigger] f.blocks[x]).term is Some
                    ==> !(f.blocks[x].term->0 is Return),
        decreases func.blocks@.len() - b,
    {
        assert(f.blocks[b as int] == func.blocks@[b as int]@);
        if b != exit.index() {
            if let Some(Terminator::Return { .. }) = &func.blocks[b].term {
                assert(f.blocks[b as int].term->0 is Return);
                return false;
            }
        }
        b += 1;
    }
    true
}

fn same_value(func: &MirFunc, a: ValueId, b: ValueId) -> (r: bool)
    ensures
        r == same_as(func@, a, b),
{
    if a == b {
        return true;
    }
    let c = as_const(func, a);
    c.is_some() && c == as_const(func, b)
}

fn match_loop(
    func: &MirFunc,
    h: usize,
    mask: &Vec<bool>,
    latch: BlockId,
    cond: ValueId,
    taken_is_body: bool,
    exit: BlockId,
) -> (r: Option<AxpySpec>)
    requires
        func@.indexed(),
        h < func@.blocks.len(),
        exit.0 < func@.blocks.len(),
        mask@.len() == func@.blocks.len(),
    ensures
        r == axpy_of(func@, h as int, mask@, latch, cond, taken_is_body, exit),
{
    let ghost f = func@;
    assert(f.blocks[exit.0 as int] == func.blocks@[exit.0 as int]@);
    assert(f.blocks[h as int] == func.blocks@[h as int]@);
    let ret = match &func.blocks[exit.index()].term {
        Some(Terminator::Return { lo: Some(ret), hi: None }) => *ret,
        _ => return None,
    };
    let n_phis = count_phis(&func.blocks[h]);
    if !is_sole_return(func, exit) || n_phis < 2 || n_phis > 3 {
        return None;
    }
    let (iv, acc, x) = match sort_phis(func, h, latch, mask) {
        Some(HeadPhis { iv: Some(iv), acc: Some(acc), x }) => (iv, acc, x),
        _ => return None,
    };
    if !same_value(func, ret, acc.0) {
        return None;
    }
    let n = match match_iv_bound(func, cond, iv, taken_is_body) {
        Some(n) => n,
        None => return None,
    };
    if !is_invariant(func, n, mask) {
        return None;
    }
    if let Some(trips) = as_const_i64(func, n) {
        if trips < 8 {
            return None;
        }
    }
    let parts = match x {
        Some(x) => match match_acc_from_x(func, acc.1, acc.0, x.0) {
            Some(s) => Some((s.0, PackVal::Ssa(x.1), PackVal::Ssa(x.2), s.1)),
            None => None,
        },
        None => match_acc_from_cast(func, acc.1, acc.0, iv),
    };
    match parts {
        Some(p) => if is_invariant(func, p.0, mask) && pack_invariant(func, p.1, mask)
            && pack_invariant(func, p.2, mask) && pack_invariant(func, p.3, mask) {
            Some(AxpySpec { n, a: p.0, x0: p.1, dx: p.2, y: p.3 })
        } else {
            None
        },
        None => None,
    }
}

fn match_axpy(func: &MirFunc) -> (r: Option<AxpySpec>)
    requires
        func@.indexed(),
    ensures
        r == axpy(func@),
{
    if func.ret_ty != Some(MirTy::F64) {
        return None;
    }
    let ghost f = func@;
    let loops = natural_loops(func);
    if loops.len() != 1 {
        return None;
    }
    proof {
        super::licm::loops_are_blocks(f, 0);
        assert(loops_view(loops@)[0] == (loops@[0].header, loops@[0].blocks@));
        assert(loops_from(f, 0)[0].0.0 < f.blocks.len());
    }
    let mask = &loops[0].blocks;
    let head = loops[0].header;
    let h = head.index();
    assert(f.blocks[h as int] == func.blocks@[h as int]@);
    assert(f.block_indexed(f.blocks[h as int], h as int));
    let latch = match find_latch(func, head, mask) {
        Some(l) => l,
        None => return None,
    };
    if let Some(Terminator::Br { cond, taken, not_taken }) = &func.blocks[h].term {
        proof {
            let t = f.blocks[h as int].term->0;
            assert(t.targets()[0].0 < f.blocks.len() && t.targets()[1].0 < f.blocks.len());
        }
        if mask[taken.index()] && !mask[not_taken.index()] {
            match_loop(func, h, mask, latch, *cond, true, *not_taken)
        } else if mask[not_taken.index()] && !mask[taken.index()] {
            match_loop(func, h, mask, latch, *cond, false, *taken)
        } else {
            None
        }
    } else {
        None
    }
}

fn param_slot(func: &MirFunc, v: ValueId) -> (r: Option<u32>)
    ensures
        r == param_at(func@.params, v, 0),
{
    let mut i: usize = 0;
    while i < func.params.len()
        invariant
            i <= func.params@.len(),
            param_at(func.params@, v, 0) == param_at(func.params@, v, i as int),
        decreases func.params@.len() - i,
    {
        if func.params[i] == v {
            return Some(i as u32);
        }
        i += 1;
    }
    None
}

fn intern_pool(pool: &mut Vec<u64>, bits: u64) -> (r: Option<u32>)
    ensures
        (r, final(pool)@) == interned(old(pool)@, bits),
{
    proof {
        pool_pos_bound(pool@, bits, 0);
    }
    match find_in_pool(pool, bits) {
        Some(i) => if i as u64 <= u32::MAX as u64 {
            Some(i as u32)
        } else {
            None
        },
        None => {
            let n = pool.len();
            if n as u64 > u32::MAX as u64 {
                return None;
            }
            pool.push(bits);
            Some(n as u32)
        },
    }
}

fn emit_bits(pool: &mut Vec<u64>, bits: u64) -> (r: Option<IlOp>)
    ensures
        (r, final(pool)@) == bits_op(old(pool)@, bits),
{
    match intern_pool(pool, bits) {
        Some(idx) => Some(IlOp::ConstPool { idx, loc: DebugLoc::unknown() }),
        None => None,
    }
}

fn emit_value(func: &MirFunc, v: PackVal, pool: &mut Vec<u64>) -> (r: Option<IlOp>)
    ensures
        (r, final(pool)@) == value_op(func@, v, old(pool)@),
{
    match v {
        PackVal::F64(bits) => emit_bits(pool, bits),
        PackVal::Ssa(id) => match param_slot(func, id) {
            Some(slot) => Some(IlOp::Load { slot, loc: DebugLoc::unknown() }),
            None => match as_const(func, id) {
                Some(MirConst::I64(n)) => if n >= i32::MIN as i64 && n <= i32::MAX as i64 {
                    Some(IlOp::Const { imm: n as i32, loc: DebugLoc::unknown() })
                } else {
                    None
                },
                Some(MirConst::F64(bits)) => emit_bits(pool, bits),
                _ => None,
            },
        },
    }
}

fn emit_values(func: &MirFunc, vs: &Vec<PackVal>, pool: &mut Vec<u64>, out: &mut Vec<IlOp>) -> (r: bool)
    ensures
        ({
            let (ops, p) = value_ops(func@, vs@, 0, old(pool)@, old(out)@);
            &&& final(pool)@ == p
            &&& r == (ops is Some)
            &&& ops matches Some(v) ==> final(out)@ == v
        }),
{
    let ghost p0 = pool@;
    let ghost o0 = out@;
    let mut i: usize = 0;
    while i < vs.len()
        invariant
            i <= vs@.len(),
            p0 == old(pool)@,
            o0 == old(out)@,
            value_ops(func@, vs@, 0, p0, o0) == value_ops(func@, vs@, i as int, pool@, out@),
        decreases vs@.len() - i,
    {
        match emit_value(func, vs[i], pool) {
            Some(op) => {
                out.push(op);
            },
            None => {
                return false;
            },
        }
        i += 1;
    }
    true
}

/// The body that makes one host call in place of the function's loop, where it is such a loop.
/// Constants are appended to `pool`.
pub fn try_axpy_pack(func: &MirFunc, entry_label: Option<Label>, pool: &mut Vec<u64>) -> (r: Option<
    Vec<IlOp>,
>)
    requires
        func@.indexed(),
    ensures
        ({
            let (ops, p) = packed(func@, entry_label, old(pool)@);
            &&& final(pool)@ == p
            &&& match ops {
                Some(v) => r matches Some(x) && x@ == v,
                None => r is None,
            }
        }),
{
    let s = match match_axpy(func) {
        Some(s) => s,
        None => return None,
    };
    let loc = DebugLoc::unknown();
    let label = match entry_label {
        Some(l) => l,
        None => Label(0),
    };
    let mut out: Vec<IlOp> = Vec::new();
    out.push(IlOp::Label(label));
    out.push(IlOp::Const { imm: SIMD_AXPY_REDUCE_ID as i32, loc });
    let mut vs: Vec<PackVal> = Vec::new();
    vs.push(PackVal::Ssa(s.n));
    vs.push(PackVal::Ssa(s.a));
    vs.push(s.x0);
    vs.push(s.dx);
    vs.push(s.y);
    assert(vs@ =~= arguments(s));
    assert(out@ =~= call_head(entry_label));
    if !emit_values(func, &vs, pool, &mut out) {
        return None;
    }
    out.push(IlOp::HostInvoke { arity: 5, layout: 0, loc });
    out.push(IlOp::Return { loc, ret_words: 1 });
    Some(out)
}

/// A loop of fewer than eight known trips stays.
pub proof fn short_loops_stay(f: FuncV)
    requires
        axpy(f) is Some,
        constant_int(f, axpy(f)->0.n) is Some,
    ensures
        constant_int(f, axpy(f)->0.n)->0 >= 8,
{
}

} // verus!

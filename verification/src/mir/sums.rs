//! Loops that one call takes the place of: what is read off the loop is what it computes.
//!
//! Sums are taken in another order than the loop takes them, so float arithmetic stands here for
//! arithmetic in which order does not count.
use super::eval::{agrees, agrees_with, bin_value};
use super::func::FuncV;
use super::index::first_in;
use super::inst::{InstV, MirBinOp, ValueId};
use super::pack::{
    affine, bound_of, counts_up, factor, fadd, fmul, inner_sum, int_of, made_in, maker,
    operands_of, scaled, step_of, summed, PackVal,
};
use super::sameness::agrees_everywhere;
use super::ty::MirTy;
use crate::words::{wrap64, Floats, Machine};
use vstd::prelude::*;

verus! {

/// Arithmetic in which the order of operands does not count.
pub open spec fn orderless(f: Floats) -> bool {
    &&& f.commutes()
    &&& forall|a: int, b: int, c: int| #[trigger] (f.plus)((f.plus)(a, b), c) == (f.plus)(a, (f.plus)(b, c))
    &&& forall|a: int| #[trigger] (f.plus)(a, 0) == a
    &&& forall|a: int| #[trigger] (f.times)(a, wrap64(0x3FF0_0000_0000_0000)) == a
}

/// The word of an argument of the call.
pub open spec fn argument_word(v: PackVal, env: Map<u32, int>) -> int {
    match v {
        PackVal::Ssa(x) => env[x.0],
        PackVal::F64(bits) => wrap64(bits as int),
    }
}

proof fn first_is_there(insts: Seq<InstV>, v: ValueId, i: nat)
    ensures
        first_in(insts, v, i) matches Some(k) ==> i <= k < insts.len() && insts[k as int].dest() == v,
    decreases insts.len() - i,
{
    if i < insts.len() {
        first_is_there(insts, v, i + 1);
    }
}

proof fn made_is_there(f: FuncV, v: ValueId, b: int)
    requires
        0 <= b,
    ensures
        made_in(f, v, b) matches Some(k) ==> b <= k < f.blocks.len() && first_in(f.blocks[k].insts, v, 0) is Some,
    decreases f.blocks.len() - b,
{
    if b < f.blocks.len() {
        made_is_there(f, v, b + 1);
    }
}

/// What makes a value gives its word.
proof fn makers_give_the_word(m: Machine, f: FuncV, v: ValueId, env: Map<u32, int>)
    requires
        agrees_everywhere(m, f, env),
    ensures
        maker(f, v) matches Some(inst) ==> inst.dest() == v && agrees(m, f.types, inst, env),
{
    made_is_there(f, v, 0);
    if let Some(b) = made_in(f, v, 0) {
        first_is_there(f.blocks[b].insts, v, 0);
        assert(agrees_with(m, f.types, f.blocks[b].insts, env));
    }
}

/// Operands that are read off a value give its word.
proof fn operands_give_the_word(m: Machine, f: FuncV, v: ValueId, op: MirBinOp, ty: MirTy, env: Map<u32, int>)
    requires
        agrees_everywhere(m, f, env),
    ensures
        operands_of(f, v, op, ty) matches Some(p) ==> bin_value(m, op, ty, env[p.0.0], env[p.1.0]) == Some(env[v.0]),
{
    makers_give_the_word(m, f, v, env);
}

proof fn sums_give_the_word(m: Machine, f: FuncV, v: ValueId, env: Map<u32, int>)
    requires
        agrees_everywhere(m, f, env),
    ensures
        fadd(f, v) matches Some(p) ==> env[v.0] == (m.wide.plus)(env[p.0.0], env[p.1.0]),
        fmul(f, v) matches Some(p) ==> env[v.0] == (m.wide.times)(env[p.0.0], env[p.1.0]),
{
    operands_give_the_word(m, f, v, MirBinOp::Add, MirTy::F64, env);
    operands_give_the_word(m, f, v, MirBinOp::Mul, MirTy::F64, env);
}

/// The factor that is read off a product, times the other factor, is the product.
pub proof fn factors_give_the_product(m: Machine, f: FuncV, v: ValueId, x: ValueId, env: Map<u32, int>)
    requires
        orderless(m.wide),
        agrees_everywhere(m, f, env),
    ensures
        factor(f, v, x) matches Some(a) ==> env[v.0] == (m.wide.times)(env[a.0], env[x.0]),
{
    sums_give_the_word(m, f, v, env);
    if let Some(p) = fmul(f, v) {
        assert((m.wide.times)(env[p.0.0], env[p.1.0]) == (m.wide.times)(env[p.1.0], env[p.0.0]));
    }
}

proof fn inner_sums_give_the_word(
    m: Machine,
    f: FuncV,
    v: ValueId,
    acc: ValueId,
    x: ValueId,
    env: Map<u32, int>,
)
    requires
        orderless(m.wide),
        agrees_everywhere(m, f, env),
    ensures
        inner_sum(f, v, acc, x) matches Some(a) ==> env[v.0] == (m.wide.plus)(
            env[acc.0],
            (m.wide.times)(env[a.0], env[x.0]),
        ),
{
    sums_give_the_word(m, f, v, env);
    if let Some(p) = fadd(f, v) {
        assert((m.wide.plus)(env[p.0.0], env[p.1.0]) == (m.wide.plus)(env[p.1.0], env[p.0.0]));
        factors_give_the_product(m, f, p.0, x, env);
        factors_give_the_product(m, f, p.1, x, env);
    }
}

/// One trip adds to the sum the factor times `x`, plus what is added besides.
pub proof fn one_trip_adds_the_product(
    m: Machine,
    f: FuncV,
    step: ValueId,
    acc: ValueId,
    x: ValueId,
    env: Map<u32, int>,
)
    requires
        orderless(m.wide),
        agrees_everywhere(m, f, env),
    ensures
        summed(f, step, acc, x) matches Some(s) ==> env[step.0] == (m.wide.plus)(
            env[acc.0],
            (m.wide.plus)((m.wide.times)(env[s.0.0], env[x.0]), argument_word(s.1, env)),
        ),
{
    sums_give_the_word(m, f, step, env);
    if let Some(p) = fadd(f, step) {
        let l = env[p.0.0];
        let r = env[p.1.0];
        assert((m.wide.plus)(l, r) == (m.wide.plus)(r, l));
        assert(wrap64(0) == 0);
        let o = if p.0 == acc {
            p.1
        } else {
            p.0
        };
        factors_give_the_product(m, f, o, x, env);
        sums_give_the_word(m, f, o, env);
        if let Some(q) = fadd(f, o) {
            assert((m.wide.plus)(env[q.0.0], env[q.1.0]) == (m.wide.plus)(env[q.1.0], env[q.0.0]));
            factors_give_the_product(m, f, q.0, x, env);
            factors_give_the_product(m, f, q.1, x, env);
        }
        inner_sums_give_the_word(m, f, p.0, acc, x, env);
        inner_sums_give_the_word(m, f, p.1, acc, x, env);
        if let Some(s) = summed(f, step, acc, x) {
            let t = (m.wide.times)(env[s.0.0], env[x.0]);
            let y = argument_word(s.1, env);
            assert((m.wide.plus)(t, 0) == t);
            assert((m.wide.plus)((m.wide.plus)(env[acc.0], t), y) == (m.wide.plus)(env[acc.0], (m.wide.plus)(t, y)));
        }
    }
}

proof fn scaled_values_are_products(m: Machine, f: FuncV, v: ValueId, iv: ValueId, env: Map<u32, int>)
    requires
        orderless(m.wide),
        agrees_everywhere(m, f, env),
        casts_are_wide(f),
    ensures
        scaled(f, v, iv) matches Some(d) ==> env[v.0] == (m.wide.times)(
            (m.wide.of_number)(env[iv.0]),
            argument_word(d, env),
        ),
{
    makers_give_the_word(m, f, v, env);
    sums_give_the_word(m, f, v, env);
    if int_of(f, v) == Some(iv) {
        assert(cast_is_wide(f, v));
    }
    if let Some(p) = fmul(f, v) {
        makers_give_the_word(m, f, p.0, env);
        makers_give_the_word(m, f, p.1, env);
        assert(cast_is_wide(f, p.0) && cast_is_wide(f, p.1));
        assert((m.wide.times)(env[p.0.0], env[p.1.0]) == (m.wide.times)(env[p.1.0], env[p.0.0]));
    }
}

/// The conversion that makes `v` makes a 64-bit float.
pub open spec fn cast_is_wide(f: FuncV, v: ValueId) -> bool {
    maker(f, v) matches Some(InstV::Cast { to, .. }) ==> !(to is F32)
}

pub open spec fn casts_are_wide(f: FuncV) -> bool {
    forall|v: ValueId| #[trigger] cast_is_wide(f, v)
}

/// A value that is read as running with the counter is its start plus the counter times its step.
pub proof fn running_values_follow_the_counter(m: Machine, f: FuncV, v: ValueId, iv: ValueId, env: Map<u32, int>)
    requires
        orderless(m.wide),
        agrees_everywhere(m, f, env),
        casts_are_wide(f),
    ensures
        affine(f, v, iv) matches Some(q) ==> env[v.0] == (m.wide.plus)(
            (m.wide.times)((m.wide.of_number)(env[iv.0]), argument_word(q.1, env)),
            argument_word(q.0, env),
        ),
{
    scaled_values_are_products(m, f, v, iv, env);
    sums_give_the_word(m, f, v, env);
    assert(wrap64(0) == 0);
    assert((m.wide.plus)(env[v.0], 0) == env[v.0]);
    if let Some(p) = fadd(f, v) {
        scaled_values_are_products(m, f, p.0, iv, env);
        scaled_values_are_products(m, f, p.1, iv, env);
        assert((m.wide.plus)(env[p.0.0], env[p.1.0]) == (m.wide.plus)(env[p.1.0], env[p.0.0]));
    }
}

/// Control stays in the loop just as long as the counter is below the bound that is read off.
pub proof fn bounds_end_the_loop(
    m: Machine,
    f: FuncV,
    cond: ValueId,
    iv: ValueId,
    taken_is_body: bool,
    env: Map<u32, int>,
)
    requires
        agrees_everywhere(m, f, env),
    ensures
        bound_of(f, cond, iv, taken_is_body) matches Some(n) ==> ((env[cond.0] != 0) == taken_is_body <==> env[iv.0]
            < env[n.0]),
{
    makers_give_the_word(m, f, cond, env);
}

/// The counter counts up by one.
pub proof fn counters_count_by_one(m: Machine, f: FuncV, v: ValueId, iv: ValueId, env: Map<u32, int>)
    requires
        agrees_everywhere(m, f, env),
    ensures
        counts_up(f, v, iv) ==> env[v.0] == wrap64(env[iv.0] + 1),
{
    operands_give_the_word(m, f, v, MirBinOp::Add, MirTy::I64, env);
    if let Some(p) = operands_of(f, v, MirBinOp::Add, MirTy::I64) {
        makers_give_the_word(m, f, p.0, env);
        makers_give_the_word(m, f, p.1, env);
    }
}

/// A value that runs by itself grows by the step that is read off.
pub proof fn running_values_grow_by_their_step(
    m: Machine,
    f: FuncV,
    v: ValueId,
    x: ValueId,
    mask: Seq<bool>,
    env: Map<u32, int>,
)
    requires
        orderless(m.wide),
        agrees_everywhere(m, f, env),
    ensures
        step_of(f, v, x, mask) matches Some(d) ==> env[v.0] == (m.wide.plus)(env[x.0], env[d.0]),
{
    sums_give_the_word(m, f, v, env);
    if let Some(p) = fadd(f, v) {
        assert((m.wide.plus)(env[p.0.0], env[p.1.0]) == (m.wide.plus)(env[p.1.0], env[p.0.0]));
    }
}

} // verus!

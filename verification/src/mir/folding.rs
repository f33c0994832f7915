//! Combined instructions compute what the instructions they take the place of computed.
use super::eval::{
    agrees, agrees_with, bin_value, cast_value, compare_holds, computes, const_value, floats, renaming_keeps_values,
    result_ty, stands_for, typed, unary_value,
};
use super::func::{BlockV, FuncV};
use super::inst::{map_value, BlockId, InstV, MirBinOp, MirCastKind, MirCmpOp, MirConst, MirUnaryOp, TermV, ValueId};
use super::instcombine::{
    bin_const, cast_const, combined_once, compare_const, const_of, consts_from, consts_in, consts_of, decided, doubled, float_bin, float_cast, fold_of, gives_zero,
    identity, int32_result, int_result, known, neg_const, number32, number64, rank32, rank64, straightened, walk_blocks,
    walk_insts, zero_of, Fold, FloatOp, WalkV,
};
use super::rewrite::{has_inst, removed, renamed};
use super::sameness::{
    agrees_everywhere, renaming_and_removing_keep_the_function, same_ways, typed_everywhere, way,
};
use super::ty::MirTy;
use crate::words::{
    both_bits, down32, down64, either_bits, numbers_wrap_to_themselves, odd_bits, quotient, remainder, up32, up64,
    wrap64, Floats, Machine,
};
use vstd::prelude::*;

verus! {

proof fn dividing_zero(b: int)
    ensures
        b != 0 ==> quotient(0, b) == 0 && remainder(0, b) == 0,
        b > 0 ==> 0int / b == 0 && 0int % b == 0,
        b < 0 ==> 0int / (-b) == 0 && 0int % (-b) == 0,
{
    if b > 0 {
        assert(0int / b == 0) by (nonlinear_arith)
            requires
                b > 0,
        ;
        assert(0int % b == 0) by (nonlinear_arith)
            requires
                b > 0,
        ;
    } else if b < 0 {
        let d = -b;
        assert(0int / d == 0) by (nonlinear_arith)
            requires
                d > 0,
        ;
        assert(0int % d == 0) by (nonlinear_arith)
            requires
                d > 0,
        ;
    }
}

/// Quotient and remainder by the signs of their operands.
proof fn quotients_by_signs(x: int, d: int)
    requires
        d != 0,
    ensures
        quotient(x, d) == (if x == 0 {
            0
        } else if x > 0 && d > 0 {
            x / d
        } else if x < 0 && d < 0 {
            ((x * -1) / (d * -1))
        } else if x < 0 {
            ((x * -1) / d) * -1
        } else {
            (x / (d * -1)) * -1
        }),
        remainder(x, d) == (if x == 0 {
            0
        } else if x > 0 && d > 0 {
            x % d
        } else if x < 0 && d < 0 {
            ((x * -1) % (d * -1)) * -1
        } else if x < 0 {
            ((x * -1) % d) * -1
        } else {
            x % (d * -1)
        }),
        d == -1 ==> quotient(x, d) == -x,
{
    dividing_zero(d);
    assert(x * -1 == -x && d * -1 == -d);
    if d == -1 {
        assert(-d == 1);
        assert(x / 1 == x && (-x) / 1 == -x);
        assert(x / (-d) == x && (-x) / (-d) == -x);
    }
}

proof fn folded64_is_the_value(m: Machine, op: MirBinOp, a: i64, b: i64)
    ensures
        int_result(op, a, b) matches Some(v) ==> bin_value(m, op, MirTy::I64, a as int, b as int) == Some(v as int),
{
    if b != 0 {
        quotients_by_signs(a as int, b as int);
    }
}

proof fn folded32_is_the_value(m: Machine, op: MirBinOp, a: i32, b: i32)
    ensures
        int32_result(op, a, b) matches Some(v) ==> bin_value(m, op, MirTy::I32, a as int, b as int) == Some(
            v as int,
        ),
{
    if b != 0 {
        quotients_by_signs(a as int, b as int);
    }
}

/// What folding two integer constants gives is what the operation gives.
pub proof fn folded_integers_are_values(m: Machine, op: MirBinOp, a: i64, b: i64, c: i32, d: i32)
    ensures
        int_result(op, a, b) matches Some(v) ==> bin_value(m, op, MirTy::I64, a as int, b as int) == Some(v as int),
        int32_result(op, c, d) matches Some(v) ==> bin_value(m, op, MirTy::I32, c as int, d as int) == Some(
            v as int,
        ),
{
    folded64_is_the_value(m, op, a, b);
    folded32_is_the_value(m, op, c, d);
}

// Floats as numbers.

/// Two to the power `n`.
pub open spec fn two_to(n: nat) -> nat
    decreases n,
{
    if n == 0 {
        1
    } else {
        2 * two_to((n - 1) as nat)
    }
}

/// Absolute value of a float with `one` steps between powers of two, in units of the smallest one:
/// bits without the sign hold the exponent and, below it, the fraction.
pub open spec fn size_of(x: int, one: int) -> int {
    let e = x / one;
    let frac = x % one;
    if e == 0 {
        frac
    } else {
        (one + frac) * two_to((e - 1) as nat)
    }
}

/// The number that 64 bits stand for, in units of the smallest one.
pub open spec fn number_of64(bits: int) -> int {
    if bits >= 0x8000_0000_0000_0000 {
        -size_of(bits - 0x8000_0000_0000_0000, 0x10_0000_0000_0000)
    } else {
        size_of(bits, 0x10_0000_0000_0000)
    }
}

/// The number that 32 bits stand for, in units of the smallest one.
pub open spec fn number_of32(bits: int) -> int {
    if bits >= 0x8000_0000 {
        -size_of(bits - 0x8000_0000, 0x80_0000)
    } else {
        size_of(bits, 0x80_0000)
    }
}

/// Whether 64 bits stand for no number: the exponent is the highest and the fraction is not 0.
pub open spec fn nan64(bits: int) -> bool {
    let x = bits % 0x8000_0000_0000_0000;
    x / 0x10_0000_0000_0000 == 2047 && x % 0x10_0000_0000_0000 != 0
}

/// Whether 32 bits stand for no number.
pub open spec fn nan32(bits: int) -> bool {
    let x = bits % 0x8000_0000;
    x / 0x80_0000 == 255 && x % 0x80_0000 != 0
}

/// What the laws below ask of float arithmetic: comparisons of numbers go by their size, negation
/// flips the sign bit, and 0, 1 and 2 do in sums, products and quotients what they do with numbers.
/// The sum of 0 and a float is that float, but for the negative 0.
pub open spec fn sane64(f: Floats) -> bool {
    let one = wrap64(0x3FF0_0000_0000_0000);
    let two = wrap64(0x4000_0000_0000_0000);
    &&& forall|a: u64, b: u64|
        !nan64(a as int) && !nan64(b as int) ==> {
            &&& #[trigger] (f.less)(wrap64(a as int), wrap64(b as int)) == (number_of64(a as int) < number_of64(
                b as int,
            ))
            &&& (f.at_most)(wrap64(a as int), wrap64(b as int)) == (number_of64(a as int) <= number_of64(b as int))
            &&& (f.same)(wrap64(a as int), wrap64(b as int)) == (number_of64(a as int) == number_of64(b as int))
        }
    &&& forall|a: u64| #[trigger]
        (f.negated)(wrap64(a as int)) == wrap64(
            if a >= 0x8000_0000_0000_0000 {
                a - 0x8000_0000_0000_0000
            } else {
                a + 0x8000_0000_0000_0000
            },
        )
    &&& forall|x: int| x != wrap64(0x8000_0000_0000_0000) ==> #[trigger] (f.plus)(x, 0) == x
    &&& forall|x: int| x != wrap64(0x8000_0000_0000_0000) ==> #[trigger] (f.plus)(0, x) == x
    &&& forall|x: int| #[trigger] (f.times)(x, one) == x
    &&& forall|x: int| #[trigger] (f.times)(one, x) == x
    &&& forall|x: int| #[trigger] (f.over)(x, one) == x
    &&& forall|x: int| #[trigger] (f.times)(x, two) == (f.plus)(x, x)
    &&& forall|x: int| #[trigger] (f.times)(two, x) == (f.plus)(x, x)
}

/// The same on 32 bits.
pub open spec fn sane32(f: Floats) -> bool {
    let one = 0x3F80_0000int;
    let two = 0x4000_0000int;
    &&& forall|a: u32, b: u32|
        !nan32(a as int) && !nan32(b as int) ==> {
            &&& #[trigger] (f.less)(a as int, b as int) == (number_of32(a as int) < number_of32(b as int))
            &&& (f.at_most)(a as int, b as int) == (number_of32(a as int) <= number_of32(b as int))
            &&& (f.same)(a as int, b as int) == (number_of32(a as int) == number_of32(b as int))
        }
    &&& forall|a: u32| #[trigger]
        (f.negated)(a as int) == (if a >= 0x8000_0000 {
            a - 0x8000_0000
        } else {
            a + 0x8000_0000
        })
    &&& forall|x: int| x != 0x8000_0000 ==> #[trigger] (f.plus)(x, 0) == x
    &&& forall|x: int| x != 0x8000_0000 ==> #[trigger] (f.plus)(0, x) == x
    &&& forall|x: int| #[trigger] (f.times)(x, one) == x
    &&& forall|x: int| #[trigger] (f.times)(one, x) == x
    &&& forall|x: int| #[trigger] (f.over)(x, one) == x
    &&& forall|x: int| #[trigger] (f.times)(x, two) == (f.plus)(x, x)
    &&& forall|x: int| #[trigger] (f.times)(two, x) == (f.plus)(x, x)
}

proof fn two_to_is_positive(n: nat)
    ensures
        two_to(n) > 0,
    decreases n,
{
    if n > 0 {
        two_to_is_positive((n - 1) as nat);
    }
}

/// One step up in the bits is a step up in size.
proof fn next_is_larger(x: int, one: int)
    requires
        0 <= x,
        one > 0,
    ensures
        size_of(x, one) < size_of(x + 1, one),
{
    let e = x / one;
    let frac = x % one;
    assert(0 <= frac < one && x == e * one + frac && e >= 0) by (nonlinear_arith)
        requires
            0 <= x,
            one > 0,
            e == x / one,
            frac == x % one,
    ;
    if frac + 1 < one {
        assert((x + 1) / one == e && (x + 1) % one == frac + 1) by (nonlinear_arith)
            requires
                x == e * one + frac,
                0 <= frac,
                frac + 1 < one,
                one > 0,
        ;
        if e > 0 {
            let p = two_to((e - 1) as nat) as int;
            two_to_is_positive((e - 1) as nat);
            assert((one + frac) * p < (one + frac + 1) * p) by (nonlinear_arith)
                requires
                    p > 0,
            ;
        }
    } else {
        assert((x + 1) / one == e + 1 && (x + 1) % one == 0) by (nonlinear_arith)
            requires
                x == e * one + frac,
                frac + 1 == one,
                one > 0,
        ;
        let q = two_to(e as nat) as int;
        two_to_is_positive(e as nat);
        if e > 0 {
            let p = two_to((e - 1) as nat) as int;
            two_to_is_positive((e - 1) as nat);
            assert(q == 2 * p);
            assert((one + frac) * p < one * q) by (nonlinear_arith)
                requires
                    p > 0,
                    q == 2 * p,
                    frac + 1 == one,
                    one > 0,
            ;
            assert((one + 0) * q == one * q);
        } else {
            assert(q == 1);
            assert(one * q == one) by (nonlinear_arith)
                requires
                    q == 1,
            ;
        }
    }
}

proof fn higher_is_larger(x: int, y: int, one: int)
    requires
        0 <= x < y,
        one > 0,
    ensures
        size_of(x, one) < size_of(y, one),
    decreases y - x,
{
    next_is_larger(y - 1, one);
    if x < y - 1 {
        higher_is_larger(x, y - 1, one);
    }
}

proof fn sizes_order(x: int, y: int, one: int)
    requires
        0 <= x,
        0 <= y,
        one > 0,
    ensures
        (x < y) == (size_of(x, one) < size_of(y, one)),
        (x == y) == (size_of(x, one) == size_of(y, one)),
        x > 0 ==> size_of(x, one) > 0,
        size_of(0, one) == 0,
{
    dividing_zero(one);
    if x < y {
        higher_is_larger(x, y, one);
    } else if y < x {
        higher_is_larger(y, x, one);
    }
    if x > 0 {
        higher_is_larger(0, x, one);
    }
}

/// Floats stand in the order of their ranks, and have a rank among numbers if they are numbers.
proof fn ranks_order(a: u64, b: u64, c: u32, d: u32)
    ensures
        (rank64(a) < rank64(b)) == (number_of64(a as int) < number_of64(b as int)),
        (rank64(a) == rank64(b)) == (number_of64(a as int) == number_of64(b as int)),
        number64(a) ==> !nan64(a as int),
        (rank32(c) < rank32(d)) == (number_of32(c as int) < number_of32(d as int)),
        (rank32(c) == rank32(d)) == (number_of32(c as int) == number_of32(d as int)),
        number32(c) ==> !nan32(c as int),
{
    let x = if a >= 0x8000_0000_0000_0000 { a - 0x8000_0000_0000_0000 } else { a as int };
    let y = if b >= 0x8000_0000_0000_0000 { b - 0x8000_0000_0000_0000 } else { b as int };
    sizes_order(x, y, 0x10_0000_0000_0000);
    sizes_order(y, x, 0x10_0000_0000_0000);
    let p = if c >= 0x8000_0000 { c - 0x8000_0000 } else { c as int };
    let q = if d >= 0x8000_0000 { d - 0x8000_0000 } else { d as int };
    sizes_order(p, q, 0x80_0000);
    sizes_order(q, p, 0x80_0000);
}

// Instructions.

/// Float arithmetic as numbers have it, on both widths.
pub open spec fn sane(m: Machine) -> bool {
    sane64(m.wide) && sane32(m.narrow)
}

/// The word of float bits of a type.
pub open spec fn float_word(ty: MirTy, bits: u64) -> int {
    if ty is F32 {
        bits as int
    } else {
        wrap64(bits as int)
    }
}

/// The table holds what float arithmetic gives.
pub open spec fn table_right(m: Machine, table: Seq<(FloatOp, u64)>) -> bool {
    forall|i: int|
        0 <= i < table.len() ==> match (#[trigger] table[i]).0 {
            FloatOp::Bin { op, ty, a, b } => {
                &&& bin_value(m, op, ty, float_word(ty, a), float_word(ty, b)) == Some(float_word(ty, table[i].1))
                &&& ty is F32 ==> table[i].1 <= u32::MAX
            },
            FloatOp::Cast { to, from } => {
                &&& (floats(m, to).of_number)(from as int) == float_word(to, table[i].1)
                &&& to is F32 ==> table[i].1 <= u32::MAX
            },
        }
}

proof fn known_is_in_the_table(table: Seq<(FloatOp, u64)>, op: FloatOp, i: int) -> (k: int)
    requires
        0 <= i,
        known(table, op, i) is Some,
    ensures
        i <= k < table.len(),
        table[k] == (op, known(table, op, i)->0),
    decreases table.len() - i,
{
    if table[i].0 == op {
        i
    } else {
        known_is_in_the_table(table, op, i + 1)
    }
}

/// Integers are numbers of their type.
pub open spec fn fits(ty: MirTy, x: int) -> bool {
    &&& ty is I32 ==> i32::MIN <= x <= i32::MAX
    &&& ty is I64 ==> i64::MIN <= x <= i64::MAX
}

/// The negative 0 of a float type.
pub open spec fn minus_zero(ty: MirTy, x: int) -> bool {
    (ty is F64 && x == wrap64(0x8000_0000_0000_0000)) || (ty is F32 && x == 0x8000_0000)
}

/// Operands have the type of the operation, numbers fit it, and no sum of floats has the negative 0
/// for an operand.
pub open spec fn regular(types: Seq<MirTy>, inst: InstV, env: Map<u32, int>) -> bool {
    match inst {
        InstV::Bin { op, ty, lhs, rhs, .. } => {
            &&& types[lhs.0 as int] == ty && types[rhs.0 as int] == ty
            &&& fits(ty, env[lhs.0]) && fits(ty, env[rhs.0])
            &&& op is Add ==> !minus_zero(ty, env[lhs.0]) && !minus_zero(ty, env[rhs.0])
        },
        _ => true,
    }
}

/// Constants that are known have their word and their type.
pub open spec fn consts_right(types: Seq<MirTy>, consts: Map<u32, MirConst>, env: Map<u32, int>) -> bool {
    forall|k: u32| #[trigger]
        consts.dom().contains(k) ==> env[k] == const_value(consts[k]) && types[k as int] == consts[k].const_ty()
}

proof fn neutral_bits(x: i64, y: i32)
    ensures
        both_bits(x as int, -1) == x,
        both_bits(-1, x as int) == x,
        both_bits(x as int, 0) == 0,
        both_bits(0, x as int) == 0,
        either_bits(x as int, 0) == x,
        odd_bits(x as int, 0) == x,
        up64(x as int, 0) == x,
        down64(x as int, 0) == x,
        up32(y as int, 0) == y,
        down32(y as int, 0) == y,
{
    assert(x & -1i64 == x && -1i64 & x == x && x & 0i64 == 0i64 && 0i64 & x == 0i64 && x | 0i64 == x && x ^ 0i64 == x)
        by (bit_vector);
    assert(x << 0u32 == x && x >> 0u32 == x && y << 0u32 == y && y >> 0u32 == y) by (bit_vector);
}

proof fn one_divides(x: int)
    ensures
        quotient(x, 1) == x,
        remainder(x, 1) == 0,
{
    assert(x / 1 == x && (-x) / 1 == -x && x % 1 == 0 && (-x) % 1 == 0);
}

/// Rules for one known integer operand.
proof fn integer_rules_keep_the_value(
    m: Machine,
    op: MirBinOp,
    ty: MirTy,
    lhs: ValueId,
    rhs: ValueId,
    lc: Option<MirConst>,
    rc: Option<MirConst>,
    a: int,
    b: int,
    r: int,
)
    requires
        ty is I32 || ty is I64,
        fits(ty, a) && fits(ty, b),
        lc matches Some(c) ==> a == const_value(c),
        rc matches Some(c) ==> b == const_value(c),
        lhs == rhs ==> a == b,
        bin_value(m, op, ty, a, b) == Some(r),
    ensures
        identity(op, ty, lhs, rhs, lc, rc) matches Some(v) ==> (v == lhs && r == a) || (v == rhs && r == b),
        gives_zero(op, ty, lhs, rhs, lc, rc) ==> r == const_value(zero_of(ty)),
        doubled(op, ty, lhs, rhs, lc, rc) matches Some(v) ==> bin_value(
            m,
            MirBinOp::Add,
            ty,
            if v == lhs { a } else { b },
            if v == lhs { a } else { b },
        ) == Some(r) && (v == lhs || v == rhs),
{
    numbers_wrap_to_themselves(a);
    numbers_wrap_to_themselves(b);
    neutral_bits(
        a as i64,
        if ty is I32 {
            a as i32
        } else {
            0
        },
    );
    neutral_bits(b as i64, 0);
    one_divides(a);
    assert(a * 0 == 0 && 0 * b == 0 && a * 1 == a && 1 * b == b && a * 2 == a + a && 2 * b == b + b);
}

proof fn folded_arithmetic_is_the_value(
    m: Machine,
    op: MirBinOp,
    ty: MirTy,
    x: MirConst,
    y: MirConst,
    table: Seq<(FloatOp, u64)>,
    r: int,
)
    requires
        table_right(m, table),
        bin_value(m, op, ty, const_value(x), const_value(y)) == Some(r),
    ensures
        bin_const(op, ty, x, y, table) matches Some(c) ==> const_value(c) == r && c.const_ty() == ty,
{
    match (ty, x, y) {
        (MirTy::I64, MirConst::I64(a), MirConst::I64(b)) => folded64_is_the_value(m, op, a, b),
        (MirTy::I32, MirConst::I32(a), MirConst::I32(b)) => folded32_is_the_value(m, op, a, b),
        _ => {
            if let Some(f) = float_bin(op, ty, x, y) {
                if known(table, f, 0) is Some {
                    let k = known_is_in_the_table(table, f, 0);
                    assert(table[k].0 == f);
                }
            }
        },
    }
}

proof fn folded_compares_are_the_value(m: Machine, op: MirCmpOp, ty: MirTy, x: MirConst, y: MirConst)
    requires
        sane(m),
    ensures
        compare_const(op, ty, x, y) matches Some(c) ==> compare_holds(m, op, ty, const_value(x), const_value(y)) == c,
{
    match (ty, x, y) {
        (MirTy::F64, MirConst::F64(a), MirConst::F64(b)) => {
            ranks_order(a, b, 0, 0);
            ranks_order(b, a, 0, 0);
            if number64(a) && number64(b) {
                assert((m.wide.less)(wrap64(a as int), wrap64(b as int)) == (rank64(a) < rank64(b)));
                assert((m.wide.less)(wrap64(b as int), wrap64(a as int)) == (rank64(b) < rank64(a)));
            }
        },
        (MirTy::F32, MirConst::F32(a), MirConst::F32(b)) => {
            ranks_order(0, 0, a, b);
            ranks_order(0, 0, b, a);
            if number32(a) && number32(b) {
                assert((m.narrow.less)(a as int, b as int) == (rank32(a) < rank32(b)));
                assert((m.narrow.less)(b as int, a as int) == (rank32(b) < rank32(a)));
            }
        },
        _ => {},
    }
}

proof fn folded_casts_are_the_value(
    m: Machine,
    kind: MirCastKind,
    to: MirTy,
    x: MirConst,
    table: Seq<(FloatOp, u64)>,
)
    requires
        table_right(m, table),
    ensures
        cast_const(kind, to, x, table) matches Some(c) ==> const_value(c) == cast_value(m, kind, to, const_value(x))
            && c.const_ty() == to,
{
    if let Some(f) = float_cast(kind, to, x) {
        if known(table, f, 0) is Some {
            let k = known_is_in_the_table(table, f, 0);
            assert(table[k].0 == f);
        }
    }
}

proof fn negated_constants_are_the_value(m: Machine, x: MirConst)
    requires
        sane(m),
    ensures
        neg_const(x) matches Some(c) ==> const_value(c) == unary_value(m, MirUnaryOp::Neg, x.const_ty(), const_value(x))
            && c.const_ty() == x.const_ty(),
{
    match x {
        MirConst::F64(b) => {
            assert((m.wide.negated)(wrap64(b as int)) == wrap64(
                if b >= 0x8000_0000_0000_0000 {
                    b - 0x8000_0000_0000_0000
                } else {
                    b + 0x8000_0000_0000_0000
                },
            ));
        },
        _ => {},
    }
}

/// What takes the place of an instruction gives what the instruction gives: the value that is kept
/// has its word, the constant is its word, and the sum of a value with itself is the product that
/// it was.
pub proof fn folds_keep_the_value(
    m: Machine,
    types: Seq<MirTy>,
    inst: InstV,
    consts: Map<u32, MirConst>,
    table: Seq<(FloatOp, u64)>,
    env: Map<u32, int>,
)
    requires
        sane(m),
        table_right(m, table),
        consts_right(types, consts, env),
        regular(types, inst, env),
        agrees(m, types, inst, env),
    ensures
        match fold_of(inst, consts, table) {
            Fold::Subst(v) => env[inst.dest().0] == env[v.0] && types[v.0 as int] == result_ty(types, inst),
            Fold::ToConst(c) => env[inst.dest().0] == const_value(c) && c.const_ty() == result_ty(types, inst),
            Fold::Twice(v) => inst is Bin && types[v.0 as int] == inst->Bin_ty && bin_value(
                m,
                MirBinOp::Add,
                inst->Bin_ty,
                env[v.0],
                env[v.0],
            ) == Some(env[inst.dest().0]),
            Fold::Keep => true,
        },
{
    match inst {
        InstV::Bin { dest, op, ty, lhs, rhs } => {
            let lc = const_of(consts, lhs);
            let rc = const_of(consts, rhs);
            if let (Some(x), Some(y)) = (lc, rc) {
                folded_arithmetic_is_the_value(m, op, ty, x, y, table, env[dest.0]);
            }
            if ty is I32 || ty is I64 {
                integer_rules_keep_the_value(
                    m,
                    op,
                    ty,
                    lhs,
                    rhs,
                    lc,
                    rc,
                    env[lhs.0],
                    env[rhs.0],
                    env[dest.0],
                );
            } else if ty is F64 {
                assert((m.wide.plus)(env[lhs.0], env[lhs.0]) == (m.wide.plus)(env[lhs.0], env[lhs.0]));
            }
        },
        InstV::Cmp { op, ty, lhs, rhs, .. } => {
            if let (Some(x), Some(y)) = (const_of(consts, lhs), const_of(consts, rhs)) {
                folded_compares_are_the_value(m, op, ty, x, y);
            }
        },
        InstV::Unary { src, .. } => {
            if let Some(x) = const_of(consts, src) {
                negated_constants_are_the_value(m, x);
            }
        },
        InstV::Cast { kind, to, src, .. } => {
            if let Some(x) = const_of(consts, src) {
                folded_casts_are_the_value(m, kind, to, x, table);
            }
        },
        _ => {},
    }
}

/// A branch on a known condition goes where the condition's word sends it.
pub proof fn decided_branches_go_the_same_way(
    types: Seq<MirTy>,
    cond: ValueId,
    taken: BlockId,
    not_taken: BlockId,
    consts: Map<u32, MirConst>,
    env: Map<u32, int>,
)
    requires
        consts_right(types, consts, env),
    ensures
        decided(Some(TermV::Br { cond, taken, not_taken }), consts) matches Some(to) ==> to == (if env[cond.0] != 0 {
            taken
        } else {
            not_taken
        }),
{
}

/// Values that take the place of others have their words, and stay in place themselves.
pub open spec fn redirects(types: Seq<MirTy>, s: WalkV, env: Map<u32, int>) -> bool {
    stands_for(types, s.subst, env) && consts_right(types, s.consts, env)
}

/// Walking over instructions keeps every word: wherever the assignment agrees with the code, it
/// agrees with the rewritten code; values that stand for others have their words; and constants
/// that are known have theirs.
pub proof fn combining_keeps_words(
    m: Machine,
    types: Seq<MirTy>,
    s: WalkV,
    insts: Seq<InstV>,
    i: int,
    done: Seq<InstV>,
    table: Seq<(FloatOp, u64)>,
    env: Map<u32, int>,
)
    requires
        sane(m),
        table_right(m, table),
        0 <= i,
        redirects(types, s, env),
        agrees_with(m, types, insts, env),
        typed(types, insts),
        forall|k: int| 0 <= k < insts.len() ==> regular(types, #[trigger] insts[k], env),
        agrees_with(m, types, done, env),
        typed(types, done),
    ensures
        redirects(types, walk_insts(s, insts, i, done, table).0, env),
        agrees_with(m, types, walk_insts(s, insts, i, done, table).1, env),
        typed(types, walk_insts(s, insts, i, done, table).1),
    decreases insts.len() - i,
{
    if i < insts.len() {
        let inst = insts[i];
        let here = inst.renamed(s.subst);
        let next = s.behind(inst, table);
        let new = s.rewritten(inst, table);
        renaming_keeps_values(m, types, inst, s.subst, env);
        assert(agrees(m, types, inst, env));
        assert(agrees(m, types, here, env));
        assert(regular(types, inst, env));
        assert(regular(types, here, env)) by {
            if let InstV::Bin { lhs, rhs, .. } = inst {
                let a = map_value(s.subst, lhs);
                let b = map_value(s.subst, rhs);
                assert(s.subst.dom().contains(lhs.0) ==> env[lhs.0] == env[a.0]);
                assert(s.subst.dom().contains(rhs.0) ==> env[rhs.0] == env[b.0]);
            }
        }
        assert(result_ty(types, here) == result_ty(types, inst)) by {
            if let InstV::Unary { src, .. } = inst {
                assert(s.subst.dom().contains(src.0) ==> types[src.0 as int] == types[s.subst[src.0].0 as int]);
            }
        }
        folds_keep_the_value(m, types, here, s.consts, table, env);
        let fold = s.fold(inst, table);
        if fold !is Keep {
            assert(computes(inst));
        }
        match fold {
            Fold::Subst(keep) => {
                assert forall|k: u32| #[trigger] next.subst.dom().contains(k) implies env[k] == env[next.subst[k].0]
                    && types[k as int] == types[next.subst[k].0 as int] by {
                    if k != inst.dest().0 {
                        assert(s.subst.dom().contains(k));
                    }
                }
            },
            _ => {},
        }
        assert(redirects(types, next, env));
        assert(agrees(m, types, new, env));
        assert(computes(new) ==> types[new.dest().0 as int] == result_ty(types, new));
        let more = done.push(new);
        assert forall|k: int| 0 <= k < more.len() implies agrees(m, types, #[trigger] more[k], env) && (computes(
            more[k],
        ) ==> types[more[k].dest().0 as int] == result_ty(types, more[k])) by {
            if k < done.len() {
                assert(agrees(m, types, done[k], env));
            }
        }
        combining_keeps_words(m, types, next, insts, i + 1, more, table, env);
    }
}

// Functions.

proof fn constants_are_right(m: Machine, types: Seq<MirTy>, insts: Seq<InstV>, i: int, c: Map<u32, MirConst>, env: Map<u32, int>)
    requires
        0 <= i,
        agrees_with(m, types, insts, env),
        typed(types, insts),
        consts_right(types, c, env),
    ensures
        consts_right(types, consts_in(insts, i, c), env),
    decreases insts.len() - i,
{
    if i < insts.len() {
        assert(agrees(m, types, insts[i], env));
        let next = match insts[i] {
            InstV::Const { dest, c: k } => c.insert(dest.0, k),
            _ => c,
        };
        constants_are_right(m, types, insts, i + 1, next, env);
    }
}

proof fn all_constants_are_right(m: Machine, f: FuncV, b: int, c: Map<u32, MirConst>, env: Map<u32, int>)
    requires
        0 <= b,
        agrees_everywhere(m, f, env),
        typed_everywhere(f),
        consts_right(f.types, c, env),
    ensures
        consts_right(f.types, consts_from(f.blocks, b, c), env),
    decreases f.blocks.len() - b,
{
    if b < f.blocks.len() {
        assert(agrees_with(m, f.types, f.blocks[b].insts, env));
        assert(typed(f.types, f.blocks[b].insts));
        constants_are_right(m, f.types, f.blocks[b].insts, 0, c, env);
        all_constants_are_right(m, f, b + 1, consts_in(f.blocks[b].insts, 0, c), env);
    }
}

/// All instructions are regular.
pub open spec fn regular_everywhere(f: FuncV, env: Map<u32, int>) -> bool {
    forall|b: int, i: int| has_inst(f, b, i) ==> regular(f.types, #[trigger] f.blocks[b].insts[i], env)
}

/// The first blocks, rewritten.
spec fn blocks_kept(m: Machine, f: FuncV, done: Seq<BlockV>, env: Map<u32, int>) -> bool {
    forall|b: int|
        0 <= b < done.len() ==> agrees_with(m, f.types, (#[trigger] done[b]).insts, env) && typed(
            f.types,
            done[b].insts,
        ) && done[b].term == f.blocks[b].term
}

proof fn walking_blocks_keeps_words(
    m: Machine,
    f: FuncV,
    s: WalkV,
    b: int,
    done: Seq<BlockV>,
    table: Seq<(FloatOp, u64)>,
    env: Map<u32, int>,
)
    requires
        sane(m),
        table_right(m, table),
        agrees_everywhere(m, f, env),
        typed_everywhere(f),
        regular_everywhere(f, env),
        redirects(f.types, s, env),
        done.len() == b <= f.blocks.len(),
        blocks_kept(m, f, done, env),
    ensures
        redirects(f.types, walk_blocks(s, f.blocks, b, done, table).0, env),
        blocks_kept(m, f, walk_blocks(s, f.blocks, b, done, table).1, env),
        walk_blocks(s, f.blocks, b, done, table).1.len() == f.blocks.len(),
    decreases f.blocks.len() - b,
{
    if b < f.blocks.len() {
        let insts = f.blocks[b].insts;
        assert(agrees_with(m, f.types, insts, env));
        assert(typed(f.types, insts));
        assert forall|k: int| 0 <= k < insts.len() implies regular(f.types, #[trigger] insts[k], env) by {
            assert(has_inst(f, b, k));
        }
        combining_keeps_words(m, f.types, s, insts, 0, Seq::empty(), table, env);
        let (t, new) = walk_insts(s, insts, 0, Seq::empty(), table);
        let block = BlockV { insts: new, ..f.blocks[b] };
        let more = done.push(block);
        assert forall|x: int| 0 <= x < more.len() implies agrees_with(m, f.types, (#[trigger] more[x]).insts, env)
            && typed(f.types, more[x].insts) && more[x].term == f.blocks[x].term by {
            if x < done.len() {
                assert(more[x] == done[x]);
            }
        }
        walking_blocks_keeps_words(m, f, t, b + 1, more, table, env);
    }
}

/// Combining instructions keeps the function: after one round, an assignment that agreed with the
/// code agrees with what comes out, and every block goes the same way and returns the same words.
pub proof fn combining_keeps_the_function(m: Machine, f: FuncV, table: Seq<(FloatOp, u64)>, env: Map<u32, int>)
    requires
        sane(m),
        table_right(m, table),
        agrees_everywhere(m, f, env),
        typed_everywhere(f),
        regular_everywhere(f, env),
    ensures
        agrees_everywhere(m, combined_once(f, table).0, env),
        typed_everywhere(combined_once(f, table).0),
        same_ways(f, env, combined_once(f, table).0, env),
{
    let start = WalkV { subst: Map::empty(), consts: consts_of(f), hits: 0 };
    all_constants_are_right(m, f, 0, Map::empty(), env);
    walking_blocks_keeps_words(m, f, start, 0, Seq::empty(), table, env);
    let (s, blocks) = walk_blocks(start, f.blocks, 0, Seq::empty(), table);
    let e = FuncV { blocks, ..f };
    assert forall|b: int, tags: spec_fn(int) -> int| 0 <= b < f.blocks.len() implies way(e.blocks[b].term, tags, env)
        == #[trigger] way(f.blocks[b].term, tags, env) by {
        assert(blocks[b].term == f.blocks[b].term);
    }
    renaming_and_removing_keep_the_function(m, e, s.subst, s.subst.dom(), env);
    let g = removed(renamed(e, s.subst), s.subst.dom());
    all_constants_are_right(m, g, 0, Map::empty(), env);
    let consts = consts_of(g);
    let h = combined_once(f, table).0;
    assert(h.blocks =~= Seq::new(g.blocks.len(), |b: int| straightened(g.blocks[b], consts)));
    assert forall|b: int| 0 <= b < h.blocks.len() implies agrees_with(m, h.types, (#[trigger] h.blocks[b]).insts, env)
        && typed(h.types, h.blocks[b].insts) by {
        assert(h.blocks[b].insts == g.blocks[b].insts);
        assert(agrees_with(m, g.types, g.blocks[b].insts, env));
        assert(typed(g.types, g.blocks[b].insts));
    }
    assert forall|b: int, tags: spec_fn(int) -> int| 0 <= b < f.blocks.len() implies way(h.blocks[b].term, tags, env)
        == #[trigger] way(f.blocks[b].term, tags, env) by {
        assert(way(e.blocks[b].term, tags, env) == way(f.blocks[b].term, tags, env));
        assert(way(g.blocks[b].term, tags, env) == way(e.blocks[b].term, tags, env));
        if let Some(TermV::Br { cond, taken, not_taken }) = g.blocks[b].term {
            decided_branches_go_the_same_way(g.types, cond, taken, not_taken, consts, env);
        }
    }
}

} // verus!

//! Cheap rewrites of arithmetic: constants, identities, doubling, and branches on constants.
//!
//! Results of float arithmetic are not computed here: a table holds those that are known.
//! Compares and negation of floats go by their bits.
use super::func::{
    blocks_view, edges_to, hits, insts_view, preds_upto, BlockV, FuncV, MirBlock, MirFunc,
};
use super::inst::{
    map_value, BlockId, InstV, MirBinOp, MirCastKind, MirCmpOp, MirConst, MirInst, MirUnaryOp, TermV,
    Terminator, ValueId,
};
use super::rewrite::{
    dce, has_inst, map_in_range, pruned, pruning_keeps_index, remove_renamed, removed,
    removing_keeps_index, rename_all, renamed, renaming_keeps_index, renaming_renames_uses,
};
use super::ty::MirTy;
use super::valid::{
    before, block_valid, defined_at, defined_before, defined_is_in_range, defines_fresh,
    earlier_is_before, fits, fitting_keeps_validity, inst_valid, no_self_reads,
    pruning_keeps_validity, reads_defined, renaming_keeps_types, replaced_at, replaces_earlier,
    replacing_earlier_is_in_order, same_frame, same_frame_same_fault, same_frame_same_term,
    same_types, substituting_adds_no_self_reads, substituting_keeps_validity, valid,
    values_are_defined_once, verification_finds_the_valid_functions,
};
use crate::idmap::IdMap;
use vstd::prelude::*;

verus! {

// Integers.

/// The result of an integer operation; nothing where it would trap or the shift is too far.
pub open spec fn int_result(op: MirBinOp, a: i64, b: i64) -> Option<i64> {
    match op {
        MirBinOp::Add => Some(a.wrapping_add(b)),
        MirBinOp::Sub => Some(a.wrapping_sub(b)),
        MirBinOp::Mul => Some(a.wrapping_mul(b)),
        MirBinOp::Div => a.checked_div(b),
        MirBinOp::Rem => a.checked_rem(b),
        MirBinOp::BitAnd => Some(a & b),
        MirBinOp::BitOr => Some(a | b),
        MirBinOp::Xor => Some(a ^ b),
        MirBinOp::Shl => if 0 <= b < 64 {
            Some(a.wrapping_shl(b as u32))
        } else {
            None
        },
        MirBinOp::Shr => if 0 <= b < 64 {
            Some(a.wrapping_shr(b as u32))
        } else {
            None
        },
    }
}

fn eval_i64(op: MirBinOp, a: i64, b: i64) -> (r: Option<i64>)
    ensures
        r == int_result(op, a, b),
{
    match op {
        MirBinOp::Add => Some(a.wrapping_add(b)),
        MirBinOp::Sub => Some(a.wrapping_sub(b)),
        MirBinOp::Mul => Some(a.wrapping_mul(b)),
        MirBinOp::Div => a.checked_div(b),
        MirBinOp::Rem => a.checked_rem(b),
        MirBinOp::BitAnd => Some(a & b),
        MirBinOp::BitOr => Some(a | b),
        MirBinOp::Xor => Some(a ^ b),
        MirBinOp::Shl => if 0 <= b && b < 64 {
            Some(a.wrapping_shl(b as u32))
        } else {
            None
        },
        MirBinOp::Shr => if 0 <= b && b < 64 {
            Some(a.wrapping_shr(b as u32))
        } else {
            None
        },
    }
}

/// The result of a 32-bit integer operation.
pub open spec fn int32_result(op: MirBinOp, a: i32, b: i32) -> Option<i32> {
    match op {
        MirBinOp::Add => Some(a.wrapping_add(b)),
        MirBinOp::Sub => Some(a.wrapping_sub(b)),
        MirBinOp::Mul => Some(a.wrapping_mul(b)),
        MirBinOp::Div => a.checked_div(b),
        MirBinOp::Rem => a.checked_rem(b),
        MirBinOp::BitAnd => Some(a & b),
        MirBinOp::BitOr => Some(a | b),
        MirBinOp::Xor => Some(a ^ b),
        MirBinOp::Shl => if 0 <= b < 32 {
            Some(a.wrapping_shl(b as u32))
        } else {
            None
        },
        MirBinOp::Shr => if 0 <= b < 32 {
            Some(a.wrapping_shr(b as u32))
        } else {
            None
        },
    }
}

fn eval_i32(op: MirBinOp, a: i32, b: i32) -> (r: Option<i32>)
    ensures
        r == int32_result(op, a, b),
{
    match op {
        MirBinOp::Add => Some(a.wrapping_add(b)),
        MirBinOp::Sub => Some(a.wrapping_sub(b)),
        MirBinOp::Mul => Some(a.wrapping_mul(b)),
        MirBinOp::Div => a.checked_div(b),
        MirBinOp::Rem => a.checked_rem(b),
        MirBinOp::BitAnd => Some(a & b),
        MirBinOp::BitOr => Some(a | b),
        MirBinOp::Xor => Some(a ^ b),
        MirBinOp::Shl => if 0 <= b && b < 32 {
            Some(a.wrapping_shl(b as u32))
        } else {
            None
        },
        MirBinOp::Shr => if 0 <= b && b < 32 {
            Some(a.wrapping_shr(b as u32))
        } else {
            None
        },
    }
}

/// Whether the compare holds of two integers.
pub open spec fn ordered(op: MirCmpOp, a: int, b: int) -> bool {
    match op {
        MirCmpOp::Lt => a < b,
        MirCmpOp::Le => a <= b,
        MirCmpOp::Gt => a > b,
        MirCmpOp::Ge => a >= b,
        MirCmpOp::Eq => a == b,
        MirCmpOp::Ne => a != b,
    }
}

fn is_ordered(op: MirCmpOp, a: i64, b: i64) -> (r: bool)
    ensures
        r == ordered(op, a as int, b as int),
{
    match op {
        MirCmpOp::Lt => a < b,
        MirCmpOp::Le => a <= b,
        MirCmpOp::Gt => a > b,
        MirCmpOp::Ge => a >= b,
        MirCmpOp::Eq => a == b,
        MirCmpOp::Ne => a != b,
    }
}

// Floats by their bits.

/// Bits of 0, 1 and 2, and of infinity.
pub const F64_ONE: u64 = 0x3FF0_0000_0000_0000;

pub const F64_TWO: u64 = 0x4000_0000_0000_0000;

pub const F64_INF: u64 = 0x7FF0_0000_0000_0000;

pub const F64_SIGN: u64 = 0x8000_0000_0000_0000;

pub const F32_ONE: u32 = 0x3F80_0000;

pub const F32_TWO: u32 = 0x4000_0000;

pub const F32_INF: u32 = 0x7F80_0000;

pub const F32_SIGN: u32 = 0x8000_0000;

/// Where a float of those bits stands in the order of floats: the bits without the sign, negated
/// under a sign. Both zeros stand at 0.
pub open spec fn rank64(bits: u64) -> int {
    if bits >= F64_SIGN {
        -(bits - F64_SIGN)
    } else {
        bits as int
    }
}

/// Where a 32-bit float stands in the order of floats.
pub open spec fn rank32(bits: u32) -> int {
    if bits >= F32_SIGN {
        -(bits - F32_SIGN)
    } else {
        bits as int
    }
}

/// Whether the bits are those of a number.
pub open spec fn number64(bits: u64) -> bool {
    -F64_INF <= rank64(bits) <= F64_INF
}

/// Whether the bits are those of a 32-bit number.
pub open spec fn number32(bits: u32) -> bool {
    -F32_INF <= rank32(bits) <= F32_INF
}

fn find_rank64(bits: u64) -> (r: i64)
    ensures
        r == rank64(bits),
{
    if bits >= F64_SIGN {
        0 - (bits - F64_SIGN) as i64
    } else {
        bits as i64
    }
}

fn find_rank32(bits: u32) -> (r: i64)
    ensures
        r == rank32(bits),
{
    if bits >= F32_SIGN {
        0 - (bits - F32_SIGN) as i64
    } else {
        bits as i64
    }
}

/// The bits with the other sign.
pub open spec fn negated64(bits: u64) -> u64 {
    if bits >= F64_SIGN {
        (bits - F64_SIGN) as u64
    } else {
        (bits + F64_SIGN) as u64
    }
}

/// The bits of a 32-bit float with the other sign.
pub open spec fn negated32(bits: u32) -> u32 {
    if bits >= F32_SIGN {
        (bits - F32_SIGN) as u32
    } else {
        (bits + F32_SIGN) as u32
    }
}

/// An operation whose result is a float: arithmetic on two floats, or an integer as a float.
/// 32-bit floats stand in the low half.
#[derive(Clone, Copy, Debug, PartialEq, Eq, Structural)]
pub enum FloatOp {
    Bin { op: MirBinOp, ty: MirTy, a: u64, b: u64 },
    Cast { to: MirTy, from: i64 },
}

/// The known result of `op`, by the first of the entries from `i` on.
pub open spec fn known(table: Seq<(FloatOp, u64)>, op: FloatOp, i: int) -> Option<u64>
    decreases table.len() - i,
{
    if i >= table.len() {
        None
    } else if table[i].0 == op {
        Some(table[i].1)
    } else {
        known(table, op, i + 1)
    }
}

fn find_known(table: &Vec<(FloatOp, u64)>, op: FloatOp) -> (r: Option<u64>)
    ensures
        r == known(table@, op, 0),
{
    let mut i: usize = 0;
    while i < table.len()
        invariant
            i <= table@.len(),
            known(table@, op, 0) == known(table@, op, i as int),
        decreases table@.len() - i,
    {
        if table[i].0 == op {
            return Some(table[i].1);
        }
        i += 1;
    }
    None
}

/// A float constant of type `ty` with those bits.
pub open spec fn float_const(ty: MirTy, bits: Option<u64>) -> Option<MirConst> {
    match bits {
        Some(x) => if ty == MirTy::F32 {
            Some(MirConst::F32(x as u32))
        } else {
            Some(MirConst::F64(x))
        },
        None => None,
    }
}

fn make_float(ty: MirTy, bits: Option<u64>) -> (r: Option<MirConst>)
    ensures
        r == float_const(ty, bits),
{
    match bits {
        Some(x) => if ty == MirTy::F32 {
            Some(MirConst::F32(x as u32))
        } else {
            Some(MirConst::F64(x))
        },
        None => None,
    }
}

/// The float operation of two constants.
pub open spec fn float_bin(op: MirBinOp, ty: MirTy, a: MirConst, b: MirConst) -> Option<FloatOp> {
    match (ty, a, b) {
        (MirTy::F64, MirConst::F64(x), MirConst::F64(y)) => Some(FloatOp::Bin { op, ty, a: x, b: y }),
        (MirTy::F32, MirConst::F32(x), MirConst::F32(y)) => Some(
            FloatOp::Bin { op, ty, a: x as u64, b: y as u64 },
        ),
        _ => None,
    }
}

/// The operation that makes a float of a constant integer.
pub open spec fn float_cast(kind: MirCastKind, to: MirTy, c: MirConst) -> Option<FloatOp> {
    match (kind, to, c) {
        (MirCastKind::IntToFloat, MirTy::F64, MirConst::I64(v)) => Some(FloatOp::Cast { to, from: v }),
        (MirCastKind::IntToFloat, MirTy::F64, MirConst::I32(v)) => Some(
            FloatOp::Cast { to, from: v as i64 },
        ),
        (MirCastKind::IntToFloat, MirTy::F32, MirConst::I32(v)) => Some(
            FloatOp::Cast { to, from: v as i64 },
        ),
        _ => None,
    }
}

// Constant folding.

/// The constant that an operation on two constants gives.
pub open spec fn bin_const(
    op: MirBinOp,
    ty: MirTy,
    a: MirConst,
    b: MirConst,
    table: Seq<(FloatOp, u64)>,
) -> Option<MirConst> {
    match (ty, a, b) {
        (MirTy::I64, MirConst::I64(x), MirConst::I64(y)) => match int_result(op, x, y) {
            Some(v) => Some(MirConst::I64(v)),
            None => None,
        },
        (MirTy::I32, MirConst::I32(x), MirConst::I32(y)) => match int32_result(op, x, y) {
            Some(v) => Some(MirConst::I32(v)),
            None => None,
        },
        _ => match float_bin(op, ty, a, b) {
            Some(f) => float_const(ty, known(table, f, 0)),
            None => None,
        },
    }
}

fn eval_bin(op: MirBinOp, ty: MirTy, a: MirConst, b: MirConst, table: &Vec<(FloatOp, u64)>) -> (r: Option<
    MirConst,
>)
    ensures
        r == bin_const(op, ty, a, b, table@),
{
    match (ty, a, b) {
        (MirTy::I64, MirConst::I64(x), MirConst::I64(y)) => match eval_i64(op, x, y) {
            Some(v) => Some(MirConst::I64(v)),
            None => None,
        },
        (MirTy::I32, MirConst::I32(x), MirConst::I32(y)) => match eval_i32(op, x, y) {
            Some(v) => Some(MirConst::I32(v)),
            None => None,
        },
        (MirTy::F64, MirConst::F64(x), MirConst::F64(y)) => make_float(
            ty,
            find_known(table, FloatOp::Bin { op, ty, a: x, b: y }),
        ),
        (MirTy::F32, MirConst::F32(x), MirConst::F32(y)) => make_float(
            ty,
            find_known(table, FloatOp::Bin { op, ty, a: x as u64, b: y as u64 }),
        ),
        _ => None,
    }
}

/// What a compare of two constants gives. Floats compare only as numbers.
pub open spec fn compare_const(op: MirCmpOp, ty: MirTy, a: MirConst, b: MirConst) -> Option<bool> {
    match (ty, a, b) {
        (MirTy::I64, MirConst::I64(x), MirConst::I64(y)) => Some(ordered(op, x as int, y as int)),
        (MirTy::I32, MirConst::I32(x), MirConst::I32(y)) => Some(ordered(op, x as int, y as int)),
        (MirTy::F64, MirConst::F64(x), MirConst::F64(y)) => if number64(x) && number64(y) {
            Some(ordered(op, rank64(x), rank64(y)))
        } else {
            None
        },
        (MirTy::F32, MirConst::F32(x), MirConst::F32(y)) => if number32(x) && number32(y) {
            Some(ordered(op, rank32(x), rank32(y)))
        } else {
            None
        },
        _ => None,
    }
}

fn eval_compare(op: MirCmpOp, ty: MirTy, a: MirConst, b: MirConst) -> (r: Option<bool>)
    ensures
        r == compare_const(op, ty, a, b),
{
    match (ty, a, b) {
        (MirTy::I64, MirConst::I64(x), MirConst::I64(y)) => Some(is_ordered(op, x, y)),
        (MirTy::I32, MirConst::I32(x), MirConst::I32(y)) => Some(
            is_ordered(op, x as i64, y as i64),
        ),
        (MirTy::F64, MirConst::F64(x), MirConst::F64(y)) => {
            let p = find_rank64(x);
            let q = find_rank64(y);
            let inf = F64_INF as i64;
            if p >= 0 - inf && p <= inf && q >= 0 - inf && q <= inf {
                Some(is_ordered(op, p, q))
            } else {
                None
            }
        },
        (MirTy::F32, MirConst::F32(x), MirConst::F32(y)) => {
            let p = find_rank32(x);
            let q = find_rank32(y);
            let inf = F32_INF as i64;
            if p >= 0 - inf && p <= inf && q >= 0 - inf && q <= inf {
                Some(is_ordered(op, p, q))
            } else {
                None
            }
        },
        _ => None,
    }
}

/// The negated constant.
pub open spec fn neg_const(c: MirConst) -> Option<MirConst> {
    match c {
        MirConst::I64(v) => Some(MirConst::I64(0i64.wrapping_sub(v))),
        MirConst::I32(v) => Some(MirConst::I32(0i32.wrapping_sub(v))),
        MirConst::F64(b) => Some(MirConst::F64(negated64(b))),
        MirConst::F32(b) => Some(MirConst::F32(negated32(b))),
        MirConst::Bool(_) => None,
    }
}

fn eval_neg(c: MirConst) -> (r: Option<MirConst>)
    ensures
        r == neg_const(c),
{
    match c {
        MirConst::I64(v) => Some(MirConst::I64(0i64.wrapping_sub(v))),
        MirConst::I32(v) => Some(MirConst::I32(0i32.wrapping_sub(v))),
        MirConst::F64(b) => Some(
            MirConst::F64(
                if b >= F64_SIGN {
                    b - F64_SIGN
                } else {
                    b + F64_SIGN
                },
            ),
        ),
        MirConst::F32(b) => Some(
            MirConst::F32(
                if b >= F32_SIGN {
                    b - F32_SIGN
                } else {
                    b + F32_SIGN
                },
            ),
        ),
        MirConst::Bool(_) => None,
    }
}

/// The constant of another type.
pub open spec fn cast_const(
    kind: MirCastKind,
    to: MirTy,
    c: MirConst,
    table: Seq<(FloatOp, u64)>,
) -> Option<MirConst> {
    match (kind, to, c) {
        (MirCastKind::Sext, MirTy::I64, MirConst::I32(v)) => Some(MirConst::I64(v as i64)),
        _ => match float_cast(kind, to, c) {
            Some(f) => float_const(to, known(table, f, 0)),
            None => None,
        },
    }
}

fn eval_cast(kind: MirCastKind, to: MirTy, c: MirConst, table: &Vec<(FloatOp, u64)>) -> (r: Option<
    MirConst,
>)
    ensures
        r == cast_const(kind, to, c, table@),
{
    match (kind, to, c) {
        (MirCastKind::Sext, MirTy::I64, MirConst::I32(v)) => Some(MirConst::I64(v as i64)),
        (MirCastKind::IntToFloat, MirTy::F64, MirConst::I64(v)) => make_float(
            to,
            find_known(table, FloatOp::Cast { to, from: v }),
        ),
        (MirCastKind::IntToFloat, MirTy::F64, MirConst::I32(v)) => make_float(
            to,
            find_known(table, FloatOp::Cast { to, from: v as i64 }),
        ),
        (MirCastKind::IntToFloat, MirTy::F32, MirConst::I32(v)) => make_float(
            to,
            find_known(table, FloatOp::Cast { to, from: v as i64 }),
        ),
        _ => None,
    }
}

// Identities.

/// Whether the constant is 0 of that integer type.
pub open spec fn int_zero(ty: MirTy, c: Option<MirConst>) -> bool {
    (ty == MirTy::I32 && c == Some(MirConst::I32(0))) || (ty == MirTy::I64 && c == Some(
        MirConst::I64(0),
    ))
}

/// Whether the constant is -1 of that integer type.
pub open spec fn int_minus_one(ty: MirTy, c: Option<MirConst>) -> bool {
    (ty == MirTy::I32 && c == Some(MirConst::I32(-1i32))) || (ty == MirTy::I64 && c == Some(
        MirConst::I64(-1i64),
    ))
}

/// Whether the constant is 0 of that type, with the plus sign.
pub open spec fn plus_zero(ty: MirTy, c: Option<MirConst>) -> bool {
    int_zero(ty, c) || (ty == MirTy::F64 && c == Some(MirConst::F64(0))) || (ty == MirTy::F32 && c
        == Some(MirConst::F32(0)))
}

/// Whether the constant is 1 of that type.
pub open spec fn plus_one(ty: MirTy, c: Option<MirConst>) -> bool {
    (ty == MirTy::I32 && c == Some(MirConst::I32(1))) || (ty == MirTy::I64 && c == Some(
        MirConst::I64(1),
    )) || (ty == MirTy::F64 && c == Some(MirConst::F64(F64_ONE))) || (ty == MirTy::F32 && c == Some(
        MirConst::F32(F32_ONE),
    ))
}

/// Whether the constant is 2 of that type.
pub open spec fn plus_two(ty: MirTy, c: Option<MirConst>) -> bool {
    (ty == MirTy::I32 && c == Some(MirConst::I32(2))) || (ty == MirTy::I64 && c == Some(
        MirConst::I64(2),
    )) || (ty == MirTy::F64 && c == Some(MirConst::F64(F64_TWO))) || (ty == MirTy::F32 && c == Some(
        MirConst::F32(F32_TWO),
    ))
}

fn is_int_zero(ty: MirTy, c: Option<MirConst>) -> (r: bool)
    ensures
        r == int_zero(ty, c),
{
    (ty == MirTy::I32 && c == Some(MirConst::I32(0))) || (ty == MirTy::I64 && c == Some(
        MirConst::I64(0),
    ))
}

fn is_int_minus_one(ty: MirTy, c: Option<MirConst>) -> (r: bool)
    ensures
        r == int_minus_one(ty, c),
{
    (ty == MirTy::I32 && c == Some(MirConst::I32(-1))) || (ty == MirTy::I64 && c == Some(
        MirConst::I64(-1),
    ))
}

fn is_plus_zero(ty: MirTy, c: Option<MirConst>) -> (r: bool)
    ensures
        r == plus_zero(ty, c),
{
    is_int_zero(ty, c) || (ty == MirTy::F64 && c == Some(MirConst::F64(0))) || (ty == MirTy::F32 && c
        == Some(MirConst::F32(0)))
}

fn is_plus_one(ty: MirTy, c: Option<MirConst>) -> (r: bool)
    ensures
        r == plus_one(ty, c),
{
    (ty == MirTy::I32 && c == Some(MirConst::I32(1))) || (ty == MirTy::I64 && c == Some(
        MirConst::I64(1),
    )) || (ty == MirTy::F64 && c == Some(MirConst::F64(F64_ONE))) || (ty == MirTy::F32 && c == Some(
        MirConst::F32(F32_ONE),
    ))
}

fn is_plus_two(ty: MirTy, c: Option<MirConst>) -> (r: bool)
    ensures
        r == plus_two(ty, c),
{
    (ty == MirTy::I32 && c == Some(MirConst::I32(2))) || (ty == MirTy::I64 && c == Some(
        MirConst::I64(2),
    )) || (ty == MirTy::F64 && c == Some(MirConst::F64(F64_TWO))) || (ty == MirTy::F32 && c == Some(
        MirConst::F32(F32_TWO),
    ))
}

/// The operand that an operation gives back. A float minus 0 may be -0, so it is none.
pub open spec fn identity(
    op: MirBinOp,
    ty: MirTy,
    lhs: ValueId,
    rhs: ValueId,
    lc: Option<MirConst>,
    rc: Option<MirConst>,
) -> Option<ValueId> {
    match op {
        MirBinOp::Add => if plus_zero(ty, rc) {
            Some(lhs)
        } else if plus_zero(ty, lc) {
            Some(rhs)
        } else {
            None
        },
        MirBinOp::Sub => if int_zero(ty, rc) {
            Some(lhs)
        } else {
            None
        },
        MirBinOp::Mul => if plus_one(ty, rc) {
            Some(lhs)
        } else if plus_one(ty, lc) {
            Some(rhs)
        } else {
            None
        },
        MirBinOp::Div => if plus_one(ty, rc) {
            Some(lhs)
        } else {
            None
        },
        MirBinOp::BitOr | MirBinOp::Xor | MirBinOp::Shl | MirBinOp::Shr => if int_zero(ty, rc) {
            Some(lhs)
        } else {
            None
        },
        MirBinOp::BitAnd => if int_minus_one(ty, rc) {
            Some(lhs)
        } else if int_minus_one(ty, lc) {
            Some(rhs)
        } else {
            None
        },
        MirBinOp::Rem => None,
    }
}

fn find_identity(
    op: MirBinOp,
    ty: MirTy,
    lhs: ValueId,
    rhs: ValueId,
    lc: Option<MirConst>,
    rc: Option<MirConst>,
) -> (r: Option<ValueId>)
    ensures
        r == identity(op, ty, lhs, rhs, lc, rc),
{
    match op {
        MirBinOp::Add => if is_plus_zero(ty, rc) {
            Some(lhs)
        } else if is_plus_zero(ty, lc) {
            Some(rhs)
        } else {
            None
        },
        MirBinOp::Sub => if is_int_zero(ty, rc) {
            Some(lhs)
        } else {
            None
        },
        MirBinOp::Mul => if is_plus_one(ty, rc) {
            Some(lhs)
        } else if is_plus_one(ty, lc) {
            Some(rhs)
        } else {
            None
        },
        MirBinOp::Div => if is_plus_one(ty, rc) {
            Some(lhs)
        } else {
            None
        },
        MirBinOp::BitOr | MirBinOp::Xor | MirBinOp::Shl | MirBinOp::Shr => if is_int_zero(ty, rc) {
            Some(lhs)
        } else {
            None
        },
        MirBinOp::BitAnd => if is_int_minus_one(ty, rc) {
            Some(lhs)
        } else if is_int_minus_one(ty, lc) {
            Some(rhs)
        } else {
            None
        },
        MirBinOp::Rem => None,
    }
}

/// 0 of that integer type.
pub open spec fn zero_of(ty: MirTy) -> MirConst {
    if ty == MirTy::I32 {
        MirConst::I32(0)
    } else {
        MirConst::I64(0)
    }
}

/// Whether an integer operation gives 0 whatever its other operand is.
pub open spec fn gives_zero(
    op: MirBinOp,
    ty: MirTy,
    lhs: ValueId,
    rhs: ValueId,
    lc: Option<MirConst>,
    rc: Option<MirConst>,
) -> bool {
    ty.int_ty() && (match op {
        MirBinOp::Sub => lhs == rhs,
        MirBinOp::Mul | MirBinOp::BitAnd => int_zero(ty, lc) || int_zero(ty, rc),
        MirBinOp::Rem => plus_one(ty, rc),
        _ => false,
    })
}

fn zeroing(
    op: MirBinOp,
    ty: MirTy,
    lhs: ValueId,
    rhs: ValueId,
    lc: Option<MirConst>,
    rc: Option<MirConst>,
) -> (r: Option<MirConst>)
    ensures
        r == (if gives_zero(op, ty, lhs, rhs, lc, rc) {
            Some(zero_of(ty))
        } else {
            None
        }),
{
    if !ty.is_int() {
        return None;
    }
    let zero = match op {
        MirBinOp::Sub => lhs == rhs,
        MirBinOp::Mul | MirBinOp::BitAnd => is_int_zero(ty, lc) || is_int_zero(ty, rc),
        MirBinOp::Rem => is_plus_one(ty, rc),
        _ => false,
    };
    if zero {
        if ty == MirTy::I32 {
            Some(MirConst::I32(0))
        } else {
            Some(MirConst::I64(0))
        }
    } else {
        None
    }
}

/// The operand that a multiplication doubles.
pub open spec fn doubled(
    op: MirBinOp,
    ty: MirTy,
    lhs: ValueId,
    rhs: ValueId,
    lc: Option<MirConst>,
    rc: Option<MirConst>,
) -> Option<ValueId> {
    if !(op is Mul) {
        None
    } else if plus_two(ty, rc) {
        Some(lhs)
    } else if plus_two(ty, lc) {
        Some(rhs)
    } else {
        None
    }
}

fn strength_mul2(
    op: MirBinOp,
    ty: MirTy,
    lhs: ValueId,
    rhs: ValueId,
    lc: Option<MirConst>,
    rc: Option<MirConst>,
) -> (r: Option<ValueId>)
    ensures
        r == doubled(op, ty, lhs, rhs, lc, rc),
{
    match op {
        MirBinOp::Mul => if is_plus_two(ty, rc) {
            Some(lhs)
        } else if is_plus_two(ty, lc) {
            Some(rhs)
        } else {
            None
        },
        _ => None,
    }
}

/// What becomes of an instruction.
#[derive(Clone, Copy, Debug, PartialEq, Eq, Structural)]
pub enum Fold {
    Keep,
    /// An existing value takes its place.
    Subst(ValueId),
    ToConst(MirConst),
    /// It becomes the sum of the value and itself.
    Twice(ValueId),
}

/// The constant that a value holds.
pub open spec fn const_of(consts: Map<u32, MirConst>, v: ValueId) -> Option<MirConst> {
    if consts.dom().contains(v.0) {
        Some(consts[v.0])
    } else {
        None
    }
}

/// A constant, or nothing to do.
pub open spec fn fold_to(c: Option<MirConst>) -> Fold {
    match c {
        Some(c) => Fold::ToConst(c),
        None => Fold::Keep,
    }
}

/// What becomes of an arithmetic operation.
pub open spec fn bin_fold(
    op: MirBinOp,
    ty: MirTy,
    lhs: ValueId,
    rhs: ValueId,
    lc: Option<MirConst>,
    rc: Option<MirConst>,
    table: Seq<(FloatOp, u64)>,
) -> Fold {
    let whole = match (lc, rc) {
        (Some(a), Some(b)) => bin_const(op, ty, a, b, table),
        _ => None,
    };
    match whole {
        Some(c) => Fold::ToConst(c),
        None => match identity(op, ty, lhs, rhs, lc, rc) {
            Some(v) => Fold::Subst(v),
            None => if gives_zero(op, ty, lhs, rhs, lc, rc) {
                Fold::ToConst(zero_of(ty))
            } else {
                match doubled(op, ty, lhs, rhs, lc, rc) {
                    Some(v) => Fold::Twice(v),
                    None => Fold::Keep,
                }
            },
        },
    }
}

/// What becomes of an instruction.
pub open spec fn fold_of(inst: InstV, consts: Map<u32, MirConst>, table: Seq<(FloatOp, u64)>) -> Fold {
    match inst {
        InstV::Bin { op, ty, lhs, rhs, .. } => bin_fold(
            op,
            ty,
            lhs,
            rhs,
            const_of(consts, lhs),
            const_of(consts, rhs),
            table,
        ),
        InstV::Cmp { op, ty, lhs, rhs, .. } => match (const_of(consts, lhs), const_of(consts, rhs)) {
            (Some(a), Some(b)) => match compare_const(op, ty, a, b) {
                Some(c) => Fold::ToConst(MirConst::Bool(c)),
                None => Fold::Keep,
            },
            _ => Fold::Keep,
        },
        InstV::Unary { op, src, .. } => match (op, const_of(consts, src)) {
            (MirUnaryOp::Neg, Some(c)) => fold_to(neg_const(c)),
            (MirUnaryOp::Not, Some(MirConst::Bool(b))) => Fold::ToConst(MirConst::Bool(!b)),
            _ => Fold::Keep,
        },
        InstV::Cast { kind, to, src, .. } => match const_of(consts, src) {
            Some(c) => fold_to(cast_const(kind, to, c, table)),
            None => Fold::Keep,
        },
        _ => Fold::Keep,
    }
}

fn find_const(consts: &IdMap<MirConst>, v: ValueId) -> (r: Option<MirConst>)
    ensures
        r == const_of(consts@, v),
{
    match consts.get(&v.0) {
        Some(c) => Some(*c),
        None => None,
    }
}

fn make_fold(c: Option<MirConst>) -> (r: Fold)
    ensures
        r == fold_to(c),
{
    match c {
        Some(c) => Fold::ToConst(c),
        None => Fold::Keep,
    }
}

fn fold_bin(
    op: MirBinOp,
    ty: MirTy,
    lhs: ValueId,
    rhs: ValueId,
    lc: Option<MirConst>,
    rc: Option<MirConst>,
    table: &Vec<(FloatOp, u64)>,
) -> (r: Fold)
    ensures
        r == bin_fold(op, ty, lhs, rhs, lc, rc, table@),
{
    if let (Some(a), Some(b)) = (lc, rc) {
        if let Some(c) = eval_bin(op, ty, a, b, table) {
            return Fold::ToConst(c);
        }
    }
    if let Some(v) = find_identity(op, ty, lhs, rhs, lc, rc) {
        return Fold::Subst(v);
    }
    if let Some(c) = zeroing(op, ty, lhs, rhs, lc, rc) {
        return Fold::ToConst(c);
    }
    if let Some(v) = strength_mul2(op, ty, lhs, rhs, lc, rc) {
        return Fold::Twice(v);
    }
    Fold::Keep
}

fn fold_inst(inst: &MirInst, consts: &IdMap<MirConst>, table: &Vec<(FloatOp, u64)>) -> (r: Fold)
    ensures
        r == fold_of(inst@, consts@, table@),
{
    match inst {
        MirInst::Bin { op, ty, lhs, rhs, .. } => fold_bin(
            *op,
            *ty,
            *lhs,
            *rhs,
            find_const(consts, *lhs),
            find_const(consts, *rhs),
            table,
        ),
        MirInst::Cmp { op, ty, lhs, rhs, .. } => {
            match (find_const(consts, *lhs), find_const(consts, *rhs)) {
                (Some(a), Some(b)) => match eval_compare(*op, *ty, a, b) {
                    Some(c) => Fold::ToConst(MirConst::Bool(c)),
                    None => Fold::Keep,
                },
                _ => Fold::Keep,
            }
        },
        MirInst::Unary { op, src, .. } => match (*op, find_const(consts, *src)) {
            (MirUnaryOp::Neg, Some(c)) => make_fold(eval_neg(c)),
            (MirUnaryOp::Not, Some(MirConst::Bool(b))) => Fold::ToConst(MirConst::Bool(!b)),
            _ => Fold::Keep,
        },
        MirInst::Cast { kind, to, src, .. } => match find_const(consts, *src) {
            Some(c) => make_fold(eval_cast(*kind, *to, c, table)),
            None => Fold::Keep,
        },
        _ => Fold::Keep,
    }
}

// The walk over the code.

/// What the walk has found: values that stand for others, constants, and how much was rewritten.
#[verifier::ext_equal]
pub struct WalkV {
    pub subst: Map<u32, ValueId>,
    pub consts: Map<u32, MirConst>,
    pub hits: nat,
}

/// `m` with `keep` in place of `d`, also where `d` stood for another value.
pub open spec fn redirected(m: Map<u32, ValueId>, d: ValueId, keep: ValueId) -> Map<u32, ValueId> {
    Map::new(
        |k: u32| m.dom().contains(k) || k == d.0,
        |k: u32|
            if k == d.0 || m[k] == d {
                keep
            } else {
                m[k]
            },
    )
}

impl WalkV {
    /// What becomes of the next instruction.
    pub open spec fn fold(self, inst: InstV, table: Seq<(FloatOp, u64)>) -> Fold {
        fold_of(inst.renamed(self.subst), self.consts, table)
    }

    /// The next instruction, rewritten.
    pub open spec fn rewritten(self, inst: InstV, table: Seq<(FloatOp, u64)>) -> InstV {
        match self.fold(inst, table) {
            Fold::ToConst(c) => InstV::Const { dest: inst.dest(), c },
            Fold::Twice(v) => InstV::Bin {
                dest: inst.dest(),
                op: MirBinOp::Add,
                ty: inst->Bin_ty,
                lhs: v,
                rhs: v,
            },
            _ => inst.renamed(self.subst),
        }
    }

    /// What is known behind the next instruction.
    pub open spec fn behind(self, inst: InstV, table: Seq<(FloatOp, u64)>) -> WalkV {
        match self.fold(inst, table) {
            Fold::Subst(keep) => WalkV {
                subst: redirected(self.subst, inst.dest(), keep),
                consts: self.consts,
                hits: self.hits + 1,
            },
            Fold::ToConst(c) => WalkV {
                subst: self.subst,
                consts: self.consts.insert(inst.dest().0, c),
                hits: self.hits + 1,
            },
            Fold::Twice(_) => WalkV { hits: self.hits + 1, ..self },
            Fold::Keep => match inst {
                InstV::Const { dest, c } => WalkV { consts: self.consts.insert(dest.0, c), ..self },
                _ => self,
            },
        }
    }
}

/// The instructions from `i` on, rewritten behind `done`.
pub open spec fn walk_insts(
    s: WalkV,
    insts: Seq<InstV>,
    i: int,
    done: Seq<InstV>,
    table: Seq<(FloatOp, u64)>,
) -> (WalkV, Seq<InstV>)
    decreases insts.len() - i,
{
    if i >= insts.len() {
        (s, done)
    } else {
        walk_insts(
            s.behind(insts[i], table),
            insts,
            i + 1,
            done.push(s.rewritten(insts[i], table)),
            table,
        )
    }
}

/// The blocks from `b` on, rewritten behind `done`.
pub open spec fn walk_blocks(
    s: WalkV,
    blocks: Seq<BlockV>,
    b: int,
    done: Seq<BlockV>,
    table: Seq<(FloatOp, u64)>,
) -> (WalkV, Seq<BlockV>)
    decreases blocks.len() - b,
{
    if b >= blocks.len() {
        (s, done)
    } else {
        let (t, insts) = walk_insts(s, blocks[b].insts, 0, Seq::empty(), table);
        walk_blocks(t, blocks, b + 1, done.push(BlockV { insts, ..blocks[b] }), table)
    }
}

/// `m` with the constants from instruction `i` on.
pub open spec fn consts_in(insts: Seq<InstV>, i: int, m: Map<u32, MirConst>) -> Map<u32, MirConst>
    decreases insts.len() - i,
{
    if i >= insts.len() {
        m
    } else {
        consts_in(
            insts,
            i + 1,
            match insts[i] {
                InstV::Const { dest, c } => m.insert(dest.0, c),
                _ => m,
            },
        )
    }
}

/// `m` with the constants from block `b` on.
pub open spec fn consts_from(blocks: Seq<BlockV>, b: int, m: Map<u32, MirConst>) -> Map<u32, MirConst>
    decreases blocks.len() - b,
{
    if b >= blocks.len() {
        m
    } else {
        consts_from(blocks, b + 1, consts_in(blocks[b].insts, 0, m))
    }
}

/// Every constant of the function.
pub open spec fn consts_of(f: FuncV) -> Map<u32, MirConst> {
    consts_from(f.blocks, 0, Map::empty())
}

/// Where a branch on a known condition goes.
pub open spec fn decided(term: Option<TermV>, consts: Map<u32, MirConst>) -> Option<BlockId> {
    match term {
        Some(TermV::Br { cond, taken, not_taken }) => match const_of(consts, cond) {
            Some(MirConst::Bool(c)) => Some(
                if c {
                    taken
                } else {
                    not_taken
                },
            ),
            _ => None,
        },
        _ => None,
    }
}

/// The block with a jump in place of a branch on a known condition.
pub open spec fn straightened(b: BlockV, consts: Map<u32, MirConst>) -> BlockV {
    match decided(b.term, consts) {
        Some(dest) => BlockV { term: Some(TermV::Jump { dest }), ..b },
        None => b,
    }
}

/// How many of the first `n` blocks branch on a known condition.
pub open spec fn decided_below(blocks: Seq<BlockV>, consts: Map<u32, MirConst>, n: int) -> nat
    decreases n,
{
    if n <= 0 {
        0
    } else {
        decided_below(blocks, consts, n - 1) + (if decided(blocks[n - 1].term, consts) is Some {
            1nat
        } else {
            0nat
        })
    }
}

/// One round: the rewritten function and how much was rewritten.
pub open spec fn combined_once(f: FuncV, table: Seq<(FloatOp, u64)>) -> (FuncV, nat) {
    let (s, blocks) = walk_blocks(
        WalkV { subst: Map::empty(), consts: consts_of(f), hits: 0 },
        f.blocks,
        0,
        Seq::empty(),
        table,
    );
    let g = removed(renamed(FuncV { blocks, ..f }, s.subst), s.subst.dom());
    let known = consts_of(g);
    (
        FuncV { blocks: Seq::new(g.blocks.len(), |b: int| straightened(g.blocks[b], known)), ..g },
        s.hits + decided_below(g.blocks, known, g.blocks.len() as int),
    )
}

/// Up to `k` rounds, until one rewrites nothing.
pub open spec fn combine_rounds(f: FuncV, k: nat, n: nat, table: Seq<(FloatOp, u64)>) -> (FuncV, nat)
    decreases k,
{
    if k == 0 {
        (f, n)
    } else {
        let (g, m) = combined_once(f, table);
        if m == 0 {
            (g, n)
        } else {
            combine_rounds(g, (k - 1) as nat, n + m, table)
        }
    }
}

/// The function after up to eight rounds, without the code that nothing needs any more, and how
/// much was rewritten.
pub open spec fn combined(f: FuncV, table: Seq<(FloatOp, u64)>) -> (FuncV, nat) {
    let (g, n) = combine_rounds(f, 8, 0, table);
    if n > 0 {
        (pruned(g), n)
    } else {
        (g, n)
    }
}

/// A count, or the largest number where it is larger.
pub open spec fn capped(n: nat) -> usize {
    if n > usize::MAX {
        usize::MAX
    } else {
        n as usize
    }
}

fn find_consts(func: &MirFunc) -> (r: IdMap<MirConst>)
    ensures
        r@ == consts_of(func@),
{
    let ghost f = func@;
    let mut r: IdMap<MirConst> = IdMap::new();
    let mut b: usize = 0;
    while b < func.blocks.len()
        invariant
            b <= func.blocks@.len(),
            f == func@,
            consts_of(f) == consts_from(f.blocks, b as int, r@),
        decreases func.blocks@.len() - b,
    {
        let block = &func.blocks[b];
        assert(f.blocks[b as int] == block@);
        let ghost iv = block@.insts;
        let ghost m0 = r@;
        let mut i: usize = 0;
        while i < block.insts.len()
            invariant
                i <= block.insts@.len(),
                iv == block@.insts,
                consts_in(iv, 0, m0) == consts_in(iv, i as int, r@),
            decreases block.insts@.len() - i,
        {
            assert(iv[i as int] == block.insts@[i as int]@);
            if let MirInst::Const { dest, c } = &block.insts[i] {
                r.insert(dest.0, *c);
            }
            i += 1;
        }
        b += 1;
    }
    r
}

/// Puts `keep` in place of `d`.
pub fn redirect(subst: &mut IdMap<ValueId>, d: ValueId, keep: ValueId)
    ensures
        final(subst)@ == redirected(old(subst)@, d, keep),
{
    let ghost m = subst@;
    let mut r: IdMap<ValueId> = IdMap::new();
    let ks = subst.keys();
    let ghost q = ks@;
    proof {
        crate::ids::listing_holds_the_members(m.dom());
    }
    let mut i: usize = 0;
    while i < ks.len()
        invariant
            i <= ks@.len(),
            q == ks@,
            m == subst@,
            forall|k: u32| m.dom().contains(k) <==> #[trigger] q.contains(k),
            forall|k: u32|
                #[trigger] r@.dom().contains(k) <==> (exists|x: int| 0 <= x < i && #[trigger] q[x] == k),
            forall|k: u32|
                #[trigger] r@.dom().contains(k) ==> m.dom().contains(k) && r@[k] == (if m[k] == d {
                    keep
                } else {
                    m[k]
                }),
        decreases ks@.len() - i,
    {
        let k = ks[i];
        assert(q.contains(q[i as int]));
        if let Some(v) = subst.get(&k) {
            let v = *v;
            r.insert(
                k,
                if v == d {
                    keep
                } else {
                    v
                },
            );
        }
        i += 1;
    }
    r.insert(d.0, keep);
    proof {
        assert forall|k: u32| r@.dom().contains(k) == redirected(m, d, keep).dom().contains(k) by {
            if m.dom().contains(k) {
                assert(q.contains(k));
                let x = q.index_of(k);
                assert(q[x] == k);
            }
        }
        assert(r@ =~= redirected(m, d, keep));
    }
    *subst = r;
}

/// Folding gives values that the instruction reads.
proof fn folds_read_operands(inst: InstV, consts: Map<u32, MirConst>, table: Seq<(FloatOp, u64)>)
    ensures
        fold_of(inst, consts, table) matches Fold::Subst(v) ==> inst.uses().contains(v),
        fold_of(inst, consts, table) matches Fold::Twice(v) ==> inst.uses().contains(v) && inst is Bin,
{
    if let InstV::Bin { lhs, rhs, .. } = inst {
        assert(inst.uses()[0] == lhs);
        assert(inst.uses()[1] == rhs);
    }
}

proof fn renamed_in_range(f: FuncV, inst: InstV, m: Map<u32, ValueId>)
    requires
        f.inst_indexed(inst),
        map_in_range(f, m),
    ensures
        f.inst_indexed(inst.renamed(m)),
{
    renaming_renames_uses(inst, m);
    let n = inst.renamed(m);
    assert forall|k: int| 0 <= k < n.uses().len() implies (#[trigger] n.uses()[k]).0
        < f.types.len() by {
        assert(n.uses()[k] == map_value(m, inst.uses()[k]));
    }
}

/// Rewrites the instructions of a block.
fn walk_block(
    insts: &Vec<MirInst>,
    subst: &mut IdMap<ValueId>,
    consts: &mut IdMap<MirConst>,
    hits: &mut usize,
    table: &Vec<(FloatOp, u64)>,
    Ghost(s): Ghost<WalkV>,
    Ghost(f): Ghost<FuncV>,
) -> (r: Vec<MirInst>)
    requires
        s.subst == old(subst)@,
        s.consts == old(consts)@,
        *old(hits) == capped(s.hits),
        map_in_range(f, s.subst),
        forall|k: int| 0 <= k < insts@.len() ==> f.inst_indexed(#[trigger] insts_view(insts@)[k]),
    ensures
        ({
            let (t, out) = walk_insts(s, insts_view(insts@), 0, Seq::empty(), table@);
            &&& insts_view(r@) == out
            &&& t.subst == final(subst)@
            &&& t.consts == final(consts)@
            &&& *final(hits) == capped(t.hits)
        }),
        map_in_range(f, final(subst)@),
        forall|k: int| 0 <= k < r@.len() ==> f.inst_indexed(#[trigger] insts_view(r@)[k]),
{
    let ghost iv = insts_view(insts@);
    let ghost mut t = s;
    let mut r: Vec<MirInst> = Vec::new();
    assert(insts_view(r@) =~= Seq::empty());
    let mut i: usize = 0;
    while i < insts.len()
        invariant
            i <= insts@.len(),
            iv == insts_view(insts@),
            t.subst == subst@,
            t.consts == consts@,
            *hits == capped(t.hits),
            map_in_range(f, t.subst),
            forall|k: int| 0 <= k < iv.len() ==> f.inst_indexed(#[trigger] iv[k]),
            forall|k: int| 0 <= k < r@.len() ==> f.inst_indexed(#[trigger] insts_view(r@)[k]),
            walk_insts(s, iv, 0, Seq::empty(), table@) == walk_insts(
                t,
                iv,
                i as int,
                insts_view(r@),
                table@,
            ),
        decreases insts@.len() - i,
    {
        let ghost r0 = insts_view(r@);
        let ghost old_inst = iv[i as int];
        assert(old_inst == insts@[i as int]@);
        assert(f.inst_indexed(old_inst));
        let mut inst = insts[i].clone();
        inst.rewrite_values(subst);
        let ghost mid = inst@;
        proof {
            renamed_in_range(f, old_inst, t.subst);
            renaming_renames_uses(old_inst, t.subst);
            folds_read_operands(mid, t.consts, table@);
        }
        let dest = inst.dest();
        let fold = fold_inst(&inst, consts, table);
        match fold {
            Fold::Subst(keep) => {
                redirect(subst, dest, keep);
                *hits = hits.saturating_add(1);
                proof {
                    let k = mid.uses().index_of(keep);
                    assert(mid.uses()[k].0 < f.types.len());
                }
            },
            Fold::ToConst(c) => {
                inst = MirInst::Const { dest, c };
                consts.insert(dest.0, c);
                *hits = hits.saturating_add(1);
            },
            Fold::Twice(v) => {
                proof {
                    let k = mid.uses().index_of(v);
                    assert(mid.uses()[k].0 < f.types.len());
                }
                if let MirInst::Bin { ty, .. } = &inst {
                    let ty = *ty;
                    inst = MirInst::Bin { dest, op: MirBinOp::Add, ty, lhs: v, rhs: v };
                }
                *hits = hits.saturating_add(1);
            },
            Fold::Keep => {
                if let MirInst::Const { dest, c } = &inst {
                    consts.insert(dest.0, *c);
                }
            },
        }
        assert(inst@ == t.rewritten(old_inst, table@));
        assert(f.inst_indexed(inst@));
        r.push(inst);
        assert(insts_view(r@) =~= r0.push(inst@));
        proof {
            t = t.behind(old_inst, table@);
            assert forall|k: int| 0 <= k < r@.len() implies f.inst_indexed(
                #[trigger] insts_view(r@)[k],
            ) by {
                if k < r0.len() {
                    assert(insts_view(r@)[k] == r0[k]);
                }
            }
        }
        i += 1;
    }
    r
}

/// The function of those blocks keeps every reference in range.
proof fn blocks_in_range(f: FuncV, blocks: Seq<BlockV>)
    requires
        f.indexed(),
        blocks.len() == f.blocks.len(),
        forall|b: int|
            0 <= b < blocks.len() ==> (#[trigger] blocks[b]).id == f.blocks[b].id && blocks[b].term
                == f.blocks[b].term,
        forall|b: int, i: int|
            0 <= b < blocks.len() && 0 <= i < blocks[b].insts.len() ==> f.inst_indexed(
                #[trigger] blocks[b].insts[i],
            ),
    ensures
        (FuncV { blocks, ..f }).indexed(),
{
    let g = FuncV { blocks, ..f };
    assert forall|b: int| 0 <= b < g.blocks.len() implies g.block_indexed(#[trigger] g.blocks[b], b) by {
        assert(f.block_indexed(f.blocks[b], b));
        assert forall|i: int| 0 <= i < g.blocks[b].insts.len() implies g.inst_indexed(
            #[trigger] g.blocks[b].insts[i],
        ) by {
            assert(f.inst_indexed(blocks[b].insts[i]));
        }
    }
}

fn walk_func(func: &mut MirFunc, table: &Vec<(FloatOp, u64)>) -> (r: (IdMap<ValueId>, usize))
    requires
        old(func)@.indexed(),
    ensures
        ({
            let f = old(func)@;
            let (s, blocks) = walk_blocks(
                WalkV { subst: Map::empty(), consts: consts_of(f), hits: 0 },
                f.blocks,
                0,
                Seq::empty(),
                table@,
            );
            &&& final(func)@ == (FuncV { blocks, ..f })
            &&& r.0@ == s.subst
            &&& r.1 == capped(s.hits)
        }),
        final(func)@.indexed(),
        map_in_range(final(func)@, r.0@),
{
    let ghost f = func@;
    let ghost s0 = WalkV { subst: Map::empty(), consts: consts_of(f), hits: 0 };
    let ghost mut s = s0;
    let mut subst: IdMap<ValueId> = IdMap::new();
    let mut consts = find_consts(func);
    let mut hits: usize = 0;
    let mut done: Vec<MirBlock> = Vec::new();
    assert(blocks_view(done@) =~= Seq::empty());
    let mut b: usize = 0;
    while b < func.blocks.len()
        invariant
            b <= func.blocks@.len(),
            f == func@,
            f.indexed(),
            done@.len() == b,
            s.subst == subst@,
            s.consts == consts@,
            hits == capped(s.hits),
            map_in_range(f, s.subst),
            forall|k: int|
                0 <= k < b ==> (#[trigger] blocks_view(done@)[k]).id == f.blocks[k].id && blocks_view(
                    done@,
                )[k].term == f.blocks[k].term,
            forall|k: int, i: int|
                0 <= k < b && 0 <= i < blocks_view(done@)[k].insts.len() ==> f.inst_indexed(
                    #[trigger] blocks_view(done@)[k].insts[i],
                ),
            walk_blocks(s0, f.blocks, 0, Seq::empty(), table@) == walk_blocks(
                s,
                f.blocks,
                b as int,
                blocks_view(done@),
                table@,
            ),
        decreases func.blocks@.len() - b,
    {
        let ghost d0 = blocks_view(done@);
        let block = &func.blocks[b];
        assert(f.blocks[b as int] == block@);
        assert(f.block_indexed(f.blocks[b as int], b as int));
        let insts = walk_block(
            &block.insts,
            &mut subst,
            &mut consts,
            &mut hits,
            table,
            Ghost(s),
            Ghost(f),
        );
        let term = match &block.term {
            Some(t) => Some(t.clone()),
            None => None,
        };
        let ghost iv = insts_view(insts@);
        let nb = MirBlock { id: block.id, insts, term };
        assert(nb@ == (BlockV { insts: iv, ..f.blocks[b as int] }));
        done.push(nb);
        assert(blocks_view(done@) =~= d0.push(nb@));
        proof {
            s = walk_insts(s, f.blocks[b as int].insts, 0, Seq::empty(), table@).0;
            assert forall|k: int, i: int|
                0 <= k < b + 1 && 0 <= i < blocks_view(done@)[k].insts.len() implies f.inst_indexed(
                #[trigger] blocks_view(done@)[k].insts[i],
            ) by {
                if k < b {
                    assert(blocks_view(done@)[k] == d0[k]);
                    assert(f.inst_indexed(d0[k].insts[i]));
                } else {
                    assert(f.inst_indexed(iv[i]));
                }
            }
        }
        b += 1;
    }
    proof {
        blocks_in_range(f, blocks_view(done@));
    }
    func.blocks = done;
    assert(func@.blocks =~= blocks_view(func.blocks@));
    (subst, hits)
}

/// A jump in place of each branch on a known condition. Returns how many there are.
fn straighten(func: &mut MirFunc) -> (r: usize)
    requires
        old(func)@.indexed(),
    ensures
        ({
            let g = old(func)@;
            let known = consts_of(g);
            &&& final(func)@ == (FuncV {
                blocks: Seq::new(g.blocks.len(), |b: int| straightened(g.blocks[b], known)),
                ..g
            })
            &&& r == capped(decided_below(g.blocks, known, g.blocks.len() as int))
        }),
        final(func)@.indexed(),
{
    let ghost g = func@;
    let consts = find_consts(func);
    let ghost known = consts@;
    let n = func.blocks.len();
    let mut hits: usize = 0;
    let mut b: usize = 0;
    while b < n
        invariant
            b <= n,
            n == g.blocks.len(),
            n == func.blocks@.len(),
            known == consts@,
            hits == capped(decided_below(g.blocks, known, b as int)),
            func@ == (FuncV { blocks: func@.blocks, ..g }),
            forall|k: int| 0 <= k < b ==> (#[trigger] func@.blocks[k]) == straightened(g.blocks[k], known),
            forall|k: int| b <= k < n ==> (#[trigger] func@.blocks[k]) == g.blocks[k],
        decreases n - b,
    {
        let ghost fb = func@;
        assert(fb.blocks[b as int] == g.blocks[b as int]);
        assert(fb.blocks[b as int] == func.blocks@[b as int]@);
        let mut to: Option<BlockId> = None;
        if let Some(Terminator::Br { cond, taken, not_taken }) = &func.blocks[b].term {
            if let Some(MirConst::Bool(c)) = find_const(&consts, *cond) {
                to = Some(
                    if c {
                        *taken
                    } else {
                        *not_taken
                    },
                );
            }
        }
        assert(to == decided(g.blocks[b as int].term, known));
        if let Some(dest) = to {
            func.blocks[b].term = Some(Terminator::Jump { dest });
            hits = hits.saturating_add(1);
        }
        assert(func@.blocks =~= fb.blocks.update(
            b as int,
            straightened(g.blocks[b as int], known),
        ));
        b += 1;
    }
    let ghost h = FuncV {
        blocks: Seq::new(g.blocks.len(), |b: int| straightened(g.blocks[b], known)),
        ..g
    };
    assert(func@.blocks =~= h.blocks);
    proof {
        assert forall|k: int| 0 <= k < h.blocks.len() implies h.block_indexed(
            #[trigger] h.blocks[k],
            k,
        ) by {
            assert(g.block_indexed(g.blocks[k], k));
            assert forall|i: int| 0 <= i < h.blocks[k].insts.len() implies h.inst_indexed(
                #[trigger] h.blocks[k].insts[i],
            ) by {
                assert(g.inst_indexed(g.blocks[k].insts[i]));
            }
            if decided(g.blocks[k].term, known) is Some {
                let ts = g.blocks[k].term->0.targets();
                assert(ts[0].0 < g.blocks.len() && ts[1].0 < g.blocks.len());
            }
        }
    }
    hits
}

fn instcombine_once(func: &mut MirFunc, table: &Vec<(FloatOp, u64)>) -> (r: usize)
    requires
        old(func)@.indexed(),
    ensures
        final(func)@ == combined_once(old(func)@, table@).0,
        r == capped(combined_once(old(func)@, table@).1),
        final(func)@.indexed(),
{
    let ghost f = func@;
    let (subst, hits) = walk_func(func, table);
    proof {
        renaming_keeps_index(func@, subst@);
        removing_keeps_index(renamed(func@, subst@), subst@.dom());
    }
    rename_all(func, &subst);
    remove_renamed(func, &subst);
    let more = straighten(func);
    hits.saturating_add(more)
}

/// Rewrites arithmetic, with those results of float operations that `table` holds. Returns how
/// much was rewritten.
pub fn instcombine(func: &mut MirFunc, table: &Vec<(FloatOp, u64)>) -> (r: usize)
    requires
        old(func)@.indexed(),
    ensures
        final(func)@ == combined(old(func)@, table@).0,
        r == capped(combined(old(func)@, table@).1),
        final(func)@.indexed(),
{
    let ghost want = combine_rounds(func@, 8, 0, table@);
    let ghost mut n: nat = 0;
    let mut total: usize = 0;
    let mut k: u64 = 8;
    let mut going = true;
    while k > 0 && going
        invariant
            func@.indexed(),
            total == capped(n),
            going ==> want == combine_rounds(func@, k as nat, n, table@),
            !going ==> want == (func@, n),
        decreases k,
    {
        let ghost f = func@;
        let m = instcombine_once(func, table);
        if m == 0 {
            going = false;
        } else {
            total = total.saturating_add(m);
            proof {
                n = n + combined_once(f, table@).1;
            }
        }
        k -= 1;
    }
    if total > 0 {
        proof {
            pruning_keeps_index(func@);
        }
        dce(func);
    }
    total
}

// Float operations on constants.

/// The float operation that an instruction makes of constants.
pub open spec fn request_of(inst: InstV, consts: Map<u32, MirConst>) -> Option<FloatOp> {
    match inst {
        InstV::Bin { op, ty, lhs, rhs, .. } => match (const_of(consts, lhs), const_of(consts, rhs)) {
            (Some(a), Some(b)) => float_bin(op, ty, a, b),
            _ => None,
        },
        InstV::Cast { kind, to, src, .. } => match const_of(consts, src) {
            Some(c) => float_cast(kind, to, c),
            None => None,
        },
        _ => None,
    }
}

/// `done` with the float operations from instruction `i` on.
pub open spec fn requests_in(
    insts: Seq<InstV>,
    consts: Map<u32, MirConst>,
    i: int,
    done: Seq<FloatOp>,
) -> Seq<FloatOp>
    decreases insts.len() - i,
{
    if i >= insts.len() {
        done
    } else {
        requests_in(
            insts,
            consts,
            i + 1,
            match request_of(insts[i], consts) {
                Some(op) => done.push(op),
                None => done,
            },
        )
    }
}

/// `done` with the float operations from block `b` on.
pub open spec fn requests_from(
    blocks: Seq<BlockV>,
    consts: Map<u32, MirConst>,
    b: int,
    done: Seq<FloatOp>,
) -> Seq<FloatOp>
    decreases blocks.len() - b,
{
    if b >= blocks.len() {
        done
    } else {
        requests_from(blocks, consts, b + 1, requests_in(blocks[b].insts, consts, 0, done))
    }
}

fn find_request(inst: &MirInst, consts: &IdMap<MirConst>) -> (r: Option<FloatOp>)
    ensures
        r == request_of(inst@, consts@),
{
    match inst {
        MirInst::Bin { op, ty, lhs, rhs, .. } => {
            match (*ty, find_const(consts, *lhs), find_const(consts, *rhs)) {
                (MirTy::F64, Some(MirConst::F64(a)), Some(MirConst::F64(b))) => Some(
                    FloatOp::Bin { op: *op, ty: *ty, a, b },
                ),
                (MirTy::F32, Some(MirConst::F32(a)), Some(MirConst::F32(b))) => Some(
                    FloatOp::Bin { op: *op, ty: *ty, a: a as u64, b: b as u64 },
                ),
                _ => None,
            }
        },
        MirInst::Cast { kind, to, src, .. } => {
            match (*kind, *to, find_const(consts, *src)) {
                (MirCastKind::IntToFloat, MirTy::F64, Some(MirConst::I64(v))) => Some(
                    FloatOp::Cast { to: *to, from: v },
                ),
                (MirCastKind::IntToFloat, MirTy::F64, Some(MirConst::I32(v))) => Some(
                    FloatOp::Cast { to: *to, from: v as i64 },
                ),
                (MirCastKind::IntToFloat, MirTy::F32, Some(MirConst::I32(v))) => Some(
                    FloatOp::Cast { to: *to, from: v as i64 },
                ),
                _ => None,
            }
        },
        _ => None,
    }
}

/// The float operations that the function makes of constants, in code order.
pub fn float_requests(func: &MirFunc) -> (r: Vec<FloatOp>)
    ensures
        r@ == requests_from(func@.blocks, consts_of(func@), 0, Seq::empty()),
{
    let ghost f = func@;
    let consts = find_consts(func);
    let ghost known = consts@;
    let mut r: Vec<FloatOp> = Vec::new();
    assert(r@ =~= Seq::empty());
    let mut b: usize = 0;
    while b < func.blocks.len()
        invariant
            b <= func.blocks@.len(),
            f == func@,
            known == consts@,
            requests_from(f.blocks, known, 0, Seq::empty()) == requests_from(
                f.blocks,
                known,
                b as int,
                r@,
            ),
        decreases func.blocks@.len() - b,
    {
        let block = &func.blocks[b];
        assert(f.blocks[b as int] == block@);
        let ghost iv = block@.insts;
        let ghost r0 = r@;
        let mut i: usize = 0;
        while i < block.insts.len()
            invariant
                i <= block.insts@.len(),
                iv == block@.insts,
                known == consts@,
                requests_in(iv, known, 0, r0) == requests_in(iv, known, i as int, r@),
            decreases block.insts@.len() - i,
        {
            assert(iv[i as int] == block.insts@[i as int]@);
            if let Some(op) = find_request(&block.insts[i], &consts) {
                r.push(op);
            }
            i += 1;
        }
        b += 1;
    }
    r
}

// The rules are sound for integers.

/// Where an integer operation gives an operand back, that operand is its result; where it gives
/// 0 or doubles an operand, 0 or the operand's sum with itself is.
#[verifier::spinoff_prover]
pub proof fn integer_rules_hold(op: MirBinOp, a: ValueId, b: ValueId, x: i64, y: i64)
    requires
        a == b ==> x == y,
    ensures
        identity(op, MirTy::I64, a, b, Some(MirConst::I64(x)), Some(MirConst::I64(y))) matches Some(
            v,
        ) ==> int_result(op, x, y) == Some(x) && v == a || int_result(op, x, y) == Some(y) && v == b,
        gives_zero(op, MirTy::I64, a, b, Some(MirConst::I64(x)), Some(MirConst::I64(y)))
            ==> int_result(op, x, y) == Some(0i64),
        doubled(op, MirTy::I64, a, b, Some(MirConst::I64(x)), Some(MirConst::I64(y))) matches Some(v)
            ==> int_result(op, x, y) == int_result(
            MirBinOp::Add,
            if v == a {
                x
            } else {
                y
            },
            if v == a {
                x
            } else {
                y
            },
        ),
{
    assert(x | 0 == x) by (bit_vector);
    assert(x ^ 0 == x) by (bit_vector);
    assert(x & (-1i64) == x) by (bit_vector);
    assert((-1i64) & y == y) by (bit_vector);
    assert(x & 0 == 0) by (bit_vector);
    assert(0 & y == 0) by (bit_vector);
    assert(x << 0u32 == x) by (bit_vector);
    assert(x >> 0u32 == x) by (bit_vector);
    assert(x * 1 == x && 1 * y == y && x * 0 == 0 && 0 * y == 0);
    assert(x * 2 == x + x && 2 * y == y + y);
    match op {
        MirBinOp::Mul => {
            assert(x.wrapping_mul(1) == x);
            assert(1i64.wrapping_mul(y) == y);
            assert(x.wrapping_mul(2) == x.wrapping_add(x));
            assert(2i64.wrapping_mul(y) == y.wrapping_add(y));
        },
        MirBinOp::Div => {
            assert(x.checked_div(1) == Some(x));
        },
        MirBinOp::Shl => {
            assert(x.wrapping_shl(0) == x);
        },
        MirBinOp::Shr => {
            assert(x.wrapping_shr(0) == x);
        },
        _ => {},
    }
}

// The rewrites keep functions valid.

/// Every constant has the type of its value.
spec fn consts_typed(f: FuncV, c: Map<u32, MirConst>) -> bool {
    forall|k: u32| #[trigger] c.dom().contains(k) ==> c[k].const_ty() == f.ty(ValueId(k))
}

proof fn consts_in_are_typed(f: FuncV, b: int, i: int, c: Map<u32, MirConst>)
    requires
        valid(f),
        0 <= b < f.blocks.len(),
        0 <= i,
        consts_typed(f, c),
    ensures
        consts_typed(f, consts_in(f.blocks[b].insts, i, c)),
    decreases f.blocks[b].insts.len() - i,
{
    let insts = f.blocks[b].insts;
    if i < insts.len() {
        assert(block_valid(f, b));
        assert(inst_valid(f, b, i));
        let next = match insts[i] {
            InstV::Const { dest, c: x } => c.insert(dest.0, x),
            _ => c,
        };
        assert forall|k: u32| #[trigger] next.dom().contains(k) implies next[k].const_ty() == f.ty(
            ValueId(k),
        ) by {
            if let InstV::Const { dest, .. } = insts[i] {
                assert(ValueId(dest.0) == dest);
                if k != dest.0 {
                    assert(c.dom().contains(k));
                }
            }
        }
        consts_in_are_typed(f, b, i + 1, next);
    }
}

proof fn consts_from_are_typed(f: FuncV, b: int, c: Map<u32, MirConst>)
    requires
        valid(f),
        0 <= b,
        consts_typed(f, c),
    ensures
        consts_typed(f, consts_from(f.blocks, b, c)),
    decreases f.blocks.len() - b,
{
    if b < f.blocks.len() {
        consts_in_are_typed(f, b, 0, c);
        consts_from_are_typed(f, b + 1, consts_in(f.blocks[b].insts, 0, c));
    }
}

/// What the walk knows at position `b, i` holds of the function.
spec fn walk_holds(f: FuncV, s: WalkV, b: int, i: int) -> bool {
    &&& same_types(f, s.subst)
    &&& replaces_earlier(f, s.subst, b, i)
    &&& consts_typed(f, s.consts)
}

/// The instruction with its operands renamed fits, and reads nothing that was replaced.
proof fn renamed_fits(f: FuncV, s: WalkV, b: int, i: int)
    requires
        valid(f),
        no_self_reads(f),
        has_inst(f, b, i),
        walk_holds(f, s, b, i),
    ensures
        fits(f, b, i, f.blocks[b].insts[i].renamed(s.subst)),
        forall|k: int|
            0 <= k < f.blocks[b].insts[i].uses().len() ==> !s.subst.dom().contains(
                (#[trigger] f.blocks[b].insts[i].renamed(s.subst).uses()[k]).0,
            ),
{
    let inst = f.blocks[b].insts[i];
    let m = s.subst;
    let x = inst.renamed(m);
    assert(block_valid(f, b));
    assert(inst_valid(f, b, i));
    renaming_keeps_types(f, f, m, inst, f.preds(b as nat));
    renaming_renames_uses(inst, m);
    assert forall|k: int| 0 <= k < inst.uses().len() implies !m.dom().contains(
        (#[trigger] x.uses()[k]).0,
    ) && (!x.phi() ==> x.uses()[k].0 < f.types.len() && defined_before(f, b, i, x.uses()[k])) by {
        let u = inst.uses()[k];
        assert(x.uses()[k] == map_value(m, u));
        assert(ValueId(u.0) == u);
        assert(inst.uses().contains(u));
        if m.dom().contains(u.0) {
            let (p, j) = choose|p: int, j: int| #[trigger] replaced_at(f, m, u.0, p, j, b, i);
            earlier_is_before(f, p, j, b, i, m[u.0]);
            defined_is_in_range(f, b, i, m[u.0]);
        }
    }
}

/// Folding gives a constant of the result's type, or an operand of it.
proof fn folds_have_types(f: FuncV, s: WalkV, b: int, i: int, table: Seq<(FloatOp, u64)>)
    requires
        valid(f),
        no_self_reads(f),
        has_inst(f, b, i),
        walk_holds(f, s, b, i),
    ensures
        ({
            let inst = f.blocks[b].insts[i];
            let x = inst.renamed(s.subst);
            match s.fold(inst, table) {
                Fold::ToConst(c) => c.const_ty() == f.ty(inst.dest()) && inst.dests() == seq![
                    inst.dest(),
                ] && !inst.phi(),
                Fold::Subst(v) => f.ty(v) == f.ty(inst.dest()) && x.uses().contains(v) && inst.dests()
                    == seq![inst.dest()] && !inst.phi(),
                Fold::Twice(v) => x is Bin && x.uses().contains(v) && f.ty(v) == x->Bin_ty && f.ty(
                    inst.dest(),
                ) == x->Bin_ty && x->Bin_ty.numeric() && !(x->Bin_ty is Bool) && inst.dests() == seq![
                    inst.dest(),
                ],
                Fold::Keep => true,
            }
        }),
{
    let inst = f.blocks[b].insts[i];
    let x = inst.renamed(s.subst);
    renamed_fits(f, s, b, i);
    let c = s.consts;
    assert forall|v: ValueId| const_of(c, v) is Some implies (#[trigger] const_of(c, v))->0.const_ty()
        == f.ty(v) by {
        assert(ValueId(v.0) == v);
    }
    match x {
        InstV::Bin { lhs, rhs, .. } => {
            assert(x.uses()[0] == lhs && x.uses()[1] == rhs);
        },
        InstV::Unary { src, .. } => {
            assert(const_of(c, src) is Some ==> const_of(c, src)->0.const_ty() == f.ty(src));
        },
        _ => {},
    }
}

proof fn walk_steps(f: FuncV, s: WalkV, b: int, i: int, table: Seq<(FloatOp, u64)>)
    requires
        valid(f),
        no_self_reads(f),
        has_inst(f, b, i),
        walk_holds(f, s, b, i),
    ensures
        fits(f, b, i, s.rewritten(f.blocks[b].insts[i], table)),
        walk_holds(f, s.behind(f.blocks[b].insts[i], table), b, i + 1),
{
    let inst = f.blocks[b].insts[i];
    let x = inst.renamed(s.subst);
    let d = inst.dest();
    let m = s.subst;
    let t = s.behind(inst, table);
    renamed_fits(f, s, b, i);
    folds_have_types(f, s, b, i, table);
    assert(ValueId(d.0) == d);
    assert(inst.dests()[0] == d);
    assert(defined_at(f, b, i, d));
    assert(block_valid(f, b));
    assert(inst_valid(f, b, i));
    assert(!defined_before(f, b, i, d));
    if m.dom().contains(d.0) {
        let (p, j) = choose|p: int, j: int| #[trigger] replaced_at(f, m, d.0, p, j, b, i);
        values_are_defined_once(f, b, i, p, j, d);
    }
    assert forall|k: u32| #[trigger] m.dom().contains(k) implies m[k] != d && exists|p: int, j: int|
        #[trigger] replaced_at(f, m, k, p, j, b, i + 1) by {
        let (p, j) = choose|p: int, j: int| #[trigger] replaced_at(f, m, k, p, j, b, i);
        earlier_is_before(f, p, j, b, i, m[k]);
        assert(replaced_at(f, m, k, p, j, b, i + 1));
    }
    match s.fold(inst, table) {
        Fold::Subst(v) => {
            let n = t.subst;
            let k = x.uses().index_of(v);
            assert(x.uses()[k] == v);
            renaming_renames_uses(inst, m);
            assert(!m.dom().contains(v.0));
            assert(defined_before(f, b, i, v));
            assert(v != d);
            assert forall|k: u32| #[trigger] n.dom().contains(k) implies f.ty(n[k]) == f.ty(
                ValueId(k),
            ) && exists|p: int, j: int| #[trigger] replaced_at(f, n, k, p, j, b, i + 1) by {
                if k == d.0 {
                    assert(replaced_at(f, n, k, b, i, b, i + 1));
                } else {
                    assert(m.dom().contains(k));
                    let (p, j) = choose|p: int, j: int| #[trigger] replaced_at(f, m, k, p, j, b, i + 1);
                    assert(n[k] == m[k]);
                    assert(ValueId(m[k].0) == m[k]);
                    assert(replaced_at(f, n, k, p, j, b, i + 1));
                }
            }
        },
        Fold::ToConst(c) => {
            let y = InstV::Const { dest: d, c };
            assert(y.dests() =~= inst.dests());
            assert(consts_typed(f, t.consts));
        },
        Fold::Twice(v) => {
            let y = s.rewritten(inst, table);
            assert(y.dests() =~= inst.dests());
            let k = x.uses().index_of(v);
            assert(x.uses()[k] == v);
            renaming_renames_uses(inst, m);
            assert forall|z: int| 0 <= z < y.uses().len() implies (#[trigger] y.uses()[z]).0
                < f.types.len() && defined_before(f, b, i, y.uses()[z]) by {
                assert(y.uses()[z] == v);
            }
        },
        Fold::Keep => {
            assert(consts_typed(f, t.consts));
        },
    }
}

proof fn insts_walk(
    f: FuncV,
    s: WalkV,
    b: int,
    i: int,
    done: Seq<InstV>,
    table: Seq<(FloatOp, u64)>,
)
    requires
        valid(f),
        no_self_reads(f),
        0 <= b < f.blocks.len(),
        0 <= i <= f.blocks[b].insts.len(),
        walk_holds(f, s, b, i),
        done.len() == i,
        forall|k: int| 0 <= k < i ==> fits(f, b, k, #[trigger] done[k]),
    ensures
        ({
            let (t, out) = walk_insts(s, f.blocks[b].insts, i, done, table);
            &&& walk_holds(f, t, b + 1, 0)
            &&& out.len() == f.blocks[b].insts.len()
            &&& forall|k: int| 0 <= k < out.len() ==> fits(f, b, k, #[trigger] out[k])
        }),
    decreases f.blocks[b].insts.len() - i,
{
    let insts = f.blocks[b].insts;
    if i < insts.len() {
        assert(has_inst(f, b, i));
        walk_steps(f, s, b, i, table);
        insts_walk(
            f,
            s.behind(insts[i], table),
            b,
            i + 1,
            done.push(s.rewritten(insts[i], table)),
            table,
        );
    } else {
        assert forall|k: u32| #[trigger] s.subst.dom().contains(k) implies exists|p: int, j: int|
            #[trigger] replaced_at(f, s.subst, k, p, j, b + 1, 0) by {
            let (p, j) = choose|p: int, j: int| #[trigger] replaced_at(f, s.subst, k, p, j, b, i);
            assert(replaced_at(f, s.subst, k, p, j, b + 1, 0));
        }
    }
}

/// Block `p` of `done` is that of `f` with fitting instructions.
spec fn block_fits(f: FuncV, p: int, block: BlockV) -> bool {
    &&& block.id == f.blocks[p].id
    &&& block.term == f.blocks[p].term
    &&& block.insts.len() == f.blocks[p].insts.len()
    &&& forall|k: int| 0 <= k < block.insts.len() ==> fits(f, p, k, #[trigger] block.insts[k])
}

proof fn blocks_walk(f: FuncV, s: WalkV, b: int, done: Seq<BlockV>, table: Seq<(FloatOp, u64)>)
    requires
        valid(f),
        no_self_reads(f),
        0 <= b <= f.blocks.len(),
        walk_holds(f, s, b, 0),
        done.len() == b,
        forall|p: int| 0 <= p < b ==> block_fits(f, p, #[trigger] done[p]),
    ensures
        ({
            let (t, out) = walk_blocks(s, f.blocks, b, done, table);
            &&& walk_holds(f, t, f.blocks.len() as int, 0)
            &&& out.len() == f.blocks.len()
            &&& forall|p: int| 0 <= p < out.len() ==> block_fits(f, p, #[trigger] out[p])
        }),
    decreases f.blocks.len() - b,
{
    if b < f.blocks.len() {
        insts_walk(f, s, b, 0, Seq::empty(), table);
        let (t, insts) = walk_insts(s, f.blocks[b].insts, 0, Seq::empty(), table);
        let block = BlockV { insts, ..f.blocks[b] };
        assert(block_fits(f, b, block));
        blocks_walk(f, t, b + 1, done.push(block), table);
    }
}

/// Where a branch on a known condition does not go.
pub open spec fn abandoned(term: Option<TermV>, consts: Map<u32, MirConst>) -> Option<int> {
    match term {
        Some(TermV::Br { cond, taken, not_taken }) => match const_of(consts, cond) {
            Some(MirConst::Bool(c)) => Some(
                if c {
                    not_taken.0 as int
                } else {
                    taken.0 as int
                },
            ),
            _ => None,
        },
        _ => None,
    }
}

/// No branch on a known condition leaves a block that holds phis.
pub open spec fn abandons_no_phi(f: FuncV, consts: Map<u32, MirConst>) -> bool {
    forall|b: int, x: int, i: int|
        #![trigger f.blocks[b], has_inst(f, x, i)]
        0 <= b < f.blocks.len() && abandoned(f.blocks[b].term, consts) == Some(x) && has_inst(f, x, i)
            ==> !f.blocks[x].insts[i].phi()
}

/// The function with jumps in place of branches on known conditions.
pub open spec fn all_straightened(f: FuncV, consts: Map<u32, MirConst>) -> FuncV {
    FuncV { blocks: Seq::new(f.blocks.len(), |b: int| straightened(f.blocks[b], consts)), ..f }
}

proof fn straightening_keeps_edges(f: FuncV, consts: Map<u32, MirConst>, k: nat, x: int, i: int)
    requires
        abandons_no_phi(f, consts),
        k <= f.blocks.len(),
        has_inst(f, x, i),
        f.blocks[x].insts[i].phi(),
    ensures
        preds_upto(all_straightened(f, consts).blocks, k, x as nat) == preds_upto(f.blocks, k, x as nat),
    decreases k,
{
    if k > 0 {
        straightening_keeps_edges(f, consts, (k - 1) as nat, x, i);
        let p = k - 1;
        let old = f.blocks[p];
        let new = all_straightened(f, consts).blocks[p];
        assert(new == straightened(old, consts));
        if decided(old.term, consts) is Some {
            assert(abandoned(f.blocks[p].term, consts) != Some(x));
            reveal_with_fuel(hits, 4);
        }
        assert(edges_to(new, x as nat) == edges_to(old, x as nat));
    }
}

/// Jumps in place of branches on known conditions keep a function valid, where no block that is
/// left holds phis.
pub proof fn straightening_keeps_validity(f: FuncV, consts: Map<u32, MirConst>)
    requires
        valid(f),
        no_self_reads(f),
        abandons_no_phi(f, consts),
    ensures
        valid(all_straightened(f, consts)),
        no_self_reads(all_straightened(f, consts)),
{
    let g = all_straightened(f, consts);
    assert(same_frame(f, g));
    assert forall|b: int| 0 <= b < g.blocks.len() implies (#[trigger] g.blocks[b]).insts
        == f.blocks[b].insts && g.blocks[b].id == f.blocks[b].id by {}
    assert forall|b: int, i: int, v: ValueId| #[trigger]
        defined_at(g, b, i, v) == defined_at(f, b, i, v) by {
        if 0 <= b < f.blocks.len() {
            assert(g.blocks[b].insts == f.blocks[b].insts);
        }
    }
    assert forall|b: int, i: int, v: ValueId| #[trigger]
        defined_before(g, b, i, v) == defined_before(f, b, i, v) by {
        if defined_before(f, b, i, v) && !f.params.contains(v) {
            let (p, j) = choose|p: int, j: int| #[trigger] defined_at(f, p, j, v) && before(p, j, b, i);
            assert(defined_at(g, p, j, v));
        }
        if defined_before(g, b, i, v) && !f.params.contains(v) {
            let (p, j) = choose|p: int, j: int| #[trigger] defined_at(g, p, j, v) && before(p, j, b, i);
            assert(defined_at(f, p, j, v));
        }
    }
    assert forall|b: int| 0 <= b < g.blocks.len() implies block_valid(g, b) by {
        assert(block_valid(f, b));
        assert(g.blocks[b] == straightened(f.blocks[b], consts));
        same_frame_same_term(f, g, f.blocks[b].term->0);
        if let Some(t) = f.blocks[b].term {
            if let TermV::Br { taken, not_taken, .. } = t {
                assert(t.targets()[0] == taken && t.targets()[1] == not_taken);
            }
        }
        assert forall|i: int| 0 <= i < g.blocks[b].insts.len() implies inst_valid(g, b, i) by {
            assert(inst_valid(f, b, i));
            let x = f.blocks[b].insts[i];
            if x.phi() {
                assert(has_inst(f, b, i));
                straightening_keeps_edges(f, consts, f.blocks.len(), b, i);
            }
            same_frame_same_fault(f, g, x, f.preds(b as nat));
            assert(g.inst_fault(x, g.preds(b as nat)) is None);
            assert(defines_fresh(f, b, i));
            assert(defines_fresh(g, b, i));
            if !x.phi() {
                assert(reads_defined(f, b, i));
                assert(reads_defined(g, b, i));
            }
        }
    }
    assert forall|b: int, i: int, v: ValueId|
        #![trigger has_inst(g, b, i), g.blocks[b].insts[i].uses().contains(v)]
        has_inst(g, b, i) && !g.blocks[b].insts[i].phi() && g.blocks[b].insts[i].uses().contains(
            v,
        ) implies !g.blocks[b].insts[i].dests().contains(v) by {
        assert(g.blocks[b].insts == f.blocks[b].insts);
        assert(has_inst(f, b, i));
    }
}

/// The function of one round before branches are decided.
pub open spec fn folded_once(f: FuncV, table: Seq<(FloatOp, u64)>) -> FuncV {
    let (s, blocks) = walk_blocks(
        WalkV { subst: Map::empty(), consts: consts_of(f), hits: 0 },
        f.blocks,
        0,
        Seq::empty(),
        table,
    );
    removed(renamed(FuncV { blocks, ..f }, s.subst), s.subst.dom())
}

/// Folding keeps a function valid.
pub proof fn folding_keeps_validity(f: FuncV, table: Seq<(FloatOp, u64)>)
    requires
        valid(f),
        no_self_reads(f),
    ensures
        valid(folded_once(f, table)),
        no_self_reads(folded_once(f, table)),
{
    let none = Map::<u32, ValueId>::empty();
    let start = WalkV { subst: none, consts: consts_of(f), hits: 0 };
    consts_from_are_typed(f, 0, Map::empty());
    assert(walk_holds(f, start, 0, 0));
    blocks_walk(f, start, 0, Seq::empty(), table);
    let (s, blocks) = walk_blocks(start, f.blocks, 0, Seq::empty(), table);
    let h = FuncV { blocks, ..f };
    let m = s.subst;
    let n = f.blocks.len() as int;
    assert forall|b: int| 0 <= b < f.blocks.len() implies (#[trigger] h.blocks[b]).id == f.blocks[b].id
        && h.blocks[b].term == f.blocks[b].term && h.blocks[b].insts.len() == f.blocks[b].insts.len() by {
        assert(block_fits(f, b, blocks[b]));
    }
    assert forall|b: int, i: int| #[trigger] has_inst(h, b, i) implies fits(
        f,
        b,
        i,
        h.blocks[b].insts[i],
    ) by {
        assert(block_fits(f, b, blocks[b]));
    }
    fitting_keeps_validity(f, h);
    assert forall|k: u32| #[trigger] m.dom().contains(k) implies exists|p: int, j: int| #[trigger]
        replaced_at(h, m, k, p, j, n, 0) by {
        let (p, j) = choose|p: int, j: int| #[trigger] replaced_at(f, m, k, p, j, n, 0);
        assert(defined_at(h, p, j, ValueId(k)));
        assert(fits(f, p, j, h.blocks[p].insts[j]));
        assert(replaced_at(h, m, k, p, j, n, 0));
    }
    assert(same_types(h, m)) by {
        assert forall|k: u32| #[trigger] m.dom().contains(k) implies h.ty(m[k]) == h.ty(ValueId(k)) by {
            assert(f.ty(m[k]) == f.ty(ValueId(k)));
        }
    }
    replacing_earlier_is_in_order(h, m);
    substituting_keeps_validity(h, m);
    substituting_adds_no_self_reads(h, m);
}

/// A bound on what later rounds abandon: none of the next `k` rounds leaves a block with phis.
pub open spec fn rounds_abandon_no_phi(f: FuncV, k: nat, table: Seq<(FloatOp, u64)>) -> bool
    decreases k,
{
    k == 0 || {
        let g = folded_once(f, table);
        &&& abandons_no_phi(g, consts_of(g))
        &&& combined_once(f, table).1 > 0 ==> rounds_abandon_no_phi(
            combined_once(f, table).0,
            (k - 1) as nat,
            table,
        )
    }
}

proof fn rounds_keep_validity(f: FuncV, k: nat, n: nat, table: Seq<(FloatOp, u64)>)
    requires
        valid(f),
        no_self_reads(f),
        rounds_abandon_no_phi(f, k, table),
    ensures
        valid(combine_rounds(f, k, n, table).0),
    decreases k,
{
    if k > 0 {
        let g = folded_once(f, table);
        folding_keeps_validity(f, table);
        straightening_keeps_validity(g, consts_of(g));
        let (h, m) = combined_once(f, table);
        assert(h == all_straightened(g, consts_of(g)));
        if m > 0 {
            rounds_keep_validity(h, (k - 1) as nat, n + m, table);
        }
    }
}

/// Combining keeps a function valid whose instructions do not read themselves, where no branch
/// that is decided leaves a block with phis.
pub proof fn combining_keeps_validity(f: FuncV, table: Seq<(FloatOp, u64)>)
    requires
        f.fault() is None,
        no_self_reads(f),
        rounds_abandon_no_phi(f, 8, table),
    ensures
        combined(f, table).0.fault() is None,
{
    verification_finds_the_valid_functions(f);
    rounds_keep_validity(f, 8, 0, table);
    let g = combine_rounds(f, 8, 0, table).0;
    verification_finds_the_valid_functions(g);
    pruning_keeps_validity(g);
    verification_finds_the_valid_functions(pruned(g));
}

} // verus!

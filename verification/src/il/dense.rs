//! Operation numbers of dense instructions.
use vstd::prelude::*;

verus! {

pub const IADD64: u8 = 0;

pub const ISUB64: u8 = 1;

pub const IMUL64: u8 = 2;

pub const IDIV64: u8 = 3;

pub const IREM64: u8 = 4;

pub const IAND64: u8 = 5;

pub const IOR64: u8 = 6;

pub const IXOR64: u8 = 7;

pub const ISHL64: u8 = 8;

pub const ISHR64: u8 = 9;

pub const FADD64: u8 = 10;

pub const FSUB64: u8 = 11;

pub const FMUL64: u8 = 12;

pub const FDIV64: u8 = 13;

pub const FREM64: u8 = 14;

pub const IADD32: u8 = 15;

pub const ISUB32: u8 = 16;

pub const IMUL32: u8 = 17;

pub const IDIV32: u8 = 18;

pub const IREM32: u8 = 19;

pub const FADD32: u8 = 20;

pub const FSUB32: u8 = 21;

pub const FMUL32: u8 = 22;

pub const FDIV32: u8 = 23;

pub const FREM32: u8 = 24;

pub const UNARY_NOT: u8 = 0;

pub const UNARY_NEG: u8 = 1;

pub const UNARY_FNEG: u8 = 2;

pub const CAST_I2F: u8 = 0;

pub const CAST_SEXT: u8 = 1;

pub const HEAP_UNCHECKED: u8 = 1;

pub const FIELD_NAMED: u8 = 1;

pub const MAKE_ARRAY: u8 = 0;

pub const MAKE_TUPLE: u8 = 1;

/// First enum kind; the tag is added to it.
pub const MAKE_ENUM: u8 = 2;

pub const TY_I64: u8 = 0;

pub const TY_I32: u8 = 1;

pub const TY_F64: u8 = 2;

pub const TY_F32: u8 = 3;

pub const TY_BOOL: u8 = 4;

/// Lanes of a comparison; the predicate is added to the lane.
pub const LANE_I64: u8 = 0;

pub const LANE_F64: u8 = 8;

pub const LANE_I32: u8 = 16;

pub const LANE_F32: u8 = 24;

} // verus!

//! String and format operations.
use crate::il::op::{IlOp, Instruction};
use vstd::prelude::*;

verus! {

pub open spec fn format_inst(inst: Instruction) -> bool {
    inst is FORMAT || inst is STRINGIFY
}

/// Opcodes that build text.
pub fn is_format_inst(inst: Instruction) -> (r: bool)
    ensures
        r == format_inst(inst),
{
    inst == Instruction::FORMAT || inst == Instruction::STRINGIFY
}

/// Why a text operation keeps a body out of the numeric subset.
pub open spec fn text_reason(op: IlOp) -> Option<Seq<char>> {
    match op {
        IlOp::String { .. } => Some("string"@),
        IlOp::Print { .. } => Some("print"@),
        IlOp::Byte { byte, .. } => if format_inst(byte.inst) {
            Some("format"@)
        } else {
            None
        },
        _ => None,
    }
}

pub fn refuse_reason(op: &IlOp) -> (r: Option<&'static str>)
    ensures
        match r {
            Some(s) => text_reason(*op) == Some(s@),
            None => text_reason(*op) is None,
        },
{
    match op {
        IlOp::String { .. } => Some("string"),
        IlOp::Print { .. } => Some("print"),
        IlOp::Byte { byte, .. } => if is_format_inst(byte.inst) {
            Some("format")
        } else {
            None
        },
        _ => None,
    }
}

} // verus!

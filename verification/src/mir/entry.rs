//! Which bodies are lifted and written back as stack code.
//!
//! Calls, host calls, boxes, heap fields, allocation without collector maps and matches of more
//! than one payload are walls. Reads and writes of arrays are none.
use super::gc::{alloc_reason, refuses_alloc};
use crate::il::op::{IlJumpKind, IlOp, Instruction};
use vstd::prelude::*;

verus! {

/// Why a body stays as it is.
#[derive(Clone, Copy, Debug, PartialEq, Eq, Structural)]
pub enum LirRefuse {
    /// Allocation without collector maps.
    Alloc,
    Call,
    Host,
    /// Field of a heap object.
    HeapField,
    Box,
    /// Match of more than one payload.
    Match,
    /// More than one payload unpacked.
    Unpack,
}

/// The wall that an operation is. `maps_ok` lets allocation through.
pub open spec fn wall(op: IlOp, maps_ok: bool) -> Option<LirRefuse> {
    match op {
        IlOp::Entry { .. } | IlOp::PrologueJmp { .. } => Some(LirRefuse::Call),
        IlOp::HostInvoke { .. } => Some(LirRefuse::Host),
        IlOp::GetField { .. } | IlOp::SetField { .. } | IlOp::LoadField { .. } => Some(
            LirRefuse::HeapField,
        ),
        IlOp::BoxValue { .. } | IlOp::UnboxValue { .. } => Some(LirRefuse::Box),
        IlOp::Jump { kind: IlJumpKind::JumpIfMatch { arity, .. }, .. } => if arity > 1 {
            Some(LirRefuse::Match)
        } else {
            None
        },
        _ => if alloc_reason(op) is Some && !maps_ok {
            Some(LirRefuse::Alloc)
        } else {
            match op {
                IlOp::Byte { byte, .. } => if byte.inst is Unpack && byte.word() > 1 {
                    Some(LirRefuse::Unpack)
                } else {
                    None
                },
                _ => None,
            }
        },
    }
}

/// The first wall from `i` on.
pub open spec fn first_wall(ops: Seq<IlOp>, maps_ok: bool, i: int) -> Option<LirRefuse>
    decreases ops.len() - i,
{
    if i >= ops.len() {
        None
    } else if wall(ops[i], maps_ok) is Some {
        wall(ops[i], maps_ok)
    } else {
        first_wall(ops, maps_ok, i + 1)
    }
}

/// Whether a body without collector maps may be lifted.
pub fn lir_eligible(ops: &[IlOp], unboxed_fields: &[(u32, u32)]) -> (r: bool)
    ensures
        r == (first_wall(ops@, false, 0) is None),
{
    lir_eligible_with(ops, unboxed_fields, false)
}

/// Whether a body may be lifted. `maps_ok` lets allocation through.
pub fn lir_eligible_with(ops: &[IlOp], unboxed_fields: &[(u32, u32)], maps_ok: bool) -> (r: bool)
    ensures
        r == (first_wall(ops@, maps_ok, 0) is None),
{
    lir_refuse_with(ops, unboxed_fields, maps_ok).is_none()
}

/// Why a body without collector maps is not lifted.
pub fn lir_refuse(ops: &[IlOp], unboxed_fields: &[(u32, u32)]) -> (r: Option<LirRefuse>)
    ensures
        r == first_wall(ops@, false, 0),
{
    lir_refuse_with(ops, unboxed_fields, false)
}

/// Why a body is not lifted. Fields of unboxed classes make no difference.
pub fn lir_refuse_with(ops: &[IlOp], unboxed_fields: &[(u32, u32)], maps_ok: bool) -> (r: Option<
    LirRefuse,
>)
    ensures
        r == first_wall(ops@, maps_ok, 0),
{
    let _ = unboxed_fields;
    hard_refuse(ops, maps_ok)
}

fn find_wall(op: &IlOp, maps_ok: bool) -> (r: Option<LirRefuse>)
    ensures
        r == wall(*op, maps_ok),
{
    match op {
        IlOp::Entry { .. } | IlOp::PrologueJmp { .. } => Some(LirRefuse::Call),
        IlOp::HostInvoke { .. } => Some(LirRefuse::Host),
        IlOp::GetField { .. } | IlOp::SetField { .. } | IlOp::LoadField { .. } => Some(
            LirRefuse::HeapField,
        ),
        IlOp::BoxValue { .. } | IlOp::UnboxValue { .. } => Some(LirRefuse::Box),
        IlOp::Jump { kind: IlJumpKind::JumpIfMatch { arity, .. }, .. } => if *arity > 1 {
            Some(LirRefuse::Match)
        } else {
            None
        },
        _ => {
            if refuses_alloc(op) && !maps_ok {
                return Some(LirRefuse::Alloc);
            }
            match op {
                IlOp::Byte { byte, .. } => if *byte.bytecode() == Instruction::Unpack
                    && byte.operand_u32() > 1 {
                    Some(LirRefuse::Unpack)
                } else {
                    None
                },
                _ => None,
            }
        },
    }
}

fn hard_refuse(ops: &[IlOp], maps_ok: bool) -> (r: Option<LirRefuse>)
    ensures
        r == first_wall(ops@, maps_ok, 0),
{
    let mut i: usize = 0;
    while i < ops.len()
        invariant
            i <= ops@.len(),
            first_wall(ops@, maps_ok, 0) == first_wall(ops@, maps_ok, i as int),
        decreases ops@.len() - i,
    {
        let found = find_wall(&ops[i], maps_ok);
        if found.is_some() {
            return found;
        }
        i += 1;
    }
    None
}

/// Collector maps only ever let more bodies through.
pub proof fn maps_lift_no_other_wall(ops: Seq<IlOp>, i: int)
    requires
        0 <= i,
        first_wall(ops, false, i) is None,
    ensures
        first_wall(ops, true, i) is None,
    decreases ops.len() - i,
{
    if i < ops.len() {
        maps_lift_no_other_wall(ops, i + 1);
    }
}

} // verus!

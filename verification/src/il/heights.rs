//! Operand heights follow the run: what is known of the height of the operand stack is its height.
use super::op::{IlJumpKind, IlOp};
use super::run::{after_jump, step, Frame};
use super::sp::{jump_effects, op_delta};
use super::tell::op_effects;
use super::flow::{applied, Tell};
use crate::words::Machine;
use vstd::prelude::*;

verus! {

/// An operation changes the height of the operand stack by its delta.
pub proof fn deltas_are_changes_of_height(m: Machine, pool: Seq<u64>, op: IlOp, s: Frame)
    requires
        step(m, pool, op, s) is Some,
    ensures
        op_delta(op) is Some,
        (step(m, pool, op, s)->0).stack.len() == s.stack.len() + op_delta(op)->0,
{
}

/// Behind a jump, on either way, the height that is known is the height of the stack.
pub proof fn jumps_change_the_height(kind: IlJumpKind, s: Frame)
    requires
        after_jump(kind, s) is Some,
        s.stack.len() <= u32::MAX,
    ensures
        ({
            let (taken, t) = after_jump(kind, s)->0;
            let effect = if taken {
                jump_effects(kind).1
            } else {
                jump_effects(kind).0
            };
            applied(Tell::Known(s.stack.len() as u32), effect) matches Some(h) ==> h == Tell::Known(
                t.stack.len() as u32,
            )
        }),
{
}

/// The cursor moves with the height, and a store to a slot leaves it above the slot.
pub proof fn cursors_follow_the_run(m: Machine, pool: Seq<u64>, op: IlOp, next: Option<IlOp>, s: Frame, c: u32)
    requires
        step(m, pool, op, s) is Some,
        !(op is Byte),
        0 <= c + (step(m, pool, op, s)->0).stack.len() - s.stack.len() <= u32::MAX,
        op matches IlOp::StorePop { slot, .. } ==> slot < u32::MAX,
    ensures
        ({
            let moved = c + (step(m, pool, op, s)->0).stack.len() - s.stack.len();
            applied(Tell::Known(c), op_effects(op, next).0) == Some(
                Tell::Known(
                    match op {
                        IlOp::StorePop { slot, .. } => if moved <= slot {
                            (slot + 1) as u32
                        } else {
                            moved as u32
                        },
                        _ => moved as u32,
                    },
                ),
            )
        }),
{
    deltas_are_changes_of_height(m, pool, op, s);
}

} // verus!

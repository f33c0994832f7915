//! Arguments of stack code: a slot that the code does not read before it stores to it does not
//! matter.
use super::abi::{live_in, live_in_below, slots_read, stored_before, stores_slot};
use crate::il::op::IlOp;
use crate::il::run::{run, step, Frame};
use crate::il::strides::dense;
use crate::words::Machine;
use vstd::prelude::*;

verus! {

/// The frames have one stack and hold the same in all slots; in `slot` only if `settled`.
pub open spec fn alike(s: Frame, t: Frame, slot: u32, settled: bool) -> bool {
    &&& s.stack == t.stack
    &&& forall|k: u32| k != slot ==> #[trigger] s.slots[k] == t.slots[k]
    &&& settled ==> s.slots[slot] == t.slots[slot]
}

/// Counts name their slot.
pub open spec fn counts_named(op: IlOp) -> bool {
    match op {
        IlOp::Byte { byte, .. } => byte.inst is INC || byte.inst is DEC ==> byte.arg is IncDec,
        _ => true,
    }
}

/// An operation does the same whatever a slot holds that it does not read.
pub proof fn unread_slots_do_not_matter(
    m: Machine,
    pool: Seq<u64>,
    op: IlOp,
    s: Frame,
    t: Frame,
    slot: u32,
    settled: bool,
)
    requires
        alike(s, t, slot, settled),
        settled || !slots_read(op).contains(slot),
        !dense(op),
        counts_named(op),
        step(m, pool, op, s) is Some,
    ensures
        step(m, pool, op, t) is Some,
        alike(step(m, pool, op, s)->0, step(m, pool, op, t)->0, slot, settled || stores_slot(op, slot)),
{
    let us = slots_read(op);
    match op {
        IlOp::Load { slot: k, .. } => {
            assert(us[0] == k);
        },
        IlOp::BinSlotImm { slot: k, .. } => {
            assert(us[0] == k as u32);
        },
        IlOp::BinSlotSlot { a, b, .. } => {
            assert(us[0] == a as u32 && us[1] == b as u32);
        },
        IlOp::Byte { byte, .. } => {
            if byte.inst is INC || byte.inst is DEC {
                assert(us[0] == byte.inc_dec().0);
            }
        },
        _ => {},
    }
}

proof fn runs_are_alike(
    m: Machine,
    pool: Seq<u64>,
    ops: Seq<IlOp>,
    i: int,
    s: Frame,
    t: Frame,
    slot: u32,
)
    requires
        0 <= i <= ops.len(),
        alike(s, t, slot, stored_before(ops, slot, i)),
        !live_in(ops, slot),
        forall|k: int| 0 <= k < ops.len() ==> !dense(#[trigger] ops[k]) && counts_named(ops[k]),
        run(m, pool, ops, i, s) is Some,
    ensures
        run(m, pool, ops, i, t) is Some,
        (run(m, pool, ops, i, t)->0).stack == (run(m, pool, ops, i, s)->0).stack,
    decreases ops.len() - i,
{
    if i < ops.len() {
        let op = ops[i];
        let done = stored_before(ops, slot, i);
        if !done && slots_read(op).contains(slot) {
            assert(live_in_below(ops, slot, ops.len() as int));
        }
        assert(!dense(op) && counts_named(op));
        unread_slots_do_not_matter(m, pool, op, s, t, slot, done);
        if stored_before(ops, slot, i + 1) && !done {
            let j = choose|j: int| 0 <= j < i + 1 && #[trigger] stores_slot(ops[j], slot);
            assert(j == i);
        }
        runs_are_alike(m, pool, ops, i + 1, step(m, pool, op, s)->0, step(m, pool, op, t)->0, slot);
    }
}

/// Code does the same whatever a slot held before it, if the code does not read the slot before it
/// stores to it: only slots that are read first are arguments.
pub proof fn only_slots_read_first_are_arguments(
    m: Machine,
    pool: Seq<u64>,
    ops: Seq<IlOp>,
    s: Frame,
    slot: u32,
    x: int,
)
    requires
        !live_in(ops, slot),
        forall|k: int| 0 <= k < ops.len() ==> !dense(#[trigger] ops[k]) && counts_named(ops[k]),
        run(m, pool, ops, 0, s) is Some,
    ensures
        run(m, pool, ops, 0, s.put(slot, x)) is Some,
        (run(m, pool, ops, 0, s.put(slot, x))->0).stack == (run(m, pool, ops, 0, s)->0).stack,
{
    runs_are_alike(m, pool, ops, 0, s, s.put(slot, x), slot);
}

} // verus!

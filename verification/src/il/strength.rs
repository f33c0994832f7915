//! Strength reduction of loops over stack code.
//!
//! A product of the loop counter and a loop constant becomes a sum that grows by a fixed amount
//! with the counter. Calls that may have effects, host calls and operations that change the
//! length of an array keep a loop as it is, and so does a factor that the loop writes. Products
//! of the counter as a float stay: a repeated sum of floats rounds differently.
use vstd::prelude::*;
use super::flow::told;
use super::flow::Tell;
use super::loops::{
    extend_range, find_loop, insert_preheader_ops, loop_at, stored, stored_in_loop, with_preheader,
    NaturalLoop,
};
use super::op::{no_loc, Byte, DebugLoc, EntryKind, IlJumpKind, IlOp, Instruction, Label};
use super::sp;
use super::sp::height_sites;

verus! {

/// Entries of functions without effects.
#[derive(Clone, Debug)]
pub struct PureCallCtx {
    pub pure_entries: Vec<Label>,
}

/// The entries that calls may go to without being a barrier.
pub open spec fn pure_labels(purity: Option<&PureCallCtx>) -> Seq<Label> {
    match purity {
        Some(p) => p.pure_entries@,
        None => Seq::empty(),
    }
}

fn is_pure(purity: Option<&PureCallCtx>, l: Label) -> (r: bool)
    ensures
        r == pure_labels(purity).contains(l),
{
    match purity {
        Some(p) => {
            let mut i: usize = 0;
            while i < p.pure_entries.len()
                invariant
                    i <= p.pure_entries@.len(),
                    forall|k: int| 0 <= k < i ==> p.pure_entries@[k] != l,
                    pure_labels(purity) == p.pure_entries@,
                decreases p.pure_entries@.len() - i,
            {
                if p.pure_entries[i].0 == l.0 {
                    assert(p.pure_entries@[i as int] == l);
                    return true;
                }
                i += 1;
            }
            false
        },
        None => false,
    }
}

/// Whether an instruction keeps a loop as it is.
pub open spec fn byte_blocks(inst: Instruction) -> bool {
    match inst {
        Instruction::CALL
        | Instruction::TailCall
        | Instruction::CallIndirect
        | Instruction::MakeCoro
        | Instruction::FfiInvoke
        | Instruction::ArrayPush
        | Instruction::MakeArray => true,
        _ => false,
    }
}

/// Whether an operation keeps a loop as it is.
pub open spec fn blocks(op: IlOp, pure_entries: Seq<Label>) -> bool {
    match op {
        IlOp::Entry { kind, target, .. } => !(kind is Call && pure_entries.contains(target)),
        IlOp::HostInvoke { .. } | IlOp::MakeArray { .. } => true,
        IlOp::Byte { byte, .. } => byte_blocks(byte.inst),
        _ => false,
    }
}

fn op_blocks(op: &IlOp, purity: Option<&PureCallCtx>) -> (r: bool)
    ensures
        r == blocks(*op, pure_labels(purity)),
{
    match op {
        IlOp::Entry { kind, target, .. } => match kind {
            EntryKind::Call => !is_pure(purity, *target),
            _ => true,
        },
        IlOp::HostInvoke { .. } | IlOp::MakeArray { .. } => true,
        IlOp::Byte { byte, .. } => match byte.inst {
            Instruction::CALL
            | Instruction::TailCall
            | Instruction::CallIndirect
            | Instruction::MakeCoro
            | Instruction::FfiInvoke
            | Instruction::ArrayPush
            | Instruction::MakeArray => true,
            _ => false,
        },
        _ => false,
    }
}

/// Whether an operation of the loop keeps it as it is.
pub open spec fn has_barrier(ops: Seq<IlOp>, lp: NaturalLoop, pure_entries: Seq<Label>) -> bool {
    exists|k: int| lp.header <= k <= lp.latch && blocks(#[trigger] ops[k], pure_entries)
}

fn loop_has_sr_barrier(ops: &Vec<IlOp>, lp: &NaturalLoop, purity: Option<&PureCallCtx>) -> (r: bool)
    requires
        lp.header <= lp.latch < ops@.len(),
    ensures
        r == has_barrier(ops@, *lp, pure_labels(purity)),
{
    let n = ops.len();
    let mut k: usize = lp.header;
    while k <= lp.latch
        invariant
            lp.header <= k <= lp.latch + 1,
            lp.latch < n,
            n == ops@.len(),
            forall|x: int|
                lp.header <= x < k ==> !blocks(#[trigger] ops@[x], pure_labels(purity)),
        decreases lp.latch + 1 - k,
    {
        if op_blocks(&ops[k], purity) {
            return true;
        }
        k += 1;
    }
    false
}

/// What the counter grows by: a constant or a slot that the loop does not write.
#[derive(Clone, Copy, Debug, PartialEq, Eq, Structural)]
pub enum Step {
    Imm(i32),
    Slot(u32),
}

/// Whether `op` computes `want` on the two topmost values.
pub open spec fn computes(op: IlOp, want: Instruction) -> bool {
    match op {
        IlOp::Bin { op: inst, .. } => inst == want,
        IlOp::Byte { byte, .. } => byte.inst == want,
        _ => false,
    }
}

fn is_computation(op: &IlOp, want: Instruction) -> (r: bool)
    ensures
        r == computes(*op, want),
{
    match op {
        IlOp::Bin { op: inst, .. } => *inst == want,
        IlOp::Byte { byte, .. } => byte.inst == want,
        _ => false,
    }
}

/// Whether `op` is a typed addition.
pub open spec fn adds(op: IlOp) -> bool {
    match op {
        IlOp::Bin { op: inst, .. } => inst == Instruction::ADD,
        _ => false,
    }
}

fn is_addition(op: &IlOp) -> (r: bool)
    ensures
        r == adds(*op),
{
    match op {
        IlOp::Bin { op: inst, .. } => *inst == Instruction::ADD,
        _ => false,
    }
}

/// Whether `op` jumps when the topmost value is false.
pub open spec fn exits(op: IlOp) -> bool {
    match op {
        IlOp::Jump { kind, .. } => kind is JumpIfFalse,
        _ => false,
    }
}

fn is_jmpf(op: &IlOp) -> (r: bool)
    ensures
        r == exits(*op),
{
    match op {
        IlOp::Jump { kind, .. } => match kind {
            IlJumpKind::JumpIfFalse => true,
            _ => false,
        },
        _ => false,
    }
}

/// Slot that a load reads.
pub open spec fn loaded(op: IlOp) -> Option<u32> {
    match op {
        IlOp::Load { slot, .. } => Some(slot),
        _ => None,
    }
}

fn load_slot(op: &IlOp) -> (r: Option<u32>)
    ensures
        r == loaded(*op),
{
    match op {
        IlOp::Load { slot, .. } => Some(*slot),
        _ => None,
    }
}

/// Slot that a typed store writes.
pub open spec fn popped_to(op: IlOp) -> Option<u32> {
    match op {
        IlOp::StorePop { slot, .. } => Some(slot),
        _ => None,
    }
}

fn store_slot(op: &IlOp) -> (r: Option<u32>)
    ensures
        r == popped_to(*op),
{
    match op {
        IlOp::StorePop { slot, .. } => Some(*slot),
        _ => None,
    }
}

/// The compare at `i` that bounds the counter from above, with the exit behind it: the counter
/// and its bound.
pub open spec fn bound_at(ops: Seq<IlOp>, latch: int, i: int) -> Option<(u32, u32)> {
    if i + 3 < latch && loaded(ops[i]) is Some && loaded(ops[i + 1]) is Some && exits(ops[i + 3])
        && computes(ops[i + 2], Instruction::LE) {
        Some((loaded(ops[i])->0, loaded(ops[i + 1])->0))
    } else if i + 3 < latch && loaded(ops[i]) is Some && loaded(ops[i + 1]) is Some && exits(
        ops[i + 3],
    ) && computes(ops[i + 2], Instruction::GT) {
        Some((loaded(ops[i + 1])->0, loaded(ops[i])->0))
    } else {
        match ops[i] {
            IlOp::BinSlotSlot { op, a, b, .. } => if i + 1 < latch && exits(ops[i + 1]) && op
                == Instruction::LE {
                Some((a as u32, b as u32))
            } else if i + 1 < latch && exits(ops[i + 1]) && op == Instruction::GT {
                Some((b as u32, a as u32))
            } else {
                None
            },
            _ => None,
        }
    }
}

fn find_bound_at(ops: &Vec<IlOp>, latch: usize, i: usize) -> (r: Option<(u32, u32)>)
    requires
        i < latch < ops@.len(),
    ensures
        r == bound_at(ops@, latch as int, i as int),
{
    if latch - i > 3 && is_jmpf(&ops[i + 3]) {
        if let (Some(a), Some(b)) = (load_slot(&ops[i]), load_slot(&ops[i + 1])) {
            if is_computation(&ops[i + 2], Instruction::LE) {
                return Some((a, b));
            }
            if is_computation(&ops[i + 2], Instruction::GT) {
                return Some((b, a));
            }
        }
    }
    match &ops[i] {
        IlOp::BinSlotSlot { op, a, b, .. } => {
            if latch - i > 1 && is_jmpf(&ops[i + 1]) {
                if *op == Instruction::LE {
                    return Some((*a as u32, *b as u32));
                }
                if *op == Instruction::GT {
                    return Some((*b as u32, *a as u32));
                }
            }
            None
        },
        _ => None,
    }
}

/// The first compare from `i` on that bounds the counter.
pub open spec fn bound_from(ops: Seq<IlOp>, latch: int, i: int) -> Option<(u32, u32)>
    decreases latch - i,
{
    if i + 1 >= latch {
        None
    } else {
        match bound_at(ops, latch, i) {
            Some(p) => Some(p),
            None => bound_from(ops, latch, i + 1),
        }
    }
}

fn header_lt_bound(ops: &Vec<IlOp>, lp: &NaturalLoop) -> (r: Option<(u32, u32)>)
    requires
        lp.header < lp.latch < ops@.len(),
    ensures
        r == bound_from(ops@, lp.latch as int, lp.header + 1),
{
    let n = ops.len();
    let mut i: usize = lp.header + 1;
    while i < lp.latch - 1
        invariant
            lp.header < i <= lp.latch,
            lp.latch < n,
            n == ops@.len(),
            lp.latch >= 1,
            bound_from(ops@, lp.latch as int, lp.header + 1) == bound_from(
                ops@,
                lp.latch as int,
                i as int,
            ),
        decreases lp.latch - i,
    {
        match find_bound_at(ops, lp.latch, i) {
            Some(p) => return Some(p),
            None => {},
        }
        i += 1;
    }
    None
}

/// The slot that is added to the counter, where exactly one of the two is the counter.
pub open spec fn other_slot(a: u32, b: u32, iv: u32) -> Option<u32> {
    if a == iv && b != iv {
        Some(b)
    } else if b == iv && a != iv {
        Some(a)
    } else {
        None
    }
}

fn find_other_slot(a: u32, b: u32, iv: u32) -> (r: Option<u32>)
    ensures
        r == other_slot(a, b, iv),
{
    if a == iv && b != iv {
        Some(b)
    } else if b == iv && a != iv {
        Some(a)
    } else {
        None
    }
}

/// The step of that slot, if the loop does not write it.
pub open spec fn slot_step(ops: Seq<IlOp>, lp: NaturalLoop, other: Option<u32>) -> Option<Step> {
    match other {
        Some(s) => if stored(ops, lp, s) {
            None
        } else {
            Some(Step::Slot(s))
        },
        None => None,
    }
}

fn find_slot_step(ops: &Vec<IlOp>, lp: &NaturalLoop, other: Option<u32>) -> (r: Option<Step>)
    requires
        lp.header <= lp.latch < ops@.len(),
    ensures
        r == slot_step(ops@, *lp, other),
{
    match other {
        Some(s) => if stored_in_loop(ops, lp, s) {
            None
        } else {
            Some(Step::Slot(s))
        },
        None => None,
    }
}

/// What the store of the counter at `i` adds to it, by the operations in front.
pub open spec fn step_at(ops: Seq<IlOp>, lp: NaturalLoop, i: int, iv: u32) -> Option<Step> {
    if i >= 3 && adds(ops[i - 1]) && loaded(ops[i - 3]) == Some(iv) && (ops[i - 2] matches IlOp::Const {
        imm,
        ..
    } && imm > 0) {
        Some(Step::Imm(ops[i - 2]->Const_imm))
    } else {
        match ops[i - 1] {
            IlOp::BinSlotImm { op, slot, imm, .. } => if op == Instruction::ADD && slot as u32 == iv
                && imm > 0 {
                Some(Step::Imm(imm as i32))
            } else {
                None
            },
            IlOp::BinSlotSlot { op, a, b, .. } => if op == Instruction::ADD {
                slot_step(ops, lp, other_slot(a as u32, b as u32, iv))
            } else {
                None
            },
            IlOp::Bin { op, .. } => if i >= 3 && op == Instruction::ADD {
                match (loaded(ops[i - 2]), loaded(ops[i - 3])) {
                    (Some(a), Some(b)) => slot_step(ops, lp, other_slot(a, b, iv)),
                    _ => None,
                }
            } else {
                None
            },
            _ => None,
        }
    }
}

fn step_before_store(ops: &Vec<IlOp>, lp: &NaturalLoop, i: usize, iv: u32) -> (r: Option<Step>)
    requires
        lp.header <= lp.latch < ops@.len(),
        1 <= i < ops@.len(),
    ensures
        r == step_at(ops@, *lp, i as int, iv),
{
    if i >= 3 && is_addition(&ops[i - 1]) {
        if let Some(s) = load_slot(&ops[i - 3]) {
            if s == iv {
                if let IlOp::Const { imm, .. } = &ops[i - 2] {
                    if *imm > 0 {
                        return Some(Step::Imm(*imm));
                    }
                }
            }
        }
    }
    match &ops[i - 1] {
        IlOp::BinSlotImm { op, slot, imm, .. } => {
            if *op == Instruction::ADD && *slot as u32 == iv && *imm > 0 {
                Some(Step::Imm(*imm as i32))
            } else {
                None
            }
        },
        IlOp::BinSlotSlot { op, a, b, .. } => {
            if *op == Instruction::ADD {
                find_slot_step(ops, lp, find_other_slot(*a as u32, *b as u32, iv))
            } else {
                None
            }
        },
        IlOp::Bin { op, .. } => {
            if i >= 3 && *op == Instruction::ADD {
                match (load_slot(&ops[i - 2]), load_slot(&ops[i - 3])) {
                    (Some(a), Some(b)) => find_slot_step(ops, lp, find_other_slot(a, b, iv)),
                    _ => None,
                }
            } else {
                None
            }
        },
        _ => None,
    }
}

/// What the one store of the counter from `i` on adds to it, given the one `found` before.
pub open spec fn step_from(
    ops: Seq<IlOp>,
    lp: NaturalLoop,
    iv: u32,
    i: int,
    found: Option<Step>,
) -> Option<Step>
    decreases lp.latch - i,
{
    if i >= lp.latch {
        found
    } else if popped_to(ops[i]) == Some(iv) {
        match step_at(ops, lp, i, iv) {
            Some(s) => if found is Some {
                None
            } else {
                step_from(ops, lp, iv, i + 1, Some(s))
            },
            None => None,
        }
    } else {
        step_from(ops, lp, iv, i + 1, found)
    }
}

/// The counter of a loop and its step: the slot that the loop compares with its bound, stored
/// once, by adding a positive constant or a slot that the loop does not write.
pub open spec fn induction(ops: Seq<IlOp>, lp: NaturalLoop) -> Option<(u32, Step)> {
    match bound_from(ops, lp.latch as int, lp.header + 1) {
        Some(p) => match step_from(ops, lp, p.0, lp.header + 1, None) {
            Some(s) => Some((p.0, s)),
            None => None,
        },
        None => None,
    }
}

fn find_induction(ops: &Vec<IlOp>, lp: &NaturalLoop) -> (r: Option<(u32, Step)>)
    requires
        lp.header < lp.latch < ops@.len(),
    ensures
        r == induction(ops@, *lp),
{
    let iv = match header_lt_bound(ops, lp) {
        Some(p) => p.0,
        None => return None,
    };
    let n = ops.len();
    let mut found: Option<Step> = None;
    let mut i: usize = lp.header + 1;
    while i < lp.latch
        invariant
            lp.header < i <= lp.latch,
            lp.latch < n,
            n == ops@.len(),
            bound_from(ops@, lp.latch as int, lp.header + 1) is Some,
            (bound_from(ops@, lp.latch as int, lp.header + 1)->0).0 == iv,
            step_from(ops@, *lp, iv, lp.header + 1, None) == step_from(
                ops@,
                *lp,
                iv,
                i as int,
                found,
            ),
        decreases lp.latch - i,
    {
        if let Some(s) = store_slot(&ops[i]) {
            if s == iv {
                match step_before_store(ops, lp, i, iv) {
                    Some(step) => {
                        if found.is_some() {
                            return None;
                        }
                        found = Some(step);
                    },
                    None => return None,
                }
            }
        }
        i += 1;
    }
    match found {
        Some(s) => Some((iv, s)),
        None => None,
    }
}

/// Whether `op` pushes an integer that stays the same in the loop.
pub open spec fn fixed_factor(ops: Seq<IlOp>, lp: NaturalLoop, op: IlOp, iv: u32) -> bool {
    match op {
        IlOp::Const { .. } | IlOp::ConstPool { .. } => true,
        IlOp::Load { slot, .. } => slot != iv && !stored(ops, lp, slot),
        _ => false,
    }
}

fn is_invariant_int_factor(ops: &Vec<IlOp>, lp: &NaturalLoop, op: &IlOp, iv: u32) -> (r: bool)
    requires
        lp.header <= lp.latch < ops@.len(),
    ensures
        r == fixed_factor(ops@, *lp, *op, iv),
{
    match op {
        IlOp::Const { .. } | IlOp::ConstPool { .. } => true,
        IlOp::Load { slot, .. } => *slot != iv && !stored_in_loop(ops, lp, *slot),
        _ => false,
    }
}

/// End of the product of the counter and a factor that begins at `i`.
pub open spec fn product_end(ops: Seq<IlOp>, lp: NaturalLoop, iv: u32, i: int) -> Option<int> {
    if i + 2 < lp.latch && computes(ops[i + 2], Instruction::MUL) && ((loaded(ops[i]) == Some(iv)
        && fixed_factor(ops, lp, ops[i + 1], iv)) || (fixed_factor(ops, lp, ops[i], iv) && loaded(
        ops[i + 1],
    ) == Some(iv))) {
        Some(i + 3)
    } else {
        match ops[i] {
            IlOp::BinSlotImm { op, slot, .. } => if op == Instruction::MUL && slot as u32 == iv {
                Some(i + 1)
            } else {
                None
            },
            IlOp::BinSlotSlot { op, a, b, .. } => if op == Instruction::MUL {
                match other_slot(a as u32, b as u32, iv) {
                    Some(s) => if stored(ops, lp, s) {
                        None
                    } else {
                        Some(i + 1)
                    },
                    None => None,
                }
            } else {
                None
            },
            _ => None,
        }
    }
}

fn match_int_mul(ops: &Vec<IlOp>, lp: &NaturalLoop, iv: u32, i: usize) -> (r: Option<usize>)
    requires
        lp.header < i < lp.latch < ops@.len(),
    ensures
        match r {
            Some(e) => product_end(ops@, *lp, iv, i as int) == Some(e as int),
            None => product_end(ops@, *lp, iv, i as int) is None,
        },
        r matches Some(e) ==> i < e <= lp.latch,
{
    if lp.latch - i > 2 && is_computation(&ops[i + 2], Instruction::MUL) {
        let first = load_slot(&ops[i]) == Some(iv);
        let second = load_slot(&ops[i + 1]) == Some(iv);
        if (first && is_invariant_int_factor(ops, lp, &ops[i + 1], iv)) || (second
            && is_invariant_int_factor(ops, lp, &ops[i], iv)) {
            return Some(i + 3);
        }
    }
    match &ops[i] {
        IlOp::BinSlotImm { op, slot, .. } => {
            if *op == Instruction::MUL && *slot as u32 == iv {
                Some(i + 1)
            } else {
                None
            }
        },
        IlOp::BinSlotSlot { op, a, b, .. } => {
            if *op == Instruction::MUL {
                match find_other_slot(*a as u32, *b as u32, iv) {
                    Some(s) => if stored_in_loop(ops, lp, s) {
                        None
                    } else {
                        Some(i + 1)
                    },
                    None => None,
                }
            } else {
                None
            }
        },
        _ => None,
    }
}

/// The first product of the counter and a factor from `i` on.
pub open spec fn product_from(ops: Seq<IlOp>, lp: NaturalLoop, iv: u32, i: int) -> Option<(int, int)>
    decreases lp.latch - i,
{
    if i >= lp.latch {
        None
    } else {
        match product_end(ops, lp, iv, i) {
            Some(e) => Some((i, e)),
            None => product_from(ops, lp, iv, i + 1),
        }
    }
}

fn find_sr_site(ops: &Vec<IlOp>, lp: &NaturalLoop, iv: u32) -> (r: Option<(usize, usize)>)
    requires
        lp.header < lp.latch < ops@.len(),
    ensures
        match r {
            Some(p) => product_from(ops@, *lp, iv, lp.header + 1) == Some(
                (p.0 as int, p.1 as int),
            ),
            None => product_from(ops@, *lp, iv, lp.header + 1) is None,
        },
        r matches Some(p) ==> lp.header < p.0 < p.1 <= lp.latch,
{
    let n = ops.len();
    let mut i: usize = lp.header + 1;
    while i < lp.latch
        invariant
            lp.header < i <= lp.latch,
            lp.latch < n,
            n == ops@.len(),
            product_from(ops@, *lp, iv, lp.header + 1) == product_from(ops@, *lp, iv, i as int),
        decreases lp.latch - i,
    {
        if let Some(e) = match_int_mul(ops, lp, iv, i) {
            return Some((i, e));
        }
        i += 1;
    }
    None
}

/// The highest slot that an operation names.
pub open spec fn top_slot(op: IlOp) -> u32 {
    match op {
        IlOp::Load { slot, .. } => slot,
        IlOp::StorePop { slot, .. } => slot,
        IlOp::BinSlotImm { slot, .. } => slot as u32,
        IlOp::BinSlotSlot { a, b, .. } => if a < b {
            b as u32
        } else {
            a as u32
        },
        IlOp::Byte { byte, .. } => match byte.inst {
            Instruction::LOAD | Instruction::STORE | Instruction::StorePop => super::tell::highest_slot(
                byte,
                byte.slot_count() as int,
            ),
            _ => 0,
        },
        _ => 0,
    }
}

fn packed_top(byte: &Byte) -> (r: u32)
    ensures
        r == super::tell::highest_slot(*byte, byte.slot_count() as int),
{
    let n = byte.load_store_count();
    let mut top: u32 = 0;
    let mut i: u32 = 0;
    while i < n
        invariant
            i <= n,
            top == super::tell::highest_slot(*byte, i as int),
        decreases n - i,
    {
        let s = byte.load_store_slot_at(i);
        if s > top {
            top = s;
        }
        i += 1;
    }
    top
}

fn find_top_slot(op: &IlOp) -> (r: u32)
    ensures
        r == top_slot(*op),
{
    match op {
        IlOp::Load { slot, .. } => *slot,
        IlOp::StorePop { slot, .. } => *slot,
        IlOp::BinSlotImm { slot, .. } => *slot as u32,
        IlOp::BinSlotSlot { a, b, .. } => if *a < *b {
            *b as u32
        } else {
            *a as u32
        },
        IlOp::Byte { byte, .. } => match byte.inst {
            Instruction::LOAD | Instruction::STORE | Instruction::StorePop => packed_top(byte),
            _ => 0,
        },
        _ => 0,
    }
}

/// The highest slot that the first `n` operations name.
pub open spec fn top_slot_of(ops: Seq<IlOp>, n: int) -> u32
    decreases n,
{
    if n <= 0 {
        0
    } else if top_slot(ops[n - 1]) > top_slot_of(ops, n - 1) {
        top_slot(ops[n - 1])
    } else {
        top_slot_of(ops, n - 1)
    }
}

fn max_slot_used(ops: &Vec<IlOp>) -> (r: u32)
    ensures
        r == top_slot_of(ops@, ops@.len() as int),
{
    let mut top: u32 = 0;
    let mut i: usize = 0;
    while i < ops.len()
        invariant
            i <= ops@.len(),
            top == top_slot_of(ops@, i as int),
        decreases ops@.len() - i,
    {
        let s = find_top_slot(&ops[i]);
        if s > top {
            top = s;
        }
        i += 1;
    }
    top
}

/// Source range of an operation that can begin a product.
pub open spec fn loc_of(op: IlOp) -> DebugLoc {
    match op {
        IlOp::Load { loc, .. } => loc,
        IlOp::Const { loc, .. } => loc,
        IlOp::ConstPool { loc, .. } => loc,
        IlOp::BinSlotImm { loc, .. } => loc,
        IlOp::BinSlotSlot { loc, .. } => loc,
        _ => no_loc(),
    }
}

fn find_loc(op: &IlOp) -> (r: DebugLoc)
    ensures
        r == loc_of(*op),
{
    match op {
        IlOp::Load { loc, .. } => *loc,
        IlOp::Const { loc, .. } => *loc,
        IlOp::ConstPool { loc, .. } => *loc,
        IlOp::BinSlotImm { loc, .. } => *loc,
        IlOp::BinSlotSlot { loc, .. } => *loc,
        _ => DebugLoc::unknown(),
    }
}

/// The operation with reads of slot `iv` replaced by reads of `tmp`.
pub open spec fn renamed(op: IlOp, iv: u32, tmp: u8) -> IlOp {
    match op {
        IlOp::Load { slot, loc } => if slot == iv {
            IlOp::Load { slot: tmp as u32, loc }
        } else {
            op
        },
        IlOp::BinSlotImm { op: bop, slot, imm, loc } => if slot as u32 == iv {
            IlOp::BinSlotImm { op: bop, slot: tmp, imm, loc }
        } else {
            op
        },
        IlOp::BinSlotSlot { op: bop, a, b, loc } => IlOp::BinSlotSlot {
            op: bop,
            a: if a as u32 == iv {
                tmp
            } else {
                a
            },
            b: if b as u32 == iv {
                tmp
            } else {
                b
            },
            loc,
        },
        _ => op,
    }
}

fn rename(op: &IlOp, iv: u32, tmp: u8) -> (r: IlOp)
    ensures
        r == renamed(*op, iv, tmp),
{
    match op {
        IlOp::Load { slot, loc } => if *slot == iv {
            IlOp::Load { slot: tmp as u32, loc: *loc }
        } else {
            *op
        },
        IlOp::BinSlotImm { op: bop, slot, imm, loc } => if *slot as u32 == iv {
            IlOp::BinSlotImm { op: *bop, slot: tmp, imm: *imm, loc: *loc }
        } else {
            *op
        },
        IlOp::BinSlotSlot { op: bop, a, b, loc } => IlOp::BinSlotSlot {
            op: *bop,
            a: if *a as u32 == iv {
                tmp
            } else {
                *a
            },
            b: if *b as u32 == iv {
                tmp
            } else {
                *b
            },
            loc: *loc,
        },
        _ => *op,
    }
}

/// The chain with reads of slot `iv` replaced by reads of `tmp`.
pub open spec fn chain_renamed(chain: Seq<IlOp>, iv: u32, tmp: u8) -> Seq<IlOp> {
    Seq::new(chain.len(), |i: int| renamed(chain[i], iv, tmp))
}

/// The operation that pushes the step.
pub open spec fn step_op(step: Step, loc: DebugLoc) -> IlOp {
    match step {
        Step::Imm(k) => IlOp::Const { imm: k, loc },
        Step::Slot(s) => IlOp::Load { slot: s, loc },
    }
}

/// The code in front of the loop: `acc` becomes the product, `delta` what one step adds to it.
pub open spec fn setup_code(
    chain: Seq<IlOp>,
    iv: u32,
    step: Step,
    acc: u32,
    loc: DebugLoc,
) -> Seq<IlOp> {
    let delta = (acc + 1) as u32;
    let tmp = (acc + 2) as u8;
    chain + seq![
        IlOp::StorePop { slot: acc, loc },
        IlOp::Load { slot: iv, loc },
        step_op(step, loc),
        IlOp::Bin { op: Instruction::ADD, loc },
        IlOp::StorePop { slot: tmp as u32, loc },
    ] + chain_renamed(chain, iv, tmp) + seq![
        IlOp::Load { slot: acc, loc },
        IlOp::Bin { op: Instruction::SUB, loc },
        IlOp::StorePop { slot: delta, loc },
    ]
}

/// The code behind the store of the counter: `acc` grows by `delta`.
pub open spec fn update_code(acc: u32, loc: DebugLoc) -> Seq<IlOp> {
    seq![
        IlOp::Load { slot: acc, loc },
        IlOp::Load { slot: (acc + 1) as u32, loc },
        IlOp::Bin { op: Instruction::ADD, loc },
        IlOp::StorePop { slot: acc, loc },
    ]
}

/// The first store of slot `iv` from `i` on.
pub open spec fn store_from(ops: Seq<IlOp>, iv: u32, i: int) -> Option<int>
    decreases ops.len() - i,
{
    if i >= ops.len() {
        None
    } else if popped_to(ops[i]) == Some(iv) {
        Some(i)
    } else {
        store_from(ops, iv, i + 1)
    }
}

/// `ops` with the product at `s..e` reduced: the loop reads `acc` in its place.
pub open spec fn site_reduced(
    ops: Seq<IlOp>,
    lp: NaturalLoop,
    iv: u32,
    step: Step,
    s: int,
    e: int,
) -> Option<Seq<IlOp>> {
    let top = top_slot_of(ops, ops.len() as int);
    if top > 247 {
        None
    } else {
        let acc = (top + 1) as u32;
        let loc = loc_of(ops[s]);
        let read = ops.take(s) + seq![IlOp::Load { slot: acc, loc }] + ops.skip(e);
        match store_from(read, iv, lp.header + 1) {
            Some(k) => {
                let grown = read.take(k + 1) + update_code(acc, loc) + read.skip(k + 1);
                Some(
                    with_preheader(
                        grown,
                        lp.header as int,
                        lp.header_label,
                        setup_code(ops.subrange(s, e), iv, step, acc, loc),
                    ),
                )
            },
            None => None,
        }
    }
}

fn apply_sr(
    ops: &Vec<IlOp>,
    lp: &NaturalLoop,
    iv: u32,
    step: Step,
    start: usize,
    end: usize,
) -> (r: Option<Vec<IlOp>>)
    requires
        lp.header < start < end <= lp.latch,
        lp.latch < ops@.len(),
    ensures
        match r {
            Some(v) => site_reduced(ops@, *lp, iv, step, start as int, end as int) == Some(v@),
            None => site_reduced(ops@, *lp, iv, step, start as int, end as int) is None,
        },
{
    let top = max_slot_used(ops);
    if top > 247 {
        return None;
    }
    let acc = top + 1;
    let loc = find_loc(&ops[start]);
    let delta = acc + 1;
    let tmp: u8 = (acc + 2) as u8;
    let ghost chain = ops@.subrange(start as int, end as int);

    let mut read: Vec<IlOp> = Vec::new();
    extend_range(&mut read, ops, 0, start);
    read.push(IlOp::Load { slot: acc, loc });
    extend_range(&mut read, ops, end, ops.len());
    assert(read@ =~= ops@.take(start as int) + seq![IlOp::Load { slot: acc, loc }] + ops@.skip(
        end as int,
    ));

    let n = read.len();
    let mut k: usize = lp.header + 1;
    while k < n && store_slot(&read[k]) != Some(iv)
        invariant
            lp.header < k <= n,
            n == read@.len(),
            store_from(read@, iv, lp.header + 1) == store_from(read@, iv, k as int),
        decreases n - k,
    {
        k += 1;
    }
    if k >= n {
        return None;
    }
    let mut grown: Vec<IlOp> = Vec::new();
    extend_range(&mut grown, &read, 0, k + 1);
    grown.push(IlOp::Load { slot: acc, loc });
    grown.push(IlOp::Load { slot: delta, loc });
    grown.push(IlOp::Bin { op: Instruction::ADD, loc });
    grown.push(IlOp::StorePop { slot: acc, loc });
    extend_range(&mut grown, &read, k + 1, n);
    assert(grown@ =~= read@.take(k + 1) + update_code(acc, loc) + read@.skip(k + 1));

    let mut pre: Vec<IlOp> = Vec::new();
    extend_range(&mut pre, ops, start, end);
    pre.push(IlOp::StorePop { slot: acc, loc });
    pre.push(IlOp::Load { slot: iv, loc });
    pre.push(
        match step {
            Step::Imm(c) => IlOp::Const { imm: c, loc },
            Step::Slot(s) => IlOp::Load { slot: s, loc },
        },
    );
    pre.push(IlOp::Bin { op: Instruction::ADD, loc });
    pre.push(IlOp::StorePop { slot: tmp as u32, loc });
    let ghost p0 = pre@;
    let mut i: usize = start;
    while i < end
        invariant
            start <= i <= end < ops@.len() + 1,
            chain == ops@.subrange(start as int, end as int),
            pre@ == p0 + chain_renamed(chain, iv, tmp).take(i - start),
        decreases end - i,
    {
        assert(chain[i - start] == ops@[i as int]);
        pre.push(rename(&ops[i], iv, tmp));
        i += 1;
        assert(pre@ =~= p0 + chain_renamed(chain, iv, tmp).take(i - start));
    }
    pre.push(IlOp::Load { slot: acc, loc });
    pre.push(IlOp::Bin { op: Instruction::SUB, loc });
    pre.push(IlOp::StorePop { slot: delta, loc });
    assert(pre@ =~= setup_code(chain, iv, step, acc, loc));
    Some(insert_preheader_ops(&grown, lp.header, lp.header_label, &pre))
}

/// `ops` with one product of the loop at `h` reduced, if the loop has a counter, no barrier and
/// such a product, and the operand height at its head is known.
pub open spec fn loop_reduced(ops: Seq<IlOp>, pure_entries: Seq<Label>, h: int) -> Option<Seq<IlOp>> {
    match loop_at(ops, h) {
        Some(lp) => if !(told(height_sites(ops), 0, 0)[h] is Known) || has_barrier(
            ops,
            lp,
            pure_entries,
        ) {
            None
        } else {
            match induction(ops, lp) {
                Some(iv) => match product_from(ops, lp, iv.0, h + 1) {
                    Some(p) => site_reduced(ops, lp, iv.0, iv.1, p.0, p.1),
                    None => None,
                },
                None => None,
            }
        },
        None => None,
    }
}

/// Whether the loop at `h` has a counter, no barrier and a product to reduce.
pub open spec fn loop_has_site(ops: Seq<IlOp>, pure_entries: Seq<Label>, h: int) -> bool {
    match loop_at(ops, h) {
        Some(lp) => told(height_sites(ops), 0, 0)[h] is Known && !has_barrier(
            ops,
            lp,
            pure_entries,
        ) && (match induction(ops, lp) {
            Some(iv) => product_from(ops, lp, iv.0, h + 1) is Some,
            None => false,
        }),
        None => false,
    }
}

/// `ops` with one product reduced: that of the last loop that has one, among those whose head is
/// in front of `n`.
pub open spec fn once_reduced(ops: Seq<IlOp>, pure_entries: Seq<Label>, n: int) -> Option<Seq<IlOp>>
    decreases n,
{
    if n <= 0 {
        None
    } else if loop_has_site(ops, pure_entries, n - 1) {
        loop_reduced(ops, pure_entries, n - 1)
    } else {
        once_reduced(ops, pure_entries, n - 1)
    }
}

fn strength_reduce_once(ops: &Vec<IlOp>, purity: Option<&PureCallCtx>) -> (r: Option<Vec<IlOp>>)
    ensures
        match r {
            Some(v) => once_reduced(ops@, pure_labels(purity), ops@.len() as int) == Some(v@),
            None => once_reduced(ops@, pure_labels(purity), ops@.len() as int) is None,
        },
{
    let ghost pure_entries = pure_labels(purity);
    let info = sp::analyze(ops.as_slice());
    let mut n: usize = ops.len();
    while n > 0
        invariant
            n <= ops@.len(),
            pure_entries == pure_labels(purity),
            info.sp_in@ == told(height_sites(ops@), 0, 0),
            once_reduced(ops@, pure_entries, ops@.len() as int) == once_reduced(
                ops@,
                pure_entries,
                n as int,
            ),
        decreases n,
    {
        let h = n - 1;
        if let Some(lp) = find_loop(ops, h) {
            let known = match info.sp_before(h) {
                Tell::Known(_) => true,
                Tell::Unknown => false,
            };
            if known && !loop_has_sr_barrier(ops, &lp, purity) {
                if let Some((iv, step)) = find_induction(ops, &lp) {
                    if let Some((s, e)) = find_sr_site(ops, &lp, iv) {
                        return apply_sr(ops, &lp, iv, step, s, e);
                    }
                }
            }
        }
        n -= 1;
    }
    None
}

/// The code after at most `k` reductions, and how many there were.
pub open spec fn reduced(ops: Seq<IlOp>, pure_entries: Seq<Label>, k: nat) -> (Seq<IlOp>, nat)
    decreases k,
{
    if k == 0 {
        (ops, 0)
    } else {
        match once_reduced(ops, pure_entries, ops.len() as int) {
            Some(v) => {
                let (end, n) = reduced(v, pure_entries, (k - 1) as nat);
                (end, n + 1)
            },
            None => (ops, 0),
        }
    }
}

/// Reduces products of loop counters, at most sixteen of them. Returns how many were reduced.
/// Code of fewer than eight operations stays. The constant pool needs no new entry.
pub fn strength_reduce(
    ops: &mut Vec<IlOp>,
    pool: &mut Vec<u64>,
    purity: Option<&PureCallCtx>,
) -> (r: usize)
    ensures
        *final(pool) == *old(pool),
        old(ops)@.len() < 8 ==> r == 0 && final(ops)@ == old(ops)@,
        old(ops)@.len() >= 8 ==> reduced(old(ops)@, pure_labels(purity), 16) == (
            final(ops)@,
            r as nat,
        ),
{
    if ops.len() < 8 {
        return 0;
    }
    let ghost want = reduced(ops@, pure_labels(purity), 16);
    let mut n: usize = 0;
    let mut going = true;
    while going && n < 16
        invariant
            n <= 16,
            going ==> want == (
                reduced(ops@, pure_labels(purity), (16 - n) as nat).0,
                reduced(ops@, pure_labels(purity), (16 - n) as nat).1 + n as nat,
            ),
            !going ==> want == (ops@, n as nat),
        decreases 16 - n + (if going {
            1int
        } else {
            0int
        }),
    {
        match strength_reduce_once(ops, purity) {
            Some(v) => {
                *ops = v;
                n += 1;
            },
            None => {
                going = false;
            },
        }
    }
    n
}


/// A 64-bit word that wraps around.
pub open spec fn word(x: int) -> int {
    x % 0x1_0000_0000_0000_0000
}

/// The sum keeps up with the product: with `acc` the product of the counter `i` and `c`, and
/// `delta` the difference that one step made in front of the loop, where the counter was `i0`,
/// `acc + delta` is the product behind the step, with all arithmetic wrapping around.
pub proof fn sum_keeps_up_with_product(i: int, i0: int, step: int, c: int)
    ensures
        word(word(i * c) + word(word((i0 + step) * c) - word(i0 * c))) == word((i + step) * c),
{
    let m = 0x1_0000_0000_0000_0000int;
    let p = (i0 + step) * c;
    let q = i0 * c;
    let r = i * c;
    vstd::arithmetic::div_mod::lemma_sub_mod_noop(p, q, m);
    vstd::arithmetic::div_mod::lemma_add_mod_noop(r, p - q, m);
    assert((i + step) * c == i * c + ((i0 + step) * c - i0 * c)) by (nonlinear_arith);
}

} // verus!

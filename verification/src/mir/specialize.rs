//! Bodies as dense code, or lifted and written back as stack code.
use super::abi::{
    body_abi, calls_view, copy_calls, live_in_params, live_params, AbiV, DenseAbi, DenseCallMap,
};
use super::cse::{cse, gvn, gvn_rounds, numbered_from, shared};
use super::destprop::{destprop, forwarded};
use super::emit::{dense_code, emit_dense};
use super::emit_lir::{emit_lir, field_slots_fit, lir_code};
use super::entry::{first_wall, lir_eligible_with};
use super::func::{FuncV, MirFunc};
use super::gc::{alloc_reason, refuses_alloc};
use super::host_allow::HostNative;
use super::infer::{
    alloc_after_loops, alloc_in_loop, back_edge, has_alloc_inside_loop, has_alloc_only_after_loops,
    has_back_edge, infer_lir, infer_lir_across_alloc, infer_numeric_across_alloc, infer_numeric_with,
    inferred, InferMode, Inferred, InferredV,
};
use super::inst::{BlockId, InstV, MirInst, ValueId};
use super::instcombine::{combined, float_requests, instcombine, requests_from, consts_of, FloatOp};
use super::licm::{emptied, licm};
use super::lower::{numeric, plain_hints, try_lower_numeric, HintsV, LowerHints};
use super::pack::{packed, try_axpy_pack};
use super::regs::phis_indexed;
use super::rewrite::has_inst;
use super::sroa::{reused, sroa};
use super::stackmap::{body_allocates, copy_pool, copy_ranges, has_alloc, has_real_maps, mapped};
use super::ty::MirTy;
use crate::idmap::IdMap;
use crate::il::op::{Byte, EntryKind, IlJumpKind, IlOp, Instruction, Label, Operand};
use vstd::prelude::*;

verus! {

// Counting operations.

pub open spec fn stores_element(op: IlOp) -> bool {
    match op {
        IlOp::StoreIndexPin { .. } | IlOp::StoreIndexPinUnchecked { .. } => true,
        IlOp::Byte { byte, .. } => byte.inst is StoreIndex || byte.inst is StoreIndexUnchecked
            || byte.inst is DenseStoreIndex,
        _ => false,
    }
}

pub open spec fn reads_element(op: IlOp) -> bool {
    match op {
        IlOp::Index { .. }
        | IlOp::IndexUnchecked { .. }
        | IlOp::IndexPin { .. }
        | IlOp::IndexPinUnchecked { .. } => true,
        IlOp::Byte { byte, .. } => byte.inst is Index || byte.inst is IndexUnchecked
            || byte.inst is DenseIndex,
        _ => false,
    }
}

/// How many of the first `n` operations store to an element.
pub open spec fn element_stores(ops: Seq<IlOp>, n: int) -> nat
    decreases n,
{
    if n <= 0 {
        0
    } else {
        element_stores(ops, n - 1) + (if stores_element(ops[n - 1]) {
            1nat
        } else {
            0nat
        })
    }
}

/// How many of the first `n` operations read an element.
pub open spec fn element_reads(ops: Seq<IlOp>, n: int) -> nat
    decreases n,
{
    if n <= 0 {
        0
    } else {
        element_reads(ops, n - 1) + (if reads_element(ops[n - 1]) {
            1nat
        } else {
            0nat
        })
    }
}

/// How many of the first `n` operations allocate.
pub open spec fn allocations(ops: Seq<IlOp>, n: int) -> nat
    decreases n,
{
    if n <= 0 {
        0
    } else {
        allocations(ops, n - 1) + (if alloc_reason(ops[n - 1]) is Some {
            1nat
        } else {
            0nat
        })
    }
}

fn count_store_index(ops: &[IlOp]) -> (r: usize)
    ensures
        r == element_stores(ops@, ops@.len() as int),
{
    let mut r: usize = 0;
    let mut i: usize = 0;
    while i < ops.len()
        invariant
            i <= ops@.len(),
            r <= i,
            r == element_stores(ops@, i as int),
        decreases ops@.len() - i,
    {
        let hit = match &ops[i] {
            IlOp::StoreIndexPin { .. } | IlOp::StoreIndexPinUnchecked { .. } => true,
            IlOp::Byte { byte, .. } => matches!(
                *byte.bytecode(),
                Instruction::StoreIndex
                | Instruction::StoreIndexUnchecked
                | Instruction::DenseStoreIndex
            ),
            _ => false,
        };
        if hit {
            r += 1;
        }
        i += 1;
    }
    r
}

fn count_index(ops: &[IlOp]) -> (r: usize)
    ensures
        r == element_reads(ops@, ops@.len() as int),
{
    let mut r: usize = 0;
    let mut i: usize = 0;
    while i < ops.len()
        invariant
            i <= ops@.len(),
            r <= i,
            r == element_reads(ops@, i as int),
        decreases ops@.len() - i,
    {
        let hit = match &ops[i] {
            IlOp::Index { .. }
            | IlOp::IndexUnchecked { .. }
            | IlOp::IndexPin { .. }
            | IlOp::IndexPinUnchecked { .. } => true,
            IlOp::Byte { byte, .. } => matches!(
                *byte.bytecode(),
                Instruction::Index | Instruction::IndexUnchecked | Instruction::DenseIndex
            ),
            _ => false,
        };
        if hit {
            r += 1;
        }
        i += 1;
    }
    r
}

fn count_allocs(ops: &[IlOp]) -> (r: usize)
    ensures
        r == allocations(ops@, ops@.len() as int),
{
    let mut r: usize = 0;
    let mut i: usize = 0;
    while i < ops.len()
        invariant
            i <= ops@.len(),
            r <= i,
            r == allocations(ops@, i as int),
        decreases ops@.len() - i,
    {
        if refuses_alloc(&ops[i]) {
            r += 1;
        }
        i += 1;
    }
    r
}

// Cost.

/// Cost of an operation: loads and stores of slots cost two, and so does setting up a frame, plus
/// one for each sixteen slots. Labels are free.
pub open spec fn op_cost(op: IlOp) -> nat {
    match op {
        IlOp::Label(_) | IlOp::JoinLabel(_) => 0,
        IlOp::StorePop { .. } | IlOp::Load { .. } => 2,
        IlOp::Byte { byte, .. } => if byte.inst is Seek {
            2 + (byte.word() / 16) as nat
        } else if byte.inst is LOAD || byte.inst is StorePop {
            2
        } else {
            1
        },
        _ => 1,
    }
}

/// Cost of the first `n` operations.
pub open spec fn cost_below(ops: Seq<IlOp>, n: int) -> nat
    decreases n,
{
    if n <= 0 {
        0
    } else {
        cost_below(ops, n - 1) + op_cost(ops[n - 1])
    }
}

fn cost_of(op: &IlOp) -> (r: u128)
    ensures
        r == op_cost(*op),
        r <= 0x1_0000_0000,
{
    match op {
        IlOp::Label(_) | IlOp::JoinLabel(_) => 0,
        IlOp::StorePop { .. } | IlOp::Load { .. } => 2,
        IlOp::Byte { byte, .. } => {
            let inst = *byte.bytecode();
            if inst == Instruction::Seek {
                2 + (byte.operand_u32() / 16) as u128
            } else if inst == Instruction::LOAD || inst == Instruction::StorePop {
                2
            } else {
                1
            }
        },
        _ => 1,
    }
}

/// Cost of a body.
pub fn emit_cost(ops: &[IlOp]) -> (r: u128)
    ensures
        r == cost_below(ops@, ops@.len() as int),
{
    let mut r: u128 = 0;
    let mut i: usize = 0;
    while i < ops.len()
        invariant
            i <= ops@.len(),
            r <= i * 0x1_0000_0000,
            r == cost_below(ops@, i as int),
        decreases ops@.len() - i,
    {
        r += cost_of(&ops[i]);
        i += 1;
    }
    r
}

/// Whether an operation works on the heap through the operand stack.
pub open spec fn boxed_heap_op(op: IlOp) -> bool {
    match op {
        IlOp::Index { .. }
        | IlOp::IndexUnchecked { .. }
        | IlOp::MakeArray { .. }
        | IlOp::MakeTuple { .. }
        | IlOp::MakeEnum { .. } => true,
        IlOp::Byte { byte, .. } => byte.inst is Index || byte.inst is IndexUnchecked
            || byte.inst is StoreIndex || byte.inst is StoreIndexUnchecked || byte.inst is ArrayLen
            || byte.inst is MakeArray || byte.inst is MakeTuple || byte.inst is MakeEnum
            || byte.inst is InitTyped,
        _ => false,
    }
}

fn is_boxed_heap_op(op: &IlOp) -> (r: bool)
    ensures
        r == boxed_heap_op(*op),
{
    match op {
        IlOp::Index { .. }
        | IlOp::IndexUnchecked { .. }
        | IlOp::MakeArray { .. }
        | IlOp::MakeTuple { .. }
        | IlOp::MakeEnum { .. } => true,
        IlOp::Byte { byte, .. } => matches!(
            *byte.bytecode(),
            Instruction::Index
            | Instruction::IndexUnchecked
            | Instruction::StoreIndex
            | Instruction::StoreIndexUnchecked
            | Instruction::ArrayLen
            | Instruction::MakeArray
            | Instruction::MakeTuple
            | Instruction::MakeEnum
            | Instruction::InitTyped
        ),
        _ => false,
    }
}

/// Whether some operation works on the heap through the operand stack.
pub open spec fn any_boxed(ops: Seq<IlOp>) -> bool {
    exists|i: int| 0 <= i < ops.len() && boxed_heap_op(#[trigger] ops[i])
}

/// Whether some operation works on the heap through the operand stack.
pub fn residual_heap_box(ops: &[IlOp]) -> (r: bool)
    ensures
        r == any_boxed(ops@),
{
    let mut i: usize = 0;
    while i < ops.len()
        invariant
            i <= ops@.len(),
            forall|k: int| 0 <= k < i ==> !boxed_heap_op(#[trigger] ops@[k]),
        decreases ops@.len() - i,
    {
        if is_boxed_heap_op(&ops[i]) {
            return true;
        }
        i += 1;
    }
    false
}

// Shape of a body.

/// The first label from `i` on.
pub open spec fn label_from(ops: Seq<IlOp>, i: int) -> Option<Label>
    decreases ops.len() - i,
{
    if i >= ops.len() {
        None
    } else if ops[i].bound() is Some {
        ops[i].bound()
    } else {
        label_from(ops, i + 1)
    }
}

fn first_label(ops: &[IlOp]) -> (r: Option<Label>)
    ensures
        r == label_from(ops@, 0),
{
    let mut i: usize = 0;
    while i < ops.len()
        invariant
            i <= ops@.len(),
            label_from(ops@, 0) == label_from(ops@, i as int),
        decreases ops@.len() - i,
    {
        match &ops[i] {
            IlOp::Label(l) => {
                return Some(*l);
            },
            IlOp::JoinLabel(l) => {
                return Some(*l);
            },
            _ => {},
        }
        i += 1;
    }
    None
}

/// Whether an operation calls one of the two labels.
pub open spec fn calls_one(op: IlOp, a: Option<Label>, b: Option<Label>) -> bool {
    match op {
        IlOp::Entry { kind, target, .. } => (kind is Call || kind is TailCall) && (a == Some(target)
            || b == Some(target)),
        _ => false,
    }
}

/// Whether the body calls itself, by its entry or by its first label.
pub open spec fn calls_itself(ops: Seq<IlOp>, entry: Option<Label>) -> bool {
    exists|i: int| 0 <= i < ops.len() && calls_one(#[trigger] ops[i], entry, label_from(ops, 0))
}

fn has_self_recursive_call(ops: &[IlOp], entry: Option<Label>) -> (r: bool)
    ensures
        r == calls_itself(ops@, entry),
{
    let own = first_label(ops);
    let mut i: usize = 0;
    while i < ops.len()
        invariant
            i <= ops@.len(),
            own == label_from(ops@, 0),
            forall|k: int| 0 <= k < i ==> !calls_one(#[trigger] ops@[k], entry, own),
        decreases ops@.len() - i,
    {
        if let IlOp::Entry { kind, target, .. } = &ops[i] {
            if (*kind == EntryKind::Call || *kind == EntryKind::TailCall) && (entry == Some(*target)
                || own == Some(*target)) {
                assert(calls_one(ops@[i as int], entry, own));
                return true;
            }
        }
        i += 1;
    }
    false
}

pub open spec fn select_write(op: IlOp) -> bool {
    match op {
        IlOp::StorePop { .. } => true,
        IlOp::Byte { byte, .. } => byte.inst is STORE || byte.inst is StorePop
            || byte.inst is DenseMove,
        _ => false,
    }
}

fn is_select_write(op: &IlOp) -> (r: bool)
    ensures
        r == select_write(*op),
{
    match op {
        IlOp::StorePop { .. } => true,
        IlOp::Byte { byte, .. } => matches!(
            *byte.bytecode(),
            Instruction::STORE | Instruction::StorePop | Instruction::DenseMove
        ),
        _ => false,
    }
}

/// Whether control falls from operation `j` on into a join; `joined` says that a label was
/// passed.
pub open spec fn falls_into_join(ops: Seq<IlOp>, j: int, joined: bool) -> bool
    decreases ops.len() - j,
{
    if j >= ops.len() {
        joined
    } else {
        match ops[j] {
            IlOp::Label(_) | IlOp::JoinLabel(_) => falls_into_join(ops, j + 1, true),
            IlOp::Jump { .. } | IlOp::Return { .. } | IlOp::Halt { .. } => false,
            _ => if joined {
                true
            } else {
                falls_into_join(ops, j + 1, false)
            },
        }
    }
}

/// How many of the first `n` operations write a slot in an arm that falls into a join.
pub open spec fn arm_writes(ops: Seq<IlOp>, n: int) -> nat
    decreases n,
{
    if n <= 0 {
        0
    } else {
        arm_writes(ops, n - 1) + (if select_write(ops[n - 1]) && falls_into_join(ops, n, false) {
            1nat
        } else {
            0nat
        })
    }
}

fn is_last_arm_write(ops: &[IlOp], write_i: usize) -> (r: bool)
    requires
        write_i < ops@.len(),
    ensures
        r == falls_into_join(ops@, write_i + 1, false),
{
    let n = ops.len();
    let mut joined = false;
    let mut j = write_i + 1;
    while j < n
        invariant
            write_i < n,
            j <= n,
            n == ops@.len(),
            falls_into_join(ops@, write_i + 1, false) == falls_into_join(ops@, j as int, joined),
        decreases n - j,
    {
        match &ops[j] {
            IlOp::Label(_) | IlOp::JoinLabel(_) => {
                joined = true;
            },
            IlOp::Jump { .. } | IlOp::Return { .. } | IlOp::Halt { .. } => {
                return false;
            },
            _ => {
                if joined {
                    return true;
                }
            },
        }
        j += 1;
    }
    joined
}

fn last_arm_writes(ops: &[IlOp]) -> (r: usize)
    ensures
        r == arm_writes(ops@, ops@.len() as int),
{
    let n = ops.len();
    let mut r: usize = 0;
    let mut i: usize = 0;
    while i < n
        invariant
            i <= n,
            n == ops@.len(),
            r <= i,
            r == arm_writes(ops@, i as int),
        decreases n - i,
    {
        if is_select_write(&ops[i]) && is_last_arm_write(ops, i) {
            r += 1;
        }
        i += 1;
    }
    r
}

pub open spec fn eq_op(op: IlOp) -> bool {
    match op {
        IlOp::Byte { byte, .. } => byte.inst is EQ,
        IlOp::Bin { op, .. } => op is EQ,
        _ => false,
    }
}

/// Whether the last operation before `j`, labels aside, compares for equality.
pub open spec fn eq_before(ops: Seq<IlOp>, j: int) -> bool
    decreases j,
{
    if j <= 0 {
        false
    } else if ops[j - 1].bound() is Some {
        eq_before(ops, j - 1)
    } else {
        eq_op(ops[j - 1])
    }
}

/// Whether a fused branch compares for equality.
pub open spec fn fused_eq(byte: Byte) -> bool {
    (byte.inst is BinSlotImmJmpf || byte.inst is BinSlotImmJmpt || byte.inst is BinSlotSlotJmpf
        || byte.inst is BinSlotSlotJmpt) && (match byte.arg {
        Operand::Pooled { op, .. } => op is EQ,
        _ => false,
    })
}

/// Whether operation `j` branches on an equality.
pub open spec fn eq_branch(ops: Seq<IlOp>, j: int) -> bool {
    match ops[j] {
        IlOp::Jump { kind, .. } => (kind is JumpIfFalse || kind is JumpIfTrue) && eq_before(ops, j),
        IlOp::Byte { byte, .. } => fused_eq(byte),
        _ => false,
    }
}

/// How many of the first `n` operations branch on an equality.
pub open spec fn eq_branches(ops: Seq<IlOp>, n: int) -> nat
    decreases n,
{
    if n <= 0 {
        0
    } else {
        eq_branches(ops, n - 1) + (if eq_branch(ops, n - 1) {
            1nat
        } else {
            0nat
        })
    }
}

/// Whether the body selects a slot by several equalities.
pub open spec fn selects(ops: Seq<IlOp>) -> bool {
    eq_branches(ops, ops.len() as int) >= 2
}

fn eq_immediately_before(ops: &[IlOp], jump_i: usize) -> (r: bool)
    requires
        jump_i <= ops@.len(),
    ensures
        r == eq_before(ops@, jump_i as int),
{
    let mut i = jump_i;
    while i > 0
        invariant
            i <= jump_i <= ops@.len(),
            eq_before(ops@, jump_i as int) == eq_before(ops@, i as int),
        decreases i,
    {
        i -= 1;
        match &ops[i] {
            IlOp::Label(_) | IlOp::JoinLabel(_) => {},
            IlOp::Byte { byte, .. } => {
                return *byte.bytecode() == Instruction::EQ;
            },
            IlOp::Bin { op, .. } => {
                return *op == Instruction::EQ;
            },
            _ => {
                return false;
            },
        }
    }
    false
}

fn fused_eq_jmp(byte: &Byte) -> (r: bool)
    ensures
        r == fused_eq(*byte),
{
    matches!(
        *byte.bytecode(),
        Instruction::BinSlotImmJmpf
        | Instruction::BinSlotImmJmpt
        | Instruction::BinSlotSlotJmpf
        | Instruction::BinSlotSlotJmpt
    ) && (match byte.arg {
        Operand::Pooled { op, .. } => op == Instruction::EQ,
        _ => false,
    })
}

fn has_sroa_select_cfg(ops: &[IlOp]) -> (r: bool)
    ensures
        r == selects(ops@),
{
    let mut n: usize = 0;
    let mut i: usize = 0;
    while i < ops.len()
        invariant
            i <= ops@.len(),
            n <= i,
            n == eq_branches(ops@, i as int),
        decreases ops@.len() - i,
    {
        let hit = match &ops[i] {
            IlOp::Jump { kind, .. } => matches!(
                *kind,
                IlJumpKind::JumpIfFalse | IlJumpKind::JumpIfTrue
            ) && eq_immediately_before(ops, i),
            IlOp::Byte { byte, .. } => fused_eq_jmp(byte),
            _ => false,
        };
        if hit {
            n += 1;
        }
        i += 1;
    }
    n >= 2
}

// Values that floats read.

/// `m` with the float types of what the instruction reads as a float.
pub open spec fn painted_by(f: FuncV, inst: InstV, m: Seq<Option<MirTy>>) -> Seq<Option<MirTy>> {
    match inst {
        InstV::Bin { ty, lhs, rhs, .. } => if ty.float() {
            m.update(lhs.0 as int, Some(ty)).update(rhs.0 as int, Some(ty))
        } else {
            m
        },
        InstV::StoreIndex { value, .. } => if f.ty(value).float() {
            m.update(value.0 as int, Some(f.ty(value)))
        } else {
            m
        },
        _ => m,
    }
}

/// `m` with what the instructions from `i` on read as a float.
pub open spec fn paints_in(f: FuncV, insts: Seq<InstV>, i: int, m: Seq<Option<MirTy>>) -> Seq<Option<MirTy>>
    decreases insts.len() - i,
{
    if i >= insts.len() {
        m
    } else {
        paints_in(f, insts, i + 1, painted_by(f, insts[i], m))
    }
}

/// `m` with what the blocks from `b` on read as a float.
pub open spec fn paints_from(f: FuncV, b: int, m: Seq<Option<MirTy>>) -> Seq<Option<MirTy>>
    decreases f.blocks.len() - b,
{
    if b >= f.blocks.len() {
        m
    } else {
        paints_from(f, b + 1, paints_in(f, f.blocks[b].insts, 0, m))
    }
}

/// Whether `v` is the result of an array read or a call.
pub open spec fn loose(f: FuncV, v: int) -> bool {
    exists|b: int, i: int|
        has_inst(f, b, i) && ((#[trigger] f.blocks[b].insts[i]) is Index || f.blocks[b].insts[i] is Call)
            && f.blocks[b].insts[i].dest().0 == v
}

/// The function with float types for the results of array reads and calls that are read as
/// floats.
pub open spec fn painted(f: FuncV) -> FuncV {
    let m = paints_from(f, 0, Seq::new(f.types.len(), |v: int| None));
    FuncV {
        types: Seq::new(
            f.types.len(),
            |v: int|
                if loose(f, v) && m[v] is Some {
                    m[v]->0
                } else {
                    f.types[v]
                },
        ),
        ..f
    }
}

fn find_loose(func: &MirFunc) -> (r: Vec<bool>)
    requires
        func@.indexed(),
    ensures
        r@ == Seq::new(func@.types.len(), |v: int| loose(func@, v)),
{
    let ghost f = func@;
    let n = func.types.len();
    let mut r: Vec<bool> = Vec::new();
    let mut x: usize = 0;
    while x < n
        invariant
            x <= n,
            r@.len() == x,
            forall|v: int| 0 <= v < x ==> !(#[trigger] r@[v]),
        decreases n - x,
    {
        r.push(false);
        x += 1;
    }
    let mut b: usize = 0;
    while b < func.blocks.len()
        invariant
            b <= func.blocks@.len(),
            f == func@,
            f.indexed(),
            r@.len() == f.types.len(),
            forall|v: int| 0 <= v < r@.len() && #[trigger] r@[v] ==> loose(f, v),
            forall|p: int, i: int|
                p < b && has_inst(f, p, i) && ((#[trigger] f.blocks[p].insts[i]) is Index
                    || f.blocks[p].insts[i] is Call) ==> r@[f.blocks[p].insts[i].dest().0 as int],
        decreases func.blocks@.len() - b,
    {
        let block = &func.blocks[b];
        assert(f.blocks[b as int] == block@);
        assert(f.block_indexed(f.blocks[b as int], b as int));
        let mut i: usize = 0;
        while i < block.insts.len()
            invariant
                i <= block.insts@.len(),
                b < func.blocks@.len(),
                f == func@,
                f.indexed(),
                f.blocks[b as int] == block@,
                f.block_indexed(f.blocks[b as int], b as int),
                r@.len() == f.types.len(),
                forall|v: int| 0 <= v < r@.len() && #[trigger] r@[v] ==> loose(f, v),
                forall|p: int, k: int|
                    p < b && has_inst(f, p, k) && ((#[trigger] f.blocks[p].insts[k]) is Index
                        || f.blocks[p].insts[k] is Call) ==> r@[f.blocks[p].insts[k].dest().0 as int],
                forall|k: int|
                    0 <= k < i && ((#[trigger] f.blocks[b as int].insts[k]) is Index
                        || f.blocks[b as int].insts[k] is Call)
                        ==> r@[f.blocks[b as int].insts[k].dest().0 as int],
            decreases block.insts@.len() - i,
        {
            let ghost r0 = r@;
            assert(f.blocks[b as int].insts[i as int] == block.insts@[i as int]@);
            assert(f.inst_indexed(f.blocks[b as int].insts[i as int]));
            assert(has_inst(f, b as int, i as int));
            match &block.insts[i] {
                MirInst::Index { dest, .. } => {
                    assert(f.blocks[b as int].insts[i as int].dest() == *dest);
                    r.set(dest.index(), true);
                },
                MirInst::Call { dest, .. } => {
                    assert(f.blocks[b as int].insts[i as int].dest() == *dest);
                    r.set(dest.index(), true);
                },
                _ => {},
            }
            proof {
                assert forall|v: int| 0 <= v < r@.len() && #[trigger] r0[v] implies r@[v] by {}
            }
            i += 1;
        }
        b += 1;
    }
    proof {
        assert forall|v: int| 0 <= v < r@.len() implies r@[v] == loose(f, v) by {
            if loose(f, v) {
                let (p, i) = choose|p: int, i: int|
                    has_inst(f, p, i) && ((#[trigger] f.blocks[p].insts[i]) is Index
                        || f.blocks[p].insts[i] is Call) && f.blocks[p].insts[i].dest().0 == v;
                assert(r@[f.blocks[p].insts[i].dest().0 as int]);
            }
        }
    }
    assert(r@ =~= Seq::new(f.types.len(), |v: int| loose(f, v)));
    r
}

fn find_paints(func: &MirFunc) -> (r: Vec<Option<MirTy>>)
    requires
        func@.indexed(),
    ensures
        r@ == paints_from(func@, 0, Seq::new(func@.types.len(), |v: int| None)),
        r@.len() == func@.types.len(),
{
    let ghost f = func@;
    let n = func.types.len();
    let mut r: Vec<Option<MirTy>> = Vec::new();
    let mut x: usize = 0;
    while x < n
        invariant
            x <= n,
            r@.len() == x,
            forall|v: int| 0 <= v < x ==> #[trigger] r@[v] is None,
        decreases n - x,
    {
        r.push(None);
        x += 1;
    }
    let ghost m0 = Seq::new(f.types.len(), |v: int| Option::<MirTy>::None);
    assert(r@ =~= m0);
    let mut b: usize = 0;
    while b < func.blocks.len()
        invariant
            b <= func.blocks@.len(),
            f == func@,
            f.indexed(),
            r@.len() == f.types.len(),
            paints_from(f, 0, m0) == paints_from(f, b as int, r@),
        decreases func.blocks@.len() - b,
    {
        let block = &func.blocks[b];
        assert(f.blocks[b as int] == block@);
        assert(f.block_indexed(f.blocks[b as int], b as int));
        let ghost iv = block@.insts;
        let ghost r0 = r@;
        let mut i: usize = 0;
        while i < block.insts.len()
            invariant
                i <= block.insts@.len(),
                f == func@,
                iv == block@.insts,
                forall|k: int| 0 <= k < iv.len() ==> f.inst_indexed(#[trigger] iv[k]),
                r@.len() == f.types.len(),
                paints_in(f, iv, 0, r0) == paints_in(f, iv, i as int, r@),
            decreases block.insts@.len() - i,
        {
            let ghost inst = iv[i as int];
            assert(inst == block.insts@[i as int]@);
            assert(f.inst_indexed(inst));
            match &block.insts[i] {
                MirInst::Bin { ty, lhs, rhs, .. } => {
                    if ty.is_float() {
                        assert(inst.uses()[0] == *lhs && inst.uses()[1] == *rhs);
                        r.set(lhs.index(), Some(*ty));
                        r.set(rhs.index(), Some(*ty));
                    }
                },
                MirInst::StoreIndex { value, .. } => {
                    assert(inst.uses()[2] == *value);
                    let ty = func.ty(*value);
                    if ty.is_float() {
                        r.set(value.index(), Some(ty));
                    }
                },
                _ => {},
            }
            i += 1;
        }
        b += 1;
    }
    r
}

proof fn painting_keeps_index(f: FuncV)
    requires
        f.indexed(),
    ensures
        painted(f).indexed(),
        phis_indexed(f) ==> phis_indexed(painted(f)),
{
    let g = painted(f);
    assert forall|b: int| 0 <= b < g.blocks.len() implies g.block_indexed(#[trigger] g.blocks[b], b) by {
        assert(f.block_indexed(f.blocks[b], b));
        assert forall|i: int| 0 <= i < g.blocks[b].insts.len() implies g.inst_indexed(
            #[trigger] g.blocks[b].insts[i],
        ) by {
            assert(f.inst_indexed(f.blocks[b].insts[i]));
        }
    }
}

/// Gives results of array reads and calls the float type that they are read with.
fn paint_index_dest_from_uses(func: &mut MirFunc)
    requires
        old(func)@.indexed(),
    ensures
        final(func)@ == painted(old(func)@),
        final(func)@.indexed(),
{
    let ghost f = func@;
    let loose_values = find_loose(func);
    let paints = find_paints(func);
    let n = func.types.len();
    let mut v: usize = 0;
    while v < n
        invariant
            v <= n,
            n == f.types.len(),
            n == func.types@.len(),
            loose_values@ == Seq::new(f.types.len(), |v: int| loose(f, v)),
            paints@ == paints_from(f, 0, Seq::new(f.types.len(), |v: int| None)),
            paints@.len() == n,
            func@ == (FuncV { types: func.types@, ..f }),
            forall|x: int| 0 <= x < v ==> #[trigger] func.types@[x] == painted(f).types[x],
            forall|x: int| v <= x < n ==> #[trigger] func.types@[x] == f.types[x],
        decreases n - v,
    {
        if loose_values[v] {
            if let Some(ty) = paints[v] {
                func.types.set(v, ty);
            }
        }
        v += 1;
    }
    assert(func@.types =~= painted(f).types);
    proof {
        painting_keeps_index(f);
    }
}

// Whether names are in range.

fn ids_below(ids: &Vec<ValueId>, n: usize) -> (r: bool)
    ensures
        r == (forall|k: int| 0 <= k < ids@.len() ==> (#[trigger] ids@[k]).0 < n),
{
    let mut k: usize = 0;
    while k < ids.len()
        invariant
            k <= ids@.len(),
            forall|x: int| 0 <= x < k ==> (#[trigger] ids@[x]).0 < n,
        decreases ids@.len() - k,
    {
        if ids[k].index() >= n {
            assert(!(ids@[k as int].0 < n));
            return false;
        }
        k += 1;
    }
    true
}

fn blocks_below(ids: &Vec<BlockId>, n: usize) -> (r: bool)
    ensures
        r == (forall|k: int| 0 <= k < ids@.len() ==> (#[trigger] ids@[k]).0 < n),
{
    let mut k: usize = 0;
    while k < ids.len()
        invariant
            k <= ids@.len(),
            forall|x: int| 0 <= x < k ==> (#[trigger] ids@[x]).0 < n,
        decreases ids@.len() - k,
    {
        if ids[k].index() >= n {
            assert(!(ids@[k as int].0 < n));
            return false;
        }
        k += 1;
    }
    true
}

fn block_in_range(func: &MirFunc, b: usize) -> (r: bool)
    requires
        b < func@.blocks.len(),
    ensures
        r == func@.block_indexed(func@.blocks[b as int], b as int),
{
    let ghost f = func@;
    let block = &func.blocks[b];
    assert(f.blocks[b as int] == block@);
    if block.id.index() != b {
        return false;
    }
    let n = func.types.len();
    let mut i: usize = 0;
    while i < block.insts.len()
        invariant
            i <= block.insts@.len(),
            b < func.blocks@.len(),
            f == func@,
            f.blocks[b as int] == block@,
            n == f.types.len(),
            forall|k: int| 0 <= k < i ==> f.inst_indexed(#[trigger] block@.insts[k]),
        decreases block.insts@.len() - i,
    {
        assert(block@.insts[i as int] == block.insts@[i as int]@);
        let ds = block.insts[i].dests();
        let us = block.insts[i].operands();
        if block.insts[i].dest().index() >= n || !ids_below(&ds, n) || !ids_below(&us, n) {
            assert(!f.inst_indexed(block@.insts[i as int]));
            return false;
        }
        i += 1;
    }
    match &block.term {
        Some(t) => {
            let ts = t.succs();
            let us = t.operands();
            let good = blocks_below(&ts, func.blocks.len()) && ids_below(&us, n);
            assert(good == f.term_indexed(f.blocks[b as int].term->0));
            good
        },
        None => true,
    }
}

impl MirFunc {
    /// Whether every value, block and target that the function mentions exists.
    pub fn is_indexed(&self) -> (r: bool)
        ensures
            r == self@.indexed(),
    {
        let ghost f = self@;
        let n = self.blocks.len();
        if self.entry.index() >= n || n as u64 > u32::MAX as u64 || self.types.len() as u64
            > u32::MAX as u64 {
            return false;
        }
        if !ids_below(&self.params, self.types.len()) {
            proof {
                let k = choose|k: int|
                    0 <= k < self.params@.len() && !((#[trigger] self.params@[k]).0 < f.types.len());
                assert(!(f.params[k].0 < f.types.len()));
            }
            return false;
        }
        let mut b: usize = 0;
        while b < n
            invariant
                b <= n,
                n == f.blocks.len(),
                f == self@,
                forall|k: int| 0 <= k < b ==> f.block_indexed(#[trigger] f.blocks[k], k),
            decreases n - b,
        {
            if !block_in_range(self, b) {
                assert(!f.block_indexed(f.blocks[b as int], b as int));
                return false;
            }
            b += 1;
        }
        true
    }

    /// Whether phi arguments come from blocks that exist.
    pub fn has_indexed_phis(&self) -> (r: bool)
        ensures
            r == phis_indexed(self@),
    {
        let ghost f = self@;
        let n = self.blocks.len();
        let mut b: usize = 0;
        while b < n
            invariant
                b <= n,
                n == f.blocks.len(),
                f == self@,
                forall|p: int, i: int, k: int|
                    0 <= p < b && 0 <= i < f.blocks[p].insts.len() && (
                    #[trigger] f.blocks[p].insts[i]) is Phi && 0 <= k
                        < f.blocks[p].insts[i]->Phi_args.len() ==> (
                    #[trigger] f.blocks[p].insts[i]->Phi_args[k]).0.0 < n,
            decreases n - b,
        {
            let block = &self.blocks[b];
            assert(f.blocks[b as int] == block@);
            let mut i: usize = 0;
            while i < block.insts.len()
                invariant
                    i <= block.insts@.len(),
                    b < n,
                    n == f.blocks.len(),
                    f == self@,
                    f.blocks[b as int] == block@,
                    forall|x: int, k: int|
                        0 <= x < i && (#[trigger] f.blocks[b as int].insts[x]) is Phi && 0 <= k
                            < f.blocks[b as int].insts[x]->Phi_args.len() ==> (
                        #[trigger] f.blocks[b as int].insts[x]->Phi_args[k]).0.0 < n,
                decreases block.insts@.len() - i,
            {
                assert(f.blocks[b as int].insts[i as int] == block.insts@[i as int]@);
                if let MirInst::Phi { args, .. } = &block.insts[i] {
                    assert(f.blocks[b as int].insts[i as int]->Phi_args == args@);
                    let mut k: usize = 0;
                    while k < args.len()
                        invariant
                            k <= args@.len(),
                            b < n,
                            n == f.blocks.len(),
                            f == self@,
                            0 <= i < f.blocks[b as int].insts.len(),
                            f.blocks[b as int].insts[i as int] is Phi,
                            f.blocks[b as int].insts[i as int]->Phi_args == args@,
                            forall|x: int| 0 <= x < k ==> (#[trigger] args@[x]).0.0 < n,
                        decreases args@.len() - k,
                    {
                        if args[k].0.index() >= n {
                            assert(!(f.blocks[b as int].insts[i as int]->Phi_args[k as int].0.0
                                < f.blocks.len()));
                            return false;
                        }
                        k += 1;
                    }
                }
                i += 1;
            }
            b += 1;
        }
        true
    }
}

fn fields_fit(func: &MirFunc) -> (r: bool)
    ensures
        r == field_slots_fit(func@),
{
    let ghost f = func@;
    let mut b: usize = 0;
    while b < func.blocks.len()
        invariant
            b <= func.blocks@.len(),
            f == func@,
            forall|p: int, i: int|
                0 <= p < b && 0 <= i < f.blocks[p].insts.len() && (
                #[trigger] f.blocks[p].insts[i]) is FieldStore ==> f.blocks[p].insts[i]->FieldStore_base
                    + f.blocks[p].insts[i]->FieldStore_index <= u32::MAX,
        decreases func.blocks@.len() - b,
    {
        let block = &func.blocks[b];
        assert(f.blocks[b as int] == block@);
        let mut i: usize = 0;
        while i < block.insts.len()
            invariant
                i <= block.insts@.len(),
                b < func.blocks@.len(),
                f == func@,
                f.blocks[b as int] == block@,
                forall|k: int|
                    0 <= k < i && (#[trigger] f.blocks[b as int].insts[k]) is FieldStore
                        ==> f.blocks[b as int].insts[k]->FieldStore_base
                        + f.blocks[b as int].insts[k]->FieldStore_index <= u32::MAX,
            decreases block.insts@.len() - i,
        {
            assert(f.blocks[b as int].insts[i as int] == block.insts@[i as int]@);
            if let MirInst::FieldStore { base, index, .. } = &block.insts[i] {
                if *base as u64 + *index as u64 > u32::MAX as u64 {
                    assert(f.blocks[b as int].insts[i as int] is FieldStore);
                    return false;
                }
            }
            i += 1;
        }
        b += 1;
    }
    true
}

// Dense bodies.

/// How many parameters a body is lowered with.
pub open spec fn arity_of(ops: Seq<IlOp>, slot_ty: Map<u32, MirTy>, entry_sp: u32) -> u32 {
    match live_params(ops, slot_ty) {
        Some(p) => if (p.len() as u32) > entry_sp {
            p.len() as u32
        } else {
            entry_sp
        },
        None => entry_sp,
    }
}

/// What a body is lowered with for dense code.
pub open spec fn dense_hints(
    ops: Seq<IlOp>,
    name: Seq<char>,
    types: InferredV,
    entry_sp: u32,
    pool: Seq<u64>,
    calls: Map<u32, AbiV>,
    hosts: Seq<HostNative>,
) -> HintsV {
    HintsV {
        slot_ty: types.slot_ty,
        pool,
        pool_ty: types.pool_ty,
        calls,
        allow_alloc: body_allocates(ops),
        allow_index: true,
        allow_effects: true,
        param_count: arity_of(ops, types.slot_ty, entry_sp),
        ..plain_hints(name, hosts)
    }
}

/// Equal computations of each block shared.
pub open spec fn locally_shared(f: FuncV) -> FuncV {
    shared(f, numbered_from(f, Map::empty(), 0)).0
}

/// The function after sharing, hoisting and combining.
pub open spec fn combined_body(f: FuncV, table: Seq<(FloatOp, u64)>) -> FuncV {
    combined(locally_shared(emptied(locally_shared(f)).0), table).0
}

/// The body lowered and combined, and the types of its slots. None where it allocates behind its
/// loops only or without a collector map, has no numeric work, or cannot be lowered.
pub open spec fn lifted(
    ops: Seq<IlOp>,
    name: Seq<char>,
    entry_sp: u32,
    pool: Seq<u64>,
    calls: Map<u32, AbiV>,
    table: Seq<(FloatOp, u64)>,
    hosts: Seq<HostNative>,
) -> Option<(FuncV, Map<u32, MirTy>)> {
    if body_allocates(ops) && (alloc_after_loops(ops) || !mapped(
        ops,
        name,
        entry_sp,
        pool,
        Seq::empty(),
        hosts,
    )) {
        None
    } else {
        match inferred(
            ops,
            pool.len(),
            entry_sp,
            InferMode::Dense,
            calls,
            Map::empty(),
            body_allocates(ops),
            hosts,
        ) {
            Err(_) => None,
            Ok(types) => if !types.has_float_arith && !types.has_i32 && !types.has_i64_arith {
                None
            } else {
                match numeric(ops, dense_hints(ops, name, types, entry_sp, pool, calls, hosts)) {
                    Err(_) => None,
                    Ok(f) => if f.indexed() {
                        Some((combined_body(f, table), types.slot_ty))
                    } else {
                        None
                    },
                }
            },
        }
    }
}

/// The function after sharing across blocks and reuse of arrays.
pub open spec fn polished(f: FuncV) -> FuncV {
    painted(reused(gvn_rounds(locally_shared(f), 4, 0).0).0)
}

/// Whether some instruction stores to an element.
pub open spec fn stores_in_ssa(f: FuncV) -> bool {
    exists|b: int, i: int| has_inst(f, b, i) && (#[trigger] f.blocks[b].insts[i]) is StoreIndex
}

/// Whether dense code may take the place of a body: no write or array read is lost, heap work in
/// loops is native, and straight code costs no more.
pub open spec fn worthwhile(ops: Seq<IlOp>, out: Seq<IlOp>, official: Option<Label>) -> bool {
    let inloop = alloc_in_loop(ops);
    let still = alloc_in_loop(out);
    &&& element_stores(out, out.len() as int) >= element_stores(ops, ops.len() as int)
    &&& element_reads(ops, ops.len() as int) > 0 ==> element_reads(out, out.len() as int) > 0
    &&& selects(ops) ==> arm_writes(out, out.len() as int) >= arm_writes(ops, ops.len() as int)
    &&& !(inloop && still && any_boxed(out))
    &&& (back_edge(ops) && !selects(ops) && !(inloop && still)) || calls_itself(ops, official)
        || cost_below(out, out.len() as int) <= cost_below(ops, ops.len() as int)
}

/// The label that the body is called by.
pub open spec fn entry_of(ops: Seq<IlOp>, official: Option<Label>) -> Option<Label> {
    match official {
        Some(l) => Some(l),
        None => label_from(ops, 0),
    }
}

/// How far a body is when it comes to vectorization.
pub enum StageV {
    /// It stays as it is.
    Refused,
    /// It is one host call.
    Packed { code: Seq<IlOp>, abi: AbiV },
    /// It is still to be written.
    Open { f: FuncV, abi: AbiV },
}

/// A strength-reduced function up to vectorization, and the pool behind it.
pub open spec fn staged(
    ops: Seq<IlOp>,
    f: FuncV,
    slot_ty: Map<u32, MirTy>,
    pool: Seq<u64>,
    official: Option<Label>,
) -> (StageV, Seq<u64>) {
    let g = polished(f);
    if !f.indexed() || (element_stores(ops, ops.len() as int) > 0 && !stores_in_ssa(g)) {
        (StageV::Refused, pool)
    } else {
        match body_abi(g, ops, slot_ty) {
            None => (StageV::Refused, pool),
            Some(abi) => {
                let (host, p) = packed(g, entry_of(ops, official), pool);
                match host {
                    Some(code) => (StageV::Packed { code, abi }, p),
                    None => (StageV::Open { f: g, abi }, p),
                }
            },
        }
    }
}

/// The dense body of a function that is not vectorized, and the pool behind it.
pub open spec fn written(
    ops: Seq<IlOp>,
    g: FuncV,
    abi: AbiV,
    pool: Seq<u64>,
    official: Option<Label>,
) -> (Option<(Seq<IlOp>, AbiV)>, Seq<u64>) {
    if !phis_indexed(g) {
        (None, pool)
    } else {
        let e = dense_code(g, entry_of(ops, official), pool, body_allocates(ops));
        (
            if e.err is None && worthwhile(ops, e.out, official) {
                Some((e.out, abi))
            } else {
                None
            },
            e.pool,
        )
    }
}

/// The dense body of a function for which vectorization gave `code`, and the pool behind it.
pub open spec fn settled(
    ops: Seq<IlOp>,
    g: FuncV,
    abi: AbiV,
    code: Option<Seq<IlOp>>,
    pool: Seq<u64>,
    official: Option<Label>,
) -> (Option<(Seq<IlOp>, AbiV)>, Seq<u64>) {
    match code {
        Some(code) => (Some((code, abi)), pool),
        None => written(ops, g, abi, pool, official),
    }
}

pub open spec fn code_view(code: Option<Vec<IlOp>>) -> Option<Seq<IlOp>> {
    match code {
        Some(v) => Some(v@),
        None => None,
    }
}

/// Whether `want` is the dense body of a strength-reduced function and the pool behind it, where
/// `vectorize` gives vector code for a function, a label and a pool, and the pool behind it.
pub open spec fn densifies<V: Fn(&MirFunc, Option<Label>, &Vec<u64>) -> (Option<Vec<IlOp>>, Vec<u64>)>(
    ops: Seq<IlOp>,
    f: FuncV,
    slot_ty: Map<u32, MirTy>,
    pool: Seq<u64>,
    official: Option<Label>,
    vectorize: V,
    want: (Option<(Seq<IlOp>, AbiV)>, Seq<u64>),
) -> bool {
    match staged(ops, f, slot_ty, pool, official) {
        (StageV::Refused, p) => want == (None::<(Seq<IlOp>, AbiV)>, p),
        (StageV::Packed { code, abi }, p) => want == (Some((code, abi)), p),
        (StageV::Open { f: g, abi }, p) => exists|m: &MirFunc, q: &Vec<u64>, v: (Option<Vec<IlOp>>, Vec<u64>)|
            m@ == g && q@ == p && #[trigger] call_ensures(vectorize, (m, entry_of(ops, official), q), v)
                && want == settled(ops, g, abi, code_view(v.0), v.1@, official),
    }
}

/// Whether `want` is a body as dense code with its signature, and the pool behind it, where
/// `reduce` reduces the strength of a function's operations and `vectorize` gives vector code.
pub open spec fn specializes<
    R: Fn(MirFunc) -> MirFunc,
    V: Fn(&MirFunc, Option<Label>, &Vec<u64>) -> (Option<Vec<IlOp>>, Vec<u64>),
>(
    ops: Seq<IlOp>,
    lifted: Option<(FuncV, Map<u32, MirTy>)>,
    pool: Seq<u64>,
    official: Option<Label>,
    reduce: R,
    vectorize: V,
    want: (Option<(Seq<IlOp>, AbiV)>, Seq<u64>),
) -> bool {
    match lifted {
        None => want == (None::<(Seq<IlOp>, AbiV)>, pool),
        Some((f, slot_ty)) => exists|a: MirFunc, b: MirFunc|
            a@ == forwarded(f).0 && #[trigger] call_ensures(reduce, (a,), b) && densifies(
                ops,
                b@,
                slot_ty,
                pool,
                official,
                vectorize,
                want,
            ),
    }
}

fn infer_dense(
    ops: &[IlOp],
    pool_len: usize,
    entry_sp: u32,
    calls: &DenseCallMap,
    alloc: bool,
    hosts: &Vec<HostNative>,
) -> (r: Option<Inferred>)
    ensures
        match inferred(
            ops@,
            pool_len as nat,
            entry_sp,
            InferMode::Dense,
            calls_view(calls@),
            Map::empty(),
            alloc,
            hosts@,
        ) {
            Ok(v) => r matches Some(x) && x@ == v,
            Err(_) => r is None,
        },
{
    let got = if alloc {
        infer_numeric_across_alloc(ops, pool_len, entry_sp, calls, hosts)
    } else {
        infer_numeric_with(ops, pool_len, entry_sp, calls, hosts)
    };
    match got {
        Ok(t) => Some(t),
        Err(_) => None,
    }
}

fn lift(
    ops: &[IlOp],
    name: &str,
    entry_sp: u32,
    pool: &Vec<u64>,
    calls: &DenseCallMap,
    table: &Vec<(FloatOp, u64)>,
    hosts: &Vec<HostNative>,
) -> (r: Option<(MirFunc, IdMap<MirTy>)>)
    requires
        ops@.len() <= u32::MAX,
    ensures
        match lifted(ops@, name@, entry_sp, pool@, calls_view(calls@), table@, hosts@) {
            Some(v) => r matches Some(x) && x.0@ == v.0 && x.1@ == v.1 && v.0.indexed(),
            None => r is None,
        },
{
    let allocates = has_alloc(ops);
    if allocates {
        if has_alloc_only_after_loops(ops) {
            return None;
        }
        let no_fields: Vec<(u32, u32)> = Vec::new();
        assert(no_fields@ =~= Seq::empty());
        if !has_real_maps(ops, name, entry_sp, pool.as_slice(), no_fields.as_slice(), hosts) {
            return None;
        }
    }
    let types = match infer_dense(ops, pool.len(), entry_sp, calls, allocates, hosts) {
        Some(t) => t,
        None => return None,
    };
    let ghost tv = types@;
    if !types.has_float_arith && !types.has_i32 && !types.has_i64_arith {
        return None;
    }
    let live = live_in_params(ops, &types.slot_ty);
    let count: u32 = match &live {
        Some(p) => if p.len() as u32 > entry_sp {
            p.len() as u32
        } else {
            entry_sp
        },
        None => entry_sp,
    };
    let slot_ty = types.slot_ty.copied();
    let mut hints = LowerHints::new(name, hosts);
    hints.slot_ty = types.slot_ty;
    hints.pool = copy_pool(pool.as_slice());
    hints.pool_ty = types.pool_ty;
    hints.calls = copy_calls(calls);
    hints.allow_alloc = allocates;
    hints.allow_index = true;
    hints.allow_effects = true;
    hints.param_count = count;
    assert(hints@ =~= dense_hints(ops@, name@, tv, entry_sp, pool@, calls_view(calls@), hosts@));
    let mut func = match try_lower_numeric(ops, &hints) {
        Ok(f) => f,
        Err(_) => return None,
    };
    if !func.is_indexed() {
        return None;
    }
    let _ = cse(&mut func);
    let _ = licm(&mut func);
    let _ = cse(&mut func);
    let _ = instcombine(&mut func, table);
    Some((func, slot_ty))
}

/// The float operations on constants that a body's dense code could use the results of.
pub fn folding_requests(
    ops: &[IlOp],
    name: &str,
    entry_sp: u32,
    pool: &Vec<u64>,
    calls: &DenseCallMap,
    table: &Vec<(FloatOp, u64)>,
    hosts: &Vec<HostNative>,
) -> (r: Vec<FloatOp>)
    requires
        ops@.len() <= u32::MAX,
    ensures
        r@ == (match lifted(ops@, name@, entry_sp, pool@, calls_view(calls@), table@, hosts@) {
            Some(v) => requests_from(v.0.blocks, consts_of(v.0), 0, Seq::empty()),
            None => Seq::empty(),
        }),
{
    match lift(ops, name, entry_sp, pool, calls, table, hosts) {
        Some((f, _)) => float_requests(&f),
        None => {
            let r: Vec<FloatOp> = Vec::new();
            assert(r@ =~= Seq::empty());
            r
        },
    }
}

fn has_ssa_store(func: &MirFunc) -> (r: bool)
    ensures
        r == stores_in_ssa(func@),
{
    let ghost f = func@;
    let mut b: usize = 0;
    while b < func.blocks.len()
        invariant
            b <= func.blocks@.len(),
            f == func@,
            forall|p: int, i: int|
                p < b && has_inst(f, p, i) ==> !((#[trigger] f.blocks[p].insts[i]) is StoreIndex),
        decreases func.blocks@.len() - b,
    {
        let block = &func.blocks[b];
        assert(f.blocks[b as int] == block@);
        let mut i: usize = 0;
        while i < block.insts.len()
            invariant
                i <= block.insts@.len(),
                b < func.blocks@.len(),
                f == func@,
                f.blocks[b as int] == block@,
                forall|k: int| 0 <= k < i ==> !((#[trigger] f.blocks[b as int].insts[k]) is StoreIndex),
            decreases block.insts@.len() - i,
        {
            assert(f.blocks[b as int].insts[i as int] == block.insts@[i as int]@);
            if let MirInst::StoreIndex { .. } = &block.insts[i] {
                assert(has_inst(f, b as int, i as int));
                return true;
            }
            i += 1;
        }
        b += 1;
    }
    false
}

fn is_worthwhile(ops: &[IlOp], out: &[IlOp], official: Option<Label>) -> (r: bool)
    ensures
        r == worthwhile(ops@, out@, official),
{
    if count_store_index(out) < count_store_index(ops) {
        return false;
    }
    if count_index(ops) > 0 && count_index(out) == 0 {
        return false;
    }
    let select = has_sroa_select_cfg(ops);
    if select && last_arm_writes(out) < last_arm_writes(ops) {
        return false;
    }
    let inloop = has_alloc_inside_loop(ops);
    let still = has_alloc_inside_loop(out);
    if inloop && still && residual_heap_box(out) {
        return false;
    }
    (has_back_edge(ops) && !select && !(inloop && still)) || has_self_recursive_call(ops, official)
        || emit_cost(out) <= emit_cost(ops)
}

enum Stage {
    Refused,
    Packed { code: Vec<IlOp>, abi: DenseAbi },
    Open { func: MirFunc, abi: DenseAbi },
}

impl Stage {
    spec fn is(self, s: StageV) -> bool {
        match (self, s) {
            (Stage::Refused, StageV::Refused) => true,
            (Stage::Packed { code, abi }, StageV::Packed { code: c, abi: a }) => code@ == c && abi@ == a,
            (Stage::Open { func, abi }, StageV::Open { f, abi: a }) => func@ == f && abi@ == a && f.indexed(),
            _ => false,
        }
    }
}

fn entry_label(ops: &[IlOp], official: Option<Label>) -> (r: Option<Label>)
    ensures
        r == entry_of(ops@, official),
{
    match official {
        Some(l) => Some(l),
        None => first_label(ops),
    }
}

fn stage(
    ops: &[IlOp],
    func: MirFunc,
    slot_ty: &IdMap<MirTy>,
    pool: &mut Vec<u64>,
    official: Option<Label>,
) -> (r: Stage)
    ensures
        ({
            let (want, p) = staged(ops@, func@, slot_ty@, old(pool)@, official);
            &&& final(pool)@ == p
            &&& r.is(want)
        }),
{
    let mut func = func;
    if !func.is_indexed() {
        return Stage::Refused;
    }
    let _ = cse(&mut func);
    let _ = gvn(&mut func);
    let _ = sroa(&mut func);
    paint_index_dest_from_uses(&mut func);
    if count_store_index(ops) > 0 && !has_ssa_store(&func) {
        return Stage::Refused;
    }
    let abi = match DenseAbi::from_func_and_live_ins(&func, ops, slot_ty) {
        Some(a) => a,
        None => return Stage::Refused,
    };
    match try_axpy_pack(&func, entry_label(ops, official), pool) {
        Some(code) => Stage::Packed { code, abi },
        None => Stage::Open { func, abi },
    }
}

fn write_dense(ops: &[IlOp], func: &MirFunc, abi: DenseAbi, pool: &mut Vec<u64>, official: Option<Label>) -> (r: Option<
    (Vec<IlOp>, DenseAbi),
>)
    requires
        func@.indexed(),
    ensures
        body_view(r) == written(ops@, func@, abi@, old(pool)@, official).0,
        final(pool)@ == written(ops@, func@, abi@, old(pool)@, official).1,
{
    if !func.has_indexed_phis() {
        return None;
    }
    let out = match emit_dense(func, entry_label(ops, official), pool, has_alloc(ops)) {
        Ok(o) => o,
        Err(_) => return None,
    };
    if is_worthwhile(ops, out.as_slice(), official) {
        Some((out, abi))
    } else {
        None
    }
}

/// A dense body and its signature.
pub open spec fn body_view(r: Option<(Vec<IlOp>, DenseAbi)>) -> Option<(Seq<IlOp>, AbiV)> {
    match r {
        Some(x) => Some((x.0@, x.1@)),
        None => None,
    }
}

/// A body as dense code with its signature. `official_entry` is the label that the body is called
/// by. Constants are appended to `pool`.
///
/// The passes that run are sharing, hoisting, combining, forwarding, `reduce`, sharing across
/// blocks and reuse of arrays; `vectorize` then may give the code. Combining knows those results
/// of float operations that `table` holds. Host calls go by the table `hosts`. `reduce` reduces
/// the strength of operations in SSA form. `vectorize` gives vector code for a function, the label
/// it is called by and a pool, and the pool behind it.
pub fn try_specialize_body<
    R: Fn(MirFunc) -> MirFunc,
    V: Fn(&MirFunc, Option<Label>, &Vec<u64>) -> (Option<Vec<IlOp>>, Vec<u64>),
>(
    ops: &[IlOp],
    name: &str,
    entry_sp: u32,
    pool: &mut Vec<u64>,
    calls: &DenseCallMap,
    official_entry: Option<Label>,
    table: &Vec<(FloatOp, u64)>,
    hosts: &Vec<HostNative>,
    reduce: R,
    vectorize: V,
) -> (r: Option<(Vec<IlOp>, DenseAbi)>)
    requires
        ops@.len() <= u32::MAX,
        forall|f: MirFunc| #[trigger] call_requires(reduce, (f,)),
        forall|f: &MirFunc, l: Option<Label>, p: &Vec<u64>| #[trigger] call_requires(vectorize, (f, l, p)),
    ensures
        specializes(
            ops@,
            lifted(ops@, name@, entry_sp, old(pool)@, calls_view(calls@), table@, hosts@),
            old(pool)@,
            official_entry,
            reduce,
            vectorize,
            (body_view(r), final(pool)@),
        ),
{
    let (func, slot_ty) = match lift(ops, name, entry_sp, pool, calls, table, hosts) {
        Some(x) => x,
        None => return None,
    };
    let mut func = func;
    let _ = destprop(&mut func);
    let reduced = reduce(func);
    match stage(ops, reduced, &slot_ty, pool, official_entry) {
        Stage::Refused => None,
        Stage::Packed { code, abi } => Some((code, abi)),
        Stage::Open { func, abi } => {
            let (code, behind) = vectorize(&func, entry_label(ops, official_entry), pool);
            *pool = behind;
            match code {
                Some(code) => Some((code, abi)),
                None => write_dense(ops, &func, abi, pool, official_entry),
            }
        },
    }
}

// Bodies written back as stack code.

/// What a body is lowered with for stack code.
pub open spec fn lir_hints(
    ops: Seq<IlOp>,
    name: Seq<char>,
    types: InferredV,
    entry_sp: u32,
    pool: Seq<u64>,
    fields: Seq<(u32, u32)>,
    hosts: Seq<HostNative>,
) -> HintsV {
    HintsV {
        slot_ty: types.slot_ty,
        pool,
        pool_ty: types.pool_ty,
        param_count: entry_sp,
        allow_match: true,
        unboxed_fields: fields,
        allow_fields: fields.len() > 0,
        allow_alloc: body_allocates(ops),
        allow_index: true,
        ..plain_hints(name, hosts)
    }
}

/// The lowered function after reuse of arrays, or sharing where nothing is allocated.
pub open spec fn lir_polished(f: FuncV, allocates: bool) -> FuncV {
    if allocates {
        reused(f).0
    } else {
        locally_shared(f)
    }
}

/// Whether stack code may take the place of a body: no allocation and no slot write of a last arm
/// is lost.
pub open spec fn lir_keeps(ops: Seq<IlOp>, out: Seq<IlOp>) -> bool {
    &&& body_allocates(ops) ==> allocations(out, out.len() as int) >= allocations(
        ops,
        ops.len() as int,
    )
    &&& selects(ops) ==> arm_writes(out, out.len() as int) >= arm_writes(ops, ops.len() as int)
}

/// A body lifted and written back as stack code, and the pool behind it.
pub open spec fn lir_body(
    ops: Seq<IlOp>,
    name: Seq<char>,
    entry_sp: u32,
    pool: Seq<u64>,
    fields: Seq<(u32, u32)>,
    hosts: Seq<HostNative>,
) -> (Option<Seq<IlOp>>, Seq<u64>) {
    let allocates = body_allocates(ops);
    let maps = allocates && mapped(ops, name, entry_sp, pool, fields, hosts);
    if (allocates && alloc_after_loops(ops)) || first_wall(ops, maps, 0) is Some {
        (None, pool)
    } else {
        match inferred(
            ops,
            pool.len(),
            entry_sp,
            InferMode::Lir,
            Map::empty(),
            Map::empty(),
            allocates,
            hosts,
        ) {
            Err(_) => (None, pool),
            Ok(types) => match numeric(ops, lir_hints(ops, name, types, entry_sp, pool, fields, hosts)) {
                Err(_) => (None, pool),
                Ok(f) => {
                    let g = lir_polished(f, allocates);
                    if !f.indexed() || !phis_indexed(g) || !field_slots_fit(g) {
                        (None, pool)
                    } else {
                        let e = lir_code(g, label_from(ops, 0), pool, allocates);
                        (
                            if e.err is None && lir_keeps(ops, e.out) {
                                Some(e.out)
                            } else {
                                None
                            },
                            e.pool,
                        )
                    }
                },
            },
        }
    }
}

fn infer_stack(ops: &[IlOp], pool_len: usize, entry_sp: u32, alloc: bool, hosts: &Vec<HostNative>) -> (r: Option<
    Inferred,
>)
    ensures
        match inferred(
            ops@,
            pool_len as nat,
            entry_sp,
            InferMode::Lir,
            Map::empty(),
            Map::empty(),
            alloc,
            hosts@,
        ) {
            Ok(v) => r matches Some(x) && x@ == v,
            Err(_) => r is None,
        },
{
    let got = if alloc {
        infer_lir_across_alloc(ops, pool_len, entry_sp, hosts)
    } else {
        infer_lir(ops, pool_len, entry_sp, hosts)
    };
    match got {
        Ok(t) => Some(t),
        Err(_) => None,
    }
}

/// A body lifted and written back as stack code; `unboxed_fields` are the slot ranges of unboxed
/// classes. Host calls go by the table `hosts`. Constants are appended to `pool`.
pub fn try_lower_abi_body_with(
    ops: &[IlOp],
    name: &str,
    entry_sp: u32,
    pool: &mut Vec<u64>,
    unboxed_fields: &[(u32, u32)],
    hosts: &Vec<HostNative>,
) -> (r: Option<Vec<IlOp>>)
    requires
        ops@.len() <= u32::MAX,
    ensures
        ({
            let (want, p) = lir_body(ops@, name@, entry_sp, old(pool)@, unboxed_fields@, hosts@);
            &&& final(pool)@ == p
            &&& match want {
                Some(v) => r matches Some(x) && x@ == v,
                None => r is None,
            }
        }),
{
    let allocates = has_alloc(ops);
    if allocates && has_alloc_only_after_loops(ops) {
        return None;
    }
    let maps_ok = allocates && has_real_maps(ops, name, entry_sp, pool.as_slice(), unboxed_fields, hosts);
    if !lir_eligible_with(ops, unboxed_fields, maps_ok) {
        return None;
    }
    let types = match infer_stack(ops, pool.len(), entry_sp, allocates, hosts) {
        Some(t) => t,
        None => return None,
    };
    let ghost tv = types@;
    let mut hints = LowerHints::new(name, hosts);
    hints.slot_ty = types.slot_ty;
    hints.pool = copy_pool(pool.as_slice());
    hints.pool_ty = types.pool_ty;
    hints.param_count = entry_sp;
    hints.allow_match = true;
    hints.unboxed_fields = copy_ranges(unboxed_fields);
    hints.allow_fields = unboxed_fields.len() > 0;
    hints.allow_alloc = allocates;
    hints.allow_index = true;
    assert(hints@ =~= lir_hints(ops@, name@, tv, entry_sp, pool@, unboxed_fields@, hosts@));
    let mut func = match try_lower_numeric(ops, &hints) {
        Ok(f) => f,
        Err(_) => return None,
    };
    if !func.is_indexed() {
        return None;
    }
    if allocates {
        let _ = sroa(&mut func);
    } else {
        let _ = cse(&mut func);
    }
    if !func.has_indexed_phis() || !fields_fit(&func) {
        return None;
    }
    let entry = first_label(ops);
    let out = match emit_lir(&func, entry, pool, allocates) {
        Ok(o) => o,
        Err(_) => return None,
    };
    if allocates && count_allocs(out.as_slice()) < count_allocs(ops) {
        return None;
    }
    if has_sroa_select_cfg(ops) && last_arm_writes(out.as_slice()) < last_arm_writes(ops) {
        return None;
    }
    Some(out)
}

/// A body lifted and written back as stack code.
pub fn try_lower_abi_body(
    ops: &[IlOp],
    name: &str,
    entry_sp: u32,
    pool: &mut Vec<u64>,
    hosts: &Vec<HostNative>,
) -> (r: Option<Vec<IlOp>>)
    requires
        ops@.len() <= u32::MAX,
    ensures
        ({
            let (want, p) = lir_body(ops@, name@, entry_sp, old(pool)@, Seq::empty(), hosts@);
            &&& final(pool)@ == p
            &&& match want {
                Some(v) => r matches Some(x) && x@ == v,
                None => r is None,
            }
        }),
{
    let no_fields: Vec<(u32, u32)> = Vec::new();
    assert(no_fields@ =~= Seq::empty());
    try_lower_abi_body_with(ops, name, entry_sp, pool, no_fields.as_slice(), hosts)
}

/// Dense code that takes the place of straight code costs no more than it.
pub proof fn straight_code_never_costs_more(ops: Seq<IlOp>, out: Seq<IlOp>, official: Option<Label>)
    requires
        worthwhile(ops, out, official),
        !back_edge(ops),
        !calls_itself(ops, official),
    ensures
        cost_below(out, out.len() as int) <= cost_below(ops, ops.len() as int),
{
}

} // verus!

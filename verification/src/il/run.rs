//! What stack code does when it runs.
//!
//! A frame is the operand stack and the slots. [`step`] runs one operation that only computes.
//! Operations that it does not know, and those that trap, give nothing.
use super::dense;
use super::op::{Byte, IlJumpKind, IlOp, Instruction, Label, Operand};
use crate::words::{
    both_bits, down64, either_bits, odd_bits, quotient, remainder, truth, up64, wrap32, wrap64, Machine,
};
use vstd::prelude::*;

verus! {

/// Operand stack and slots.
#[verifier::ext_equal]
pub ghost struct Frame {
    pub stack: Seq<int>,
    pub slots: Map<u32, int>,
}

impl Frame {
    pub open spec fn slot(self, k: u32) -> int {
        self.slots[k]
    }

    pub open spec fn push(self, x: int) -> Frame {
        Frame { stack: self.stack.push(x), ..self }
    }

    /// The value `n` below the top.
    pub open spec fn below(self, n: int) -> int {
        self.stack[self.stack.len() - 1 - n]
    }

    /// Without the top `n` values.
    pub open spec fn less(self, n: int) -> Frame {
        Frame { stack: self.stack.take(self.stack.len() - n), ..self }
    }

    pub open spec fn put(self, k: u32, x: int) -> Frame {
        Frame { slots: self.slots.insert(k, x), ..self }
    }
}

/// What an instruction on two words gives: integers have 64 bits.
pub open spec fn outcome(m: Machine, inst: Instruction, a: int, b: int) -> Option<int> {
    match inst {
        Instruction::ADD => Some(wrap64(a + b)),
        Instruction::SUB => Some(wrap64(a - b)),
        Instruction::MUL => Some(wrap64(a * b)),
        Instruction::DIV => if b == 0 || (a == i64::MIN && b == -1) {
            None
        } else {
            Some(quotient(a, b))
        },
        Instruction::MOD => if b == 0 || (a == i64::MIN && b == -1) {
            None
        } else {
            Some(remainder(a, b))
        },
        Instruction::BITAND => Some(both_bits(a, b)),
        Instruction::BITOR => Some(either_bits(a, b)),
        Instruction::XOR => Some(odd_bits(a, b)),
        Instruction::SHL => if 0 <= b < 64 {
            Some(up64(a, b))
        } else {
            None
        },
        Instruction::SHR => if 0 <= b < 64 {
            Some(down64(a, b))
        } else {
            None
        },
        Instruction::ADDF => Some((m.wide.plus)(a, b)),
        Instruction::SUBF => Some((m.wide.minus)(a, b)),
        Instruction::MULF => Some((m.wide.times)(a, b)),
        Instruction::DIVF => Some((m.wide.over)(a, b)),
        Instruction::MODF => Some((m.wide.rest)(a, b)),
        Instruction::LE => Some(truth(a < b)),
        Instruction::LEQ => Some(truth(a <= b)),
        Instruction::GT => Some(truth(b < a)),
        Instruction::GEQ => Some(truth(b <= a)),
        Instruction::LEF => Some(truth((m.wide.less)(a, b))),
        Instruction::LEQF => Some(truth((m.wide.at_most)(a, b))),
        Instruction::GTF => Some(truth((m.wide.less)(b, a))),
        Instruction::GEQF => Some(truth((m.wide.at_most)(b, a))),
        Instruction::EQ => Some(truth(a == b)),
        Instruction::NEQ => Some(truth(a != b)),
        _ => None,
    }
}

/// What a dense operation number on two words gives.
pub open spec fn dense_outcome(m: Machine, kind: u8, a: int, b: int) -> Option<int> {
    if kind == dense::IADD64 {
        Some(wrap64(a + b))
    } else if kind == dense::ISUB64 {
        Some(wrap64(a - b))
    } else if kind == dense::IMUL64 {
        Some(wrap64(a * b))
    } else if kind == dense::IDIV64 {
        if b == 0 || (a == i64::MIN && b == -1) {
            None
        } else {
            Some(quotient(a, b))
        }
    } else if kind == dense::IREM64 {
        if b == 0 || (a == i64::MIN && b == -1) {
            None
        } else {
            Some(remainder(a, b))
        }
    } else if kind == dense::IAND64 {
        Some(both_bits(a, b))
    } else if kind == dense::IOR64 {
        Some(either_bits(a, b))
    } else if kind == dense::IXOR64 {
        Some(odd_bits(a, b))
    } else if kind == dense::ISHL64 {
        if 0 <= b < 64 {
            Some(up64(a, b))
        } else {
            None
        }
    } else if kind == dense::ISHR64 {
        if 0 <= b < 64 {
            Some(down64(a, b))
        } else {
            None
        }
    } else if kind == dense::FADD64 {
        Some((m.wide.plus)(a, b))
    } else if kind == dense::FSUB64 {
        Some((m.wide.minus)(a, b))
    } else if kind == dense::FMUL64 {
        Some((m.wide.times)(a, b))
    } else if kind == dense::FDIV64 {
        Some((m.wide.over)(a, b))
    } else if kind == dense::FREM64 {
        Some((m.wide.rest)(a, b))
    } else if kind == dense::IADD32 {
        Some(wrap32(a + b))
    } else if kind == dense::ISUB32 {
        Some(wrap32(a - b))
    } else if kind == dense::IMUL32 {
        Some(wrap32(a * b))
    } else if kind == dense::IDIV32 {
        if b == 0 || (a == i32::MIN && b == -1) {
            None
        } else {
            Some(quotient(a, b))
        }
    } else if kind == dense::IREM32 {
        if b == 0 || (a == i32::MIN && b == -1) {
            None
        } else {
            Some(remainder(a, b))
        }
    } else if kind == dense::FADD32 {
        Some((m.narrow.plus)(a, b))
    } else if kind == dense::FSUB32 {
        Some((m.narrow.minus)(a, b))
    } else if kind == dense::FMUL32 {
        Some((m.narrow.times)(a, b))
    } else if kind == dense::FDIV32 {
        Some((m.narrow.over)(a, b))
    } else if kind == dense::FREM32 {
        Some((m.narrow.rest)(a, b))
    } else {
        None
    }
}

/// Whether the dense comparison with that number holds: the predicates of a lane are less, at most,
/// greater, at least, equal and different, in this order.
pub open spec fn dense_holds(m: Machine, kind: u8, a: int, b: int) -> Option<bool> {
    let p = kind % 8;
    let lane = kind - p;
    if lane == dense::LANE_I64 || lane == dense::LANE_I32 {
        if p == 0 {
            Some(a < b)
        } else if p == 1 {
            Some(a <= b)
        } else if p == 2 {
            Some(b < a)
        } else if p == 3 {
            Some(b <= a)
        } else if p == 4 {
            Some(a == b)
        } else if p == 5 {
            Some(a != b)
        } else {
            None
        }
    } else if lane == dense::LANE_F64 || lane == dense::LANE_F32 {
        let f = if lane == dense::LANE_F64 {
            m.wide
        } else {
            m.narrow
        };
        if p == 0 {
            Some((f.less)(a, b))
        } else if p == 1 {
            Some((f.at_most)(a, b))
        } else if p == 2 {
            Some((f.less)(b, a))
        } else if p == 3 {
            Some((f.at_most)(b, a))
        } else if p == 4 {
            Some((f.same)(a, b))
        } else if p == 5 {
            Some(!(f.same)(a, b))
        } else {
            None
        }
    } else {
        None
    }
}

/// Sixteen bits as a signed number.
pub open spec fn signed16(imm: u16) -> int {
    if imm >= 0x8000 {
        imm - 0x1_0000
    } else {
        imm as int
    }
}

/// The frame behind an instruction that takes two words from the stack.
pub open spec fn after_bin(m: Machine, inst: Instruction, s: Frame) -> Option<Frame> {
    if s.stack.len() < 2 {
        None
    } else {
        match outcome(m, inst, s.below(1), s.below(0)) {
            Some(x) => Some(s.less(2).push(x)),
            None => None,
        }
    }
}

/// The frame with `x` pushed.
pub open spec fn with_result(s: Frame, x: Option<int>) -> Option<Frame> {
    match x {
        Some(x) => Some(s.push(x)),
        None => None,
    }
}

/// The frame with `x` in slot `k`.
pub open spec fn with_slot(s: Frame, k: u32, x: Option<int>) -> Option<Frame> {
    match x {
        Some(x) => Some(s.put(k, x)),
        None => None,
    }
}

/// The frame behind a byte-level instruction.
pub open spec fn after_byte(m: Machine, pool: Seq<u64>, byte: Byte, s: Frame) -> Option<Frame> {
    match (byte.inst, byte.arg) {
        (Instruction::DenseBin, Operand::Dense { kind, a, b, c }) => with_slot(
            s,
            a as u32,
            dense_outcome(m, kind, s.slot(b as u32), s.slot(c as u32)),
        ),
        (Instruction::DenseCmp, Operand::Dense { kind, a, b, c }) => match dense_holds(
            m,
            kind,
            s.slot(b as u32),
            s.slot(c as u32),
        ) {
            Some(x) => Some(s.put(a as u32, truth(x))),
            None => None,
        },
        (Instruction::DenseMove, Operand::Dense { a, b, .. }) => Some(s.put(a as u32, s.slot(b as u32))),
        (Instruction::DenseUnary, Operand::Dense { kind, a, b, .. }) => if kind == dense::UNARY_NOT {
            Some(s.put(a as u32, truth(s.slot(b as u32) == 0)))
        } else if kind == dense::UNARY_NEG {
            Some(s.put(a as u32, wrap64(-s.slot(b as u32))))
        } else if kind == dense::UNARY_FNEG {
            Some(s.put(a as u32, (m.wide.negated)(s.slot(b as u32))))
        } else {
            None
        },
        (Instruction::DenseCast, Operand::Dense { kind, a, b, .. }) => if kind == dense::CAST_I2F {
            Some(s.put(a as u32, (m.wide.of_number)(s.slot(b as u32))))
        } else if kind == dense::CAST_SEXT {
            Some(s.put(a as u32, s.slot(b as u32)))
        } else {
            None
        },
        (Instruction::DenseConst, Operand::DenseConst { dest, imm, pool: pooled, .. }) => if !pooled {
            Some(s.put(dest as u32, signed16(imm)))
        } else if imm < pool.len() {
            Some(s.put(dest as u32, wrap64(pool[imm as int] as int)))
        } else {
            None
        },
        (Instruction::INC, Operand::IncDec { slot, float, .. }) => Some(
            s.put(
                slot,
                if float {
                    (m.wide.plus)(s.slot(slot), wrap64(0x3FF0_0000_0000_0000))
                } else {
                    wrap64(s.slot(slot) + 1)
                },
            ),
        ),
        (Instruction::DEC, Operand::IncDec { slot, float, .. }) => Some(
            s.put(
                slot,
                if float {
                    (m.wide.minus)(s.slot(slot), wrap64(0x3FF0_0000_0000_0000))
                } else {
                    wrap64(s.slot(slot) - 1)
                },
            ),
        ),
        (Instruction::NEG, _) => if s.stack.len() < 1 {
            None
        } else {
            Some(s.less(1).push(wrap64(-s.below(0))))
        },
        (Instruction::NEGF, _) => if s.stack.len() < 1 {
            None
        } else {
            Some(s.less(1).push((m.wide.negated)(s.below(0))))
        },
        (Instruction::NOT, _) => if s.stack.len() < 1 {
            None
        } else {
            Some(s.less(1).push(truth(s.below(0) == 0)))
        },
        (Instruction::CastIntToFloat, _) => if s.stack.len() < 1 {
            None
        } else {
            Some(s.less(1).push((m.wide.of_number)(s.below(0))))
        },
        _ => after_bin(m, byte.inst, s),
    }
}

/// The frame behind one operation.
pub open spec fn step(m: Machine, pool: Seq<u64>, op: IlOp, s: Frame) -> Option<Frame> {
    match op {
        IlOp::Label(_) | IlOp::JoinLabel(_) => Some(s),
        IlOp::Load { slot, .. } => Some(s.push(s.slot(slot))),
        IlOp::StorePop { slot, .. } => if s.stack.len() < 1 {
            None
        } else {
            Some(s.less(1).put(slot, s.below(0)))
        },
        IlOp::Const { imm, .. } => Some(s.push(imm as int)),
        IlOp::ConstPool { idx, .. } => if idx < pool.len() {
            Some(s.push(wrap64(pool[idx as int] as int)))
        } else {
            None
        },
        IlOp::Dup { .. } => if s.stack.len() < 1 {
            None
        } else {
            Some(s.push(s.below(0)))
        },
        IlOp::Pop { .. } => if s.stack.len() < 1 {
            None
        } else {
            Some(s.less(1))
        },
        IlOp::LogNot { .. } => if s.stack.len() < 1 {
            None
        } else {
            Some(s.less(1).push(truth(s.below(0) == 0)))
        },
        IlOp::Bin { op, .. } => after_bin(m, op, s),
        IlOp::BinSlotImm { op, slot, imm, .. } => with_result(s, outcome(m, op, s.slot(slot as u32), imm as int)),
        IlOp::BinSlotSlot { op, a, b, .. } => with_result(
            s,
            outcome(m, op, s.slot(a as u32), s.slot(b as u32)),
        ),
        IlOp::Byte { byte, .. } => after_byte(m, pool, byte, s),
        _ => None,
    }
}

/// The frame behind the operations from `i` on, one after the other.
pub open spec fn run(m: Machine, pool: Seq<u64>, ops: Seq<IlOp>, i: int, s: Frame) -> Option<Frame>
    decreases ops.len() - i,
{
    if i >= ops.len() {
        Some(s)
    } else {
        match step(m, pool, ops[i], s) {
            Some(t) => run(m, pool, ops, i + 1, t),
            None => None,
        }
    }
}

/// Running one piece of code behind another.
pub proof fn running_in_pieces(m: Machine, pool: Seq<u64>, a: Seq<IlOp>, b: Seq<IlOp>, i: int, s: Frame)
    requires
        0 <= i <= a.len(),
    ensures
        run(m, pool, a + b, i, s) == (match run(m, pool, a, i, s) {
            Some(t) => run(m, pool, b, 0, t),
            None => None,
        }),
    decreases a.len() - i,
{
    if i < a.len() {
        assert((a + b)[i] == a[i]);
        if let Some(t) = step(m, pool, a[i], s) {
            running_in_pieces(m, pool, a, b, i + 1, t);
        }
    } else {
        running_behind(m, pool, a, b, 0, s);
    }
}

proof fn running_behind(m: Machine, pool: Seq<u64>, a: Seq<IlOp>, b: Seq<IlOp>, j: int, s: Frame)
    requires
        0 <= j <= b.len(),
    ensures
        run(m, pool, a + b, a.len() + j, s) == run(m, pool, b, j, s),
    decreases b.len() - j,
{
    if j < b.len() {
        assert((a + b)[a.len() + j] == b[j]);
        if let Some(t) = step(m, pool, b[j], s) {
            running_behind(m, pool, a, b, j + 1, t);
        }
    }
}

// Operations of every kind.

/// All slots but `k` hold in `t` what they hold in `s`.
pub open spec fn only_slot(s: Frame, t: Frame, k: u32) -> bool {
    forall|x: u32| x != k ==> #[trigger] t.slots[x] == s.slots[x]
}

/// The frame `t` may follow `s` by an operation of stack code. Operations that [`step`] does not
/// know leave the slots alone, but for stores at byte level; callees have frames of their own.
pub open spec fn may_go(m: Machine, pool: Seq<u64>, op: IlOp, s: Frame, t: Frame) -> bool {
    match op {
        IlOp::Byte { byte, .. } => match (byte.inst, byte.arg) {
            (Instruction::STORE, Operand::Slots { count, a, b, c })
            | (Instruction::StorePop, Operand::Slots { count, a, b, c }) => forall|x: u32|
                !(count >= 1 && x == a) && !(count >= 2 && x == b) && !(count >= 3 && x == c) ==> #[trigger] t.slots[x]
                    == s.slots[x],
            (Instruction::INC, Operand::IncDec { slot, .. })
            | (Instruction::DEC, Operand::IncDec { slot, .. }) => only_slot(s, t, slot),
            (Instruction::BinSlotSlotStore, Operand::SlotSlot { dest, .. }) => only_slot(s, t, dest as u32),
            (Instruction::BinSlotImmStore, _) => exists|k: u32| only_slot(s, t, k),
            (_, Operand::Dense { a, .. }) => only_slot(s, t, a as u32),
            (_, Operand::DenseConst { dest, .. }) => only_slot(s, t, dest as u32),
            (_, Operand::DenseObject { dest, .. }) => only_slot(s, t, dest as u32),
            _ => t.slots == s.slots,
        },
        IlOp::StorePop { slot, .. } => s.stack.len() > 0 && t == s.less(1).put(slot, s.below(0)),
        _ => match step(m, pool, op, s) {
            Some(x) => t == x,
            None => t.slots == s.slots,
        },
    }
}

// Jumps.

/// The operation puts label `l` in its place.
pub open spec fn binds(op: IlOp, l: Label) -> bool {
    op == IlOp::Label(l) || op == IlOp::JoinLabel(l)
}

/// First position from `i` on where label `l` stands.
pub open spec fn place_of(ops: Seq<IlOp>, l: Label, i: int) -> Option<int>
    decreases ops.len() - i,
{
    if i >= ops.len() {
        None
    } else if binds(ops[i], l) {
        Some(i)
    } else {
        place_of(ops, l, i + 1)
    }
}

/// Whether a jump is taken and the frame behind it: conditional jumps pop the word that they test.
pub open spec fn after_jump(kind: IlJumpKind, s: Frame) -> Option<(bool, Frame)> {
    match kind {
        IlJumpKind::Unconditional => Some((true, s)),
        IlJumpKind::JumpIfTrue => if s.stack.len() < 1 {
            None
        } else {
            Some((s.below(0) != 0, s.less(1)))
        },
        IlJumpKind::JumpIfFalse => if s.stack.len() < 1 {
            None
        } else {
            Some((s.below(0) == 0, s.less(1)))
        },
        IlJumpKind::JumpIfMatch { .. } => None,
    }
}

/// Where control leaves code that only jumps ahead, and with which frame: to a label that does not
/// stand in the rest of the code, or at its end.
pub open spec fn leaves(m: Machine, pool: Seq<u64>, ops: Seq<IlOp>, i: int, s: Frame) -> Option<
    (Option<Label>, Frame),
>
    decreases ops.len() - i,
{
    if i >= ops.len() {
        Some((None, s))
    } else {
        match ops[i] {
            IlOp::Jump { kind, target, .. } => match after_jump(kind, s) {
                None => None,
                Some((taken, t)) => if !taken {
                    leaves(m, pool, ops, i + 1, t)
                } else {
                    match place_of(ops, target, i + 1) {
                        Some(j) => if i < j <= ops.len() {
                            leaves(m, pool, ops, j, t)
                        } else {
                            None
                        },
                        None => Some((Some(target), t)),
                    }
                },
            },
            op => match step(m, pool, op, s) {
                Some(t) => leaves(m, pool, ops, i + 1, t),
                None => None,
            },
        }
    }
}

pub proof fn place_of_is_ahead(ops: Seq<IlOp>, l: Label, i: int)
    ensures
        place_of(ops, l, i) matches Some(j) ==> i <= j < ops.len(),
    decreases ops.len() - i,
{
    if i < ops.len() && !binds(ops[i], l) {
        place_of_is_ahead(ops, l, i + 1);
    }
}

/// A label that does not stand in the first piece is looked for in the second.
pub proof fn place_of_in_pieces(a: Seq<IlOp>, b: Seq<IlOp>, l: Label, i: int)
    requires
        0 <= i <= a.len(),
        forall|k: int| i <= k < a.len() ==> !binds(#[trigger] a[k], l),
    ensures
        place_of(a + b, l, i) == (match place_of(b, l, 0) {
            Some(j) => Some(a.len() + j),
            None => None,
        }),
    decreases a.len() - i,
{
    if i < a.len() {
        assert((a + b)[i] == a[i]);
        place_of_in_pieces(a, b, l, i + 1);
    } else {
        place_of_behind(a, b, l, 0);
    }
}

proof fn place_of_behind(a: Seq<IlOp>, b: Seq<IlOp>, l: Label, j: int)
    requires
        0 <= j <= b.len(),
    ensures
        place_of(a + b, l, a.len() + j) == (match place_of(b, l, j) {
            Some(k) => Some(a.len() + k),
            None => None,
        }),
    decreases b.len() - j,
{
    if j < b.len() {
        assert((a + b)[a.len() + j] == b[j]);
        if !binds(b[j], l) {
            place_of_behind(a, b, l, j + 1);
        }
    }
}

/// Code does the same behind other code.
pub proof fn leaving_behind(m: Machine, pool: Seq<u64>, a: Seq<IlOp>, b: Seq<IlOp>, j: int, s: Frame)
    requires
        0 <= j <= b.len(),
    ensures
        leaves(m, pool, a + b, a.len() + j, s) == leaves(m, pool, b, j, s),
    decreases b.len() - j,
{
    if j < b.len() {
        assert((a + b)[a.len() + j] == b[j]);
        match b[j] {
            IlOp::Jump { kind, target, .. } => {
                if let Some((taken, t)) = after_jump(kind, s) {
                    if !taken {
                        leaving_behind(m, pool, a, b, j + 1, t);
                    } else {
                        place_of_behind(a, b, target, j + 1);
                        place_of_is_ahead(b, target, j + 1);
                        if let Some(k) = place_of(b, target, j + 1) {
                            leaving_behind(m, pool, a, b, k, t);
                        }
                    }
                }
            },
            _ => {
                if let Some(t) = step(m, pool, b[j], s) {
                    leaving_behind(m, pool, a, b, j + 1, t);
                }
            },
        }
    }
}

/// Code without jumps runs to its end.
pub proof fn leaving_straight_code(m: Machine, pool: Seq<u64>, a: Seq<IlOp>, b: Seq<IlOp>, i: int, s: Frame)
    requires
        0 <= i <= a.len(),
        forall|k: int| 0 <= k < a.len() ==> !(#[trigger] a[k] is Jump),
    ensures
        leaves(m, pool, a + b, i, s) == (match run(m, pool, a, i, s) {
            Some(t) => leaves(m, pool, b, 0, t),
            None => None,
        }),
    decreases a.len() - i,
{
    if i < a.len() {
        assert((a + b)[i] == a[i]);
        if let Some(t) = step(m, pool, a[i], s) {
            leaving_straight_code(m, pool, a, b, i + 1, t);
        }
    } else {
        leaving_behind(m, pool, a, b, 0, s);
    }
}

} // verus!

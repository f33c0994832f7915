//! Operand stack height.
//!
//! The height counts values on the operand stack. It is not the cursor that locals and operands
//! share: a store to a high slot raises the cursor and not the height, and a call leaves the
//! height at one whatever was below.
use vstd::prelude::*;
use super::flow::{analyze_cfg, told, Effect, Site, Tell};
use super::op::{Byte, EntryKind, IlJumpKind, IlOp, Instruction};

verus! {

/// `n` as a signed number, cut at the largest one.
pub open spec fn clamped(n: u32) -> i32 {
    if n > i32::MAX {
        i32::MAX
    } else {
        n as i32
    }
}

pub(crate) fn clamp(n: u32) -> (r: i32)
    ensures
        r == clamped(n),
        0 <= r,
{
    if n > i32::MAX as u32 {
        i32::MAX
    } else {
        n as i32
    }
}

/// Arguments of an indirect call: those on the stack and those bound before.
pub open spec fn indirect_arity(b: Byte) -> u32 {
    (b.word() % 65536 + b.word() / 65536) as u32
}

pub(crate) fn find_indirect_arity(b: &Byte) -> (r: u32)
    ensures
        r == indirect_arity(*b),
{
    b.operand_u32() % 65536 + b.operand_u32() / 65536
}

/// Values that an instruction leaves minus those that it takes; nothing if that is not modelled.
pub open spec fn byte_delta(b: Byte) -> Option<i32> {
    match b.inst {
        Instruction::NOOP
        | Instruction::JMP
        | Instruction::NEG
        | Instruction::NEGF
        | Instruction::NOT
        | Instruction::INC
        | Instruction::DEC
        | Instruction::CastIntToFloat
        | Instruction::ArrayLen
        | Instruction::STRINGIFY
        | Instruction::BinSlotImmJmpf
        | Instruction::BinSlotImmJmpt
        | Instruction::BinSlotSlotJmpf
        | Instruction::BinSlotSlotJmpt
        | Instruction::BinSlotSlotConstJmpf
        | Instruction::BinSlotSlotConstJmpt
        | Instruction::BinSlotImmStore
        | Instruction::BinSlotSlotStore
        | Instruction::DenseBin
        | Instruction::DenseCmp
        | Instruction::DenseUnary
        | Instruction::DenseCast
        | Instruction::DenseConst
        | Instruction::DenseMove
        | Instruction::DenseIndex
        | Instruction::DenseStoreIndex
        | Instruction::DenseArrayLen
        | Instruction::DenseArrayPush
        | Instruction::DenseMake
        | Instruction::DenseMakeObject
        | Instruction::DenseFieldLoad
        | Instruction::DenseFieldStore => Some(0i32),
        Instruction::CONST
        | Instruction::STRING
        | Instruction::DUP
        | Instruction::CodePtr
        | Instruction::MakePolyFn
        | Instruction::INIT
        | Instruction::InitTyped
        | Instruction::DensePush => Some(1i32),
        Instruction::LOAD => Some(b.slot_count() as i32),
        Instruction::STORE | Instruction::StorePop => Some((-(b.slot_count() as int)) as i32),
        Instruction::POP
        | Instruction::ADD
        | Instruction::ADDF
        | Instruction::SUB
        | Instruction::SUBF
        | Instruction::MUL
        | Instruction::MULF
        | Instruction::DIV
        | Instruction::DIVF
        | Instruction::MOD
        | Instruction::MODF
        | Instruction::Pow
        | Instruction::PowF
        | Instruction::AND
        | Instruction::OR
        | Instruction::BITAND
        | Instruction::BITOR
        | Instruction::XOR
        | Instruction::SHL
        | Instruction::SHR
        | Instruction::LE
        | Instruction::LEF
        | Instruction::LEQ
        | Instruction::LEQF
        | Instruction::GT
        | Instruction::GTF
        | Instruction::GEQ
        | Instruction::GEQF
        | Instruction::EQ
        | Instruction::NEQ
        | Instruction::JMPF
        | Instruction::JMPT
        | Instruction::LogNotJmpf
        | Instruction::LogNotJmpt
        | Instruction::PairToHeap
        | Instruction::Index
        | Instruction::IndexUnchecked
        | Instruction::ArrayPush
        | Instruction::PRINT => Some(-1i32),
        Instruction::CmpJmpf
        | Instruction::CmpJmpt
        | Instruction::StoreIndex
        | Instruction::StoreIndexUnchecked => Some(-2i32),
        Instruction::MakeArray | Instruction::MakeTuple => Some((1 - clamped(b.word())) as i32),
        Instruction::FORMAT => Some((-(clamped(b.word()) as int)) as i32),
        Instruction::MakeCoro => Some((1 - clamped(b.call().0)) as i32),
        Instruction::CallIndirect => Some((1 - clamped(indirect_arity(b))) as i32),
        _ => None,
    }
}

/// Values that an instruction leaves minus those that it takes.
pub fn byte_stack_delta(b: &Byte) -> (r: Option<i32>)
    ensures
        r == byte_delta(*b),
{
    match b.inst {
        Instruction::NOOP
        | Instruction::JMP
        | Instruction::NEG
        | Instruction::NEGF
        | Instruction::NOT
        | Instruction::INC
        | Instruction::DEC
        | Instruction::CastIntToFloat
        | Instruction::ArrayLen
        | Instruction::STRINGIFY
        | Instruction::BinSlotImmJmpf
        | Instruction::BinSlotImmJmpt
        | Instruction::BinSlotSlotJmpf
        | Instruction::BinSlotSlotJmpt
        | Instruction::BinSlotSlotConstJmpf
        | Instruction::BinSlotSlotConstJmpt
        | Instruction::BinSlotImmStore
        | Instruction::BinSlotSlotStore
        | Instruction::DenseBin
        | Instruction::DenseCmp
        | Instruction::DenseUnary
        | Instruction::DenseCast
        | Instruction::DenseConst
        | Instruction::DenseMove
        | Instruction::DenseIndex
        | Instruction::DenseStoreIndex
        | Instruction::DenseArrayLen
        | Instruction::DenseArrayPush
        | Instruction::DenseMake
        | Instruction::DenseMakeObject
        | Instruction::DenseFieldLoad
        | Instruction::DenseFieldStore => Some(0i32),
        Instruction::CONST
        | Instruction::STRING
        | Instruction::DUP
        | Instruction::CodePtr
        | Instruction::MakePolyFn
        | Instruction::INIT
        | Instruction::InitTyped
        | Instruction::DensePush => Some(1i32),
        Instruction::LOAD => Some(b.load_store_count() as i32),
        Instruction::STORE | Instruction::StorePop => Some(0 - b.load_store_count() as i32),
        Instruction::POP
        | Instruction::ADD
        | Instruction::ADDF
        | Instruction::SUB
        | Instruction::SUBF
        | Instruction::MUL
        | Instruction::MULF
        | Instruction::DIV
        | Instruction::DIVF
        | Instruction::MOD
        | Instruction::MODF
        | Instruction::Pow
        | Instruction::PowF
        | Instruction::AND
        | Instruction::OR
        | Instruction::BITAND
        | Instruction::BITOR
        | Instruction::XOR
        | Instruction::SHL
        | Instruction::SHR
        | Instruction::LE
        | Instruction::LEF
        | Instruction::LEQ
        | Instruction::LEQF
        | Instruction::GT
        | Instruction::GTF
        | Instruction::GEQ
        | Instruction::GEQF
        | Instruction::EQ
        | Instruction::NEQ
        | Instruction::JMPF
        | Instruction::JMPT
        | Instruction::LogNotJmpf
        | Instruction::LogNotJmpt
        | Instruction::PairToHeap
        | Instruction::Index
        | Instruction::IndexUnchecked
        | Instruction::ArrayPush
        | Instruction::PRINT => Some(-1i32),
        Instruction::CmpJmpf
        | Instruction::CmpJmpt
        | Instruction::StoreIndex
        | Instruction::StoreIndexUnchecked => Some(-2i32),
        Instruction::MakeArray | Instruction::MakeTuple => Some(1 - clamp(b.operand_u32())),
        Instruction::FORMAT => Some(0 - clamp(b.operand_u32())),
        Instruction::MakeCoro => Some(1 - clamp(b.call_parts().0)),
        Instruction::CallIndirect => Some(1 - clamp(find_indirect_arity(b))),
        _ => None,
    }
}

/// Values that an operation leaves minus those that it takes; nothing if that is not modelled.
pub open spec fn op_delta(op: IlOp) -> Option<i32> {
    match op {
        IlOp::Label(_) | IlOp::JoinLabel(_) => Some(0i32),
        IlOp::Load { .. }
        | IlOp::Const { .. }
        | IlOp::ConstPool { .. }
        | IlOp::String { .. }
        | IlOp::Dup { .. }
        | IlOp::BinSlotImm { .. }
        | IlOp::BinSlotSlot { .. } => Some(1i32),
        IlOp::StorePop { .. }
        | IlOp::Pop { .. }
        | IlOp::Bin { .. }
        | IlOp::Index { .. }
        | IlOp::IndexUnchecked { .. }
        | IlOp::GetField { .. }
        | IlOp::Print { .. } => Some(-1i32),
        IlOp::LogNot { .. } | IlOp::BoxValue { .. } | IlOp::UnboxValue { .. } => Some(0i32),
        IlOp::SetField { index, .. } => if index is Some {
            Some(-1i32)
        } else {
            Some(-2i32)
        },
        IlOp::HostInvoke { arity, .. } => Some((-(clamped(arity) as int)) as i32),
        IlOp::MakeArray { arity, .. } | IlOp::MakeTuple { arity, .. } => Some(
            (1 - clamped(arity)) as i32,
        ),
        IlOp::MakeEnum { arity, .. } => Some((1 - arity) as i32),
        IlOp::Byte { byte, .. } => byte_delta(byte),
        _ => None,
    }
}

/// Values that an operation leaves minus those that it takes.
pub fn stack_delta(op: &IlOp) -> (r: Option<i32>)
    ensures
        r == op_delta(*op),
{
    match op {
        IlOp::Label(_) | IlOp::JoinLabel(_) => Some(0i32),
        IlOp::Load { .. }
        | IlOp::Const { .. }
        | IlOp::ConstPool { .. }
        | IlOp::String { .. }
        | IlOp::Dup { .. }
        | IlOp::BinSlotImm { .. }
        | IlOp::BinSlotSlot { .. } => Some(1i32),
        IlOp::StorePop { .. }
        | IlOp::Pop { .. }
        | IlOp::Bin { .. }
        | IlOp::Index { .. }
        | IlOp::IndexUnchecked { .. }
        | IlOp::GetField { .. }
        | IlOp::Print { .. } => Some(-1i32),
        IlOp::LogNot { .. } | IlOp::BoxValue { .. } | IlOp::UnboxValue { .. } => Some(0i32),
        IlOp::SetField { index, .. } => if index.is_some() {
            Some(-1i32)
        } else {
            Some(-2i32)
        },
        IlOp::HostInvoke { arity, .. } => Some(0 - clamp(*arity)),
        IlOp::MakeArray { arity, .. } | IlOp::MakeTuple { arity, .. } => Some(1 - clamp(*arity)),
        IlOp::MakeEnum { arity, .. } => Some(1 - *arity as i32),
        IlOp::Byte { byte, .. } => byte_stack_delta(byte),
        _ => None,
    }
}

/// The modelled change, or nothing known.
pub open spec fn delta_effect(d: Option<i32>) -> Effect {
    match d {
        Some(d) => Effect::Delta(d),
        None => Effect::Unknown,
    }
}

pub(crate) fn effect_of_delta(d: Option<i32>) -> (r: Effect)
    ensures
        r == delta_effect(d),
{
    match d {
        Some(d) => Effect::Delta(d),
        None => Effect::Unknown,
    }
}

/// Effect of a jump along its fall-through and its branch.
pub open spec fn jump_effects(kind: IlJumpKind) -> (Effect, Effect) {
    match kind {
        IlJumpKind::Unconditional => (Effect::Delta(0), Effect::Delta(0)),
        IlJumpKind::JumpIfFalse | IlJumpKind::JumpIfTrue => (Effect::Delta(-1i32), Effect::Delta(-1i32)),
        IlJumpKind::JumpIfMatch { arity, .. } => (
            Effect::Delta(0),
            Effect::Delta((clamped(arity) - 1) as i32),
        ),
    }
}

pub(crate) fn find_jump_effects(kind: &IlJumpKind) -> (r: (Effect, Effect))
    ensures
        r == jump_effects(*kind),
{
    match kind {
        IlJumpKind::Unconditional => (Effect::Delta(0), Effect::Delta(0)),
        IlJumpKind::JumpIfFalse | IlJumpKind::JumpIfTrue => (Effect::Delta(-1i32), Effect::Delta(-1i32)),
        IlJumpKind::JumpIfMatch { arity, .. } => (
            Effect::Delta(0),
            Effect::Delta(clamp(*arity) - 1),
        ),
    }
}

/// Whether an instruction never falls through.
pub open spec fn byte_stops(b: Byte) -> bool {
    match b.inst {
        Instruction::JMP
        | Instruction::RETURN
        | Instruction::ReturnPair
        | Instruction::HALT
        | Instruction::LoadReturnSlot
        | Instruction::ConstReturnImm
        | Instruction::BinReturn
        | Instruction::TailCall => true,
        _ => false,
    }
}

pub(crate) fn is_unconditional_transfer(b: &Byte) -> (r: bool)
    ensures
        r == byte_stops(*b),
{
    match b.inst {
        Instruction::JMP
        | Instruction::RETURN
        | Instruction::ReturnPair
        | Instruction::HALT
        | Instruction::LoadReturnSlot
        | Instruction::ConstReturnImm
        | Instruction::BinReturn
        | Instruction::TailCall => true,
        _ => false,
    }
}

/// Whether an operation never falls through.
pub open spec fn op_stops(op: IlOp) -> bool {
    match op {
        IlOp::Jump { kind, .. } => kind is Unconditional,
        IlOp::Entry { kind, .. } => kind is TailCall,
        IlOp::PrologueJmp { .. }
        | IlOp::Return { .. }
        | IlOp::Halt { .. }
        | IlOp::LoadReturnSlot { .. }
        | IlOp::ConstReturnImm { .. }
        | IlOp::BinReturn { .. } => true,
        IlOp::Byte { byte, .. } => byte_stops(byte),
        _ => false,
    }
}

pub(crate) fn il_is_unconditional_transfer(op: &IlOp) -> (r: bool)
    ensures
        r == op_stops(*op),
{
    match op {
        IlOp::Jump { kind, .. } => match kind {
            IlJumpKind::Unconditional => true,
            _ => false,
        },
        IlOp::Entry { kind, .. } => match kind {
            EntryKind::TailCall => true,
            _ => false,
        },
        IlOp::PrologueJmp { .. }
        | IlOp::Return { .. }
        | IlOp::Halt { .. }
        | IlOp::LoadReturnSlot { .. }
        | IlOp::ConstReturnImm { .. }
        | IlOp::BinReturn { .. } => true,
        IlOp::Byte { byte, .. } => is_unconditional_transfer(byte),
        _ => false,
    }
}

/// Where label `l` is bound last among the first `n` operations.
pub open spec fn label_index(ops: Seq<IlOp>, l: u32, n: int) -> Option<usize>
    decreases n,
{
    if n <= 0 {
        None
    } else if ops[n - 1].bound() is Some && (ops[n - 1].bound()->0).0 == l {
        Some((n - 1) as usize)
    } else {
        label_index(ops, l, n - 1)
    }
}

pub(crate) fn find_label(ops: &[IlOp], l: u32) -> (r: Option<usize>)
    ensures
        r == label_index(ops@, l, ops@.len() as int),
        r is Some ==> r->0 < ops@.len(),
{
    let mut n: usize = ops.len();
    while n > 0
        invariant
            n <= ops@.len(),
            label_index(ops@, l, ops@.len() as int) == label_index(ops@, l, n as int),
        decreases n,
    {
        let here = match &ops[n - 1] {
            IlOp::Label(x) => x.0 == l,
            IlOp::JoinLabel(x) => x.0 == l,
            _ => false,
        };
        if here {
            return Some(n - 1);
        }
        n -= 1;
    }
    None
}

/// Where the jump of an operation goes.
pub open spec fn op_target(ops: Seq<IlOp>, op: IlOp) -> Option<usize> {
    match op {
        IlOp::Jump { target, .. } => label_index(ops, target.0, ops.len() as int),
        _ => None,
    }
}

pub(crate) fn il_jump_target(ops: &[IlOp], op: &IlOp) -> (r: Option<usize>)
    ensures
        r == op_target(ops@, *op),
{
    match op {
        IlOp::Jump { target, .. } => find_label(ops, target.0),
        _ => None,
    }
}

/// Effect of an operation on the height along its two edges.
pub open spec fn height_effects(op: IlOp) -> (Effect, Effect) {
    match op {
        IlOp::Jump { kind, .. } => jump_effects(kind),
        IlOp::Entry { kind, .. } => match kind {
            EntryKind::Call | EntryKind::MakeCoro => (Effect::SetTo(1), Effect::SetTo(1)),
            EntryKind::TailCall => (Effect::Terminator, Effect::Terminator),
            EntryKind::CodePtr | EntryKind::MakePolyFn => (Effect::Delta(1), Effect::Delta(1)),
        },
        IlOp::Byte { byte, .. } => match byte.inst {
            Instruction::CALL | Instruction::MakeCoro => (Effect::SetTo(1), Effect::SetTo(1)),
            _ => (delta_effect(byte_delta(byte)), delta_effect(byte_delta(byte))),
        },
        _ => (delta_effect(op_delta(op)), delta_effect(op_delta(op))),
    }
}

fn find_height_effects(op: &IlOp) -> (r: (Effect, Effect))
    ensures
        r == height_effects(*op),
{
    match op {
        IlOp::Jump { kind, .. } => find_jump_effects(kind),
        IlOp::Entry { kind, .. } => match kind {
            EntryKind::Call | EntryKind::MakeCoro => (Effect::SetTo(1), Effect::SetTo(1)),
            EntryKind::TailCall => (Effect::Terminator, Effect::Terminator),
            EntryKind::CodePtr | EntryKind::MakePolyFn => (Effect::Delta(1), Effect::Delta(1)),
        },
        IlOp::Byte { byte, .. } => match byte.inst {
            Instruction::CALL | Instruction::MakeCoro => (Effect::SetTo(1), Effect::SetTo(1)),
            _ => {
                let e = effect_of_delta(byte_stack_delta(byte));
                (e, e)
            },
        },
        _ => {
            let e = effect_of_delta(stack_delta(op));
            (e, e)
        },
    }
}

/// The height problem of `ops`.
pub open spec fn height_sites(ops: Seq<IlOp>) -> Seq<Site> {
    Seq::new(
        ops.len(),
        |i: int|
            Site {
                fall: height_effects(ops[i]).0,
                branch: height_effects(ops[i]).1,
                target: op_target(ops, ops[i]),
                stops: op_stops(ops[i]),
            },
    )
}

/// Heights before each operation, from an empty stack on.
#[derive(Clone, Debug)]
pub struct SpInfo {
    pub sp_in: Vec<Tell>,
}

impl SpInfo {
    /// Height before operation `i`.
    pub fn sp_before(&self, i: usize) -> (r: Tell)
        ensures
            r == (if i < self.sp_in@.len() {
                self.sp_in@[i as int]
            } else {
                Tell::Unknown
            }),
    {
        if i < self.sp_in.len() {
            self.sp_in[i]
        } else {
            Tell::Unknown
        }
    }
}

/// Heights before each operation, from an empty stack on.
pub fn analyze(ops: &[IlOp]) -> (r: SpInfo)
    ensures
        r.sp_in@ == told(height_sites(ops@), 0, 0),
{
    let mut sites: Vec<Site> = Vec::new();
    let mut i: usize = 0;
    while i < ops.len()
        invariant
            i <= ops@.len(),
            sites@.len() == i,
            forall|k: int| 0 <= k < i ==> #[trigger] sites@[k] == height_sites(ops@)[k],
        decreases ops@.len() - i,
    {
        let (fall, branch) = find_height_effects(&ops[i]);
        sites.push(
            Site {
                fall,
                branch,
                target: il_jump_target(ops, &ops[i]),
                stops: il_is_unconditional_transfer(&ops[i]),
            },
        );
        i += 1;
    }
    assert(sites@ =~= height_sites(ops@));
    SpInfo { sp_in: analyze_cfg(&sites, 0, 0) }
}

} // verus!

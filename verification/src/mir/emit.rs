//! SSA form to dense code.
//!
//! Values that need one live in frame slots and are computed by three-address
//! operations. Values that only feed a call of the function itself, or a
//! return, are computed on the operand stack.
use super::call_convoy::{
    compare_from, find_compare, flag, fused_compare_of, is_tail_call_inst, tail_call, ConvoyPlan,
};
use super::deopt::{debug_slot_remap, encode_draft, remapped, resume_map, DraftDeoptMap};
use super::func::{BlockV, FuncV, MirBlock, MirFunc};
use super::host_allow::{edge, host_edge_spec};
use super::inst::{
    BlockId, InstV, MirAllocKind, MirBinOp, MirCastKind, MirCmpOp, MirConst, MirInst, MirUnaryOp,
    TermV, Terminator, ValueId,
};
use super::lower::{refused, LowerErrV, LowerError};
use super::moves::{edge_moves, phi_moves};
use super::regs::{
    assign_regs, assigned, coalesce_safe_latch_phis, coalesced, falls_through, is_fallthrough, phis_indexed,
};
use super::ty::MirTy;
use crate::idmap::IdMap;
use crate::il::dense;
use crate::il::op::{
    no_loc, Byte, DebugLoc, EntryKind, IlJumpKind, IlOp, Instruction, JumpHint, Label, Operand,
};
use crate::text::{cat2, cat4};
use vstd::prelude::*;

verus! {

// Operation tables.

/// Heap words are handled as 64-bit integers.
pub open spec fn word_ty(ty: MirTy) -> MirTy {
    if ty.heap_word() {
        MirTy::I64
    } else {
        ty
    }
}

/// Dense operation number.
pub open spec fn bin_number(op: MirBinOp, ty: MirTy) -> Option<u8> {
    match word_ty(ty) {
        MirTy::I64 => Some(
            match op {
                MirBinOp::Add => dense::IADD64,
                MirBinOp::Sub => dense::ISUB64,
                MirBinOp::Mul => dense::IMUL64,
                MirBinOp::Div => dense::IDIV64,
                MirBinOp::Rem => dense::IREM64,
                MirBinOp::BitAnd => dense::IAND64,
                MirBinOp::BitOr => dense::IOR64,
                MirBinOp::Xor => dense::IXOR64,
                MirBinOp::Shl => dense::ISHL64,
                MirBinOp::Shr => dense::ISHR64,
            },
        ),
        MirTy::F64 => match op {
            MirBinOp::Add => Some(dense::FADD64),
            MirBinOp::Sub => Some(dense::FSUB64),
            MirBinOp::Mul => Some(dense::FMUL64),
            MirBinOp::Div => Some(dense::FDIV64),
            MirBinOp::Rem => Some(dense::FREM64),
            _ => None,
        },
        MirTy::I32 => match op {
            MirBinOp::Add => Some(dense::IADD32),
            MirBinOp::Sub => Some(dense::ISUB32),
            MirBinOp::Mul => Some(dense::IMUL32),
            MirBinOp::Div => Some(dense::IDIV32),
            MirBinOp::Rem => Some(dense::IREM32),
            _ => None,
        },
        MirTy::F32 => match op {
            MirBinOp::Add => Some(dense::FADD32),
            MirBinOp::Sub => Some(dense::FSUB32),
            MirBinOp::Mul => Some(dense::FMUL32),
            MirBinOp::Div => Some(dense::FDIV32),
            MirBinOp::Rem => Some(dense::FREM32),
            _ => None,
        },
        _ => None,
    }
}

fn bin_kind(op: MirBinOp, ty: MirTy) -> (r: Option<u8>)
    ensures
        r == bin_number(op, ty),
{
    let ty = if ty.is_heap_word() {
        MirTy::I64
    } else {
        ty
    };
    match ty {
        MirTy::I64 => Some(
            match op {
                MirBinOp::Add => dense::IADD64,
                MirBinOp::Sub => dense::ISUB64,
                MirBinOp::Mul => dense::IMUL64,
                MirBinOp::Div => dense::IDIV64,
                MirBinOp::Rem => dense::IREM64,
                MirBinOp::BitAnd => dense::IAND64,
                MirBinOp::BitOr => dense::IOR64,
                MirBinOp::Xor => dense::IXOR64,
                MirBinOp::Shl => dense::ISHL64,
                MirBinOp::Shr => dense::ISHR64,
            },
        ),
        MirTy::F64 => match op {
            MirBinOp::Add => Some(dense::FADD64),
            MirBinOp::Sub => Some(dense::FSUB64),
            MirBinOp::Mul => Some(dense::FMUL64),
            MirBinOp::Div => Some(dense::FDIV64),
            MirBinOp::Rem => Some(dense::FREM64),
            _ => None,
        },
        MirTy::I32 => match op {
            MirBinOp::Add => Some(dense::IADD32),
            MirBinOp::Sub => Some(dense::ISUB32),
            MirBinOp::Mul => Some(dense::IMUL32),
            MirBinOp::Div => Some(dense::IDIV32),
            MirBinOp::Rem => Some(dense::IREM32),
            _ => None,
        },
        MirTy::F32 => match op {
            MirBinOp::Add => Some(dense::FADD32),
            MirBinOp::Sub => Some(dense::FSUB32),
            MirBinOp::Mul => Some(dense::FMUL32),
            MirBinOp::Div => Some(dense::FDIV32),
            MirBinOp::Rem => Some(dense::FREM32),
            _ => None,
        },
        _ => None,
    }
}

pub open spec fn pred_number(op: MirCmpOp) -> u8 {
    match op {
        MirCmpOp::Lt => 0,
        MirCmpOp::Le => 1,
        MirCmpOp::Gt => 2,
        MirCmpOp::Ge => 3,
        MirCmpOp::Eq => 4,
        MirCmpOp::Ne => 5,
    }
}

/// Lane and predicate of a dense comparison.
pub open spec fn compare_number(op: MirCmpOp, ty: MirTy) -> Option<u8> {
    let lane: Option<u8> = match word_ty(ty) {
        MirTy::I64 => Some(dense::LANE_I64),
        MirTy::F64 => Some(dense::LANE_F64),
        MirTy::I32 => Some(dense::LANE_I32),
        MirTy::F32 => Some(dense::LANE_F32),
        _ => None,
    };
    match lane {
        Some(l) => Some((l + pred_number(op)) as u8),
        None => None,
    }
}

fn compare_kind(op: MirCmpOp, ty: MirTy) -> (r: Option<u8>)
    ensures
        r == compare_number(op, ty),
{
    let pred: u8 = match op {
        MirCmpOp::Lt => 0,
        MirCmpOp::Le => 1,
        MirCmpOp::Gt => 2,
        MirCmpOp::Ge => 3,
        MirCmpOp::Eq => 4,
        MirCmpOp::Ne => 5,
    };
    match ty {
        MirTy::I64 | MirTy::HeapRef | MirTy::NicheOpt | MirTy::NicheRes => Some(dense::LANE_I64 + pred),
        MirTy::F64 => Some(dense::LANE_F64 + pred),
        MirTy::I32 => Some(dense::LANE_I32 + pred),
        MirTy::F32 => Some(dense::LANE_F32 + pred),
        _ => None,
    }
}

/// Stack opcode of a binary operation.
pub open spec fn stack_bin(op: MirBinOp, ty: MirTy) -> Instruction {
    match op {
        MirBinOp::Add => if ty.float() {
            Instruction::ADDF
        } else {
            Instruction::ADD
        },
        MirBinOp::Sub => if ty.float() {
            Instruction::SUBF
        } else {
            Instruction::SUB
        },
        MirBinOp::Mul => if ty.float() {
            Instruction::MULF
        } else {
            Instruction::MUL
        },
        MirBinOp::Div => if ty.float() {
            Instruction::DIVF
        } else {
            Instruction::DIV
        },
        MirBinOp::Rem => if ty.float() {
            Instruction::MODF
        } else {
            Instruction::MOD
        },
        MirBinOp::BitAnd => Instruction::BITAND,
        MirBinOp::BitOr => Instruction::BITOR,
        MirBinOp::Xor => Instruction::XOR,
        MirBinOp::Shl => Instruction::SHL,
        MirBinOp::Shr => Instruction::SHR,
    }
}

pub fn stack_bin_op(op: MirBinOp, ty: MirTy) -> (r: Instruction)
    ensures
        r == stack_bin(op, ty),
{
    let float = ty.is_float();
    match op {
        MirBinOp::Add => if float {
            Instruction::ADDF
        } else {
            Instruction::ADD
        },
        MirBinOp::Sub => if float {
            Instruction::SUBF
        } else {
            Instruction::SUB
        },
        MirBinOp::Mul => if float {
            Instruction::MULF
        } else {
            Instruction::MUL
        },
        MirBinOp::Div => if float {
            Instruction::DIVF
        } else {
            Instruction::DIV
        },
        MirBinOp::Rem => if float {
            Instruction::MODF
        } else {
            Instruction::MOD
        },
        MirBinOp::BitAnd => Instruction::BITAND,
        MirBinOp::BitOr => Instruction::BITOR,
        MirBinOp::Xor => Instruction::XOR,
        MirBinOp::Shl => Instruction::SHL,
        MirBinOp::Shr => Instruction::SHR,
    }
}

/// Stack opcode of a comparison.
pub open spec fn stack_compare(op: MirCmpOp, ty: MirTy) -> Instruction {
    match op {
        MirCmpOp::Lt => if ty.float() {
            Instruction::LEF
        } else {
            Instruction::LE
        },
        MirCmpOp::Le => if ty.float() {
            Instruction::LEQF
        } else {
            Instruction::LEQ
        },
        MirCmpOp::Gt => if ty.float() {
            Instruction::GTF
        } else {
            Instruction::GT
        },
        MirCmpOp::Ge => if ty.float() {
            Instruction::GEQF
        } else {
            Instruction::GEQ
        },
        MirCmpOp::Eq => Instruction::EQ,
        MirCmpOp::Ne => Instruction::NEQ,
    }
}

pub fn stack_compare_op(op: MirCmpOp, ty: MirTy) -> (r: Instruction)
    ensures
        r == stack_compare(op, ty),
{
    let float = ty.is_float();
    match op {
        MirCmpOp::Lt => if float {
            Instruction::LEF
        } else {
            Instruction::LE
        },
        MirCmpOp::Le => if float {
            Instruction::LEQF
        } else {
            Instruction::LEQ
        },
        MirCmpOp::Gt => if float {
            Instruction::GTF
        } else {
            Instruction::GT
        },
        MirCmpOp::Ge => if float {
            Instruction::GEQF
        } else {
            Instruction::GEQ
        },
        MirCmpOp::Eq => Instruction::EQ,
        MirCmpOp::Ne => Instruction::NEQ,
    }
}

/// Words that a return or call passes back.
pub open spec fn ret_words(hi: Option<ValueId>) -> u32 {
    if hi is Some {
        2
    } else {
        1
    }
}

pub fn ret_words_from_hi(hi: Option<ValueId>) -> (r: u32)
    ensures
        r == ret_words(hi),
{
    if hi.is_some() {
        2
    } else {
        1
    }
}

// Operations.

pub open spec fn byte_op(inst: Instruction, arg: Operand, loc: DebugLoc) -> IlOp {
    IlOp::Byte { byte: Byte { inst, arg }, loc }
}

/// Three-address operation.
pub open spec fn abc(inst: Instruction, kind: u8, a: u8, b: u8, c: u8, loc: DebugLoc) -> IlOp {
    byte_op(inst, Operand::Dense { kind, a, b, c }, loc)
}

fn abc_op(inst: Instruction, kind: u8, a: u8, b: u8, c: u8, loc: DebugLoc) -> (r: IlOp)
    ensures
        r == abc(inst, kind, a, b, c, loc),
{
    IlOp::from_plain_byte(Byte::new(inst).with_dense_abc(kind, a, b, c), loc)
}

/// Slot copy.
pub open spec fn copy(d: u8, s: u8) -> IlOp {
    abc(Instruction::DenseMove, 0, d, s, 0, no_loc())
}

fn move_op(d: u8, s: u8) -> (r: IlOp)
    ensures
        r == copy(d, s),
{
    IlOp::byte(Byte::new(Instruction::DenseMove).with_dense_move(d, s))
}

pub open spec fn jump(kind: IlJumpKind, target: Label, loc: DebugLoc) -> IlOp {
    IlOp::Jump { kind, target, loc, hint: JumpHint::Neutral }
}

pub fn jump_op(kind: IlJumpKind, target: Label, loc: DebugLoc) -> (r: IlOp)
    ensures
        r == jump(kind, target, loc),
{
    IlOp::Jump { kind, target, loc, hint: JumpHint::Neutral }
}

/// First position from `i` on that holds `bits`.
pub open spec fn pool_pos(pool: Seq<u64>, bits: u64, i: nat) -> Option<nat>
    decreases pool.len() - i,
{
    if i >= pool.len() {
        None
    } else if pool[i as int] == bits {
        Some(i)
    } else {
        pool_pos(pool, bits, i + 1)
    }
}

/// Index that `bits` has in the pool once it is interned.
pub open spec fn pool_index(pool: Seq<u64>, bits: u64) -> nat {
    match pool_pos(pool, bits, 0) {
        Some(i) => i,
        None => pool.len(),
    }
}

pub fn find_in_pool(pool: &Vec<u64>, bits: u64) -> (r: Option<usize>)
    ensures
        match r {
            Some(i) => pool_pos(pool@, bits, 0) == Some(i as nat),
            None => pool_pos(pool@, bits, 0) is None,
        },
{
    let mut i: usize = 0;
    while i < pool.len()
        invariant
            i <= pool@.len(),
            pool_pos(pool@, bits, 0) == pool_pos(pool@, bits, i as nat),
        decreases pool@.len() - i,
    {
        if pool[i] == bits {
            return Some(i);
        }
        i = i + 1;
    }
    None
}

/// Fits a signed 16-bit immediate.
pub open spec fn fits_i16(v: i64) -> bool {
    -32768 <= v <= 32767
}

/// Immediate of a constant that fits 16 bits.
pub open spec fn const_i16(c: MirConst) -> Option<i16> {
    match c {
        MirConst::I64(v) => if fits_i16(v) {
            Some(v as i16)
        } else {
            None
        },
        MirConst::I32(v) => if fits_i16(v as i64) {
            Some(v as i16)
        } else {
            None
        },
        MirConst::Bool(v) => Some(
            if v {
                1i16
            } else {
                0i16
            },
        ),
        _ => None,
    }
}

pub fn imm_of(c: MirConst) -> (r: Option<i16>)
    ensures
        r == const_i16(c),
{
    match c {
        MirConst::I64(v) => if -32768 <= v && v <= 32767 {
            Some(v as i16)
        } else {
            None
        },
        MirConst::I32(v) => if -32768 <= v && v <= 32767 {
            Some(v as i16)
        } else {
            None
        },
        MirConst::Bool(v) => Some(
            if v {
                1i16
            } else {
                0i16
            },
        ),
        _ => None,
    }
}

/// Stack form of an allocation.
pub open spec fn alloc_op(kind: MirAllocKind, arity: u32, loc: DebugLoc) -> Result<IlOp, Seq<char>> {
    match kind {
        MirAllocKind::Array => Ok(IlOp::MakeArray { arity, loc }),
        MirAllocKind::Tuple => Ok(IlOp::MakeTuple { arity, loc }),
        MirAllocKind::Enum { tag } => if tag > 0xffff {
            Err("enum tag"@)
        } else if arity > 0xffff {
            Err("enum arity"@)
        } else {
            Ok(IlOp::MakeEnum { tag: tag as u16, arity: arity as u16, loc })
        },
        MirAllocKind::Object { type_id, nfields } => Ok(
            byte_op(Instruction::InitTyped, Operand::Object { type_id, nfields }, no_loc()),
        ),
    }
}

/// Stack form of an allocation, as the front end writes it.
pub fn il_for_alloc(kind: MirAllocKind, arity: u32, loc: DebugLoc) -> (r: Result<IlOp, LowerError>)
    ensures
        match alloc_op(kind, arity, loc) {
            Ok(op) => r matches Ok(x) && x == op,
            Err(e) => r matches Err(x) && x@ == LowerErrV::Refused(e),
        },
{
    match kind {
        MirAllocKind::Array => Ok(IlOp::MakeArray { arity, loc }),
        MirAllocKind::Tuple => Ok(IlOp::MakeTuple { arity, loc }),
        MirAllocKind::Enum { tag } => {
            if tag > 0xffff {
                return Err(refused("enum tag"));
            }
            if arity > 0xffff {
                return Err(refused("enum arity"));
            }
            Ok(IlOp::MakeEnum { tag: tag as u16, arity: arity as u16, loc })
        },
        MirAllocKind::Object { type_id, nfields } => Ok(
            IlOp::byte(Byte::new(Instruction::InitTyped).with_init_typed(type_id, nfields)),
        ),
    }
}

/// Allocation whose value a collector edge names, while walking a block.
/// `Some(x)` once the edge was met.
pub open spec fn pair_in(insts: Seq<InstV>, barrier: ValueId, pending: Option<ValueId>, i: nat) -> Option<
    Option<ValueId>,
>
    decreases insts.len() - i,
{
    if i >= insts.len() {
        None
    } else {
        match insts[i as int] {
            InstV::Alloc { dest, .. } => pair_in(insts, barrier, Some(dest), i + 1),
            InstV::ArrayPush { dest, .. } => pair_in(insts, barrier, Some(dest), i + 1),
            InstV::Format { dest, .. } => pair_in(insts, barrier, Some(dest), i + 1),
            InstV::Stringify { dest, .. } => pair_in(insts, barrier, Some(dest), i + 1),
            InstV::GcBarrier { dest, .. } => if dest == barrier {
                Some(pending)
            } else {
                pair_in(insts, barrier, None, i + 1)
            },
            _ => pair_in(insts, barrier, None, i + 1),
        }
    }
}

/// Allocation directly before the collector edge `barrier`, from block `b` on.
pub open spec fn paired_alloc(f: FuncV, barrier: ValueId, b: nat) -> Option<ValueId>
    decreases f.blocks.len() - b,
{
    if b >= f.blocks.len() {
        None
    } else {
        match pair_in(f.blocks[b as int].insts, barrier, None, 0) {
            Some(p) => p,
            None => paired_alloc(f, barrier, b + 1),
        }
    }
}

/// Allocation that the collector edge `barrier` belongs to.
pub fn paired_alloc_dest(func: &MirFunc, barrier: ValueId) -> (r: Option<ValueId>)
    ensures
        r == paired_alloc(func@, barrier, 0),
        func@.indexed() && r is Some ==> (r->0).0 < func@.types.len(),
{
    let mut b: usize = 0;
    while b < func.blocks.len()
        invariant
            b <= func.blocks@.len(),
            paired_alloc(func@, barrier, 0) == paired_alloc(func@, barrier, b as nat),
        decreases func.blocks@.len() - b,
    {
        let block = &func.blocks[b];
        let mut pending: Option<ValueId> = None;
        let mut i: usize = 0;
        while i < block.insts.len()
            invariant
                b < func.blocks@.len(),
                block@ == func@.blocks[b as int],
                i <= block.insts@.len(),
                paired_alloc(func@, barrier, 0) == paired_alloc(func@, barrier, b as nat),
                pair_in(block@.insts, barrier, None, 0) == pair_in(block@.insts, barrier, pending, i as nat),
                func@.indexed() && pending is Some ==> (pending->0).0 < func@.types.len(),
            decreases block.insts@.len() - i,
        {
            assert(block@.insts[i as int] == block.insts@[i as int]@);
            proof {
                if func@.indexed() {
                    assert(func@.block_indexed(func@.blocks[b as int], b as int));
                    assert(func@.inst_indexed(block@.insts[i as int]));
                }
            }
            match &block.insts[i] {
                MirInst::Alloc { dest, .. } | MirInst::ArrayPush { dest, .. } => {
                    pending = Some(*dest);
                },
                MirInst::Format { dest, .. } | MirInst::Stringify { dest, .. } => {
                    pending = Some(*dest);
                },
                MirInst::GcBarrier { dest, .. } => {
                    if *dest == barrier {
                        return pending;
                    }
                    pending = None;
                },
                _ => {
                    pending = None;
                },
            }
            i = i + 1;
        }
        b = b + 1;
    }
    None
}

/// Collector edge directly behind the allocation `alloc`, in a block.
pub open spec fn barrier_in(insts: Seq<InstV>, alloc: ValueId, pending: bool, i: nat) -> Option<ValueId>
    decreases insts.len() - i,
{
    if i >= insts.len() {
        None
    } else {
        match insts[i as int] {
            InstV::Alloc { dest, .. } => barrier_in(insts, alloc, dest == alloc, i + 1),
            InstV::GcBarrier { dest, .. } => if pending {
                Some(dest)
            } else {
                barrier_in(insts, alloc, false, i + 1)
            },
            _ => barrier_in(insts, alloc, false, i + 1),
        }
    }
}

pub open spec fn paired_barrier(f: FuncV, alloc: ValueId, b: nat) -> Option<ValueId>
    decreases f.blocks.len() - b,
{
    if b >= f.blocks.len() {
        None
    } else {
        match barrier_in(f.blocks[b as int].insts, alloc, false, 0) {
            Some(v) => Some(v),
            None => paired_barrier(f, alloc, b + 1),
        }
    }
}

/// Collector edge that belongs to the allocation `alloc`.
fn paired_barrier_for_alloc(func: &MirFunc, alloc: ValueId) -> (r: Option<ValueId>)
    requires
        func@.indexed(),
    ensures
        r == paired_barrier(func@, alloc, 0),
        r is Some ==> (r->0).0 < func@.types.len(),
{
    let mut b: usize = 0;
    while b < func.blocks.len()
        invariant
            func@.indexed(),
            b <= func.blocks@.len(),
            paired_barrier(func@, alloc, 0) == paired_barrier(func@, alloc, b as nat),
        decreases func.blocks@.len() - b,
    {
        let block = &func.blocks[b];
        let mut pending = false;
        let mut i: usize = 0;
        while i < block.insts.len()
            invariant
                func@.indexed(),
                b < func.blocks@.len(),
                block@ == func@.blocks[b as int],
                i <= block.insts@.len(),
                paired_barrier(func@, alloc, 0) == paired_barrier(func@, alloc, b as nat),
                barrier_in(block@.insts, alloc, false, 0) == barrier_in(block@.insts, alloc, pending, i as nat),
            decreases block.insts@.len() - i,
        {
            assert(block@.insts[i as int] == block.insts@[i as int]@);
            match &block.insts[i] {
                MirInst::Alloc { dest, .. } => {
                    pending = *dest == alloc;
                },
                MirInst::GcBarrier { dest, .. } => {
                    if pending {
                        assert(func@.block_indexed(func@.blocks[b as int], b as int));
                        assert(func@.inst_indexed(block@.insts[i as int]));
                        return Some(*dest);
                    }
                },
                _ => {
                    pending = false;
                },
            }
            i = i + 1;
        }
        b = b + 1;
    }
    None
}

// Emission.

/// What emission looks up.
pub struct CtxV {
    pub f: FuncV,
    pub slots: Seq<bool>,
    pub regs: Seq<u8>,
    pub entry: Option<Label>,
    pub scratch: u8,
    pub labs: Seq<Label>,
    pub reserved: Set<u32>,
    pub across: bool,
}

impl CtxV {
    pub open spec fn reg(self, v: ValueId) -> u8 {
        self.regs[v.0 as int]
    }

    pub open spec fn reg_list(self, s: Seq<ValueId>) -> Seq<u8> {
        Seq::new(s.len(), |i: int| self.reg(s[i]))
    }

    /// Small immediate that `v` is.
    pub open spec fn small(self, v: ValueId) -> Option<i16> {
        match self.f.def_inst(v) {
            Some(InstV::Const { c, .. }) => const_i16(c),
            _ => None,
        }
    }
}

/// Emission state. The operations, the values known to lie on top of the
/// stack, the constant pool, the next label, and the refusal that ended it.
#[verifier::ext_equal]
pub struct Emit {
    pub out: Seq<IlOp>,
    pub stacked: Seq<ValueId>,
    pub pool: Seq<u64>,
    pub next: u32,
    pub err: Option<Seq<char>>,
}

/// Slots follow each other.
pub open spec fn consecutive(s: Seq<u8>) -> bool {
    forall|k: int|
        0 <= k < s.len() - 1 ==> #[trigger] s[k + 1] == (if s[k] == 255 {
            255
        } else {
            s[k] + 1
        })
}

/// First of the slots that a gathered argument list takes.
pub open spec fn gather_base(s: Seq<u8>, scratch: u8) -> u8 {
    if s.len() == 0 {
        0
    } else if consecutive(s) {
        s[0]
    } else {
        scratch
    }
}

/// Kind of a dense allocation.
pub open spec fn make_number(kind: MirAllocKind) -> Result<Option<u8>, Seq<char>> {
    match kind {
        MirAllocKind::Array => Ok(Some(dense::MAKE_ARRAY)),
        MirAllocKind::Tuple => Ok(Some(dense::MAKE_TUPLE)),
        MirAllocKind::Enum { tag } => if dense::MAKE_ENUM + tag > u32::MAX {
            Err("DenseMake enum tag"@)
        } else if dense::MAKE_ENUM + tag > 255 {
            Ok(None)
        } else {
            Ok(Some((dense::MAKE_ENUM + tag) as u8))
        },
        MirAllocKind::Object { .. } => Ok(None),
    }
}

/// Flags and third slot of a field access.
pub open spec fn field_operand(name: Option<u8>, index: Option<u32>) -> Option<(u8, u8)> {
    match name {
        Some(n) => Some((dense::FIELD_NAMED, n)),
        None => match index {
            Some(i) => if i <= 255 {
                Some((0u8, i as u8))
            } else {
                None
            },
            None => None,
        },
    }
}

impl Emit {
    pub open spec fn emit(self, op: IlOp) -> Emit {
        if self.err is Some {
            self
        } else {
            Emit { out: self.out.push(op), ..self }
        }
    }

    pub open spec fn fail(self, m: Seq<char>) -> Emit {
        if self.err is Some {
            self
        } else {
            Emit { err: Some(m), ..self }
        }
    }

    /// Records that `v` now lies on top of the stack.
    pub open spec fn park(self, v: ValueId) -> Emit {
        if self.err is Some {
            self
        } else {
            Emit { stacked: self.stacked.push(v), ..self }
        }
    }

    /// Records that nothing is known to lie on the stack.
    pub open spec fn unpark(self) -> Emit {
        if self.err is Some {
            self
        } else {
            Emit { stacked: Seq::empty(), ..self }
        }
    }

    /// Forgets up to `n` values on top of the stack.
    pub open spec fn forget(self, n: nat) -> Emit {
        if self.err is Some {
            self
        } else if self.stacked.len() >= n {
            Emit { stacked: self.stacked.take(self.stacked.len() - n), ..self }
        } else {
            Emit { stacked: Seq::empty(), ..self }
        }
    }

    pub open spec fn load(self, slot: u8, loc: DebugLoc) -> Emit {
        self.emit(IlOp::Load { slot: slot as u32, loc })
    }

    pub open spec fn store(self, slot: u8, loc: DebugLoc) -> Emit {
        self.emit(IlOp::StorePop { slot: slot as u32, loc })
    }

    /// Makes sure that the pool holds `bits` at a 16-bit index.
    pub open spec fn intern(self, bits: u64) -> Emit {
        if self.err is Some {
            self
        } else {
            match pool_pos(self.pool, bits, 0) {
                Some(i) => if i > 0xffff {
                    self.fail("pool idx"@)
                } else {
                    self
                },
                None => if self.pool.len() > 0xffff {
                    self.fail("const pool full"@)
                } else {
                    Emit { pool: self.pool.push(bits), ..self }
                },
            }
        }
    }

    /// Loads a pool constant into a slot.
    pub open spec fn pooled(self, ty: u8, dest: u8, bits: u64, loc: DebugLoc) -> Emit {
        self.intern(bits).emit(
            byte_op(
                Instruction::DenseConst,
                Operand::DenseConst { ty, dest, imm: pool_index(self.pool, bits) as u16, pool: true },
                loc,
            ),
        )
    }

    pub open spec fn inline(self, ty: u8, dest: u8, imm: u16, loc: DebugLoc) -> Emit {
        self.emit(
            byte_op(Instruction::DenseConst, Operand::DenseConst { ty, dest, imm, pool: false }, loc),
        )
    }

    /// Loads a constant into a slot.
    pub open spec fn load_const(self, c: MirConst, dest: u8, loc: DebugLoc) -> Emit {
        match c {
            MirConst::I64(v) => if fits_i16(v) {
                self.inline(dense::TY_I64, dest, (v as i16) as u16, loc)
            } else {
                self.pooled(dense::TY_I64, dest, v as u64, loc)
            },
            MirConst::I32(v) => if fits_i16(v as i64) {
                self.inline(dense::TY_I32, dest, (v as i16) as u16, loc)
            } else {
                self.pooled(dense::TY_I32, dest, v as u64, loc)
            },
            MirConst::F64(bits) => self.pooled(dense::TY_F64, dest, bits, loc),
            MirConst::F32(bits) => self.pooled(dense::TY_F32, dest, bits as u64, loc),
            MirConst::Bool(v) => self.inline(
                dense::TY_BOOL,
                dest,
                if v {
                    1
                } else {
                    0
                },
                loc,
            ),
        }
    }

    pub open spec fn push_pool(self, bits: u64, loc: DebugLoc) -> Emit {
        self.intern(bits).emit(IlOp::ConstPool { idx: pool_index(self.pool, bits) as u32, loc })
    }

    /// Pushes a constant. Negative numbers go through the pool.
    pub open spec fn push_const(self, c: MirConst, loc: DebugLoc) -> Emit {
        match c {
            MirConst::I64(v) => if 0 <= v <= i32::MAX {
                self.emit(IlOp::Const { imm: v as i32, loc })
            } else {
                self.push_pool(v as u64, loc)
            },
            MirConst::I32(v) => if v >= 0 {
                self.emit(IlOp::Const { imm: v, loc })
            } else {
                self.push_pool(v as i64 as u64, loc)
            },
            MirConst::Bool(v) => self.emit(
                IlOp::Const {
                    imm: if v {
                        1
                    } else {
                        0
                    },
                    loc,
                },
            ),
            MirConst::F64(bits) => self.push_pool(bits, loc),
            MirConst::F32(bits) => self.push_pool(bits as u64, loc),
        }
    }

    /// Copies the slots from `i` on into a row that starts at `scratch`.
    pub open spec fn gather_from(self, s: Seq<u8>, scratch: u8, i: nat) -> Emit
        decreases s.len() - i,
    {
        if self.err is Some || i >= s.len() {
            self
        } else if scratch + i > 255 {
            self.fail("dense gather overflow"@)
        } else if scratch + i != s[i as int] {
            self.emit(copy((scratch + i) as u8, s[i as int])).gather_from(s, scratch, i + 1)
        } else {
            self.gather_from(s, scratch, i + 1)
        }
    }

    /// Makes the slots a row.
    pub open spec fn gather(self, s: Seq<u8>, scratch: u8) -> Emit {
        if s.len() == 0 || consecutive(s) {
            self
        } else {
            self.gather_from(s, scratch, 0)
        }
    }

    /// Pushes a row of slots.
    pub open spec fn push_slots(self, c: CtxV, args: Seq<ValueId>) -> Emit {
        if self.err is Some || args.len() == 0 {
            self
        } else if args.len() > 255 {
            self.fail("DensePush arity"@)
        } else {
            let s = c.reg_list(args);
            self.gather(s, c.scratch).emit(
                abc(Instruction::DensePush, 0, args.len() as u8, gather_base(s, c.scratch), 0, no_loc()),
            )
        }
    }

    /// Leaves `v` on top of the stack. Definitions are rebuilt up to `depth` deep.
    pub open spec fn stack_value(self, c: CtxV, v: ValueId, loc: DebugLoc, depth: nat) -> Emit
        decreases depth,
    {
        if self.err is Some {
            self
        } else if self.stacked.len() > 0 && self.stacked.last() == v {
            self
        } else if flag(c.slots, v) {
            self.load(c.reg(v), loc).park(v)
        } else {
            match c.f.def(v) {
                None => self.fail("dense convoy undef"@),
                Some(p) => match c.f.blocks[p.0.0 as int].insts[p.1 as int] {
                    InstV::Const { c: k, .. } => self.push_const(k, loc).park(v),
                    InstV::Bin { dest, op, ty, lhs, rhs } => {
                        let inst = stack_bin(op, ty);
                        let n = self.stacked.len();
                        if n >= 2 && self.stacked[n - 2] == lhs && self.stacked[n - 1] == rhs {
                            self.emit(IlOp::Bin { op: inst, loc }).forget(2).park(dest)
                        } else if flag(c.slots, lhs) && c.small(rhs) is Some {
                            self.emit(
                                IlOp::BinSlotImm { op: inst, slot: c.reg(lhs), imm: c.small(rhs)->0, loc },
                            ).park(dest)
                        } else if depth > 0 {
                            self.stack_value(c, lhs, loc, (depth - 1) as nat).stack_value(
                                c,
                                rhs,
                                loc,
                                (depth - 1) as nat,
                            ).emit(IlOp::Bin { op: inst, loc }).forget(2).park(dest)
                        } else {
                            self.fail("dense convoy value"@)
                        }
                    },
                    InstV::Call { dest, dest_hi, .. } => if dest == v || dest_hi == Some(v) {
                        self.load(c.reg(v), loc).park(v)
                    } else {
                        self.fail("dense convoy value"@)
                    },
                    _ => self.fail("dense convoy value"@),
                },
            }
        }
    }

    /// Leaves `v` on top of the stack. No chain of definitions is longer than there are values,
    /// unless a value is defined by itself.
    pub open spec fn on_stack(self, c: CtxV, v: ValueId, loc: DebugLoc) -> Emit {
        self.stack_value(c, v, loc, c.f.types.len())
    }

    /// Leaves the values from `i` on on the stack.
    pub open spec fn all_on_stack(self, c: CtxV, args: Seq<ValueId>, loc: DebugLoc, i: nat) -> Emit
        decreases args.len() - i,
    {
        if self.err is Some || i >= args.len() {
            self
        } else {
            self.on_stack(c, args[i as int], loc).all_on_stack(c, args, loc, i + 1)
        }
    }

    /// Leaves call arguments on the stack, unless they lie there already.
    pub open spec fn args_on_stack(self, c: CtxV, args: Seq<ValueId>, loc: DebugLoc) -> Emit {
        if args.len() > 0 && self.stacked.len() >= args.len() && self.stacked.skip(
            self.stacked.len() - args.len(),
        ) == args {
            self
        } else {
            self.all_on_stack(c, args, loc, 0)
        }
    }

    pub open spec fn store_dests(self, c: CtxV, dest: ValueId, hi: Option<ValueId>, loc: DebugLoc) -> Emit {
        match hi {
            Some(h) => self.store(c.reg(h), loc).store(c.reg(dest), loc),
            None => self.store(c.reg(dest), loc),
        }
    }

    /// Stores call results that have a slot, else leaves them on the stack.
    pub open spec fn keep_results(self, c: CtxV, dest: ValueId, hi: Option<ValueId>, loc: DebugLoc) -> Emit {
        if flag(c.slots, dest) || (hi is Some && flag(c.slots, hi->0)) {
            self.store_dests(c, dest, hi, loc)
        } else {
            match hi {
                Some(h) => self.park(dest).park(h),
                None => self.park(dest),
            }
        }
    }

    pub open spec fn call(
        self,
        c: CtxV,
        kind: EntryKind,
        dest: ValueId,
        hi: Option<ValueId>,
        target: Label,
        args: Seq<ValueId>,
        loc: DebugLoc,
    ) -> Emit {
        let op = IlOp::Entry { kind, arity: args.len() as u32, target, loc, ret_words: ret_words(hi) };
        if kind is TailCall {
            self.args_on_stack(c, args, loc).emit(op)
        } else if c.entry != Some(target) {
            self.unpark().push_slots(c, args).emit(op).keep_results(c, dest, hi, loc)
        } else {
            self.args_on_stack(c, args, loc).emit(op).forget(args.len()).keep_results(c, dest, hi, loc)
        }
    }

    /// Emits the copies from `i` on.
    pub open spec fn copies(self, ms: Seq<(u8, u8)>, i: nat) -> Emit
        decreases ms.len() - i,
    {
        if self.err is Some || i >= ms.len() {
            self
        } else {
            self.emit(copy(ms[i as int].0, ms[i as int].1)).copies(ms, i + 1)
        }
    }

    /// Copies a slot unless it is the same one.
    pub open spec fn copy_slot(self, d: u8, s: u8) -> Emit {
        if d != s {
            self.emit(copy(d, s))
        } else {
            self
        }
    }

    pub open spec fn field(
        self,
        inst: Instruction,
        dest: u8,
        object: u8,
        name: Option<u8>,
        index: Option<u32>,
        loc: DebugLoc,
    ) -> Emit {
        match field_operand(name, index) {
            Some(o) => self.emit(abc(inst, o.0, dest, object, o.1, loc)),
            None => self.fail("dense field index"@),
        }
    }

    /// Allocation.
    pub open spec fn allocate(self, c: CtxV, dest: ValueId, kind: MirAllocKind, elems: Seq<ValueId>, loc: DebugLoc) -> Emit {
        match make_number(kind) {
            Err(e) => self.fail(e),
            Ok(Some(k)) => if elems.len() > 255 {
                self.fail("DenseMake arity"@)
            } else {
                let s = c.reg_list(elems);
                self.gather(s, c.scratch).emit(
                    abc(
                        Instruction::DenseMake,
                        k,
                        c.reg(dest),
                        elems.len() as u8,
                        gather_base(s, c.scratch),
                        loc,
                    ),
                )
            },
            Ok(None) => match kind {
                MirAllocKind::Object { type_id, nfields } => {
                    let live = c.reg(
                        match paired_barrier(c.f, dest, 0) {
                            Some(b) => b,
                            None => dest,
                        },
                    );
                    if nfields > 255 {
                        self.fail("DenseMakeObject nfields"@)
                    } else if type_id > 0xffff {
                        self.fail("DenseMakeObject type_id"@)
                    } else {
                        self.emit(
                            byte_op(
                                Instruction::DenseMakeObject,
                                Operand::DenseObject { dest: live, nfields: nfields as u8, type_id: type_id as u16 },
                                loc,
                            ),
                        ).copy_slot(c.reg(dest), live)
                    }
                },
                _ => {
                    let e = self.push_slots(c, elems);
                    match alloc_op(kind, elems.len() as u32, loc) {
                        Ok(op) => e.emit(op).store(c.reg(dest), loc),
                        Err(m) => e.fail(m),
                    }
                },
            },
        }
    }

    pub open spec fn name_reg(c: CtxV, name: Option<ValueId>) -> Option<u8> {
        match name {
            Some(n) => Some(c.reg(n)),
            None => None,
        }
    }

    /// One instruction whose result has a slot.
    pub open spec fn inst(self, c: CtxV, inst: InstV, loc: DebugLoc) -> Emit {
        match inst {
            InstV::Const { dest, c: k } => self.load_const(k, c.reg(dest), loc),
            InstV::Bin { dest, op, ty, lhs, rhs } => match bin_number(op, ty) {
                Some(k) => self.emit(abc(Instruction::DenseBin, k, c.reg(dest), c.reg(lhs), c.reg(rhs), loc)),
                None => self.fail("dense bin "@ + op.variant() + " "@ + word_ty(ty).text()),
            },
            InstV::Cmp { dest, op, ty, lhs, rhs } => match compare_number(op, ty) {
                Some(k) => self.emit(abc(Instruction::DenseCmp, k, c.reg(dest), c.reg(lhs), c.reg(rhs), loc)),
                None => self.fail("dense cmp "@ + ty.text()),
            },
            InstV::Unary { dest, op, src } => {
                let k = if op is Not {
                    dense::UNARY_NOT
                } else if c.f.ty(src).float() {
                    dense::UNARY_FNEG
                } else {
                    dense::UNARY_NEG
                };
                self.emit(abc(Instruction::DenseUnary, k, c.reg(dest), c.reg(src), 0, loc))
            },
            InstV::Cast { dest, kind, src, .. } => {
                let k = match kind {
                    MirCastKind::IntToFloat => dense::CAST_I2F,
                    MirCastKind::Sext => dense::CAST_SEXT,
                };
                self.emit(abc(Instruction::DenseCast, k, c.reg(dest), c.reg(src), 0, loc))
            },
            InstV::Phi { .. } => self,
            InstV::HostInvoke { dest, native_id, layout, args } => self.emit(
                IlOp::Const { imm: native_id as i32, loc },
            ).push_slots(c, args).emit(IlOp::HostInvoke { arity: args.len() as u32, layout, loc }).store(
                c.reg(dest),
                loc,
            ),
            InstV::Call { dest, dest_hi, target, args } => self.push_slots(c, args).emit(
                IlOp::Entry {
                    kind: EntryKind::Call,
                    arity: args.len() as u32,
                    target,
                    loc,
                    ret_words: ret_words(dest_hi),
                },
            ).store_dests(c, dest, dest_hi, loc),
            InstV::Index { dest, array, index, unchecked } => self.emit(
                abc(
                    Instruction::DenseIndex,
                    if unchecked {
                        dense::HEAP_UNCHECKED
                    } else {
                        0
                    },
                    c.reg(dest),
                    c.reg(array),
                    c.reg(index),
                    loc,
                ),
            ),
            InstV::StoreIndex { dest, array, index, value, unchecked } => {
                let e = if c.reg(dest) != c.reg(value) {
                    self.emit(abc(Instruction::DenseMove, 0, c.reg(dest), c.reg(value), 0, loc))
                } else {
                    self
                };
                e.emit(
                    abc(
                        Instruction::DenseStoreIndex,
                        if unchecked {
                            dense::HEAP_UNCHECKED
                        } else {
                            0
                        },
                        c.reg(dest),
                        c.reg(array),
                        c.reg(index),
                        loc,
                    ),
                )
            },
            InstV::ArrayLen { dest, array } => self.emit(
                abc(Instruction::DenseArrayLen, 0, c.reg(dest), c.reg(array), 0, loc),
            ),
            InstV::ArrayPush { dest, array, value } => if !c.across {
                self.fail("dense emit refuses ArrayPush without S2b maps (B6)"@)
            } else {
                self.emit(abc(Instruction::DenseArrayPush, 0, c.reg(dest), c.reg(array), c.reg(value), loc))
            },
            InstV::MatchPayload { dest, scrutinee, .. } => {
                let st = c.f.ty(scrutinee);
                if !(st is NicheOpt || st is NicheRes) {
                    self.fail("dense MatchPayload is niche-only (boxed stays LIR)"@)
                } else {
                    self.copy_slot(c.reg(dest), c.reg(scrutinee))
                }
            },
            InstV::FieldLoad { .. } => self.fail(
                "dense emit refuses unboxed FieldLoad/FieldStore (I3 is MIR→LIR)"@,
            ),
            InstV::FieldStore { .. } => self.fail(
                "dense emit refuses unboxed FieldLoad/FieldStore (I3 is MIR→LIR)"@,
            ),
            InstV::HeapFieldLoad { dest, object, name, index } => self.field(
                Instruction::DenseFieldLoad,
                c.reg(dest),
                c.reg(object),
                Emit::name_reg(c, name),
                Some(index),
                loc,
            ),
            InstV::HeapFieldStore { dest, object, value, name, index } => self.copy_slot(
                c.reg(dest),
                c.reg(value),
            ).field(
                Instruction::DenseFieldStore,
                c.reg(dest),
                c.reg(object),
                Emit::name_reg(c, name),
                index,
                loc,
            ),
            InstV::Alloc { dest, kind, elems } => if !c.across {
                self.fail("dense emit refuses Alloc/GcBarrier without S2b maps (S2c)"@)
            } else {
                self.allocate(c, dest, kind, elems, loc)
            },
            InstV::GcBarrier { dest, .. } => if !c.across {
                self.fail("dense emit refuses Alloc/GcBarrier without S2b maps (S2c)"@)
            } else {
                match paired_alloc(c.f, dest, 0) {
                    Some(obj) => if c.reg(dest) != c.reg(obj) {
                        self.load(c.reg(obj), loc).store(c.reg(dest), loc)
                    } else {
                        self
                    },
                    None => self,
                }
            },
            InstV::Deopt { .. } => self,
            InstV::String { dest, idx } => self.emit(IlOp::String { idx, loc }).store(c.reg(dest), loc),
            InstV::Print { .. } => self.fail("dense emit refuses I4 print/format (Q9 R1 is MIR→LIR)"@),
            InstV::Format { .. } => self.fail("dense emit refuses I4 print/format (Q9 R1 is MIR→LIR)"@),
            InstV::Stringify { .. } => self.fail("dense emit refuses I4 print/format (Q9 R1 is MIR→LIR)"@),
        }
    }
}

/// First label from `next` on that is not reserved.
pub open spec fn free_label(next: u32, reserved: Set<u32>) -> u32
    decreases u32::MAX - next,
{
    if reserved.contains(next) && next < u32::MAX {
        free_label((next + 1) as u32, reserved)
    } else {
        next
    }
}

pub open spec fn bump(id: u32) -> u32 {
    if id == u32::MAX {
        id
    } else {
        (id + 1) as u32
    }
}

/// Jumps of a two-way branch on the value on top of the stack.
pub open spec fn cond_jumps(
    f: FuncV,
    from: BlockId,
    taken: BlockId,
    not_taken: BlockId,
    labs: Seq<Label>,
    loc: DebugLoc,
) -> Seq<IlOp> {
    let t = labs[taken.0 as int];
    let n = labs[not_taken.0 as int];
    if falls_through(f, from, not_taken) {
        seq![jump(IlJumpKind::JumpIfTrue, t, loc)]
    } else if falls_through(f, from, taken) {
        seq![jump(IlJumpKind::JumpIfFalse, n, loc)]
    } else {
        seq![jump(IlJumpKind::JumpIfFalse, n, loc), jump(IlJumpKind::Unconditional, t, loc)]
    }
}

pub fn emit_cond_jumps(
    out: &mut Vec<IlOp>,
    func: &MirFunc,
    from: BlockId,
    taken: BlockId,
    not_taken: BlockId,
    labs: &Vec<Label>,
    loc: DebugLoc,
)
    requires
        from.0 < func@.blocks.len(),
        taken.0 < labs@.len(),
        not_taken.0 < labs@.len(),
    ensures
        final(out)@ == old(out)@ + cond_jumps(func@, from, taken, not_taken, labs@, loc),
{
    if is_fallthrough(func, from, not_taken) {
        out.push(jump_op(IlJumpKind::JumpIfTrue, labs[taken.index()], loc));
    } else {
        out.push(jump_op(IlJumpKind::JumpIfFalse, labs[not_taken.index()], loc));
        if !is_fallthrough(func, from, taken) {
            out.push(jump_op(IlJumpKind::Unconditional, labs[taken.index()], loc));
        }
    }
    assert(out@ =~= old(out)@ + cond_jumps(func@, from, taken, not_taken, labs@, loc));
}

impl Emit {
    pub open spec fn emit_all(self, ops: Seq<IlOp>) -> Emit {
        if self.err is Some {
            self
        } else {
            Emit { out: self.out + ops, ..self }
        }
    }

    pub open spec fn fresh(self, c: CtxV) -> Emit {
        if self.err is Some {
            self
        } else {
            Emit { next: bump(free_label(self.next, c.reserved)), ..self }
        }
    }

    pub open spec fn label(self, c: CtxV) -> Label {
        Label(free_label(self.next, c.reserved))
    }

    /// Leaves the condition of a branch on the stack.
    pub open spec fn br_cond(self, c: CtxV, block: BlockV, cond: ValueId, loc: DebugLoc) -> Emit {
        if self.err is Some {
            self
        } else {
            match compare_from(block.insts, cond, 0) {
                None => self.load(c.reg(cond), loc),
                Some(k) => {
                    let inst = block.insts[k as int];
                    let op = stack_compare(inst->Cmp_op, inst->Cmp_ty);
                    let lhs = inst->Cmp_lhs;
                    let rhs = inst->Cmp_rhs;
                    if flag(c.slots, lhs) && c.small(rhs) is Some {
                        self.emit(IlOp::BinSlotImm { op, slot: c.reg(lhs), imm: c.small(rhs)->0, loc })
                    } else {
                        let e = self.load(c.reg(lhs), loc);
                        if flag(c.slots, rhs) {
                            e.load(c.reg(rhs), loc).emit(IlOp::Bin { op, loc })
                        } else {
                            let e2 = Emit { stacked: Seq::empty(), ..e }.on_stack(c, rhs, loc);
                            Emit { stacked: self.stacked, ..e2 }.emit(IlOp::Bin { op, loc })
                        }
                    }
                },
            }
        }
    }

    /// Two-way branch whose edges copy phi arguments. The true edge comes
    /// first and always jumps: behind it stand the copies of the false edge.
    pub open spec fn split(
        self,
        c: CtxV,
        ts: Seq<(u8, u8)>,
        tl: Label,
        fs: Seq<(u8, u8)>,
        fl: Label,
        loc: DebugLoc,
    ) -> Emit {
        let l = self.label(c);
        let e = self.fresh(c).emit(jump(IlJumpKind::JumpIfFalse, l, loc)).copies(ts, 0);
        e.emit(jump(IlJumpKind::Unconditional, tl, loc)).emit(IlOp::Label(l)).copies(fs, 0).emit(
            jump(IlJumpKind::Unconditional, fl, loc),
        )
    }

    /// Tag match on a niche word.
    pub open spec fn match_jump(
        self,
        c: CtxV,
        from: BlockId,
        scrutinee: ValueId,
        tag: u32,
        taken: BlockId,
        not_taken: BlockId,
        loc: DebugLoc,
    ) -> Emit {
        let st = c.f.ty(scrutinee);
        if !(st is NicheOpt || st is NicheRes) {
            self.fail("dense JumpIfMatch is niche-only (boxed stays LIR)"@)
        } else if tag > 1 {
            self.fail("dense JumpIfMatch tag > 1 (keep fuse-IL)"@)
        } else {
            let e = self.load(c.reg(scrutinee), loc).emit(
                IlOp::Const {
                    imm: if st is NicheOpt {
                        0
                    } else {
                        1
                    },
                    loc,
                },
            ).emit(
                IlOp::Bin {
                    op: if st is NicheOpt {
                        Instruction::EQ
                    } else {
                        Instruction::BITAND
                    },
                    loc,
                },
            );
            let direct = if st is NicheOpt {
                tag == 0
            } else {
                tag == 1
            };
            let yes = if direct {
                taken
            } else {
                not_taken
            };
            let no = if direct {
                not_taken
            } else {
                taken
            };
            let ys = edge_moves(c.f, from, yes, c.regs, c.scratch);
            let ns = edge_moves(c.f, from, no, c.regs, c.scratch);
            if ys.len() == 0 && ns.len() == 0 {
                e.emit_all(cond_jumps(c.f, from, yes, no, c.labs, loc))
            } else {
                e.split(
                    c,
                    ys,
                    c.labs[yes.0 as int],
                    ns,
                    c.labs[no.0 as int],
                    loc,
                )
            }
        }
    }

    /// Return, or the tail call that ends the block.
    pub open spec fn ret(
        self,
        c: CtxV,
        block: BlockV,
        lo: Option<ValueId>,
        hi: Option<ValueId>,
        loc: DebugLoc,
    ) -> Emit {
        let n = block.insts.len();
        if n > 0 && tail_call(block, n - 1) {
            let inst = block.insts[n - 1];
            self.call(
                c,
                EntryKind::TailCall,
                inst.dest(),
                inst->dest_hi,
                inst->target,
                inst->Call_args,
                loc,
            )
        } else {
            let e = match lo {
                Some(v) => self.on_stack(c, v, loc),
                None => self.emit(IlOp::Const { imm: 0, loc }),
            };
            let e2 = match hi {
                Some(h) => e.on_stack(c, h, loc),
                None => e,
            };
            e2.emit(IlOp::Return { loc, ret_words: ret_words(hi) })
        }
    }

    /// Terminator of block `b`.
    pub open spec fn term(self, c: CtxV, b: int, loc: DebugLoc) -> Emit {
        let block = c.f.blocks[b];
        if self.err is Some {
            self
        } else {
            match block.term {
                None => self.fail("missing terminator"@),
                Some(TermV::Jump { dest }) => {
                    let e = self.copies(edge_moves(c.f, block.id, dest, c.regs, c.scratch), 0);
                    if falls_through(c.f, block.id, dest) {
                        e
                    } else {
                        e.emit(jump(IlJumpKind::Unconditional, c.labs[dest.0 as int], loc))
                    }
                },
                Some(TermV::Br { cond, taken, not_taken }) => {
                    let ts = edge_moves(c.f, block.id, taken, c.regs, c.scratch);
                    let fs = edge_moves(c.f, block.id, not_taken, c.regs, c.scratch);
                    let e = self.br_cond(c, block, cond, loc);
                    if ts.len() == 0 && fs.len() == 0 {
                        e.emit_all(cond_jumps(c.f, block.id, taken, not_taken, c.labs, loc))
                    } else {
                        e.split(
                            c,
                            ts,
                            c.labs[taken.0 as int],
                            fs,
                            c.labs[not_taken.0 as int],
                            loc,
                        )
                    }
                },
                Some(TermV::Return { lo, hi }) => self.ret(c, block, lo, hi, loc),
                Some(TermV::Unreachable) => self.emit(IlOp::Halt { loc }),
                Some(TermV::JumpIfMatch { scrutinee, tag, taken, not_taken, .. }) => self.match_jump(
                    c,
                    block.id,
                    scrutinee,
                    tag,
                    taken,
                    not_taken,
                    loc,
                ),
            }
        }
    }

    /// One instruction of block `b`.
    pub open spec fn step(self, c: CtxV, b: int, i: int) -> Emit {
        let block = c.f.blocks[b];
        let inst = block.insts[i];
        let loc = c.f.loc_of(inst.dest());
        if self.err is Some || inst.phi() || (inst is Cmp && c.f.fused_compare(b) == Some(inst.dest())) || tail_call(
            block,
            i,
        ) {
            self
        } else {
            match inst {
                InstV::Call { dest, dest_hi, target, args } => self.call(
                    c,
                    EntryKind::Call,
                    dest,
                    dest_hi,
                    target,
                    args,
                    loc,
                ),
                _ => if flag(c.slots, inst.dest()) {
                    self.inst(c, inst, loc).unpark()
                } else {
                    self
                },
            }
        }
    }

    /// Instructions of block `b` from `i` on.
    pub open spec fn insts(self, c: CtxV, b: int, i: nat) -> Emit
        decreases c.f.blocks[b].insts.len() - i,
    {
        if self.err is Some || i >= c.f.blocks[b].insts.len() {
            self
        } else {
            self.step(c, b, i as int).insts(c, b, i + 1)
        }
    }

    /// Blocks from `b` on.
    pub open spec fn blocks(self, c: CtxV, b: nat) -> Emit
        decreases c.f.blocks.len() - b,
    {
        if self.err is Some || b >= c.f.blocks.len() {
            self
        } else {
            let block = c.f.blocks[b as int];
            let e = if block.id != c.f.entry {
                self.emit(IlOp::Label(c.labs[b as int]))
            } else {
                self
            };
            e.unpark().insts(c, b as int, 0).term(c, b as int, c.f.term_loc(block.id)).blocks(c, b + 1)
        }
    }
}

/// Labels of the first `b` blocks, and the next label.
pub open spec fn block_labels(f: FuncV, entry: Option<Label>, reserved: Set<u32>, next: u32, b: nat) -> (
    Seq<Label>,
    u32,
)
    decreases b,
{
    if b == 0 {
        (Seq::empty(), next)
    } else {
        let r = block_labels(f, entry, reserved, next, (b - 1) as nat);
        if f.blocks[b - 1].id == f.entry && entry is Some {
            (r.0.push(entry->0), r.1)
        } else {
            (r.0.push(Label(free_label(r.1, reserved))), bump(free_label(r.1, reserved)))
        }
    }
}

/// Targets of calls to other functions.
pub open spec fn foreign_targets(f: FuncV, entry: Option<Label>) -> Set<u32> {
    Set::new(
        |l: u32|
            exists|b: int, i: int|
                0 <= b < f.blocks.len() && 0 <= i < f.blocks[b].insts.len() && (#[trigger] f.blocks[b].insts[i]) is Call
                    && f.blocks[b].insts[i]->target == Label(l) && entry != Some(Label(l)),
    )
}

/// Row that an instruction gathers.
pub open spec fn window(f: FuncV, entry: Option<Label>, b: int, i: int) -> nat {
    if tail_call(f.blocks[b], i) {
        0
    } else {
        match f.blocks[b].insts[i] {
            InstV::Call { args, target, .. } => if Some(target) != entry {
                args.len()
            } else {
                0
            },
            InstV::HostInvoke { args, .. } => args.len(),
            InstV::Alloc { elems, .. } => elems.len(),
            _ => 0,
        }
    }
}

/// Widest row from instruction `(b, i)` on, at most 255 and at least `n`.
pub open spec fn widest(f: FuncV, entry: Option<Label>, b: nat, i: nat, n: u8) -> u8
    decreases f.blocks.len() - b, (if b < f.blocks.len() {
        f.blocks[b as int].insts.len() - i
    } else {
        0
    }),
{
    if b >= f.blocks.len() {
        n
    } else if i >= f.blocks[b as int].insts.len() {
        widest(f, entry, b + 1, 0, n)
    } else {
        let w = window(f, entry, b as int, i as int);
        let m: u8 = if w > 255 {
            255
        } else {
            w as u8
        };
        widest(
            f,
            entry,
            b,
            i + 1,
            if m > n {
                m
            } else {
                n
            },
        )
    }
}

/// Highest slot among the values from `i` on that have one, at least `m`.
pub open spec fn highest(regs: Seq<u8>, slots: Seq<bool>, i: nat, m: u8) -> u8
    decreases slots.len() - i,
{
    if i >= slots.len() {
        m
    } else {
        highest(
            regs,
            slots,
            i + 1,
            if slots[i as int] && regs[i as int] > m {
                regs[i as int]
            } else {
                m
            },
        )
    }
}

/// First label that a body may use.
pub open spec fn label_hint(entry: Option<Label>) -> u32 {
    match entry {
        Some(l) => bump(l.0),
        None => 1,
    }
}

pub fn max_label_hint(entry: Option<Label>) -> (r: u32)
    ensures
        r == label_hint(entry),
{
    match entry {
        Some(l) => if l.0 == 0xffff_ffff {
            l.0
        } else {
            l.0 + 1
        },
        None => 1,
    }
}

/// Some host call has no typed edge.
pub open spec fn untyped_host(f: FuncV) -> bool {
    exists|b: int, i: int|
        0 <= b < f.blocks.len() && 0 <= i < f.blocks[b].insts.len() && (#[trigger] f.blocks[b].insts[i]) is HostInvoke
            && edge(f.hosts, f.blocks[b].insts[i]->native_id) is None
}

/// Highest slot of the frame: slots of values and the gathered row.
pub open spec fn top_slot(f: FuncV, entry: Option<Label>, regs: Seq<u8>, scratch: u8) -> u8 {
    let g = widest(f, entry, 0, 0, 0);
    let m = highest(regs, f.dense_slots(entry), 0, 0);
    if g > 0 {
        let end: u8 = if scratch + g - 1 > 255 {
            255
        } else {
            (scratch + g - 1) as u8
        };
        if end > m {
            end
        } else {
            m
        }
    } else {
        m
    }
}

/// Dense code of a function.
pub open spec fn dense_code(f: FuncV, entry: Option<Label>, pool: Seq<u64>, across: bool) -> Emit {
    let start = Emit { out: Seq::empty(), stacked: Seq::empty(), pool, next: label_hint(entry), err: None };
    if f.gc_edge() && !across {
        start.fail("dense emit refuses Alloc/GcBarrier without S2b maps (S2c)"@)
    } else if untyped_host(f) {
        start.fail("dense emit refuses untyped HostInvoke"@)
    } else {
        let slots = f.dense_slots(entry);
        match assigned(f, slots, "too many dense slots"@) {
            Err(e) => start.fail(e),
            Ok(a) => {
                let regs = coalesced(f, a.0);
                let reserved = foreign_targets(f, entry);
                let labs = block_labels(f, entry, reserved, label_hint(entry), f.blocks.len());
                let c = CtxV { f, slots, regs, entry, scratch: a.1, labs: labs.0, reserved, across };
                let frame = top_slot(f, entry, regs, a.1) + 1;
                let e = Emit { next: labs.1, ..start }.emit(IlOp::Label(labs.0[f.entry.0 as int]));
                let e2 = if frame > f.params.len() {
                    e.emit(byte_op(Instruction::Seek, Operand::Word(frame as u32), no_loc()))
                } else {
                    e
                };
                e2.blocks(c, 0)
            },
        }
    }
}

// Executable emission.

struct Ctx<'a> {
    func: &'a MirFunc,
    plan: &'a ConvoyPlan,
    regs: &'a Vec<u8>,
    scratch: u8,
    labs: &'a Vec<Label>,
    reserved: &'a Vec<u32>,
    across: bool,
}

impl<'a> View for Ctx<'a> {
    type V = CtxV;

    closed spec fn view(&self) -> CtxV {
        CtxV {
            f: self.func@,
            slots: self.plan.need_slot@,
            regs: self.regs@,
            entry: self.plan.self_entry,
            scratch: self.scratch,
            labs: self.labs@,
            reserved: Set::new(|l: u32| self.reserved@.contains(l)),
            across: self.across,
        }
    }
}

impl<'a> Ctx<'a> {
    spec fn ok(self) -> bool {
        &&& self.func@.indexed()
        &&& self.plan.plans(self.func@)
        &&& self.regs@.len() == self.func@.types.len()
        &&& self.labs@.len() == self.func@.blocks.len()
    }

    spec fn has(self, v: ValueId) -> bool {
        v.0 < self.func@.types.len()
    }

    fn reg(&self, v: ValueId) -> (r: u8)
        requires
            self.ok(),
            self.has(v),
        ensures
            r == self@.reg(v),
    {
        self.regs[v.index()]
    }

    fn name_reg(&self, name: Option<ValueId>) -> (r: Option<u8>)
        requires
            self.ok(),
            name is Some ==> self.has(name->0),
        ensures
            r == Emit::name_reg(self@, name),
    {
        match name {
            Some(n) => Some(self.reg(n)),
            None => None,
        }
    }

    fn reg_list(&self, s: &Vec<ValueId>) -> (r: Vec<u8>)
        requires
            self.ok(),
            forall|i: int| 0 <= i < s@.len() ==> self.has(#[trigger] s@[i]),
        ensures
            r@ == self@.reg_list(s@),
    {
        let mut r: Vec<u8> = Vec::new();
        let mut i: usize = 0;
        while i < s.len()
            invariant
                self.ok(),
                forall|i: int| 0 <= i < s@.len() ==> self.has(#[trigger] s@[i]),
                i <= s@.len(),
                r@ == self@.reg_list(s@.take(i as int)),
            decreases s@.len() - i,
        {
            r.push(self.reg(s[i]));
            i = i + 1;
            assert(r@ =~= self@.reg_list(s@.take(i as int)));
        }
        assert(s@.take(i as int) =~= s@);
        r
    }

    fn needs(&self, v: ValueId) -> (r: bool)
        ensures
            r == flag(self@.slots, v),
    {
        self.plan.needs_slot(v)
    }

    fn def(&self, v: ValueId) -> (r: Option<(BlockId, usize)>)
        requires
            self.ok(),
            self.has(v),
        ensures
            match r {
                Some(p) => self@.f.def(v) == Some((p.0, p.1 as nat)) && p.0.0 < self.func@.blocks.len() && p.1
                    < self.func@.blocks[p.0.0 as int].insts.len(),
                None => self@.f.def(v) is None,
            },
    {
        self.plan.def[v.index()]
    }

    fn inst_at(&self, b: BlockId, i: usize) -> (r: &'a MirInst)
        requires
            self.ok(),
            b.0 < self.func@.blocks.len(),
            i < self.func@.blocks[b.0 as int].insts.len(),
        ensures
            r@ == self@.f.blocks[b.0 as int].insts[i as int],
            self.func@.inst_indexed(r@),
    {
        assert(self.func@.block_indexed(self.func@.blocks[b.0 as int], b.0 as int));
        assert(self.func@.inst_indexed(self.func@.blocks[b.0 as int].insts[i as int]));
        &self.func.blocks[b.index()].insts[i]
    }

    fn small(&self, v: ValueId) -> (r: Option<i16>)
        requires
            self.ok(),
            self.has(v),
        ensures
            r == self@.small(v),
    {
        match self.def(v) {
            Some((b, i)) => match self.inst_at(b, i) {
                MirInst::Const { c, .. } => imm_of(*c),
                _ => None,
            },
            None => None,
        }
    }
}

struct Emitter {
    out: Vec<IlOp>,
    stacked: Vec<ValueId>,
    pool: Vec<u64>,
    next: u32,
}

impl View for Emitter {
    type V = Emit;

    closed spec fn view(&self) -> Emit {
        Emit { out: self.out@, stacked: self.stacked@, pool: self.pool@, next: self.next, err: None }
    }
}

/// Relates the outcome of an emission step to its specification.
spec fn ran(r: Result<(), LowerError>, s: Emit, now: Emitter) -> bool {
    match s.err {
        None => r is Ok && now@ == s,
        Some(m) => r matches Err(x) && x@ == LowerErrV::Refused(m) && now@.pool == s.pool,
    }
}

fn fail_with(m: String) -> (r: Result<(), LowerError>)
    ensures
        r matches Err(x) && x@ == LowerErrV::Refused(m@),
{
    Err(LowerError::Refused(m))
}

fn fail(m: &str) -> (r: Result<(), LowerError>)
    ensures
        r matches Err(x) && x@ == LowerErrV::Refused(m@),
{
    Err(refused(m))
}

fn is_row(s: &Vec<u8>) -> (r: bool)
    ensures
        r == consecutive(s@),
{
    let n = s.len();
    if n == 0 {
        return true;
    }
    let mut k: usize = 0;
    while k < n - 1
        invariant
            n == s@.len(),
            k <= n - 1,
            forall|j: int|
                0 <= j < k ==> #[trigger] s@[j + 1] == (if s@[j] == 255 {
                    255
                } else {
                    s@[j] + 1
                }),
        decreases n - k,
    {
        let want: u8 = if s[k] == 255 {
            255
        } else {
            s[k] + 1
        };
        if s[k + 1] != want {
            assert(s@[k + 1] == s[k + 1]);
            return false;
        }
        k = k + 1;
    }
    true
}

fn base_of(s: &Vec<u8>, scratch: u8) -> (r: u8)
    ensures
        r == gather_base(s@, scratch),
{
    if s.len() == 0 {
        0
    } else if is_row(s) {
        s[0]
    } else {
        scratch
    }
}

fn same_ids(a: &Vec<ValueId>, from: usize, b: &Vec<ValueId>) -> (r: bool)
    requires
        from + b@.len() == a@.len(),
    ensures
        r == (a@.skip(from as int) == b@),
{
    let n = a.len();
    let mut i: usize = 0;
    while i < b.len()
        invariant
            n == a@.len(),
            from + b@.len() == n,
            i <= b@.len(),
            forall|j: int| 0 <= j < i ==> a@[from + j] == b@[j],
        decreases b@.len() - i,
    {
        if a[from + i] != b[i] {
            assert(a@.skip(from as int)[i as int] != b@[i as int]);
            return false;
        }
        i = i + 1;
    }
    assert(a@.skip(from as int) =~= b@);
    true
}

fn make_kind(kind: MirAllocKind) -> (r: Result<Option<u8>, LowerError>)
    ensures
        match make_number(kind) {
            Ok(k) => r matches Ok(x) && x == k,
            Err(e) => r matches Err(x) && x@ == LowerErrV::Refused(e),
        },
{
    match kind {
        MirAllocKind::Array => Ok(Some(dense::MAKE_ARRAY)),
        MirAllocKind::Tuple => Ok(Some(dense::MAKE_TUPLE)),
        MirAllocKind::Enum { tag } => {
            if tag > 0xffff_ffff - dense::MAKE_ENUM as u32 {
                return Err(refused("DenseMake enum tag"));
            }
            let packed: u32 = dense::MAKE_ENUM as u32 + tag;
            if packed > 255 {
                return Ok(None);
            }
            Ok(Some(packed as u8))
        },
        MirAllocKind::Object { .. } => Ok(None),
    }
}

fn field_parts(name: Option<u8>, index: Option<u32>) -> (r: Option<(u8, u8)>)
    ensures
        r == field_operand(name, index),
{
    match name {
        Some(n) => Some((dense::FIELD_NAMED, n)),
        None => match index {
            Some(i) => if i <= 255 {
                Some((0u8, i as u8))
            } else {
                None
            },
            None => None,
        },
    }
}

impl Emitter {
    fn emit(&mut self, op: IlOp)
        ensures
            final(self)@ == old(self)@.emit(op),
    {
        self.out.push(op);
    }

    fn park(&mut self, v: ValueId)
        ensures
            final(self)@ == old(self)@.park(v),
    {
        self.stacked.push(v);
    }

    fn unpark(&mut self)
        ensures
            final(self)@ == old(self)@.unpark(),
    {
        self.stacked.clear();
    }

    fn forget(&mut self, n: usize)
        ensures
            final(self)@ == old(self)@.forget(n as nat),
    {
        let len = self.stacked.len();
        if len >= n {
            self.stacked.truncate(len - n);
            assert(self.stacked@ =~= old(self)@.stacked.take(len - n));
        } else {
            self.stacked.clear();
        }
    }

    fn load(&mut self, slot: u8, loc: DebugLoc)
        ensures
            final(self)@ == old(self)@.load(slot, loc),
    {
        self.emit(IlOp::Load { slot: slot as u32, loc });
    }

    fn store(&mut self, slot: u8, loc: DebugLoc)
        ensures
            final(self)@ == old(self)@.store(slot, loc),
    {
        self.emit(IlOp::StorePop { slot: slot as u32, loc });
    }

    fn intern_pool(&mut self, bits: u64) -> (r: Result<u16, LowerError>)
        ensures
            match old(self)@.intern(bits).err {
                None => r == Ok::<u16, LowerError>(pool_index(old(self)@.pool, bits) as u16) && final(self)@ == old(
                    self,
                )@.intern(bits),
                Some(m) => r matches Err(x) && x@ == LowerErrV::Refused(m) && final(self)@.pool == old(self)@.intern(
                    bits,
                ).pool,
            },
    {
        if let Some(i) = find_in_pool(&self.pool, bits) {
            if i > 0xffff {
                return Err(refused("pool idx"));
            }
            return Ok(i as u16);
        }
        let i = self.pool.len();
        if i > 0xffff {
            return Err(refused("const pool full"));
        }
        self.pool.push(bits);
        Ok(i as u16)
    }

    fn pooled(&mut self, ty: u8, dest: u8, bits: u64, loc: DebugLoc) -> (r: Result<(), LowerError>)
        ensures
            ran(r, old(self)@.pooled(ty, dest, bits, loc), *final(self)),
    {
        match self.intern_pool(bits) {
            Ok(idx) => {
                self.emit(
                    IlOp::from_plain_byte(
                        Byte::new(Instruction::DenseConst).with_dense_const(ty, dest, idx, true),
                        loc,
                    ),
                );
                Ok(())
            },
            Err(e) => Err(e),
        }
    }

    fn inline(&mut self, ty: u8, dest: u8, imm: u16, loc: DebugLoc)
        ensures
            final(self)@ == old(self)@.inline(ty, dest, imm, loc),
    {
        self.emit(
            IlOp::from_plain_byte(Byte::new(Instruction::DenseConst).with_dense_const(ty, dest, imm, false), loc),
        );
    }

    fn emit_const(&mut self, c: MirConst, dest: u8, loc: DebugLoc) -> (r: Result<(), LowerError>)
        ensures
            ran(r, old(self)@.load_const(c, dest, loc), *final(self)),
    {
        match c {
            MirConst::I64(v) => {
                if -32768 <= v && v <= 32767 {
                    self.inline(dense::TY_I64, dest, (v as i16) as u16, loc);
                    Ok(())
                } else {
                    self.pooled(dense::TY_I64, dest, v as u64, loc)
                }
            },
            MirConst::I32(v) => {
                if -32768 <= v && v <= 32767 {
                    self.inline(dense::TY_I32, dest, (v as i16) as u16, loc);
                    Ok(())
                } else {
                    self.pooled(dense::TY_I32, dest, v as u64, loc)
                }
            },
            MirConst::F64(bits) => self.pooled(dense::TY_F64, dest, bits, loc),
            MirConst::F32(bits) => self.pooled(dense::TY_F32, dest, bits as u64, loc),
            MirConst::Bool(v) => {
                let imm: u16 = if v {
                    1
                } else {
                    0
                };
                self.inline(dense::TY_BOOL, dest, imm, loc);
                Ok(())
            },
        }
    }

    fn push_pool(&mut self, bits: u64, loc: DebugLoc) -> (r: Result<(), LowerError>)
        ensures
            ran(r, old(self)@.push_pool(bits, loc), *final(self)),
    {
        match self.intern_pool(bits) {
            Ok(idx) => {
                self.emit(IlOp::ConstPool { idx: idx as u32, loc });
                proof {
                    let i = pool_index(old(self)@.pool, bits);
                    assert(i <= 0xffff) by {
                        pool_pos_bound(old(self)@.pool, bits, 0);
                    }
                }
                Ok(())
            },
            Err(e) => Err(e),
        }
    }

    fn push_stack_const(&mut self, c: MirConst, loc: DebugLoc) -> (r: Result<(), LowerError>)
        ensures
            ran(r, old(self)@.push_const(c, loc), *final(self)),
    {
        match c {
            MirConst::I64(v) => {
                if 0 <= v && v <= 0x7fff_ffff {
                    self.emit(IlOp::Const { imm: v as i32, loc });
                    Ok(())
                } else {
                    self.push_pool(v as u64, loc)
                }
            },
            MirConst::I32(v) => {
                if v >= 0 {
                    self.emit(IlOp::Const { imm: v, loc });
                    Ok(())
                } else {
                    self.push_pool(v as i64 as u64, loc)
                }
            },
            MirConst::Bool(v) => {
                let imm: i32 = if v {
                    1
                } else {
                    0
                };
                self.emit(IlOp::Const { imm, loc });
                Ok(())
            },
            MirConst::F64(bits) => self.push_pool(bits, loc),
            MirConst::F32(bits) => self.push_pool(bits as u64, loc),
        }
    }

    fn gather(&mut self, s: &Vec<u8>, scratch: u8) -> (r: Result<(), LowerError>)
        ensures
            ran(r, old(self)@.gather(s@, scratch), *final(self)),
    {
        if s.len() == 0 || is_row(s) {
            return Ok(());
        }
        let ghost e0 = self@;
        let mut i: usize = 0;
        while i < s.len()
            invariant
                e0 == old(self)@,
                e0.gather(s@, scratch) == e0.gather_from(s@, scratch, 0),
                i <= s@.len(),
                e0.gather_from(s@, scratch, 0) == self@.gather_from(s@, scratch, i as nat),
            decreases s@.len() - i,
        {
            if i > 255 || scratch as usize + i > 255 {
                return fail("dense gather overflow");
            }
            let d: u8 = scratch + i as u8;
            if d != s[i] {
                self.emit(move_op(d, s[i]));
            }
            i = i + 1;
        }
        Ok(())
    }

    fn emit_dense_push(&mut self, c: &Ctx<'_>, args: &Vec<ValueId>) -> (r: Result<(), LowerError>)
        requires
            c.ok(),
            forall|i: int| 0 <= i < args@.len() ==> c.has(#[trigger] args@[i]),
        ensures
            ran(r, old(self)@.push_slots(c@, args@), *final(self)),
    {
        if args.len() == 0 {
            return Ok(());
        }
        if args.len() > 255 {
            return fail("DensePush arity");
        }
        let s = c.reg_list(args);
        match self.gather(&s, c.scratch) {
            Ok(_) => {},
            Err(e) => {
                return Err(e);
            },
        }
        let base = base_of(&s, c.scratch);
        self.emit(IlOp::byte(Byte::new(Instruction::DensePush).with_dense_move(args.len() as u8, base)));
        Ok(())
    }

    fn stack_value(&mut self, c: &Ctx<'_>, v: ValueId, loc: DebugLoc, depth: usize) -> (r: Result<
        (),
        LowerError,
    >)
        requires
            c.ok(),
            c.has(v),
        ensures
            ran(r, old(self)@.stack_value(c@, v, loc, depth as nat), *final(self)),
        decreases depth,
    {
        let n = self.stacked.len();
        if n > 0 && self.stacked[n - 1] == v {
            return Ok(());
        }
        if c.needs(v) {
            self.load(c.reg(v), loc);
            self.park(v);
            return Ok(());
        }
        let (b, i) = match c.def(v) {
            Some(p) => p,
            None => {
                return fail("dense convoy undef");
            },
        };
        let inst = c.inst_at(b, i);
        match inst {
            MirInst::Const { c: k, .. } => {
                match self.push_stack_const(*k, loc) {
                    Ok(_) => {},
                    Err(e) => {
                        return Err(e);
                    },
                }
                self.park(v);
                Ok(())
            },
            MirInst::Bin { dest, op, ty, lhs, rhs } => {
                proof {
                    let u = inst@.uses();
                    assert(u[0] == *lhs && u[1] == *rhs);
                }
                let sop = stack_bin_op(*op, *ty);
                if n >= 2 && self.stacked[n - 2] == *lhs && self.stacked[n - 1] == *rhs {
                    self.emit(IlOp::Bin { op: sop, loc });
                    self.forget(2);
                    self.park(*dest);
                    return Ok(());
                }
                if c.needs(*lhs) {
                    if let Some(imm) = c.small(*rhs) {
                        self.emit(IlOp::BinSlotImm { op: sop, slot: c.reg(*lhs), imm, loc });
                        self.park(*dest);
                        return Ok(());
                    }
                }
                if depth == 0 {
                    return fail("dense convoy value");
                }
                proof {
                    reveal_with_fuel(Emit::stack_value, 2);
                }
                match self.stack_value(c, *lhs, loc, depth - 1) {
                    Ok(_) => {},
                    Err(e) => {
                        return Err(e);
                    },
                }
                match self.stack_value(c, *rhs, loc, depth - 1) {
                    Ok(_) => {},
                    Err(e) => {
                        return Err(e);
                    },
                }
                self.emit(IlOp::Bin { op: sop, loc });
                self.forget(2);
                self.park(*dest);
                Ok(())
            },
            MirInst::Call { dest, dest_hi, .. } => {
                let mine = *dest == v || (match dest_hi {
                    Some(h) => *h == v,
                    None => false,
                });
                if mine {
                    self.load(c.reg(v), loc);
                    self.park(v);
                    Ok(())
                } else {
                    fail("dense convoy value")
                }
            },
            _ => fail("dense convoy value"),
        }
    }

    fn emit_stack_value(&mut self, c: &Ctx<'_>, v: ValueId, loc: DebugLoc) -> (r: Result<(), LowerError>)
        requires
            c.ok(),
            c.has(v),
        ensures
            ran(r, old(self)@.on_stack(c@, v, loc), *final(self)),
    {
        self.stack_value(c, v, loc, c.func.types.len())
    }

    fn emit_args_on_stack(&mut self, c: &Ctx<'_>, args: &Vec<ValueId>, loc: DebugLoc) -> (r: Result<
        (),
        LowerError,
    >)
        requires
            c.ok(),
            forall|i: int| 0 <= i < args@.len() ==> c.has(#[trigger] args@[i]),
        ensures
            ran(r, old(self)@.args_on_stack(c@, args@, loc), *final(self)),
    {
        let n = args.len();
        let have = self.stacked.len();
        if n > 0 && have >= n && same_ids(&self.stacked, have - n, args) {
            return Ok(());
        }
        let ghost e0 = self@;
        let mut i: usize = 0;
        while i < n
            invariant
                e0 == old(self)@,
                e0.args_on_stack(c@, args@, loc) == e0.all_on_stack(c@, args@, loc, 0),
                c.ok(),
                forall|i: int| 0 <= i < args@.len() ==> c.has(#[trigger] args@[i]),
                n == args@.len(),
                i <= n,
                e0.all_on_stack(c@, args@, loc, 0) == self@.all_on_stack(c@, args@, loc, i as nat),
            decreases n - i,
        {
            proof {
                reveal_with_fuel(Emit::all_on_stack, 2);
            }
            match self.emit_stack_value(c, args[i], loc) {
                Ok(_) => {},
                Err(e) => {
                    return Err(e);
                },
            }
            i = i + 1;
        }
        Ok(())
    }

    fn store_call_dests(&mut self, c: &Ctx<'_>, dest: ValueId, hi: Option<ValueId>, loc: DebugLoc)
        requires
            c.ok(),
            c.has(dest),
            hi is Some ==> c.has(hi->0),
        ensures
            final(self)@ == old(self)@.store_dests(c@, dest, hi, loc),
    {
        if let Some(h) = hi {
            self.store(c.reg(h), loc);
        }
        self.store(c.reg(dest), loc);
    }

    fn store_or_stack_call(&mut self, c: &Ctx<'_>, dest: ValueId, hi: Option<ValueId>, loc: DebugLoc)
        requires
            c.ok(),
            c.has(dest),
            hi is Some ==> c.has(hi->0),
        ensures
            final(self)@ == old(self)@.keep_results(c@, dest, hi, loc),
    {
        let slotted = c.needs(dest) || (match hi {
            Some(h) => c.needs(h),
            None => false,
        });
        if slotted {
            self.store_call_dests(c, dest, hi, loc);
            return;
        }
        self.park(dest);
        if let Some(h) = hi {
            self.park(h);
        }
    }

    fn emit_call(
        &mut self,
        c: &Ctx<'_>,
        kind: EntryKind,
        dest: ValueId,
        hi: Option<ValueId>,
        target: Label,
        args: &Vec<ValueId>,
        loc: DebugLoc,
    ) -> (r: Result<(), LowerError>)
        requires
            c.ok(),
            c.has(dest),
            hi is Some ==> c.has(hi->0),
            forall|i: int| 0 <= i < args@.len() ==> c.has(#[trigger] args@[i]),
        ensures
            ran(r, old(self)@.call(c@, kind, dest, hi, target, args@, loc), *final(self)),
    {
        let op = IlOp::Entry { kind, arity: args.len() as u32, target, loc, ret_words: ret_words_from_hi(hi) };
        if kind == EntryKind::TailCall {
            match self.emit_args_on_stack(c, args, loc) {
                Ok(_) => {},
                Err(e) => {
                    return Err(e);
                },
            }
            self.emit(op);
            return Ok(());
        }
        if !c.plan.is_self_call(target) {
            self.unpark();
            match self.emit_dense_push(c, args) {
                Ok(_) => {},
                Err(e) => {
                    return Err(e);
                },
            }
            self.emit(op);
            self.store_or_stack_call(c, dest, hi, loc);
            return Ok(());
        }
        match self.emit_args_on_stack(c, args, loc) {
            Ok(_) => {},
            Err(e) => {
                return Err(e);
            },
        }
        self.emit(op);
        self.forget(args.len());
        self.store_or_stack_call(c, dest, hi, loc);
        Ok(())
    }

    fn copies(&mut self, ms: &Vec<(u8, u8)>)
        ensures
            final(self)@ == old(self)@.copies(ms@, 0),
    {
        let ghost e0 = self@;
        let mut i: usize = 0;
        while i < ms.len()
            invariant
                i <= ms@.len(),
                e0.copies(ms@, 0) == self@.copies(ms@, i as nat),
            decreases ms@.len() - i,
        {
            let m = ms[i];
            self.emit(move_op(m.0, m.1));
            i = i + 1;
        }
    }

    fn copy_slot(&mut self, d: u8, s: u8)
        ensures
            final(self)@ == old(self)@.copy_slot(d, s),
    {
        if d != s {
            self.emit(move_op(d, s));
        }
    }

    fn field(
        &mut self,
        inst: Instruction,
        dest: u8,
        object: u8,
        name: Option<u8>,
        index: Option<u32>,
        loc: DebugLoc,
    ) -> (r: Result<(), LowerError>)
        ensures
            ran(r, old(self)@.field(inst, dest, object, name, index, loc), *final(self)),
    {
        match field_parts(name, index) {
            Some((flags, k)) => {
                self.emit(abc_op(inst, flags, dest, object, k, loc));
                Ok(())
            },
            None => fail("dense field index"),
        }
    }

    fn emit_alloc(
        &mut self,
        c: &Ctx<'_>,
        dest: ValueId,
        kind: MirAllocKind,
        elems: &Vec<ValueId>,
        loc: DebugLoc,
    ) -> (r: Result<(), LowerError>)
        requires
            c.ok(),
            c.has(dest),
            forall|i: int| 0 <= i < elems@.len() ==> c.has(#[trigger] elems@[i]),
        ensures
            ran(r, old(self)@.allocate(c@, dest, kind, elems@, loc), *final(self)),
    {
        let k = match make_kind(kind) {
            Ok(k) => k,
            Err(e) => {
                return Err(e);
            },
        };
        if let Some(number) = k {
            if elems.len() > 255 {
                return fail("DenseMake arity");
            }
            let s = c.reg_list(elems);
            match self.gather(&s, c.scratch) {
                Ok(_) => {},
                Err(e) => {
                    return Err(e);
                },
            }
            let base = base_of(&s, c.scratch);
            self.emit(abc_op(Instruction::DenseMake, number, c.reg(dest), elems.len() as u8, base, loc));
            return Ok(());
        }
        if let MirAllocKind::Object { type_id, nfields } = kind {
            let live = match paired_barrier_for_alloc(c.func, dest) {
                Some(b) => c.reg(b),
                None => c.reg(dest),
            };
            if nfields > 255 {
                return fail("DenseMakeObject nfields");
            }
            if type_id > 0xffff {
                return fail("DenseMakeObject type_id");
            }
            self.emit(
                IlOp::from_plain_byte(
                    Byte::new(Instruction::DenseMakeObject).with_dense_object(live, nfields as u8, type_id as u16),
                    loc,
                ),
            );
            self.copy_slot(c.reg(dest), live);
            return Ok(());
        }
        match self.emit_dense_push(c, elems) {
            Ok(_) => {},
            Err(e) => {
                return Err(e);
            },
        }
        match il_for_alloc(kind, elems.len() as u32, loc) {
            Ok(op) => {
                self.emit(op);
                self.store(c.reg(dest), loc);
                Ok(())
            },
            Err(e) => Err(e),
        }
    }
}

pub proof fn pool_pos_bound(pool: Seq<u64>, bits: u64, i: nat)
    ensures
        pool_pos(pool, bits, i) matches Some(k) ==> i <= k < pool.len() && pool[k as int] == bits,
    decreases pool.len() - i,
{
    if i < pool.len() && pool[i as int] != bits {
        pool_pos_bound(pool, bits, i + 1);
    }
}

impl Emitter {
    /// Arithmetic.
    fn emit_numeric(&mut self, c: &Ctx<'_>, inst: &MirInst, loc: DebugLoc) -> (r: Result<(), LowerError>)
        requires
            c.ok(),
            c.func@.inst_indexed(inst@),
            inst is Const || inst is Bin || inst is Cmp || inst is Unary || inst is Cast,
        ensures
            ran(r, old(self)@.inst(c@, inst@, loc), *final(self)),
    {
        let ghost u = inst@.uses();
        match inst {
            MirInst::Const { dest, c: k } => self.emit_const(*k, c.reg(*dest), loc),
            MirInst::Bin { dest, op, ty, lhs, rhs } => {
                assert(u[0] == *lhs && u[1] == *rhs);
                match bin_kind(*op, *ty) {
                    Some(k) => {
                        self.emit(abc_op(Instruction::DenseBin, k, c.reg(*dest), c.reg(*lhs), c.reg(*rhs), loc));
                        Ok(())
                    },
                    None => {
                        let t = if ty.is_heap_word() {
                            MirTy::I64
                        } else {
                            *ty
                        };
                        fail_with(cat4("dense bin ", op.variant_str(), " ", t.as_str()))
                    },
                }
            },
            MirInst::Cmp { dest, op, ty, lhs, rhs } => {
                assert(u[0] == *lhs && u[1] == *rhs);
                match compare_kind(*op, *ty) {
                    Some(k) => {
                        self.emit(abc_op(Instruction::DenseCmp, k, c.reg(*dest), c.reg(*lhs), c.reg(*rhs), loc));
                        Ok(())
                    },
                    None => fail_with(cat2("dense cmp ", ty.as_str())),
                }
            },
            MirInst::Unary { dest, op, src } => {
                assert(u[0] == *src);
                let k = match op {
                    MirUnaryOp::Not => dense::UNARY_NOT,
                    MirUnaryOp::Neg => if c.func.ty(*src).is_float() {
                        dense::UNARY_FNEG
                    } else {
                        dense::UNARY_NEG
                    },
                };
                self.emit(abc_op(Instruction::DenseUnary, k, c.reg(*dest), c.reg(*src), 0, loc));
                Ok(())
            },
            MirInst::Cast { dest, kind, src, .. } => {
                assert(u[0] == *src);
                let k = match kind {
                    MirCastKind::IntToFloat => dense::CAST_I2F,
                    MirCastKind::Sext => dense::CAST_SEXT,
                };
                self.emit(abc_op(Instruction::DenseCast, k, c.reg(*dest), c.reg(*src), 0, loc));
                Ok(())
            },
            _ => Ok(()),
        }
    }

    /// Host calls and calls.
    fn emit_invoke(&mut self, c: &Ctx<'_>, inst: &MirInst, loc: DebugLoc) -> (r: Result<(), LowerError>)
        requires
            c.ok(),
            c.func@.inst_indexed(inst@),
            inst is HostInvoke || inst is Call,
        ensures
            ran(r, old(self)@.inst(c@, inst@, loc), *final(self)),
    {
        let ghost u = inst@.uses();
        match inst {
            MirInst::HostInvoke { dest, native_id, layout, args } => {
                assert forall|i: int| 0 <= i < args@.len() implies c.has(#[trigger] args@[i]) by {
                    assert(u[i] == args@[i]);
                }
                self.emit(IlOp::Const { imm: *native_id as i32, loc });
                match self.emit_dense_push(c, args) {
                    Ok(_) => {},
                    Err(e) => {
                        return Err(e);
                    },
                }
                self.emit(IlOp::HostInvoke { arity: args.len() as u32, layout: *layout, loc });
                self.store(c.reg(*dest), loc);
                Ok(())
            },
            MirInst::Call { dest, dest_hi, target, args } => {
                assert forall|i: int| 0 <= i < args@.len() implies c.has(#[trigger] args@[i]) by {
                    assert(u[i] == args@[i]);
                }
                proof {
                    if let Some(h) = dest_hi {
                        assert(inst@.dests()[1] == *h);
                    }
                }
                match self.emit_dense_push(c, args) {
                    Ok(_) => {},
                    Err(e) => {
                        return Err(e);
                    },
                }
                self.emit(
                    IlOp::Entry {
                        kind: EntryKind::Call,
                        arity: args.len() as u32,
                        target: *target,
                        loc,
                        ret_words: ret_words_from_hi(*dest_hi),
                    },
                );
                self.store_call_dests(c, *dest, *dest_hi, loc);
                Ok(())
            },
            _ => Ok(()),
        }
    }

    /// Arrays and tag payloads.
    fn emit_array(&mut self, c: &Ctx<'_>, inst: &MirInst, loc: DebugLoc) -> (r: Result<(), LowerError>)
        requires
            c.ok(),
            c.func@.inst_indexed(inst@),
            inst is Index || inst is StoreIndex || inst is ArrayLen || inst is ArrayPush || inst is MatchPayload,
        ensures
            ran(r, old(self)@.inst(c@, inst@, loc), *final(self)),
    {
        let ghost u = inst@.uses();
        match inst {
            MirInst::Index { dest, array, index, unchecked } => {
                assert(u[0] == *array && u[1] == *index);
                let k: u8 = if *unchecked {
                    dense::HEAP_UNCHECKED
                } else {
                    0
                };
                self.emit(abc_op(Instruction::DenseIndex, k, c.reg(*dest), c.reg(*array), c.reg(*index), loc));
                Ok(())
            },
            MirInst::StoreIndex { dest, array, index, value, unchecked } => {
                assert(u[0] == *array && u[1] == *index && u[2] == *value);
                if c.reg(*dest) != c.reg(*value) {
                    self.emit(abc_op(Instruction::DenseMove, 0, c.reg(*dest), c.reg(*value), 0, loc));
                }
                let k: u8 = if *unchecked {
                    dense::HEAP_UNCHECKED
                } else {
                    0
                };
                self.emit(
                    abc_op(Instruction::DenseStoreIndex, k, c.reg(*dest), c.reg(*array), c.reg(*index), loc),
                );
                Ok(())
            },
            MirInst::ArrayLen { dest, array } => {
                assert(u[0] == *array);
                self.emit(abc_op(Instruction::DenseArrayLen, 0, c.reg(*dest), c.reg(*array), 0, loc));
                Ok(())
            },
            MirInst::ArrayPush { dest, array, value } => {
                assert(u[0] == *array && u[1] == *value);
                if !c.across {
                    return fail("dense emit refuses ArrayPush without S2b maps (B6)");
                }
                self.emit(
                    abc_op(Instruction::DenseArrayPush, 0, c.reg(*dest), c.reg(*array), c.reg(*value), loc),
                );
                Ok(())
            },
            MirInst::MatchPayload { dest, scrutinee, .. } => {
                assert(u[0] == *scrutinee);
                let st = c.func.ty(*scrutinee);
                if st != MirTy::NicheOpt && st != MirTy::NicheRes {
                    return fail("dense MatchPayload is niche-only (boxed stays LIR)");
                }
                self.copy_slot(c.reg(*dest), c.reg(*scrutinee));
                Ok(())
            },
            _ => Ok(()),
        }
    }

    /// Fields, allocation and strings.
    fn emit_object(&mut self, c: &Ctx<'_>, inst: &MirInst, loc: DebugLoc) -> (r: Result<(), LowerError>)
        requires
            c.ok(),
            c.func@.inst_indexed(inst@),
            inst is FieldLoad || inst is FieldStore || inst is HeapFieldLoad || inst is HeapFieldStore || inst is Alloc
                || inst is GcBarrier || inst is Deopt || inst is String || inst is Print || inst is Format
                || inst is Stringify || inst is Phi,
        ensures
            ran(r, old(self)@.inst(c@, inst@, loc), *final(self)),
    {
        let ghost u = inst@.uses();
        match inst {
            MirInst::FieldLoad { .. } | MirInst::FieldStore { .. } => fail(
                "dense emit refuses unboxed FieldLoad/FieldStore (I3 is MIR→LIR)",
            ),
            MirInst::HeapFieldLoad { dest, object, name, index } => {
                assert(u[0] == *object);
                assert(name is Some ==> u[1] == name->0);
                let n = c.name_reg(*name);
                self.field(Instruction::DenseFieldLoad, c.reg(*dest), c.reg(*object), n, Some(*index), loc)
            },
            MirInst::HeapFieldStore { dest, object, value, name, index } => {
                assert(u[0] == *object && u[1] == *value);
                assert(name is Some ==> u[2] == name->0);
                let n = c.name_reg(*name);
                self.copy_slot(c.reg(*dest), c.reg(*value));
                self.field(Instruction::DenseFieldStore, c.reg(*dest), c.reg(*object), n, *index, loc)
            },
            MirInst::Alloc { dest, kind, elems } => {
                assert forall|i: int| 0 <= i < elems@.len() implies c.has(#[trigger] elems@[i]) by {
                    assert(u[i] == elems@[i]);
                }
                if !c.across {
                    return fail("dense emit refuses Alloc/GcBarrier without S2b maps (S2c)");
                }
                self.emit_alloc(c, *dest, *kind, elems, loc)
            },
            MirInst::GcBarrier { dest, .. } => {
                if !c.across {
                    return fail("dense emit refuses Alloc/GcBarrier without S2b maps (S2c)");
                }
                if let Some(obj) = paired_alloc_dest(c.func, *dest) {
                    if c.reg(*dest) != c.reg(obj) {
                        self.load(c.reg(obj), loc);
                        self.store(c.reg(*dest), loc);
                    }
                }
                Ok(())
            },
            MirInst::String { dest, idx } => {
                self.emit(IlOp::String { idx: *idx, loc });
                self.store(c.reg(*dest), loc);
                Ok(())
            },
            MirInst::Print { .. } | MirInst::Format { .. } | MirInst::Stringify { .. } => fail(
                "dense emit refuses I4 print/format (Q9 R1 is MIR→LIR)",
            ),
            _ => Ok(()),
        }
    }

    fn emit_inst(&mut self, c: &Ctx<'_>, inst: &MirInst, loc: DebugLoc) -> (r: Result<(), LowerError>)
        requires
            c.ok(),
            c.func@.inst_indexed(inst@),
        ensures
            ran(r, old(self)@.inst(c@, inst@, loc), *final(self)),
    {
        match inst {
            MirInst::Const { .. } | MirInst::Bin { .. } | MirInst::Cmp { .. } | MirInst::Unary { .. }
            | MirInst::Cast { .. } => self.emit_numeric(c, inst, loc),
            MirInst::HostInvoke { .. } | MirInst::Call { .. } => self.emit_invoke(c, inst, loc),
            MirInst::Index { .. } | MirInst::StoreIndex { .. } | MirInst::ArrayLen { .. } | MirInst::ArrayPush { .. }
            | MirInst::MatchPayload { .. } => self.emit_array(c, inst, loc),
            _ => self.emit_object(c, inst, loc),
        }
    }
}

impl Emitter {
    fn take_label(&mut self, c: &Ctx<'_>) -> (r: Label)
        ensures
            r == old(self)@.label(c@),
            final(self)@ == old(self)@.fresh(c@),
    {
        let l = next_free(self.next, c);
        self.next = if l == 0xffff_ffff {
            l
        } else {
            l + 1
        };
        Label(l)
    }

    fn emit_br_cond(&mut self, c: &Ctx<'_>, block: &MirBlock, cond: ValueId, loc: DebugLoc) -> (r: Result<
        (),
        LowerError,
    >)
        requires
            c.ok(),
            c.has(cond),
            block.id.0 < c.func@.blocks.len(),
            block@ == c.func@.blocks[block.id.0 as int],
        ensures
            ran(r, old(self)@.br_cond(c@, block@, cond, loc), *final(self)),
    {
        let k = match find_compare(block, cond) {
            Some(k) => k,
            None => {
                self.load(c.reg(cond), loc);
                return Ok(());
            },
        };
        proof {
            compare_from_found(block@.insts, cond, 0);
            assert(c.func@.block_indexed(c.func@.blocks[block.id.0 as int], block.id.0 as int));
            assert(c.func@.inst_indexed(block@.insts[k as int]));
            assert(block@.insts[k as int] == block.insts@[k as int]@);
        }
        if let MirInst::Cmp { op, ty, lhs, rhs, .. } = &block.insts[k] {
            proof {
                let u = block@.insts[k as int].uses();
                assert(u[0] == *lhs && u[1] == *rhs);
            }
            let op = stack_compare_op(*op, *ty);
            if c.needs(*lhs) {
                if let Some(imm) = c.small(*rhs) {
                    self.emit(IlOp::BinSlotImm { op, slot: c.reg(*lhs), imm, loc });
                    return Ok(());
                }
            }
            self.load(c.reg(*lhs), loc);
            if c.needs(*rhs) {
                self.load(c.reg(*rhs), loc);
                self.emit(IlOp::Bin { op, loc });
                return Ok(());
            }
            let mut kept: Vec<ValueId> = Vec::new();
            std::mem::swap(&mut kept, &mut self.stacked);
            let ghost e1 = self@;
            assert(e1 =~= (Emit { stacked: Seq::empty(), ..old(self)@.load(c@.reg(*lhs), loc) }));
            let r = self.emit_stack_value(c, *rhs, loc);
            if r.is_err() {
                return r;
            }
            self.stacked = kept;
            self.emit(IlOp::Bin { op, loc });
        }
        Ok(())
    }

    fn split(
        &mut self,
        c: &Ctx<'_>,
        ts: &Vec<(u8, u8)>,
        tl: Label,
        fs: &Vec<(u8, u8)>,
        fl: Label,
        loc: DebugLoc,
    )
        ensures
            final(self)@ == old(self)@.split(c@, ts@, tl, fs@, fl, loc),
    {
        let l = self.take_label(c);
        self.emit(jump_op(IlJumpKind::JumpIfFalse, l, loc));
        self.copies(ts);
        self.emit(jump_op(IlJumpKind::Unconditional, tl, loc));
        self.emit(IlOp::Label(l));
        self.copies(fs);
        self.emit(jump_op(IlJumpKind::Unconditional, fl, loc));
    }

    fn emit_dense_jump_if_match(
        &mut self,
        c: &Ctx<'_>,
        from: BlockId,
        scrutinee: ValueId,
        tag: u32,
        taken: BlockId,
        not_taken: BlockId,
        loc: DebugLoc,
    ) -> (r: Result<(), LowerError>)
        requires
            c.ok(),
            c.has(scrutinee),
            from.0 < c.func@.blocks.len(),
            taken.0 < c.func@.blocks.len(),
            not_taken.0 < c.func@.blocks.len(),
        ensures
            ran(r, old(self)@.match_jump(c@, from, scrutinee, tag, taken, not_taken, loc), *final(self)),
    {
        let st = c.func.ty(scrutinee);
        if st != MirTy::NicheOpt && st != MirTy::NicheRes {
            return fail("dense JumpIfMatch is niche-only (boxed stays LIR)");
        }
        if tag > 1 {
            return fail("dense JumpIfMatch tag > 1 (keep fuse-IL)");
        }
        let opt = st == MirTy::NicheOpt;
        self.load(c.reg(scrutinee), loc);
        let imm: i32 = if opt {
            0
        } else {
            1
        };
        self.emit(IlOp::Const { imm, loc });
        let op = if opt {
            Instruction::EQ
        } else {
            Instruction::BITAND
        };
        self.emit(IlOp::Bin { op, loc });
        let direct = if opt {
            tag == 0
        } else {
            tag == 1
        };
        let (yes, no) = if direct {
            (taken, not_taken)
        } else {
            (not_taken, taken)
        };
        let ys = phi_moves(c.func, from, yes, c.regs, c.scratch);
        let ns = phi_moves(c.func, from, no, c.regs, c.scratch);
        if ys.len() == 0 && ns.len() == 0 {
            emit_cond_jumps(&mut self.out, c.func, from, yes, no, c.labs, loc);
            return Ok(());
        }
        self.split(c, &ys, c.labs[yes.index()], &ns, c.labs[no.index()], loc);
        Ok(())
    }

    fn emit_return(
        &mut self,
        c: &Ctx<'_>,
        block: &MirBlock,
        lo: Option<ValueId>,
        hi: Option<ValueId>,
        loc: DebugLoc,
    ) -> (r: Result<(), LowerError>)
        requires
            c.ok(),
            lo is Some ==> c.has(lo->0),
            hi is Some ==> c.has(hi->0),
            block.id.0 < c.func@.blocks.len(),
            block@ == c.func@.blocks[block.id.0 as int],
        ensures
            ran(r, old(self)@.ret(c@, block@, lo, hi, loc), *final(self)),
    {
        let n = block.insts.len();
        if n > 0 && is_tail_call_inst(block, n - 1) {
            proof {
                assert(c.func@.block_indexed(c.func@.blocks[block.id.0 as int], block.id.0 as int));
                assert(c.func@.inst_indexed(block@.insts[n - 1]));
                assert(block@.insts[n - 1] == block.insts@[n - 1]@);
            }
            if let MirInst::Call { dest, dest_hi, target, args } = &block.insts[n - 1] {
                proof {
                    let inst = block@.insts[n - 1];
                    assert forall|i: int| 0 <= i < args@.len() implies c.has(#[trigger] args@[i]) by {
                        assert(inst.uses()[i] == args@[i]);
                    }
                    if let Some(h) = dest_hi {
                        assert(inst.dests()[1] == *h);
                    }
                }
                return self.emit_call(c, EntryKind::TailCall, *dest, *dest_hi, *target, args, loc);
            }
            return Ok(());
        }
        match lo {
            Some(v) => match self.emit_stack_value(c, v, loc) {
                Ok(_) => {},
                Err(e) => {
                    return Err(e);
                },
            },
            None => self.emit(IlOp::Const { imm: 0, loc }),
        }
        if let Some(h) = hi {
            match self.emit_stack_value(c, h, loc) {
                Ok(_) => {},
                Err(e) => {
                    return Err(e);
                },
            }
        }
        self.emit(IlOp::Return { loc, ret_words: ret_words_from_hi(hi) });
        Ok(())
    }

    fn emit_term(&mut self, c: &Ctx<'_>, b: usize, loc: DebugLoc) -> (r: Result<(), LowerError>)
        requires
            c.ok(),
            b < c.func@.blocks.len(),
        ensures
            ran(r, old(self)@.term(c@, b as int, loc), *final(self)),
    {
        let block = &c.func.blocks[b];
        proof {
            assert(c.func@.block_indexed(c.func@.blocks[b as int], b as int));
        }
        let term = match &block.term {
            Some(t) => t,
            None => {
                return fail("missing terminator");
            },
        };
        let ghost u = term@.uses();
        let ghost t = term@.targets();
        assert(c.func@.term_indexed(term@));
        match term {
            Terminator::Jump { dest } => {
                assert(t[0] == *dest);
                let ms = phi_moves(c.func, block.id, *dest, c.regs, c.scratch);
                self.copies(&ms);
                if !is_fallthrough(c.func, block.id, *dest) {
                    self.emit(jump_op(IlJumpKind::Unconditional, c.labs[dest.index()], loc));
                }
                Ok(())
            },
            Terminator::Br { cond, taken, not_taken } => {
                assert(u[0] == *cond && t[0] == *taken && t[1] == *not_taken);
                let ts = phi_moves(c.func, block.id, *taken, c.regs, c.scratch);
                let fs = phi_moves(c.func, block.id, *not_taken, c.regs, c.scratch);
                match self.emit_br_cond(c, block, *cond, loc) {
                    Ok(_) => {},
                    Err(e) => {
                        proof {
                            reveal_with_fuel(Emit::copies, 2);
                        }
                        return Err(e);
                    },
                }
                if ts.len() == 0 && fs.len() == 0 {
                    emit_cond_jumps(&mut self.out, c.func, block.id, *taken, *not_taken, c.labs, loc);
                    return Ok(());
                }
                self.split(c, &ts, c.labs[taken.index()], &fs, c.labs[not_taken.index()], loc);
                Ok(())
            },
            Terminator::Return { lo, hi } => {
                proof {
                    if lo is Some {
                        assert(u[0] == lo->0);
                    }
                    if hi is Some {
                        assert(u[u.len() - 1] == hi->0);
                    }
                }
                self.emit_return(c, block, *lo, *hi, loc)
            },
            Terminator::Unreachable => {
                self.emit(IlOp::Halt { loc });
                Ok(())
            },
            Terminator::JumpIfMatch { scrutinee, tag, taken, not_taken, .. } => {
                assert(u[0] == *scrutinee && t[0] == *taken && t[1] == *not_taken);
                self.emit_dense_jump_if_match(c, block.id, *scrutinee, *tag, *taken, *not_taken, loc)
            },
        }
    }

    fn step(&mut self, c: &Ctx<'_>, b: usize, i: usize, fused: Option<ValueId>) -> (r: Result<(), LowerError>)
        requires
            c.ok(),
            b < c.func@.blocks.len(),
            i < c.func@.blocks[b as int].insts.len(),
            fused == c.func@.fused_compare(b as int),
        ensures
            ran(r, old(self)@.step(c@, b as int, i as int), *final(self)),
    {
        let block = &c.func.blocks[b];
        let inst = &block.insts[i];
        proof {
            assert(c.func@.block_indexed(c.func@.blocks[b as int], b as int));
            assert(block@.insts[i as int] == inst@);
            assert(c.func@.inst_indexed(inst@));
        }
        let dest = inst.dest();
        let loc = c.func.loc_of(dest);
        match inst {
            MirInst::Phi { .. } => {
                return Ok(());
            },
            MirInst::Cmp { .. } => {
                if let Some(f) = fused {
                    if f == dest {
                        return Ok(());
                    }
                }
            },
            _ => {},
        }
        if is_tail_call_inst(block, i) {
            return Ok(());
        }
        if let MirInst::Call { dest, dest_hi, target, args } = inst {
            proof {
                assert forall|i: int| 0 <= i < args@.len() implies c.has(#[trigger] args@[i]) by {
                    assert(inst@.uses()[i] == args@[i]);
                }
                if let Some(h) = dest_hi {
                    assert(inst@.dests()[1] == *h);
                }
            }
            return self.emit_call(c, EntryKind::Call, *dest, *dest_hi, *target, args, loc);
        }
        if !c.needs(dest) {
            return Ok(());
        }
        match self.emit_inst(c, inst, loc) {
            Ok(_) => {
                self.unpark();
                Ok(())
            },
            Err(e) => Err(e),
        }
    }

    fn insts(&mut self, c: &Ctx<'_>, b: usize) -> (r: Result<(), LowerError>)
        requires
            c.ok(),
            b < c.func@.blocks.len(),
        ensures
            ran(r, old(self)@.insts(c@, b as int, 0), *final(self)),
    {
        let ghost e0 = self@;
        let fused = fused_compare_of(c.func, b);
        let block = &c.func.blocks[b];
        let mut i: usize = 0;
        while i < block.insts.len()
            invariant
                e0 == old(self)@,
                c.ok(),
                b < c.func@.blocks.len(),
                block == c.func.blocks@[b as int],
                fused == c.func@.fused_compare(b as int),
                i <= block.insts@.len(),
                e0.insts(c@, b as int, 0) == self@.insts(c@, b as int, i as nat),
            decreases block.insts@.len() - i,
        {
            proof {
                reveal_with_fuel(Emit::insts, 2);
            }
            match self.step(c, b, i, fused) {
                Ok(_) => {},
                Err(e) => {
                    return Err(e);
                },
            }
            i = i + 1;
        }
        Ok(())
    }

    fn blocks(&mut self, c: &Ctx<'_>) -> (r: Result<(), LowerError>)
        requires
            c.ok(),
        ensures
            ran(r, old(self)@.blocks(c@, 0), *final(self)),
    {
        let ghost e0 = self@;
        let mut b: usize = 0;
        while b < c.func.blocks.len()
            invariant
                e0 == old(self)@,
                c.ok(),
                b <= c.func.blocks@.len(),
                e0.blocks(c@, 0) == self@.blocks(c@, b as nat),
            decreases c.func.blocks@.len() - b,
        {
            proof {
                reveal_with_fuel(Emit::blocks, 2);
            }
            let block = &c.func.blocks[b];
            if block.id != c.func.entry {
                self.emit(IlOp::Label(c.labs[b]));
            }
            self.unpark();
            match self.insts(c, b) {
                Ok(_) => {},
                Err(e) => {
                    return Err(e);
                },
            }
            match self.emit_term(c, b, c.func.term_loc(block.id)) {
                Ok(_) => {},
                Err(e) => {
                    return Err(e);
                },
            }
            b = b + 1;
        }
        Ok(())
    }
}

fn next_free(next: u32, c: &Ctx<'_>) -> (r: u32)
    ensures
        r == free_label(next, c@.reserved),
{
    free_of(next, c.reserved)
}

/// First label from `next` on that is not listed.
pub fn free_of(next: u32, reserved: &Vec<u32>) -> (r: u32)
    ensures
        r == free_label(next, Set::new(|l: u32| reserved@.contains(l))),
{
    let ghost s = Set::new(|l: u32| reserved@.contains(l));
    let mut l = next;
    while l < 0xffff_ffff && listed(reserved, l)
        invariant
            s == Set::new(|l: u32| reserved@.contains(l)),
            free_label(next, s) == free_label(l, s),
        decreases u32::MAX - l,
    {
        l = l + 1;
    }
    l
}

pub fn listed(s: &Vec<u32>, l: u32) -> (r: bool)
    ensures
        r == s@.contains(l),
{
    let mut i: usize = 0;
    while i < s.len()
        invariant
            i <= s@.len(),
            forall|j: int| 0 <= j < i ==> s@[j] != l,
        decreases s@.len() - i,
    {
        if s[i] == l {
            return true;
        }
        i = i + 1;
    }
    false
}

pub proof fn compare_from_found(insts: Seq<InstV>, cond: ValueId, i: nat)
    ensures
        compare_from(insts, cond, i) matches Some(k) ==> i <= k < insts.len() && insts[k as int] is Cmp,
    decreases insts.len() - i,
{
    if i < insts.len() {
        compare_from_found(insts, cond, i + 1);
    }
}

fn has_untyped_host(func: &MirFunc) -> (r: bool)
    ensures
        r == untyped_host(func@),
{
    let mut b: usize = 0;
    while b < func.blocks.len()
        invariant
            b <= func.blocks@.len(),
            forall|x: int, i: int|
                0 <= x < b && 0 <= i < func@.blocks[x].insts.len() ==> !((
                #[trigger] func@.blocks[x].insts[i]) is HostInvoke && edge(
                    func@.hosts,
                    func@.blocks[x].insts[i]->native_id,
                ) is None),
        decreases func.blocks@.len() - b,
    {
        let block = &func.blocks[b];
        let mut i: usize = 0;
        while i < block.insts.len()
            invariant
                b < func.blocks@.len(),
                block@ == func@.blocks[b as int],
                i <= block.insts@.len(),
                forall|j: int|
                    0 <= j < i ==> !((#[trigger] block@.insts[j]) is HostInvoke && edge(
                        func@.hosts,
                        block@.insts[j]->native_id,
                    ) is None),
            decreases block.insts@.len() - i,
        {
            assert(block@.insts[i as int] == block.insts@[i as int]@);
            if let MirInst::HostInvoke { native_id, .. } = &block.insts[i] {
                if host_edge_spec(&func.hosts, *native_id).is_none() {
                    assert(func@.blocks[b as int].insts[i as int] is HostInvoke);
                    return true;
                }
            }
            i = i + 1;
        }
        b = b + 1;
    }
    false
}

/// The call at `(b, i)` goes to another function with label `l`.
pub open spec fn foreign_call(f: FuncV, entry: Option<Label>, b: int, i: int, l: u32) -> bool {
    f.blocks[b].insts[i] is Call && f.blocks[b].insts[i]->target == Label(l) && entry != Some(Label(l))
}

/// Labels that calls to other functions use.
pub fn foreign_labels(func: &MirFunc, entry: Option<Label>) -> (r: Vec<u32>)
    ensures
        Set::new(|l: u32| r@.contains(l)) == foreign_targets(func@, entry),
{
    let ghost f = func@;
    let mut out: Vec<u32> = Vec::new();
    let mut b: usize = 0;
    while b < func.blocks.len()
        invariant
            f == func@,
            b <= func.blocks@.len(),
            forall|k: int| 0 <= k < out@.len() ==> foreign_targets(f, entry).contains(#[trigger] out@[k]),
            forall|x: int, i: int, l: u32|
                0 <= x < b && 0 <= i < f.blocks[x].insts.len() && #[trigger] foreign_call(f, entry, x, i, l)
                    ==> out@.contains(l),
        decreases func.blocks@.len() - b,
    {
        let block = &func.blocks[b];
        let mut i: usize = 0;
        while i < block.insts.len()
            invariant
                f == func@,
                b < func.blocks@.len(),
                block@ == f.blocks[b as int],
                i <= block.insts@.len(),
                forall|k: int| 0 <= k < out@.len() ==> foreign_targets(f, entry).contains(#[trigger] out@[k]),
                forall|x: int, i: int, l: u32|
                    0 <= x < b && 0 <= i < f.blocks[x].insts.len() && #[trigger] foreign_call(f, entry, x, i, l)
                        ==> out@.contains(l),
                forall|j: int, l: u32|
                    0 <= j < i && #[trigger] foreign_call(f, entry, b as int, j, l) ==> out@.contains(l),
            decreases block.insts@.len() - i,
        {
            assert(block@.insts[i as int] == block.insts@[i as int]@);
            if let MirInst::Call { target, .. } = &block.insts[i] {
                let own = match entry {
                    Some(e) => e == *target,
                    None => false,
                };
                if !own {
                    let ghost old_out = out@;
                    out.push(target.0);
                    proof {
                        assert(f.blocks[b as int].insts[i as int] is Call);
                        assert(out@[old_out.len() as int] == target.0);
                        assert forall|l: u32| old_out.contains(l) implies out@.contains(l) by {
                            let k = old_out.index_of(l);
                            assert(out@[k] == l);
                        }
                    }
                }
            }
            i = i + 1;
        }
        b = b + 1;
    }
    proof {
        assert forall|l: u32| foreign_targets(f, entry).contains(l) implies out@.contains(l) by {
            let (b, i) = choose|b: int, i: int|
                0 <= b < f.blocks.len() && 0 <= i < f.blocks[b].insts.len() && (#[trigger] f.blocks[b].insts[i]) is Call
                    && f.blocks[b].insts[i]->target == Label(l) && entry != Some(Label(l));
            assert(foreign_call(f, entry, b, i, l));
        }
        assert(Set::new(|l: u32| out@.contains(l)) =~= foreign_targets(f, entry));
    }
    out
}

/// One label per block, and the next label.
pub fn alloc_block_labels(func: &MirFunc, entry: Option<Label>, reserved: &Vec<u32>, next: u32) -> (r: (
    Vec<Label>,
    u32,
))
    ensures
        ({
            let s = block_labels(
                func@,
                entry,
                Set::new(|l: u32| reserved@.contains(l)),
                next,
                func@.blocks.len(),
            );
            r.0@ == s.0 && r.1 == s.1 && s.0.len() == func@.blocks.len()
        }),
{
    let ghost set = Set::new(|l: u32| reserved@.contains(l));
    let mut labs: Vec<Label> = Vec::new();
    let mut n = next;
    let mut b: usize = 0;
    while b < func.blocks.len()
        invariant
            set == Set::new(|l: u32| reserved@.contains(l)),
            b <= func.blocks@.len(),
            labs@.len() == b,
            block_labels(func@, entry, set, next, b as nat) == (labs@, n),
        decreases func.blocks@.len() - b,
    {
        assert(func@.blocks[b as int] == func.blocks@[b as int]@);
        let own = func.blocks[b].id == func.entry && entry.is_some();
        let mut l = Label(0);
        if own {
            if let Some(e) = entry {
                l = e;
            }
        } else {
            let f = free_of(n, reserved);
            l = Label(f);
            n = if f == 0xffff_ffff {
                f
            } else {
                f + 1
            };
        }
        labs.push(l);
        b = b + 1;
    }
    (labs, n)
}

fn window_of(block: &MirBlock, i: usize, entry: Option<Label>, Ghost(f): Ghost<FuncV>, Ghost(b): Ghost<int>) -> (r:
    usize)
    requires
        i < block@.insts.len(),
        f.blocks[b] == block@,
    ensures
        r == window(f, entry, b, i as int),
{
    assert(block@.insts[i as int] == block.insts@[i as int]@);
    if is_tail_call_inst(block, i) {
        return 0;
    }
    match &block.insts[i] {
        MirInst::Call { args, target, .. } => {
            let own = match entry {
                Some(e) => e == *target,
                None => false,
            };
            if own {
                0
            } else {
                args.len()
            }
        },
        MirInst::HostInvoke { args, .. } => args.len(),
        MirInst::Alloc { elems, .. } => elems.len(),
        _ => 0,
    }
}

/// Widest row of arguments that the body gathers.
fn gather_window(func: &MirFunc, entry: Option<Label>) -> (r: u8)
    ensures
        r == widest(func@, entry, 0, 0, 0),
{
    let ghost f = func@;
    let mut n: u8 = 0;
    let mut b: usize = 0;
    while b < func.blocks.len()
        invariant
            f == func@,
            b <= func.blocks@.len(),
            widest(f, entry, 0, 0, 0) == widest(f, entry, b as nat, 0, n),
        decreases func.blocks@.len() - b,
    {
        let block = &func.blocks[b];
        let mut i: usize = 0;
        while i < block.insts.len()
            invariant
                f == func@,
                b < func.blocks@.len(),
                block@ == f.blocks[b as int],
                i <= block.insts@.len(),
                widest(f, entry, 0, 0, 0) == widest(f, entry, b as nat, i as nat, n),
            decreases block.insts@.len() - i,
        {
            let w = window_of(block, i, entry, Ghost(f), Ghost(b as int));
            let m: u8 = if w > 255 {
                255
            } else {
                w as u8
            };
            if m > n {
                n = m;
            }
            i = i + 1;
        }
        b = b + 1;
    }
    n
}

pub fn highest_slot(regs: &Vec<u8>, slots: &Vec<bool>) -> (r: u8)
    requires
        regs@.len() == slots@.len(),
    ensures
        r == highest(regs@, slots@, 0, 0),
{
    let mut m: u8 = 0;
    let mut i: usize = 0;
    while i < slots.len()
        invariant
            regs@.len() == slots@.len(),
            i <= slots@.len(),
            highest(regs@, slots@, 0, 0) == highest(regs@, slots@, i as nat, m),
        decreases slots@.len() - i,
    {
        if slots[i] && regs[i] > m {
            m = regs[i];
        }
        i = i + 1;
    }
    m
}

/// Emits dense code. `entry` is the function's own call label. `across_alloc`
/// states that stack maps exist, so that values may stay in slots across
/// allocations. New constants are appended to `pool`.
///
/// A value that is rebuilt on the stack is rebuilt from its operands in turn. Where a value is
/// defined by itself, which verification refuses, the function is refused here too.
pub fn emit_dense(
    func: &MirFunc,
    entry: Option<Label>,
    pool: &mut Vec<u64>,
    across_alloc: bool,
) -> (r: Result<Vec<IlOp>, LowerError>)
    requires
        func@.indexed(),
        phis_indexed(func@),
    ensures
        ({
            let e = dense_code(func@, entry, old(pool)@, across_alloc);
            &&& final(pool)@ == e.pool
            &&& match e.err {
                None => r matches Ok(v) && v@ == e.out,
                Some(m) => r matches Err(x) && x@ == LowerErrV::Refused(m),
            }
        }),
{
    if func.has_gc_edge() && !across_alloc {
        return Err(refused("dense emit refuses Alloc/GcBarrier without S2b maps (S2c)"));
    }
    if has_untyped_host(func) {
        return Err(refused("dense emit refuses untyped HostInvoke"));
    }
    let plan = ConvoyPlan::new(func, entry);
    let (regs, scratch) = match assign_regs(func, &plan.need_slot, "too many dense slots") {
        Ok(a) => a,
        Err(e) => {
            return Err(e);
        },
    };
    let regs = coalesce_safe_latch_phis(func, regs);
    let reserved = foreign_labels(func, entry);
    let (labs, next) = alloc_block_labels(func, entry, &reserved, max_label_hint(entry));
    let g = gather_window(func, entry);
    let m = highest_slot(&regs, &plan.need_slot);
    let top: u8 = if g > 0 {
        let end: u8 = if scratch as u16 + (g - 1) as u16 > 255 {
            255
        } else {
            scratch + (g - 1)
        };
        if end > m {
            end
        } else {
            m
        }
    } else {
        m
    };
    let frame: u32 = top as u32 + 1;
    let c = Ctx { func, plan: &plan, regs: &regs, scratch, labs: &labs, reserved: &reserved, across: across_alloc };
    let mut e = Emitter { out: Vec::new(), stacked: Vec::new(), pool: Vec::new(), next };
    std::mem::swap(&mut e.pool, pool);
    e.emit(IlOp::Label(labs[func.entry.index()]));
    if frame as usize > func.params.len() {
        e.emit(IlOp::byte(Byte::new(Instruction::Seek).with_operand_u32(frame)));
    }
    let r = e.blocks(&c);
    std::mem::swap(&mut e.pool, pool);
    match r {
        Ok(_) => Ok(e.out),
        Err(x) => Err(x),
    }
}

/// The registers that code is emitted with; none where there are too few.
pub open spec fn emit_regs(f: FuncV, slots: Seq<bool>, full: Seq<char>) -> Seq<u8> {
    match assigned(f, slots, full) {
        Ok(a) => coalesced(f, a.0),
        Err(_) => Seq::empty(),
    }
}

/// The registers of named locals and the resume map, for the registers that [`emit_dense`]
/// assigns.
pub fn dense_sidecars(func: &MirFunc, entry: Option<Label>) -> (r: (IdMap<u32>, DraftDeoptMap))
    requires
        func@.indexed(),
        phis_indexed(func@),
    ensures
        ({
            let slots = func@.dense_slots(entry);
            let regs = emit_regs(func@, slots, "too many dense slots"@);
            &&& r.0@ == remapped(func@, regs, slots)
            &&& r.1@ == resume_map(func@, regs, slots)
        }),
{
    let plan = ConvoyPlan::new(func, entry);
    let regs: Vec<u8> = match assign_regs(func, &plan.need_slot, "too many dense slots") {
        Ok(a) => coalesce_safe_latch_phis(func, a.0),
        Err(_) => Vec::new(),
    };
    assert(regs@ =~= emit_regs(func@, func@.dense_slots(entry), "too many dense slots"@));
    (
        debug_slot_remap(func, regs.as_slice(), plan.need_slot.as_slice()),
        encode_draft(func, regs.as_slice(), plan.need_slot.as_slice()),
    )
}

} // verus!

//! Slot and pool types of a stack code body.
//!
//! A body is dense when it does integer or float arithmetic and either loops or
//! holds enough arithmetic to pay for its frame. One walk over the operations
//! types the slots and the constant pool from their uses and refuses what the
//! chosen mode cannot hold; a second walk carries slot types back to the pool.
use super::abi::{calls_view, AbiV, DenseCallMap};
use super::gc::{alloc_inst, alloc_reason, is_alloc_inst, refuse_reason as alloc_refuse_reason};
use super::host_allow::{copy_rows, edge, host_edge_spec, HostNative};
use super::lower::{refused, LowerErrV, LowerError};
use super::string_barrier::{format_inst, is_format_inst, refuse_reason, text_reason};
use super::ty::MirTy;
use crate::idmap::IdMap;
use crate::il::op::{Byte, EntryKind, IlJumpKind, IlOp, Instruction, Label};
use crate::text::{cat2, cat3, cat4, cat6, dec, dec_str};
use vstd::prelude::*;

verus! {

/// Minimum numeric operations for a body without a loop to become dense.
pub const STRAIGHT_LINE_MIN_WORK_OPS: usize = 8;

/// Where a stack cell came from.
#[derive(Clone, Copy)]
pub enum Origin {
    Slot(u32),
    Pool(u32),
    Tmp,
}

/// Typed stack cell. `imm` is the value of an inline constant.
#[derive(Clone, Copy)]
pub struct Cell {
    pub origin: Origin,
    pub ty: Option<MirTy>,
    pub imm: Option<i64>,
}

pub open spec fn tmp(ty: Option<MirTy>) -> Cell {
    Cell { origin: Origin::Tmp, ty, imm: None }
}

fn tmp_cell(ty: Option<MirTy>) -> (r: Cell)
    ensures
        r == tmp(ty),
{
    Cell { origin: Origin::Tmp, ty, imm: None }
}

/// What the types are for.
#[derive(Clone, Copy, PartialEq, Eq, Structural)]
pub enum InferMode {
    Dense,
    Lir,
    /// Collector maps: allocation, text and fields are allowed, calls are not.
    Maps,
}

impl InferMode {
    pub open spec fn lir(self) -> bool {
        self is Lir || self is Maps
    }

    fn lir_shape(self) -> (r: bool)
        ensures
            r == self.lir(),
    {
        self == InferMode::Lir || self == InferMode::Maps
    }
}

/// State of the walk.
#[verifier::ext_equal]
pub struct WalkV {
    pub slot_ty: Map<u32, MirTy>,
    pub pool_ty: Seq<Option<MirTy>>,
    pub stack: Seq<Cell>,
    pub has_i32: bool,
    pub float_arith: bool,
    pub int_arith: bool,
    pub slot_imm: Map<u32, i64>,
    /// Host table that types the host calls.
    pub hosts: Seq<HostNative>,
}

struct Walk {
    slot_ty: IdMap<MirTy>,
    pool_ty: Vec<Option<MirTy>>,
    stack: Vec<Cell>,
    has_i32: bool,
    float_arith: bool,
    int_arith: bool,
    slot_imm: IdMap<i64>,
    hosts: Vec<HostNative>,
}

impl View for Walk {
    type V = WalkV;

    closed spec fn view(&self) -> WalkV {
        WalkV {
            slot_ty: self.slot_ty@,
            pool_ty: self.pool_ty@,
            stack: self.stack@,
            has_i32: self.has_i32,
            float_arith: self.float_arith,
            int_arith: self.int_arith,
            slot_imm: self.slot_imm@,
            hosts: self.hosts@,
        }
    }
}

/// Types of a successful walk.
#[derive(Debug, PartialEq, Eq)]
pub struct Inferred {
    pub slot_ty: IdMap<MirTy>,
    pub pool_ty: Vec<Option<MirTy>>,
    pub has_i32: bool,
    /// Float `+ - * /`, or a float increment. Comparisons alone do not count.
    pub has_float_arith: bool,
    /// Integer `+ - * / %`, or an integer increment.
    pub has_i64_arith: bool,
}

/// Mathematical form of [`Inferred`].
#[verifier::ext_equal]
pub struct InferredV {
    pub slot_ty: Map<u32, MirTy>,
    pub pool_ty: Seq<Option<MirTy>>,
    pub has_i32: bool,
    pub has_float_arith: bool,
    pub has_i64_arith: bool,
}

impl View for Inferred {
    type V = InferredV;

    open spec fn view(&self) -> InferredV {
        InferredV {
            slot_ty: self.slot_ty@,
            pool_ty: self.pool_ty@,
            has_i32: self.has_i32,
            has_float_arith: self.has_float_arith,
            has_i64_arith: self.has_i64_arith,
        }
    }
}

// Operation classes.

pub open spec fn float_inst(inst: Instruction) -> bool {
    inst is ADDF || inst is SUBF || inst is MULF || inst is DIVF || inst is MODF || inst is LEF || inst is LEQF
        || inst is GTF || inst is GEQF || inst is PowF || inst is NEGF
}

fn is_float_inst(inst: Instruction) -> (r: bool)
    ensures
        r == float_inst(inst),
{
    matches!(
        inst,
        Instruction::ADDF | Instruction::SUBF | Instruction::MULF | Instruction::DIVF | Instruction::MODF
        | Instruction::LEF | Instruction::LEQF | Instruction::GTF | Instruction::GEQF | Instruction::PowF
        | Instruction::NEGF
    )
}

pub open spec fn float_arith_inst(inst: Instruction) -> bool {
    inst is ADDF || inst is SUBF || inst is MULF || inst is DIVF
}

fn is_float_arith(inst: Instruction) -> (r: bool)
    ensures
        r == float_arith_inst(inst),
{
    matches!(inst, Instruction::ADDF | Instruction::SUBF | Instruction::MULF | Instruction::DIVF)
}

pub open spec fn int_arith_inst(inst: Instruction) -> bool {
    inst is ADD || inst is SUB || inst is MUL || inst is DIV || inst is MOD
}

fn is_int_arith(inst: Instruction) -> (r: bool)
    ensures
        r == int_arith_inst(inst),
{
    matches!(inst, Instruction::ADD | Instruction::SUB | Instruction::MUL | Instruction::DIV | Instruction::MOD)
}

/// Comparisons.
pub open spec fn compares(inst: Instruction) -> bool {
    inst is LE || inst is LEQ || inst is GT || inst is GEQ || inst is EQ || inst is NEQ || inst is LEF || inst is LEQF
        || inst is GTF || inst is GEQF
}

fn is_compare(inst: Instruction) -> (r: bool)
    ensures
        r == compares(inst),
{
    matches!(
        inst,
        Instruction::LE | Instruction::LEQ | Instruction::GT | Instruction::GEQ | Instruction::EQ | Instruction::NEQ
        | Instruction::LEF | Instruction::LEQF | Instruction::GTF | Instruction::GEQF
    )
}

pub open spec fn operand_type(inst: Instruction) -> MirTy {
    if float_inst(inst) {
        MirTy::F64
    } else {
        MirTy::I64
    }
}

fn operand_ty(inst: Instruction) -> (r: MirTy)
    ensures
        r == operand_type(inst),
{
    if is_float_inst(inst) {
        MirTy::F64
    } else {
        MirTy::I64
    }
}

pub open spec fn result_type(inst: Instruction) -> MirTy {
    if compares(inst) {
        MirTy::Bool
    } else {
        operand_type(inst)
    }
}

/// Arithmetic that counts as work.
pub open spec fn work_op(op: IlOp) -> bool {
    match op {
        IlOp::Bin { .. } => true,
        IlOp::BinSlotImm { .. } => true,
        IlOp::BinSlotSlot { .. } => true,
        IlOp::Byte { byte, .. } => byte.inst is CastIntToFloat || byte.inst is NEGF || byte.inst is NEG
            || byte.inst is INC || byte.inst is DEC,
        _ => false,
    }
}

fn is_numeric_work_op(op: &IlOp) -> (r: bool)
    ensures
        r == work_op(*op),
{
    match op {
        IlOp::Bin { .. } | IlOp::BinSlotImm { .. } | IlOp::BinSlotSlot { .. } => true,
        IlOp::Byte { byte, .. } => matches!(
            byte.inst,
            Instruction::CastIntToFloat | Instruction::NEGF | Instruction::NEG | Instruction::INC | Instruction::DEC
        ),
        _ => false,
    }
}

/// Number of work operations among the first `n`.
pub open spec fn work_count(ops: Seq<IlOp>, n: nat) -> nat
    decreases n,
{
    if n == 0 {
        0
    } else {
        work_count(ops, (n - 1) as nat) + (if work_op(ops[n - 1]) {
            1nat
        } else {
            0nat
        })
    }
}

/// Binary operations, negations, casts and increments. Loads, stores, constants
/// and control do not count.
pub fn numeric_work_ops(ops: &[IlOp]) -> (r: usize)
    ensures
        r == work_count(ops@, ops@.len()),
{
    let mut n: usize = 0;
    let mut i: usize = 0;
    while i < ops.len()
        invariant
            i <= ops@.len(),
            n == work_count(ops@, i as nat),
            n <= i,
        decreases ops@.len() - i,
    {
        if is_numeric_work_op(&ops[i]) {
            n = n + 1;
        }
        i = i + 1;
    }
    n
}

/// First position from `i` on that binds label `id`.
pub open spec fn binding(ops: Seq<IlOp>, id: u32, i: nat) -> Option<nat>
    decreases ops.len() - i,
{
    if i >= ops.len() {
        None
    } else if ops[i as int].bound() == Some(Label(id)) {
        Some(i)
    } else {
        binding(ops, id, i + 1)
    }
}

/// Loop that the jump at `j` closes: header and jump positions.
pub open spec fn loop_at(ops: Seq<IlOp>, j: int) -> Option<(nat, nat)> {
    match ops[j] {
        IlOp::Jump { target, .. } => match binding(ops, target.0, 0) {
            Some(h) => if h < j {
                Some((h, j as nat))
            } else {
                None
            },
            None => None,
        },
        _ => None,
    }
}

/// Some jump goes backwards.
pub open spec fn back_edge(ops: Seq<IlOp>) -> bool {
    exists|j: int| 0 <= j < ops.len() && (#[trigger] loop_at(ops, j)) is Some
}

fn label_of(op: &IlOp) -> (r: Option<Label>)
    ensures
        r == op.bound(),
{
    match op {
        IlOp::Label(l) => Some(*l),
        IlOp::JoinLabel(l) => Some(*l),
        _ => None,
    }
}

fn find_binding(ops: &[IlOp], id: u32) -> (r: Option<usize>)
    ensures
        match r {
            Some(h) => binding(ops@, id, 0) == Some(h as nat),
            None => binding(ops@, id, 0) is None,
        },
{
    let mut i: usize = 0;
    while i < ops.len()
        invariant
            i <= ops@.len(),
            binding(ops@, id, 0) == binding(ops@, id, i as nat),
        decreases ops@.len() - i,
    {
        if let Some(l) = label_of(&ops[i]) {
            if l.0 == id {
                return Some(i);
            }
        }
        i = i + 1;
    }
    None
}

/// Loop closed at `j`.
fn loop_closed_at(ops: &[IlOp], j: usize) -> (r: Option<(usize, usize)>)
    requires
        j < ops@.len(),
    ensures
        match r {
            Some(l) => loop_at(ops@, j as int) == Some((l.0 as nat, l.1 as nat)) && l.1 == j,
            None => loop_at(ops@, j as int) is None,
        },
{
    if let IlOp::Jump { target, .. } = &ops[j] {
        if let Some(h) = find_binding(ops, target.0) {
            if h < j {
                return Some((h, j));
            }
        }
    }
    None
}

/// True when a jump targets an earlier label.
pub fn has_back_edge(ops: &[IlOp]) -> (r: bool)
    ensures
        r == back_edge(ops@),
{
    let mut j: usize = 0;
    while j < ops.len()
        invariant
            j <= ops@.len(),
            forall|k: int| 0 <= k < j ==> (#[trigger] loop_at(ops@, k)) is None,
        decreases ops@.len() - j,
    {
        if loop_closed_at(ops, j).is_some() {
            return true;
        }
        j = j + 1;
    }
    false
}

/// Position `i` lies between a loop header and its jump.
pub open spec fn in_loop(ops: Seq<IlOp>, i: int) -> bool {
    exists|j: int| 0 <= j < ops.len() && (#[trigger] loop_at(ops, j)) is Some && (loop_at(ops, j)->0).0 <= i < j
}

/// Some allocation lies inside a loop.
pub open spec fn alloc_in_loop(ops: Seq<IlOp>) -> bool {
    exists|i: int| 0 <= i < ops.len() && (#[trigger] alloc_reason(ops[i])) is Some && in_loop(ops, i)
}

fn inside_loop(ops: &[IlOp], i: usize) -> (r: bool)
    ensures
        r == in_loop(ops@, i as int),
{
    let mut j: usize = 0;
    while j < ops.len()
        invariant
            j <= ops@.len(),
            forall|k: int|
                0 <= k < j ==> !((#[trigger] loop_at(ops@, k)) is Some && (loop_at(ops@, k)->0).0 <= i < k),
        decreases ops@.len() - j,
    {
        if let Some(l) = loop_closed_at(ops, j) {
            if l.0 <= i && i < l.1 {
                return true;
            }
        }
        j = j + 1;
    }
    false
}

/// Allocation between a loop header and its back edge.
pub fn has_alloc_inside_loop(ops: &[IlOp]) -> (r: bool)
    ensures
        r == alloc_in_loop(ops@),
{
    let mut i: usize = 0;
    while i < ops.len()
        invariant
            i <= ops@.len(),
            forall|k: int| 0 <= k < i ==> !((#[trigger] alloc_reason(ops@[k])) is Some && in_loop(ops@, k)),
        decreases ops@.len() - i,
    {
        if alloc_refuse_reason(&ops[i]).is_some() {
            if inside_loop(ops, i) {
                return true;
            }
        }
        i = i + 1;
    }
    false
}

/// Some allocation, each of them behind every back edge.
pub open spec fn alloc_after_loops(ops: Seq<IlOp>) -> bool {
    &&& !alloc_in_loop(ops)
    &&& back_edge(ops)
    &&& exists|i: int| 0 <= i < ops.len() && (#[trigger] alloc_reason(ops[i])) is Some
    &&& forall|i: int, j: int|
        0 <= i < ops.len() && 0 <= j < ops.len() && (#[trigger] alloc_reason(ops[i])) is Some && (
        #[trigger] loop_at(ops, j)) is Some ==> j <= i
}

/// Every allocation sits behind the last back edge.
pub fn has_alloc_only_after_loops(ops: &[IlOp]) -> (r: bool)
    ensures
        r == alloc_after_loops(ops@),
{
    if has_alloc_inside_loop(ops) {
        return false;
    }
    let mut last: Option<usize> = None;
    let mut j: usize = 0;
    while j < ops.len()
        invariant
            j <= ops@.len(),
            match last {
                Some(k) => k < j && loop_at(ops@, k as int) is Some && (forall|x: int|
                    0 <= x < j && (#[trigger] loop_at(ops@, x)) is Some ==> x <= k),
                None => forall|x: int| 0 <= x < j ==> (#[trigger] loop_at(ops@, x)) is None,
            },
        decreases ops@.len() - j,
    {
        if loop_closed_at(ops, j).is_some() {
            last = Some(j);
        }
        j = j + 1;
    }
    let last_back = match last {
        Some(k) => k,
        None => {
            return false;
        },
    };
    let mut any = false;
    let mut i: usize = 0;
    while i < ops.len()
        invariant
            i <= ops@.len(),
            last_back < ops@.len(),
            loop_at(ops@, last_back as int) is Some,
            !alloc_in_loop(ops@),
            forall|x: int| 0 <= x < ops@.len() && (#[trigger] loop_at(ops@, x)) is Some ==> x <= last_back,
            any == (exists|k: int| 0 <= k < i && (#[trigger] alloc_reason(ops@[k])) is Some),
            forall|k: int| 0 <= k < i && (#[trigger] alloc_reason(ops@[k])) is Some ==> last_back <= k,
        decreases ops@.len() - i,
    {
        if alloc_refuse_reason(&ops[i]).is_some() {
            any = true;
            assert(alloc_reason(ops@[i as int]) is Some);
            if i < last_back {
                return false;
            }
        }
        i = i + 1;
    }
    any
}

pub open spec fn heap_index_op(op: IlOp) -> bool {
    match op {
        IlOp::Index { .. } => true,
        IlOp::IndexUnchecked { .. } => true,
        IlOp::IndexPin { .. } => true,
        IlOp::IndexPinUnchecked { .. } => true,
        IlOp::StoreIndexPin { .. } => true,
        IlOp::StoreIndexPinUnchecked { .. } => true,
        IlOp::ArrayPin { .. } => true,
        IlOp::Byte { byte, .. } => byte.inst is Index || byte.inst is IndexUnchecked || byte.inst is StoreIndex
            || byte.inst is StoreIndexUnchecked || byte.inst is ArrayLen,
        _ => false,
    }
}

fn is_heap_index(op: &IlOp) -> (r: bool)
    ensures
        r == heap_index_op(*op),
{
    match op {
        IlOp::Index { .. }
        | IlOp::IndexUnchecked { .. }
        | IlOp::IndexPin { .. }
        | IlOp::IndexPinUnchecked { .. }
        | IlOp::StoreIndexPin { .. }
        | IlOp::StoreIndexPinUnchecked { .. }
        | IlOp::ArrayPin { .. } => true,
        IlOp::Byte { byte, .. } => matches!(
            byte.inst,
            Instruction::Index | Instruction::IndexUnchecked | Instruction::StoreIndex
            | Instruction::StoreIndexUnchecked | Instruction::ArrayLen
        ),
        _ => false,
    }
}

/// Array index, store, pin or length.
pub fn has_heap_index(ops: &[IlOp]) -> (r: bool)
    ensures
        r == exists|i: int| 0 <= i < ops@.len() && heap_index_op(#[trigger] ops@[i]),
{
    let mut i: usize = 0;
    while i < ops.len()
        invariant
            i <= ops@.len(),
            forall|k: int| 0 <= k < i ==> !heap_index_op(#[trigger] ops@[k]),
        decreases ops@.len() - i,
    {
        if is_heap_index(&ops[i]) {
            return true;
        }
        i = i + 1;
    }
    false
}

/// Kind of an operation that no mode accepts.
pub open spec fn refused_kind(op: IlOp) -> Seq<char> {
    match text_reason(op) {
        Some(r) => r,
        None => match alloc_reason(op) {
            Some(r) => r,
            None => match op {
                IlOp::Entry { .. } => "CALL"@,
                IlOp::PrologueJmp { .. } => "CALL"@,
                IlOp::HostInvoke { .. } => "HostInvoke"@,
                IlOp::Index { .. } => "heap/index"@,
                IlOp::IndexUnchecked { .. } => "heap/index"@,
                IlOp::IndexPin { .. } => "heap/index"@,
                IlOp::IndexPinUnchecked { .. } => "heap/index"@,
                IlOp::StoreIndexPin { .. } => "heap/index"@,
                IlOp::StoreIndexPinUnchecked { .. } => "heap/index"@,
                IlOp::ArrayPin { .. } => "heap/index"@,
                IlOp::GetField { .. } => "class/field"@,
                IlOp::SetField { .. } => "class/field"@,
                IlOp::LoadField { .. } => "class/field"@,
                IlOp::BoxValue { .. } => "box"@,
                IlOp::UnboxValue { .. } => "box"@,
                IlOp::LoadReturnSlot { .. } => "fused-return"@,
                IlOp::ConstReturnImm { .. } => "fused-return"@,
                IlOp::BinReturn { .. } => "fused-return"@,
                IlOp::Jump { kind: IlJumpKind::JumpIfMatch { .. }, .. } => "match"@,
                _ => "other"@,
            },
        },
    }
}

fn refuse_il_kind(op: &IlOp) -> (r: &'static str)
    ensures
        r@ == refused_kind(*op),
{
    if let Some(reason) = refuse_reason(op) {
        return reason;
    }
    if let Some(reason) = alloc_refuse_reason(op) {
        return reason;
    }
    match op {
        IlOp::Entry { .. } | IlOp::PrologueJmp { .. } => "CALL",
        IlOp::HostInvoke { .. } => "HostInvoke",
        IlOp::Index { .. }
        | IlOp::IndexUnchecked { .. }
        | IlOp::IndexPin { .. }
        | IlOp::IndexPinUnchecked { .. }
        | IlOp::StoreIndexPin { .. }
        | IlOp::StoreIndexPinUnchecked { .. }
        | IlOp::ArrayPin { .. } => "heap/index",
        IlOp::GetField { .. } | IlOp::SetField { .. } | IlOp::LoadField { .. } => "class/field",
        IlOp::BoxValue { .. } | IlOp::UnboxValue { .. } => "box",
        IlOp::LoadReturnSlot { .. } | IlOp::ConstReturnImm { .. } | IlOp::BinReturn { .. } => "fused-return",
        IlOp::Jump { kind: IlJumpKind::JumpIfMatch { .. }, .. } => "match",
        _ => "other",
    }
}

// Painting.

/// Cells that a text-building instruction takes.
pub open spec fn format_takes(byte: Byte) -> nat {
    if byte.inst is STRINGIFY {
        1
    } else {
        byte.word() as nat + 1
    }
}

/// Outcome of one step: the next state, or the refusal text.
pub type Step = Result<WalkV, Seq<char>>;

impl WalkV {
    pub open spec fn push(self, c: Cell) -> WalkV {
        WalkV { stack: self.stack.push(c), ..self }
    }

    pub open spec fn pop(self) -> WalkV {
        WalkV { stack: self.stack.drop_last(), ..self }
    }

    /// `n` cells fewer, or none left.
    pub open spec fn drop_top(self, n: nat) -> WalkV {
        WalkV {
            stack: if n >= self.stack.len() {
                Seq::empty()
            } else {
                self.stack.take(self.stack.len() - n)
            },
            ..self
        }
    }

    /// Gives slot `slot` the type `ty`.
    pub open spec fn set_slot(self, slot: u32, ty: MirTy) -> Step {
        if !self.slot_ty.dom().contains(slot) {
            Ok(WalkV { slot_ty: self.slot_ty.insert(slot, ty), ..self })
        } else {
            let old = self.slot_ty[slot];
            let j = old.spec_join(ty);
            if old == ty {
                Ok(self)
            } else if j.specialized() {
                Ok(WalkV { slot_ty: self.slot_ty.insert(slot, j), ..self })
            } else {
                Err(
                    "slot "@ + dec(slot as nat) + " joins "@ + old.text() + " and "@ + ty.text() + " to "@
                        + j.text(),
                )
            }
        }
    }

    /// Gives the origin of a cell the type `ty`.
    pub open spec fn paint(self, c: Cell, ty: MirTy) -> Step {
        match c.origin {
            Origin::Slot(s) => self.set_slot(s, ty),
            Origin::Pool(i) => if i >= self.pool_ty.len() {
                Err("pool "@ + dec(i as nat))
            } else {
                match self.pool_ty[i as int] {
                    None => Ok(WalkV { pool_ty: self.pool_ty.update(i as int, Some(ty)), ..self }),
                    Some(old) => if old == ty || old.spec_join(ty) == ty {
                        Ok(WalkV { pool_ty: self.pool_ty.update(i as int, Some(old.spec_join(ty))), ..self })
                    } else {
                        Err("pool "@ + dec(i as nat) + " "@ + old.text() + " vs "@ + ty.text())
                    },
                }
            },
            Origin::Tmp => Ok(self),
        }
    }

    /// Paints a cell with its own type; untyped and boxed cells stay as they
    /// are.
    pub open spec fn paint_own(self, c: Cell) -> Step {
        match c.ty {
            Some(t) => if t.heap_word() || t.numeric() {
                self.paint(c, t)
            } else {
                Ok(self)
            },
            None => Ok(self),
        }
    }

    /// Paints the cells of a call from position `i` on.
    pub open spec fn paint_all(self, cells: Seq<Cell>, tys: Seq<MirTy>, i: nat) -> Step
        decreases cells.len() - i,
    {
        if i >= cells.len() {
            Ok(self)
        } else {
            match self.paint(cells[i as int], tys[i as int]) {
                Err(e) => Err(e),
                Ok(s) => s.paint_all(cells, tys, i + 1),
            }
        }
    }

    /// Records the arithmetic that `inst` does.
    pub open spec fn count(self, inst: Instruction) -> WalkV {
        WalkV {
            float_arith: self.float_arith || float_arith_inst(inst),
            int_arith: self.int_arith || int_arith_inst(inst),
            ..self
        }
    }

    pub open spec fn make(self, arity: nat) -> Step {
        if self.stack.len() < arity {
            Err("alloc stack"@)
        } else {
            Ok(self.drop_top(arity).push(tmp(Some(MirTy::HeapRef))))
        }
    }

    pub open spec fn store(self, slot: u32) -> Step {
        if self.stack.len() == 0 {
            Err("store stack"@)
        } else {
            let c = self.stack.last();
            let s = WalkV {
                stack: self.stack.drop_last(),
                slot_imm: match c.imm {
                    Some(v) => self.slot_imm.insert(slot, v),
                    None => self.slot_imm.remove(slot),
                },
                ..self
            };
            match c.ty {
                Some(ty) => match s.set_slot(slot, ty) {
                    Err(e) => Err(e),
                    Ok(s2) => s2.paint(c, ty),
                },
                None => Ok(s),
            }
        }
    }

    /// Result of a bit operation on a heap word, when one operand is one.
    pub open spec fn bit_result(inst: Instruction, l: Option<MirTy>, r: Option<MirTy>) -> Option<MirTy> {
        let heap = match (l, r) {
            (Some(t), _) if t.heap_word() => Some(t),
            (_, Some(t)) if t.heap_word() => Some(t),
            _ => None,
        };
        match heap {
            None => None,
            Some(h) => Some(
                if inst is BITOR {
                    MirTy::NicheRes
                } else if inst is BITAND {
                    MirTy::HeapRef
                } else {
                    h
                },
            ),
        }
    }

    /// Paints two operands with their own types and pushes the result.
    pub open spec fn keep_heap(self, l: Cell, r: Cell, res: MirTy) -> Step {
        match self.paint_own(l) {
            Err(e) => Err(e),
            Ok(s) => match s.paint_own(r) {
                Err(e) => Err(e),
                Ok(s2) => Ok(s2.push(tmp(Some(res)))),
            },
        }
    }

    pub open spec fn bin(self, inst: Instruction) -> Step {
        if self.stack.len() < 2 {
            Err("bin stack"@)
        } else {
            let r = self.stack.last();
            let l = self.stack.drop_last().last();
            let s = self.pop().pop();
            let heapy = (l.ty is Some && l.ty->0.heap_word()) || (r.ty is Some && r.ty->0.heap_word());
            if inst is Pow || inst is PowF || inst is AND || inst is OR {
                Err("binop "@ + inst.text())
            } else if compares(inst) && !float_inst(inst) && heapy {
                s.keep_heap(l, r, MirTy::Bool)
            } else if (inst is BITAND || inst is BITOR || inst is XOR) && heapy {
                s.keep_heap(l, r, WalkV::bit_result(inst, l.ty, r.ty)->0)
            } else {
                let ty = operand_type(inst);
                match s.count(inst).paint(l, ty) {
                    Err(e) => Err(e),
                    Ok(s1) => match s1.paint(r, ty) {
                        Err(e) => Err(e),
                        Ok(s2) => Ok(s2.push(tmp(Some(result_type(inst))))),
                    },
                }
            }
        }
    }

    pub open spec fn bin_slot(self, inst: Instruction, slot: u32) -> Step {
        match self.count(inst).set_slot(slot, operand_type(inst)) {
            Err(e) => Err(e),
            Ok(s) => Ok(s.push(tmp(Some(result_type(inst))))),
        }
    }

    pub open spec fn bin_slots(self, inst: Instruction, a: u32, b: u32) -> Step {
        match self.count(inst).set_slot(a, operand_type(inst)) {
            Err(e) => Err(e),
            Ok(s) => match s.set_slot(b, operand_type(inst)) {
                Err(e) => Err(e),
                Ok(s2) => Ok(s2.push(tmp(Some(result_type(inst))))),
            },
        }
    }

    pub open spec fn index(self, pinned: bool) -> Step {
        if self.stack.len() == 0 {
            Err("index stack"@)
        } else {
            match self.pop().paint(self.stack.last(), MirTy::I64) {
                Err(e) => Err(e),
                Ok(s) => if pinned {
                    Ok(s.push(tmp(None)))
                } else if s.stack.len() == 0 {
                    Err("index stack"@)
                } else {
                    match s.pop().paint(s.stack.last(), MirTy::HeapRef) {
                        Err(e) => Err(e),
                        Ok(s2) => Ok(s2.push(tmp(None))),
                    }
                },
            }
        }
    }

    /// Paints the stored value with its own type and leaves it on the stack.
    pub open spec fn stored(self, val: Cell) -> Step {
        match val.ty {
            Some(ty) => if ty.specialized() {
                match self.paint(val, ty) {
                    Err(e) => Err(e),
                    Ok(s) => Ok(s.push(val)),
                }
            } else {
                Ok(self.push(val))
            },
            None => Ok(self.push(val)),
        }
    }

    pub open spec fn store_index(self, pinned: bool) -> Step {
        if self.stack.len() < 2 {
            Err("StoreIndex stack"@)
        } else {
            let val = self.stack.last();
            let idx = self.stack.drop_last().last();
            match self.pop().pop().paint(idx, MirTy::I64) {
                Err(e) => Err(e),
                Ok(s) => if pinned {
                    s.stored(val)
                } else if s.stack.len() == 0 {
                    Err("StoreIndex stack"@)
                } else {
                    match s.pop().paint(s.stack.last(), MirTy::HeapRef) {
                        Err(e) => Err(e),
                        Ok(s2) => s2.stored(val),
                    }
                },
            }
        }
    }

    pub open spec fn call(self, arity: nat, ret_words: u32, target: u32, calls: Map<u32, AbiV>) -> Step {
        if ret_words != 1 {
            Err("dense CALL is one-word"@)
        } else if self.stack.len() < arity {
            Err("CALL stack"@)
        } else {
            let args = self.stack.skip(self.stack.len() - arity);
            let s = self.drop_top(arity);
            if calls.dom().contains(target) {
                let abi = calls[target];
                if abi.params.len() != arity {
                    Err("CALL arity"@)
                } else {
                    match s.paint_all(args, abi.params, 0) {
                        Err(e) => Err(e),
                        Ok(s2) => Ok(s2.push(tmp(Some(abi.ret)))),
                    }
                }
            } else {
                Ok(s.push(tmp(None)))
            }
        }
    }

    pub open spec fn host_map(self, arity: nat, layout: u8) -> Step {
        if layout != 0 {
            Err("HostInvoke layout"@)
        } else if self.stack.len() < arity + 1 {
            Err("HostInvoke stack"@)
        } else {
            Ok(self.drop_top(arity + 1).push(tmp(Some(MirTy::I64))))
        }
    }

    pub open spec fn host(self, arity: nat, layout: u8) -> Step {
        if layout != 0 {
            Err("HostInvoke"@)
        } else if self.stack.len() < arity + 1 {
            Err("HostInvoke stack"@)
        } else {
            match self.stack[self.stack.len() - arity - 1].imm {
                None => Err("HostInvoke"@),
                Some(v) => if !(0 <= v < 0x1_0000) {
                    Err("HostInvoke"@)
                } else {
                    match edge(self.hosts, v as u16) {
                        None => Err("HostInvoke"@),
                        Some(spec) => if spec.args.len() != arity {
                            Err("HostInvoke "@ + spec.name + " arity"@)
                        } else {
                            let args = self.stack.skip(self.stack.len() - arity);
                            match self.drop_top(arity + 1).paint_all(args, spec.args, 0) {
                                Err(e) => Err(e),
                                Ok(s) => Ok(s.push(tmp(Some(spec.ret)))),
                            }
                        },
                    }
                },
            }
        }
    }

    /// Appends the value on top to the array below it; the array stays.
    pub open spec fn append(self) -> Step {
        if self.stack.len() < 2 {
            Err("ArrayPush stack"@)
        } else {
            let s = self.pop();
            match s.pop().paint(s.stack.last(), MirTy::HeapRef) {
                Err(e) => Err(e),
                Ok(s2) => Ok(s2.push(tmp(Some(MirTy::HeapRef)))),
            }
        }
    }

    /// Reads the field named on top of the object below it.
    pub open spec fn get_field(self) -> Step {
        if self.stack.len() < 2 {
            Err("field stack"@)
        } else {
            let s = self.pop();
            match s.pop().paint(s.stack.last(), MirTy::HeapRef) {
                Err(e) => Err(e),
                Ok(s2) => Ok(s2.push(tmp(None))),
            }
        }
    }

    /// Writes the value below an object into a field of it; a field without an index is named
    /// on top. The value stays.
    pub open spec fn set_field(self, named: bool) -> Step {
        let s = if named {
            self.drop_top(1)
        } else {
            self
        };
        if s.stack.len() < 2 {
            Err("field stack"@)
        } else {
            match s.pop().pop().paint(s.stack.last(), MirTy::HeapRef) {
                Err(e) => Err(e),
                Ok(s2) => s2.stored(s.stack.drop_last().last()),
            }
        }
    }

    /// Builds a text from the cells that the instruction takes.
    pub open spec fn format(self, byte: Byte) -> Step {
        if self.stack.len() < format_takes(byte) {
            Err("format stack"@)
        } else {
            Ok(self.squash(format_takes(byte), Some(MirTy::HeapRef)))
        }
    }

    /// Pops a cell, paints it with `ty` and pushes a temporary of type `res`.
    pub open spec fn unary(self, empty: Seq<char>, ty: MirTy, res: MirTy) -> Step {
        if self.stack.len() == 0 {
            Err(empty)
        } else {
            match self.pop().paint(self.stack.last(), ty) {
                Err(e) => Err(e),
                Ok(s) => Ok(s.push(tmp(Some(res)))),
            }
        }
    }

    pub open spec fn byte(self, byte: Byte, mode: InferMode, alloc: bool) -> Step {
        let inst = byte.inst;
        if inst is CastIntToFloat {
            self.unary("cast stack"@, MirTy::I64, MirTy::F64)
        } else if inst is NEGF {
            self.unary("negf stack"@, MirTy::F64, MirTy::F64)
        } else if inst is NEG {
            if self.stack.len() == 0 {
                Err("neg stack"@)
            } else {
                let ty = match self.stack.last().ty {
                    Some(t) => t,
                    None => MirTy::I64,
                };
                self.unary("neg stack"@, ty, ty)
            }
        } else if inst is NOT {
            if self.stack.len() == 0 {
                Err("not stack"@)
            } else {
                Ok(self.pop().push(tmp(Some(MirTy::Bool))))
            }
        } else if inst is Seek && mode.lir() {
            Ok(self)
        } else if inst is Unpack && mode.lir() {
            if byte.word() > 1 {
                Err("Unpack arity > 1 (I2)"@)
            } else if self.stack.len() == 0 {
                Err("Unpack stack"@)
            } else if byte.word() == 1 {
                Ok(self.pop().push(tmp(Some(MirTy::I64))))
            } else {
                Ok(self.pop())
            }
        } else if inst is ArrayLen {
            self.unary("ArrayLen stack"@, MirTy::HeapRef, MirTy::I64)
        } else if inst is StoreIndex || inst is StoreIndexUnchecked {
            self.store_index(false)
        } else if inst is INC || inst is DEC {
            let p = byte.inc_dec();
            let s = if p.2 {
                WalkV { float_arith: true, ..self }
            } else {
                WalkV { int_arith: true, ..self }
            };
            s.set_slot(
                p.0,
                if p.2 {
                    MirTy::F64
                } else {
                    MirTy::I64
                },
            )
        } else if format_inst(inst) {
            if mode is Maps {
                self.format(byte)
            } else {
                Err("format"@)
            }
        } else if inst is ArrayPush && mode is Maps {
            self.append()
        } else if alloc && alloc_inst(inst) {
            Ok(self.push(tmp(Some(MirTy::HeapRef))))
        } else {
            Err("residual byte "@ + inst.text())
        }
    }

    /// One operation of the typing walk. `alloc` says that allocation is
    /// allowed.
    pub open spec fn step(self, op: IlOp, mode: InferMode, alloc: bool, calls: Map<u32, AbiV>) -> Step {
        let other = Err("non-numeric IL ("@ + refused_kind(op) + ")"@);
        match op {
            IlOp::Label(_) => Ok(self),
            IlOp::JoinLabel(_) => Ok(self),
            IlOp::Load { slot, .. } => Ok(self.load(slot, true)),
            IlOp::MakeArray { arity, .. } => if alloc {
                self.make(arity as nat)
            } else {
                other
            },
            IlOp::MakeTuple { arity, .. } => if alloc {
                self.make(arity as nat)
            } else {
                other
            },
            IlOp::MakeEnum { arity, .. } => if alloc {
                self.make(arity as nat)
            } else {
                other
            },
            IlOp::StorePop { slot, .. } => self.store(slot),
            IlOp::Const { imm, .. } => Ok(
                self.push(Cell { origin: Origin::Tmp, ty: Some(MirTy::I64), imm: Some(imm as i64) }),
            ),
            IlOp::ConstPool { idx, .. } => Ok(self.load_pool(idx)),
            IlOp::Dup { .. } => if self.stack.len() == 0 {
                Err("dup stack"@)
            } else {
                Ok(self.push(self.stack.last()))
            },
            IlOp::Pop { .. } => if self.stack.len() == 0 {
                Err("pop stack"@)
            } else {
                Ok(self.pop())
            },
            IlOp::LogNot { .. } => if self.stack.len() == 0 {
                Err("not stack"@)
            } else {
                Ok(self.pop().push(tmp(Some(MirTy::Bool))))
            },
            IlOp::Index { .. } => self.index(false),
            IlOp::IndexUnchecked { .. } => self.index(false),
            IlOp::IndexPin { .. } => self.index(true),
            IlOp::IndexPinUnchecked { .. } => self.index(true),
            IlOp::StoreIndexPin { .. } => self.store_index(true),
            IlOp::StoreIndexPinUnchecked { .. } => self.store_index(true),
            IlOp::ArrayPin { .. } => if self.stack.len() == 0 {
                Err("ArrayPin stack"@)
            } else {
                self.pop().paint(self.stack.last(), MirTy::HeapRef)
            },
            IlOp::Bin { op: inst, .. } => self.bin(inst),
            IlOp::BinSlotImm { op: inst, slot, .. } => self.bin_slot(inst, slot as u32),
            IlOp::BinSlotSlot { op: inst, a, b, .. } => self.bin_slots(inst, a as u32, b as u32),
            IlOp::Byte { byte, .. } => self.byte(byte, mode, alloc),
            IlOp::Jump { kind: IlJumpKind::JumpIfMatch { arity, .. }, .. } => if !mode.lir() {
                Err("match"@)
            } else if arity > 1 {
                Err("JumpIfMatch arity > 1 (keep fuse-IL)"@)
            } else if self.stack.len() == 0 {
                Err("JumpIfMatch stack"@)
            } else {
                Ok(self)
            },
            IlOp::Jump { .. } => Ok(self),
            IlOp::Halt { .. } => Ok(self),
            IlOp::Return { ret_words, .. } => if ret_words == 1 || (ret_words == 2 && mode.lir()) {
                Ok(self)
            } else {
                Err("multi-word return"@)
            },
            IlOp::HostInvoke { arity, layout, .. } => if mode is Maps {
                self.host_map(arity as nat, layout)
            } else {
                self.host(arity as nat, layout)
            },
            IlOp::Entry { kind, arity, target, ret_words, .. } => if kind is Call && mode is Dense {
                self.call(arity as nat, ret_words, target.0, calls)
            } else {
                other
            },
            IlOp::String { .. } => if mode is Maps {
                Ok(self.push(tmp(Some(MirTy::HeapRef))))
            } else {
                other
            },
            IlOp::GetField { .. } => if mode is Maps {
                self.get_field()
            } else {
                other
            },
            IlOp::SetField { index, .. } => if mode is Maps {
                self.set_field(index is None)
            } else {
                other
            },
            _ => other,
        }
    }

    pub open spec fn load(self, slot: u32, imms: bool) -> WalkV {
        self.push(
            Cell {
                origin: Origin::Slot(slot),
                ty: if self.slot_ty.dom().contains(slot) {
                    Some(self.slot_ty[slot])
                } else {
                    None
                },
                imm: if imms && self.slot_imm.dom().contains(slot) {
                    Some(self.slot_imm[slot])
                } else {
                    None
                },
            },
        )
    }

    pub open spec fn load_pool(self, idx: u32) -> WalkV {
        self.push(
            Cell {
                origin: Origin::Pool(idx),
                ty: if idx < self.pool_ty.len() {
                    self.pool_ty[idx as int]
                } else {
                    None
                },
                imm: None,
            },
        )
    }

    /// `n` cells fewer and one temporary more.
    pub open spec fn squash(self, n: nat, ty: Option<MirTy>) -> WalkV {
        self.drop_top(n).push(tmp(ty))
    }

    /// One operation of the second walk, which gives pool cells and earlier
    /// loads the types that stores have.
    pub open spec fn back(self, op: IlOp, alloc: bool) -> WalkV {
        match op {
            IlOp::Load { slot, .. } => self.load(slot, false),
            IlOp::Const { .. } => self.push(tmp(Some(MirTy::I64))),
            IlOp::ConstPool { idx, .. } => self.load_pool(idx),
            IlOp::Dup { .. } => if self.stack.len() == 0 {
                self
            } else {
                self.push(self.stack.last())
            },
            IlOp::Pop { .. } => self.drop_top(1),
            IlOp::LogNot { .. } => self.squash(1, Some(MirTy::Bool)),
            IlOp::Bin { .. } => self.squash(2, None),
            IlOp::MakeArray { arity, .. } => if alloc {
                self.squash(arity as nat, Some(MirTy::HeapRef))
            } else {
                self
            },
            IlOp::MakeTuple { arity, .. } => if alloc {
                self.squash(arity as nat, Some(MirTy::HeapRef))
            } else {
                self
            },
            IlOp::MakeEnum { arity, .. } => if alloc {
                self.squash(arity as nat, Some(MirTy::HeapRef))
            } else {
                self
            },
            IlOp::StorePop { slot, .. } => if self.stack.len() == 0 {
                self
            } else if self.slot_ty.dom().contains(slot) {
                match self.pop().paint(self.stack.last(), self.slot_ty[slot]) {
                    Ok(s) => s,
                    Err(_) => self.pop(),
                }
            } else {
                self.pop()
            },
            IlOp::BinSlotImm { .. } => self.push(tmp(None)),
            IlOp::BinSlotSlot { .. } => self.push(tmp(None)),
            IlOp::Index { .. } => self.squash(2, None),
            IlOp::IndexUnchecked { .. } => self.squash(2, None),
            IlOp::IndexPin { .. } => self.squash(1, None),
            IlOp::IndexPinUnchecked { .. } => self.squash(1, None),
            IlOp::StoreIndexPin { .. } => self.squash(2, None),
            IlOp::StoreIndexPinUnchecked { .. } => self.squash(2, None),
            IlOp::ArrayPin { .. } => self.drop_top(1),
            IlOp::HostInvoke { arity, .. } => self.squash((arity + 1) as nat, None),
            IlOp::Entry { kind, arity, .. } => if kind is Call {
                self.squash(arity as nat, None)
            } else {
                self
            },
            IlOp::Byte { byte, .. } => if byte.inst is ArrayLen {
                self.squash(1, Some(MirTy::I64))
            } else if byte.inst is StoreIndex || byte.inst is StoreIndexUnchecked {
                self.squash(3, None)
            } else if byte.inst is CastIntToFloat || byte.inst is NEGF || byte.inst is NEG || byte.inst is NOT {
                self.squash(1, None)
            } else if format_inst(byte.inst) {
                self.squash(format_takes(byte), Some(MirTy::HeapRef))
            } else if byte.inst is ArrayPush {
                self.squash(2, Some(MirTy::HeapRef))
            } else {
                self
            },
            IlOp::String { .. } => self.push(tmp(Some(MirTy::HeapRef))),
            IlOp::GetField { .. } => self.squash(2, None),
            IlOp::SetField { index, .. } => self.squash(
                if index is None {
                    3
                } else {
                    2
                },
                None,
            ),
            _ => self,
        }
    }
}

/// Typing walk from operation `i` on.
pub open spec fn forward(
    s: WalkV,
    ops: Seq<IlOp>,
    i: nat,
    mode: InferMode,
    alloc: bool,
    calls: Map<u32, AbiV>,
) -> Step
    decreases ops.len() - i,
{
    if i >= ops.len() {
        Ok(s)
    } else {
        match s.step(ops[i as int], mode, alloc, calls) {
            Err(e) => Err(e),
            Ok(s2) => forward(s2, ops, i + 1, mode, alloc, calls),
        }
    }
}

/// Second walk from operation `i` on.
pub open spec fn backward(s: WalkV, ops: Seq<IlOp>, i: nat, alloc: bool) -> WalkV
    decreases ops.len() - i,
{
    if i >= ops.len() {
        s
    } else {
        backward(s.back(ops[i as int], alloc), ops, i + 1, alloc)
    }
}

/// Parameters that nothing typed are `i64`.
pub open spec fn with_params(m: Map<u32, MirTy>, n: u32) -> Map<u32, MirTy> {
    Map::new(
        |k: u32| m.dom().contains(k) || k < n,
        |k: u32|
            if m.dom().contains(k) {
                m[k]
            } else {
                MirTy::I64
            },
    )
}

/// Some slot is a niche word.
pub open spec fn has_niche(m: Map<u32, MirTy>) -> bool {
    exists|k: u32| #[trigger] m.dom().contains(k) && (m[k] is NicheOpt || m[k] is NicheRes)
}

pub open spec fn start_walk(seed: Map<u32, MirTy>, pool_len: nat, hosts: Seq<HostNative>) -> WalkV {
    WalkV {
        slot_ty: seed,
        pool_ty: Seq::new(pool_len, |i: int| None),
        stack: Seq::empty(),
        has_i32: false,
        float_arith: false,
        int_arith: false,
        slot_imm: Map::empty(),
        hosts,
    }
}

/// Types of a body, or why it is refused.
pub open spec fn inferred(
    ops: Seq<IlOp>,
    pool_len: nat,
    params: u32,
    mode: InferMode,
    calls: Map<u32, AbiV>,
    seed: Map<u32, MirTy>,
    across_alloc: bool,
    hosts: Seq<HostNative>,
) -> Result<InferredV, Seq<char>> {
    let alloc = mode is Maps || across_alloc;
    let work = work_count(ops, ops.len());
    if mode is Dense && !back_edge(ops) && work < STRAIGHT_LINE_MIN_WORK_OPS {
        Err("straight-line work "@ + dec(work) + " < "@ + dec(STRAIGHT_LINE_MIN_WORK_OPS as nat))
    } else {
        match forward(start_walk(seed, pool_len, hosts), ops, 0, mode, alloc, calls) {
            Err(e) => Err(e),
            Ok(s) => {
                let t = backward(WalkV { stack: Seq::empty(), ..s }, ops, 0, alloc);
                let slots = with_params(t.slot_ty, params);
                if mode is Dense && has_niche(slots) {
                    Err("dense infer refuses niche slots (I2 match stays LIR)"@)
                } else if mode is Dense && !t.float_arith && !t.has_i32 && !t.int_arith {
                    Err("need float + - * / , i64 + - * / % , or i32 (compare-only stays on fuse-IL)"@)
                } else {
                    Ok(
                        InferredV {
                            slot_ty: slots,
                            pool_ty: t.pool_ty,
                            has_i32: t.has_i32,
                            has_float_arith: t.float_arith,
                            has_i64_arith: t.int_arith,
                        },
                    )
                }
            },
        }
    }
}

/// Relates the outcome of an executed step to its specification.
pub open spec fn did(r: Result<(), LowerError>, s: Step, now: WalkV) -> bool {
    match s {
        Ok(w) => r is Ok && now == w,
        Err(e) => r matches Err(x) && x@ == LowerErrV::Refused(e),
    }
}

fn count_format_takes(byte: &Byte) -> (r: u64)
    ensures
        r == format_takes(*byte),
{
    if *byte.bytecode() == Instruction::STRINGIFY {
        1
    } else {
        byte.operand_u32() as u64 + 1
    }
}

fn refuse_with(msg: String) -> (r: Result<(), LowerError>)
    ensures
        r matches Err(x) && x@ == LowerErrV::Refused(msg@),
{
    Err(LowerError::Refused(msg))
}

fn refuse(msg: &str) -> (r: Result<(), LowerError>)
    ensures
        r matches Err(x) && x@ == LowerErrV::Refused(msg@),
{
    Err(refused(msg))
}

impl Walk {
    fn push(&mut self, c: Cell)
        ensures
            final(self)@ == old(self)@.push(c),
    {
        self.stack.push(c);
    }

    fn pop(&mut self) -> (r: Option<Cell>)
        ensures
            match r {
                Some(c) => old(self)@.stack.len() > 0 && c == old(self)@.stack.last() && final(self)@ == old(
                    self,
                )@.pop(),
                None => old(self)@.stack.len() == 0 && final(self)@ == old(self)@,
            },
    {
        self.stack.pop()
    }

    fn drop_top(&mut self, n: u64)
        ensures
            final(self)@ == old(self)@.drop_top(n as nat),
    {
        let len = self.stack.len();
        if n >= len as u64 {
            self.stack.clear();
        } else {
            self.stack.truncate(len - n as usize);
        }
        assert(self@.stack =~= old(self)@.drop_top(n as nat).stack);
    }

    fn squash(&mut self, n: u64, ty: Option<MirTy>)
        ensures
            final(self)@ == old(self)@.squash(n as nat, ty),
    {
        self.drop_top(n);
        self.push(tmp_cell(ty));
    }

    /// Copy of the top `n` cells, lowest first.
    fn top(&self, n: usize) -> (r: Vec<Cell>)
        requires
            n <= self@.stack.len(),
        ensures
            r@ == self@.stack.skip(self@.stack.len() - n),
    {
        let mut r: Vec<Cell> = Vec::new();
        let base = self.stack.len() - n;
        let mut i: usize = base;
        while i < self.stack.len()
            invariant
                base <= i <= self.stack@.len(),
                r@ == self.stack@.subrange(base as int, i as int),
            decreases self.stack@.len() - i,
        {
            r.push(self.stack[i]);
            i = i + 1;
            assert(r@ =~= self.stack@.subrange(base as int, i as int));
        }
        assert(r@ =~= self@.stack.skip(base as int));
        r
    }

    fn set_slot(&mut self, slot: u32, ty: MirTy) -> (r: Result<(), LowerError>)
        ensures
            did(r, old(self)@.set_slot(slot, ty), final(self)@),
            r is Err ==> final(self)@ == old(self)@,
    {
        let known = match self.slot_ty.get(&slot) {
            Some(t) => Some(*t),
            None => None,
        };
        match known {
            None => {
                self.slot_ty.insert(slot, ty);
                Ok(())
            },
            Some(old) => {
                if old == ty {
                    return Ok(());
                }
                let j = old.join(ty);
                if j.is_specialized() {
                    self.slot_ty.insert(slot, j);
                    Ok(())
                } else {
                    let d = dec_str(slot as u64);
                    let head = cat6("slot ", d.as_str(), " joins ", old.as_str(), " and ", ty.as_str());
                    refuse_with(cat3(head.as_str(), " to ", j.as_str()))
                }
            },
        }
    }

    fn paint(&mut self, c: Cell, ty: MirTy) -> (r: Result<(), LowerError>)
        ensures
            did(r, old(self)@.paint(c, ty), final(self)@),
            r is Err ==> final(self)@ == old(self)@,
    {
        match c.origin {
            Origin::Slot(s) => self.set_slot(s, ty),
            Origin::Pool(idx) => {
                let i = idx as usize;
                if i >= self.pool_ty.len() {
                    let d = dec_str(idx as u64);
                    return refuse_with(cat2("pool ", d.as_str()));
                }
                match self.pool_ty[i] {
                    None => {
                        self.pool_ty.set(i, Some(ty));
                    },
                    Some(old) => {
                        if old == ty || old.join(ty) == ty {
                            self.pool_ty.set(i, Some(old.join(ty)));
                        } else {
                            let d = dec_str(idx as u64);
                            return refuse_with(cat6("pool ", d.as_str(), " ", old.as_str(), " vs ", ty.as_str()));
                        }
                    },
                }
                Ok(())
            },
            Origin::Tmp => Ok(()),
        }
    }

    fn paint_own(&mut self, c: Cell) -> (r: Result<(), LowerError>)
        ensures
            did(r, old(self)@.paint_own(c), final(self)@),
    {
        if let Some(t) = c.ty {
            if t.is_heap_word() || t.is_numeric() {
                return self.paint(c, t);
            }
        }
        Ok(())
    }

    fn paint_all(&mut self, cells: &Vec<Cell>, tys: &Vec<MirTy>) -> (r: Result<(), LowerError>)
        requires
            cells@.len() == tys@.len(),
        ensures
            did(r, old(self)@.paint_all(cells@, tys@, 0), final(self)@),
    {
        let ghost s0 = self@;
        let mut i: usize = 0;
        while i < cells.len()
            invariant
                i <= cells@.len(),
                cells@.len() == tys@.len(),
                s0 == old(self)@,
                s0.paint_all(cells@, tys@, 0) == self@.paint_all(cells@, tys@, i as nat),
            decreases cells@.len() - i,
        {
            match self.paint(cells[i], tys[i]) {
                Ok(_) => {},
                Err(e) => {
                    return Err(e);
                },
            }
            i = i + 1;
        }
        Ok(())
    }

    fn count(&mut self, inst: Instruction)
        ensures
            final(self)@ == old(self)@.count(inst),
    {
        if is_float_arith(inst) {
            self.float_arith = true;
        }
        if is_int_arith(inst) {
            self.int_arith = true;
        }
    }

    fn make(&mut self, arity: u32) -> (r: Result<(), LowerError>)
        ensures
            did(r, old(self)@.make(arity as nat), final(self)@),
    {
        if (self.stack.len() as u64) < arity as u64 {
            return refuse("alloc stack");
        }
        self.squash(arity as u64, Some(MirTy::HeapRef));
        Ok(())
    }

    fn store(&mut self, slot: u32) -> (r: Result<(), LowerError>)
        ensures
            did(r, old(self)@.store(slot), final(self)@),
    {
        let c = match self.pop() {
            Some(c) => c,
            None => {
                return refuse("store stack");
            },
        };
        match c.imm {
            Some(v) => self.slot_imm.insert(slot, v),
            None => {
                let _ = self.slot_imm.remove(&slot);
            },
        }
        if let Some(ty) = c.ty {
            match self.set_slot(slot, ty) {
                Ok(_) => {},
                Err(e) => {
                    return Err(e);
                },
            }
            return self.paint(c, ty);
        }
        Ok(())
    }

    fn keep_heap(&mut self, l: Cell, rhs: Cell, res: MirTy) -> (r: Result<(), LowerError>)
        ensures
            did(r, old(self)@.keep_heap(l, rhs, res), final(self)@),
    {
        match self.paint_own(l) {
            Ok(_) => {},
            Err(e) => {
                return Err(e);
            },
        }
        match self.paint_own(rhs) {
            Ok(_) => {},
            Err(e) => {
                return Err(e);
            },
        }
        self.push(tmp_cell(Some(res)));
        Ok(())
    }

    fn apply_bin(&mut self, inst: Instruction) -> (r: Result<(), LowerError>)
        ensures
            did(r, old(self)@.bin(inst), final(self)@),
    {
        let rhs = match self.pop() {
            Some(c) => c,
            None => {
                return refuse("bin stack");
            },
        };
        let lhs = match self.pop() {
            Some(c) => c,
            None => {
                return refuse("bin stack");
            },
        };
        if matches!(inst, Instruction::Pow | Instruction::PowF | Instruction::AND | Instruction::OR) {
            return refuse_with(cat2("binop ", inst.mnemonic()));
        }
        let lh = heap_ty(lhs.ty);
        let rh = heap_ty(rhs.ty);
        if lh.is_some() || rh.is_some() {
            if is_compare(inst) && !is_float_inst(inst) {
                return self.keep_heap(lhs, rhs, MirTy::Bool);
            }
            if matches!(inst, Instruction::BITAND | Instruction::BITOR | Instruction::XOR) {
                let res = if inst == Instruction::BITOR {
                    MirTy::NicheRes
                } else if inst == Instruction::BITAND {
                    MirTy::HeapRef
                } else {
                    match (lh, rh) {
                        (Some(t), _) => t,
                        (None, Some(t)) => t,
                        (None, None) => MirTy::HeapRef,
                    }
                };
                return self.keep_heap(lhs, rhs, res);
            }
        }
        let ty = operand_ty(inst);
        self.count(inst);
        match self.paint(lhs, ty) {
            Ok(_) => {},
            Err(e) => {
                return Err(e);
            },
        }
        match self.paint(rhs, ty) {
            Ok(_) => {},
            Err(e) => {
                return Err(e);
            },
        }
        self.push_result(inst);
        Ok(())
    }

    fn push_result(&mut self, inst: Instruction)
        ensures
            final(self)@ == old(self)@.push(tmp(Some(result_type(inst)))),
    {
        let ty = if is_compare(inst) {
            MirTy::Bool
        } else {
            operand_ty(inst)
        };
        self.push(tmp_cell(Some(ty)));
    }

    fn bin_slot(&mut self, inst: Instruction, slot: u32) -> (r: Result<(), LowerError>)
        ensures
            did(r, old(self)@.bin_slot(inst, slot), final(self)@),
    {
        self.count(inst);
        match self.set_slot(slot, operand_ty(inst)) {
            Ok(_) => {},
            Err(e) => {
                return Err(e);
            },
        }
        self.push_result(inst);
        Ok(())
    }

    fn bin_slots(&mut self, inst: Instruction, a: u32, b: u32) -> (r: Result<(), LowerError>)
        ensures
            did(r, old(self)@.bin_slots(inst, a, b), final(self)@),
    {
        self.count(inst);
        match self.set_slot(a, operand_ty(inst)) {
            Ok(_) => {},
            Err(e) => {
                return Err(e);
            },
        }
        match self.set_slot(b, operand_ty(inst)) {
            Ok(_) => {},
            Err(e) => {
                return Err(e);
            },
        }
        self.push_result(inst);
        Ok(())
    }

    fn apply_index(&mut self, pinned: bool) -> (r: Result<(), LowerError>)
        ensures
            did(r, old(self)@.index(pinned), final(self)@),
    {
        let idx = match self.pop() {
            Some(c) => c,
            None => {
                return refuse("index stack");
            },
        };
        match self.paint(idx, MirTy::I64) {
            Ok(_) => {},
            Err(e) => {
                return Err(e);
            },
        }
        if !pinned {
            let arr = match self.pop() {
                Some(c) => c,
                None => {
                    return refuse("index stack");
                },
            };
            match self.paint(arr, MirTy::HeapRef) {
                Ok(_) => {},
                Err(e) => {
                    return Err(e);
                },
            }
        }
        self.push(tmp_cell(None));
        Ok(())
    }

    fn stored(&mut self, val: Cell) -> (r: Result<(), LowerError>)
        ensures
            did(r, old(self)@.stored(val), final(self)@),
    {
        if let Some(ty) = val.ty {
            if ty.is_word_lane() {
                match self.paint(val, ty) {
                    Ok(_) => {},
                    Err(e) => {
                        return Err(e);
                    },
                }
            }
        }
        self.push(val);
        Ok(())
    }

    fn apply_store_index(&mut self, pinned: bool) -> (r: Result<(), LowerError>)
        ensures
            did(r, old(self)@.store_index(pinned), final(self)@),
    {
        let val = match self.pop() {
            Some(c) => c,
            None => {
                return refuse("StoreIndex stack");
            },
        };
        let idx = match self.pop() {
            Some(c) => c,
            None => {
                return refuse("StoreIndex stack");
            },
        };
        match self.paint(idx, MirTy::I64) {
            Ok(_) => {},
            Err(e) => {
                return Err(e);
            },
        }
        if !pinned {
            let arr = match self.pop() {
                Some(c) => c,
                None => {
                    return refuse("StoreIndex stack");
                },
            };
            match self.paint(arr, MirTy::HeapRef) {
                Ok(_) => {},
                Err(e) => {
                    return Err(e);
                },
            }
        }
        self.stored(val)
    }

    fn apply_call(&mut self, arity: u32, ret_words: u32, target: u32, calls: &DenseCallMap) -> (r: Result<
        (),
        LowerError,
    >)
        ensures
            did(r, old(self)@.call(arity as nat, ret_words, target, calls_view(calls@)), final(self)@),
    {
        if ret_words != 1 {
            return refuse("dense CALL is one-word");
        }
        if (self.stack.len() as u64) < arity as u64 {
            return refuse("CALL stack");
        }
        let n = arity as usize;
        let args = self.top(n);
        self.drop_top(arity as u64);
        if let Some(abi) = calls.get(&target) {
            if abi.params.len() != n {
                return refuse("CALL arity");
            }
            match self.paint_all(&args, &abi.params) {
                Ok(_) => {},
                Err(e) => {
                    return Err(e);
                },
            }
            self.push(tmp_cell(Some(abi.ret)));
            return Ok(());
        }
        self.push(tmp_cell(None));
        Ok(())
    }

    fn apply_host_map(&mut self, arity: u32, layout: u8) -> (r: Result<(), LowerError>)
        ensures
            did(r, old(self)@.host_map(arity as nat, layout), final(self)@),
    {
        if layout != 0 {
            return refuse("HostInvoke layout");
        }
        if self.stack.len() as u64 <= arity as u64 {
            return refuse("HostInvoke stack");
        }
        self.squash(arity as u64 + 1, Some(MirTy::I64));
        Ok(())
    }

    fn apply_host(&mut self, arity: u32, layout: u8) -> (r: Result<(), LowerError>)
        ensures
            did(r, old(self)@.host(arity as nat, layout), final(self)@),
    {
        if layout != 0 {
            return refuse("HostInvoke");
        }
        if self.stack.len() as u64 <= arity as u64 {
            return refuse("HostInvoke stack");
        }
        let n = arity as usize;
        let fn_cell = self.stack[self.stack.len() - n - 1];
        let v = match fn_cell.imm {
            Some(v) => v,
            None => {
                return refuse("HostInvoke");
            },
        };
        if v < 0 || v >= 0x1_0000 {
            return refuse("HostInvoke");
        }
        let spec = match host_edge_spec(&self.hosts, v as u16) {
            Some(spec) => spec,
            None => {
                return refuse("HostInvoke");
            },
        };
        if spec.args.len() != n {
            return refuse_with(cat3("HostInvoke ", spec.name, " arity"));
        }
        let args = self.top(n);
        self.drop_top(arity as u64 + 1);
        match self.paint_all(&args, &spec.args) {
            Ok(_) => {},
            Err(e) => {
                return Err(e);
            },
        }
        self.push(tmp_cell(Some(spec.ret)));
        Ok(())
    }

    fn append(&mut self) -> (r: Result<(), LowerError>)
        ensures
            did(r, old(self)@.append(), final(self)@),
    {
        if self.stack.len() < 2 {
            return refuse("ArrayPush stack");
        }
        let _value = self.pop();
        self.unary("ArrayPush stack", MirTy::HeapRef, MirTy::HeapRef)
    }

    fn get_field(&mut self) -> (r: Result<(), LowerError>)
        ensures
            did(r, old(self)@.get_field(), final(self)@),
    {
        if self.stack.len() < 2 {
            return refuse("field stack");
        }
        let _name = self.pop();
        let object = match self.pop() {
            Some(c) => c,
            None => {
                return refuse("field stack");
            },
        };
        match self.paint(object, MirTy::HeapRef) {
            Ok(_) => {},
            Err(e) => {
                return Err(e);
            },
        }
        self.push(tmp_cell(None));
        Ok(())
    }

    fn set_field(&mut self, named: bool) -> (r: Result<(), LowerError>)
        ensures
            did(r, old(self)@.set_field(named), final(self)@),
    {
        if named {
            self.drop_top(1);
        }
        if self.stack.len() < 2 {
            return refuse("field stack");
        }
        let object = match self.pop() {
            Some(c) => c,
            None => {
                return refuse("field stack");
            },
        };
        let value = match self.pop() {
            Some(c) => c,
            None => {
                return refuse("field stack");
            },
        };
        match self.paint(object, MirTy::HeapRef) {
            Ok(_) => {},
            Err(e) => {
                return Err(e);
            },
        }
        self.stored(value)
    }

    fn format(&mut self, byte: &Byte) -> (r: Result<(), LowerError>)
        ensures
            did(r, old(self)@.format(*byte), final(self)@),
    {
        let n = count_format_takes(byte);
        if (self.stack.len() as u64) < n {
            return refuse("format stack");
        }
        self.squash(n, Some(MirTy::HeapRef));
        Ok(())
    }

    fn unary(&mut self, empty: &str, ty: MirTy, res: MirTy) -> (r: Result<(), LowerError>)
        ensures
            did(r, old(self)@.unary(empty@, ty, res), final(self)@),
    {
        let c = match self.pop() {
            Some(c) => c,
            None => {
                return refuse(empty);
            },
        };
        match self.paint(c, ty) {
            Ok(_) => {},
            Err(e) => {
                return Err(e);
            },
        }
        self.push(tmp_cell(Some(res)));
        Ok(())
    }

    fn apply_byte(&mut self, byte: &Byte, mode: InferMode, alloc: bool) -> (r: Result<(), LowerError>)
        ensures
            did(r, old(self)@.byte(*byte, mode, alloc), final(self)@),
    {
        let inst = *byte.bytecode();
        if inst == Instruction::CastIntToFloat {
            return self.unary("cast stack", MirTy::I64, MirTy::F64);
        }
        if inst == Instruction::NEGF {
            return self.unary("negf stack", MirTy::F64, MirTy::F64);
        }
        if inst == Instruction::NEG {
            let n = self.stack.len();
            if n == 0 {
                return refuse("neg stack");
            }
            let ty = match self.stack[n - 1].ty {
                Some(t) => t,
                None => MirTy::I64,
            };
            return self.unary("neg stack", ty, ty);
        }
        if inst == Instruction::NOT {
            if self.pop().is_none() {
                return refuse("not stack");
            }
            self.push(tmp_cell(Some(MirTy::Bool)));
            return Ok(());
        }
        if inst == Instruction::Seek && mode.lir_shape() {
            return Ok(());
        }
        if inst == Instruction::Unpack && mode.lir_shape() {
            let arity = byte.operand_u32();
            if arity > 1 {
                return refuse("Unpack arity > 1 (I2)");
            }
            if self.pop().is_none() {
                return refuse("Unpack stack");
            }
            if arity == 1 {
                self.push(tmp_cell(Some(MirTy::I64)));
            }
            return Ok(());
        }
        if inst == Instruction::ArrayLen {
            return self.unary("ArrayLen stack", MirTy::HeapRef, MirTy::I64);
        }
        if inst == Instruction::StoreIndex || inst == Instruction::StoreIndexUnchecked {
            return self.apply_store_index(false);
        }
        if inst == Instruction::INC || inst == Instruction::DEC {
            let (slot, _prefix, is_float) = byte.inc_dec_parts();
            if is_float {
                self.float_arith = true;
                return self.set_slot(slot, MirTy::F64);
            }
            self.int_arith = true;
            return self.set_slot(slot, MirTy::I64);
        }
        if is_format_inst(inst) {
            if mode == InferMode::Maps {
                return self.format(byte);
            }
            return refuse("format");
        }
        if inst == Instruction::ArrayPush && mode == InferMode::Maps {
            return self.append();
        }
        if alloc && is_alloc_inst(inst) {
            self.push(tmp_cell(Some(MirTy::HeapRef)));
            return Ok(());
        }
        refuse_with(cat2("residual byte ", inst.mnemonic()))
    }

    fn load(&mut self, slot: u32, imms: bool)
        ensures
            final(self)@ == old(self)@.load(slot, imms),
    {
        let ty = match self.slot_ty.get(&slot) {
            Some(t) => Some(*t),
            None => None,
        };
        let imm = if imms {
            match self.slot_imm.get(&slot) {
                Some(v) => Some(*v),
                None => None,
            }
        } else {
            None
        };
        self.push(Cell { origin: Origin::Slot(slot), ty, imm });
    }

    fn load_pool(&mut self, idx: u32)
        ensures
            final(self)@ == old(self)@.load_pool(idx),
    {
        let i = idx as usize;
        let ty = if i < self.pool_ty.len() {
            self.pool_ty[i]
        } else {
            None
        };
        self.push(Cell { origin: Origin::Pool(idx), ty, imm: None });
    }

    fn refuse_other(op: &IlOp) -> (r: Result<(), LowerError>)
        ensures
            r matches Err(x) && x@ == LowerErrV::Refused("non-numeric IL ("@ + refused_kind(*op) + ")"@),
    {
        refuse_with(cat3("non-numeric IL (", refuse_il_kind(op), ")"))
    }

    fn step(&mut self, op: &IlOp, mode: InferMode, alloc: bool, calls: &DenseCallMap) -> (r: Result<
        (),
        LowerError,
    >)
        ensures
            did(r, old(self)@.step(*op, mode, alloc, calls_view(calls@)), final(self)@),
    {
        match op {
            IlOp::Label(_) | IlOp::JoinLabel(_) => Ok(()),
            IlOp::Load { slot, .. } => {
                self.load(*slot, true);
                Ok(())
            },
            IlOp::MakeArray { arity, .. } => if alloc {
                self.make(*arity)
            } else {
                Self::refuse_other(op)
            },
            IlOp::MakeTuple { arity, .. } => if alloc {
                self.make(*arity)
            } else {
                Self::refuse_other(op)
            },
            IlOp::MakeEnum { arity, .. } => if alloc {
                self.make(*arity as u32)
            } else {
                Self::refuse_other(op)
            },
            IlOp::StorePop { slot, .. } => self.store(*slot),
            IlOp::Const { imm, .. } => {
                self.push(Cell { origin: Origin::Tmp, ty: Some(MirTy::I64), imm: Some(*imm as i64) });
                Ok(())
            },
            IlOp::ConstPool { idx, .. } => {
                self.load_pool(*idx);
                Ok(())
            },
            IlOp::Dup { .. } => {
                let n = self.stack.len();
                if n == 0 {
                    return refuse("dup stack");
                }
                let c = self.stack[n - 1];
                self.push(c);
                Ok(())
            },
            IlOp::Pop { .. } => {
                if self.pop().is_none() {
                    return refuse("pop stack");
                }
                Ok(())
            },
            IlOp::LogNot { .. } => {
                if self.pop().is_none() {
                    return refuse("not stack");
                }
                self.push(tmp_cell(Some(MirTy::Bool)));
                Ok(())
            },
            IlOp::Index { .. } | IlOp::IndexUnchecked { .. } => self.apply_index(false),
            IlOp::IndexPin { .. } | IlOp::IndexPinUnchecked { .. } => self.apply_index(true),
            IlOp::StoreIndexPin { .. } | IlOp::StoreIndexPinUnchecked { .. } => self.apply_store_index(true),
            IlOp::ArrayPin { .. } => {
                let arr = match self.pop() {
                    Some(c) => c,
                    None => {
                        return refuse("ArrayPin stack");
                    },
                };
                self.paint(arr, MirTy::HeapRef)
            },
            IlOp::Bin { op: inst, .. } => self.apply_bin(*inst),
            IlOp::BinSlotImm { op: inst, slot, .. } => self.bin_slot(*inst, *slot as u32),
            IlOp::BinSlotSlot { op: inst, a, b, .. } => self.bin_slots(*inst, *a as u32, *b as u32),
            IlOp::Byte { byte, .. } => self.apply_byte(byte, mode, alloc),
            IlOp::Jump { kind: IlJumpKind::JumpIfMatch { arity, .. }, .. } => {
                if !mode.lir_shape() {
                    return refuse("match");
                }
                if *arity > 1 {
                    return refuse("JumpIfMatch arity > 1 (keep fuse-IL)");
                }
                if self.stack.len() == 0 {
                    return refuse("JumpIfMatch stack");
                }
                Ok(())
            },
            IlOp::Jump { .. } => Ok(()),
            IlOp::Halt { .. } => Ok(()),
            IlOp::Return { ret_words, .. } => {
                if *ret_words == 1 || (*ret_words == 2 && mode.lir_shape()) {
                    Ok(())
                } else {
                    refuse("multi-word return")
                }
            },
            IlOp::HostInvoke { arity, layout, .. } => if mode == InferMode::Maps {
                self.apply_host_map(*arity, *layout)
            } else {
                self.apply_host(*arity, *layout)
            },
            IlOp::Entry { kind, arity, target, ret_words, .. } => if *kind == EntryKind::Call && mode
                == InferMode::Dense {
                self.apply_call(*arity, *ret_words, target.0, calls)
            } else {
                Self::refuse_other(op)
            },
            IlOp::String { .. } => {
                if mode != InferMode::Maps {
                    return Self::refuse_other(op);
                }
                self.push(tmp_cell(Some(MirTy::HeapRef)));
                Ok(())
            },
            IlOp::GetField { .. } => {
                if mode != InferMode::Maps {
                    return Self::refuse_other(op);
                }
                self.get_field()
            },
            IlOp::SetField { index, .. } => {
                if mode != InferMode::Maps {
                    return Self::refuse_other(op);
                }
                self.set_field(index.is_none())
            },
            _ => Self::refuse_other(op),
        }
    }

    fn back(&mut self, op: &IlOp, alloc: bool)
        ensures
            final(self)@ == old(self)@.back(*op, alloc),
    {
        match op {
            IlOp::Load { slot, .. } => self.load(*slot, false),
            IlOp::Const { .. } => self.push(tmp_cell(Some(MirTy::I64))),
            IlOp::ConstPool { idx, .. } => self.load_pool(*idx),
            IlOp::Dup { .. } => {
                let n = self.stack.len();
                if n > 0 {
                    let c = self.stack[n - 1];
                    self.push(c);
                }
            },
            IlOp::Pop { .. } | IlOp::ArrayPin { .. } => self.drop_top(1),
            IlOp::LogNot { .. } => self.squash(1, Some(MirTy::Bool)),
            IlOp::Bin { .. } => self.squash(2, None),
            IlOp::MakeArray { arity, .. } | IlOp::MakeTuple { arity, .. } => {
                if alloc {
                    self.squash(*arity as u64, Some(MirTy::HeapRef));
                }
            },
            IlOp::MakeEnum { arity, .. } => {
                if alloc {
                    self.squash(*arity as u64, Some(MirTy::HeapRef));
                }
            },
            IlOp::StorePop { slot, .. } => {
                let top = self.pop();
                if let Some(c) = top {
                    let known = match self.slot_ty.get(slot) {
                        Some(t) => Some(*t),
                        None => None,
                    };
                    if let Some(ty) = known {
                        let _ = self.paint(c, ty);
                    }
                }
            },
            IlOp::BinSlotImm { .. } | IlOp::BinSlotSlot { .. } => self.push(tmp_cell(None)),
            IlOp::Index { .. } | IlOp::IndexUnchecked { .. } => self.squash(2, None),
            IlOp::IndexPin { .. } | IlOp::IndexPinUnchecked { .. } => self.squash(1, None),
            IlOp::StoreIndexPin { .. } | IlOp::StoreIndexPinUnchecked { .. } => self.squash(2, None),
            IlOp::HostInvoke { arity, .. } => self.squash(*arity as u64 + 1, None),
            IlOp::Entry { kind, arity, .. } => {
                if *kind == EntryKind::Call {
                    self.squash(*arity as u64, None);
                }
            },
            IlOp::Byte { byte, .. } => {
                let inst = *byte.bytecode();
                if inst == Instruction::ArrayLen {
                    self.squash(1, Some(MirTy::I64));
                } else if inst == Instruction::StoreIndex || inst == Instruction::StoreIndexUnchecked {
                    self.squash(3, None);
                } else if matches!(
                    inst,
                    Instruction::CastIntToFloat | Instruction::NEGF | Instruction::NEG | Instruction::NOT
                ) {
                    self.squash(1, None);
                } else if is_format_inst(inst) {
                    self.squash(count_format_takes(byte), Some(MirTy::HeapRef));
                } else if inst == Instruction::ArrayPush {
                    self.squash(2, Some(MirTy::HeapRef));
                }
            },
            IlOp::String { .. } => self.push(tmp_cell(Some(MirTy::HeapRef))),
            IlOp::GetField { .. } => self.squash(2, None),
            IlOp::SetField { index, .. } => {
                if index.is_none() {
                    self.squash(3, None);
                } else {
                    self.squash(2, None);
                }
            },
            _ => {},
        }
    }
}

/// The type, when it is a heap word.
fn heap_ty(t: Option<MirTy>) -> (r: Option<MirTy>)
    ensures
        r == (match t {
            Some(x) => if x.heap_word() {
                Some(x)
            } else {
                None
            },
            None => None,
        }),
{
    match t {
        Some(x) => if x.is_heap_word() {
            Some(x)
        } else {
            None
        },
        None => None,
    }
}

fn fill_params(m: &mut IdMap<MirTy>, n: u32)
    ensures
        final(m)@ == with_params(old(m)@, n),
{
    let ghost m0 = m@;
    let mut i: u32 = 0;
    assert(m@ =~= with_params(m0, 0));
    while i < n
        invariant
            i <= n,
            m@ == with_params(m0, i),
        decreases n - i,
    {
        if !m.contains_key(&i) {
            m.insert(i, MirTy::I64);
        }
        i = i + 1;
        assert(m@ =~= with_params(m0, i));
    }
}

fn any_niche(m: &IdMap<MirTy>) -> (r: bool)
    ensures
        r == has_niche(m@),
{
    m.check_order();
    let mut i: usize = 0;
    while i < m.len()
        invariant
            i <= m.pairs().len(),
            forall|j: int|
                0 <= j < i ==> !((#[trigger] m.pairs()[j]).1 is NicheOpt || m.pairs()[j].1 is NicheRes),
        decreases m.pairs().len() - i,
    {
        let (k, t) = m.entry_at(i);
        if *t == MirTy::NicheOpt || *t == MirTy::NicheRes {
            return true;
        }
        i = i + 1;
    }
    proof {
        if has_niche(m@) {
            let k = choose|k: u32| #[trigger] m@.dom().contains(k) && (m@[k] is NicheOpt || m@[k] is NicheRes);
            let j = choose|j: int| 0 <= j < m.pairs().len() && (#[trigger] m.pairs()[j]).0 == k;
            m.pairs_are_the_entries();
            assert(m.pairs()[j].1 == m@[k]);
        }
    }
    false
}

/// Relates an inference result to its specification.
pub open spec fn types_are(r: Result<Inferred, LowerError>, s: Result<InferredV, Seq<char>>) -> bool {
    match s {
        Ok(v) => r matches Ok(x) && x@ == v,
        Err(e) => r matches Err(x) && x@ == LowerErrV::Refused(e),
    }
}

fn infer_walk(
    ops: &[IlOp],
    pool_len: usize,
    param_count: u32,
    mode: InferMode,
    calls: &DenseCallMap,
    seed: &IdMap<MirTy>,
    allow_alloc: bool,
    hosts: &Vec<HostNative>,
) -> (r: Result<Inferred, LowerError>)
    ensures
        types_are(
            r,
            inferred(
                ops@,
                pool_len as nat,
                param_count,
                mode,
                calls_view(calls@),
                seed@,
                allow_alloc,
                hosts@,
            ),
        ),
{
    if mode == InferMode::Dense && !has_back_edge(ops) {
        let work = numeric_work_ops(ops);
        if work < STRAIGHT_LINE_MIN_WORK_OPS {
            let w = dec_str(work as u64);
            let m = dec_str(STRAIGHT_LINE_MIN_WORK_OPS as u64);
            return Err(LowerError::Refused(cat4("straight-line work ", w.as_str(), " < ", m.as_str())));
        }
    }
    let alloc = mode == InferMode::Maps || allow_alloc;
    let mut pool_ty: Vec<Option<MirTy>> = Vec::new();
    let mut k: usize = 0;
    while k < pool_len
        invariant
            k <= pool_len,
            pool_ty@ == Seq::new(k as nat, |i: int| None::<MirTy>),
        decreases pool_len - k,
    {
        pool_ty.push(None);
        k = k + 1;
        assert(pool_ty@ =~= Seq::new(k as nat, |i: int| None::<MirTy>));
    }
    let mut w = Walk {
        slot_ty: seed.copied(),
        pool_ty,
        stack: Vec::new(),
        has_i32: false,
        float_arith: false,
        int_arith: false,
        slot_imm: IdMap::new(),
        hosts: copy_rows(hosts),
    };
    let ghost w0 = w@;
    assert(w0 =~= start_walk(seed@, pool_len as nat, hosts@));
    let ghost cv = calls_view(calls@);
    let ghost goal = inferred(ops@, pool_len as nat, param_count, mode, cv, seed@, allow_alloc, hosts@);
    let mut i: usize = 0;
    while i < ops.len()
        invariant
            i <= ops@.len(),
            cv == calls_view(calls@),
            alloc == (mode is Maps || allow_alloc),
            w0 == start_walk(seed@, pool_len as nat, hosts@),
            goal == inferred(ops@, pool_len as nat, param_count, mode, cv, seed@, allow_alloc, hosts@),
            !(mode is Dense && !back_edge(ops@) && work_count(ops@, ops@.len()) < STRAIGHT_LINE_MIN_WORK_OPS),
            forward(w0, ops@, 0, mode, alloc, cv) == forward(w@, ops@, i as nat, mode, alloc, cv),
        decreases ops@.len() - i,
    {
        match w.step(&ops[i], mode, alloc, calls) {
            Ok(_) => {},
            Err(e) => {
                return Err(e);
            },
        }
        i = i + 1;
    }
    let ghost w1 = w@;
    w.stack = Vec::new();
    let ghost w2 = w@;
    assert(w2 =~= WalkV { stack: Seq::empty(), ..w1 });
    let mut j: usize = 0;
    while j < ops.len()
        invariant
            j <= ops@.len(),
            backward(w2, ops@, 0, alloc) == backward(w@, ops@, j as nat, alloc),
        decreases ops@.len() - j,
    {
        w.back(&ops[j], alloc);
        j = j + 1;
    }
    let Walk { slot_ty: mut slots, pool_ty, has_i32, float_arith, int_arith, .. } = w;
    fill_params(&mut slots, param_count);
    if mode == InferMode::Dense && any_niche(&slots) {
        return Err(refused("dense infer refuses niche slots (I2 match stays LIR)"));
    }
    if mode == InferMode::Dense && !float_arith && !has_i32 && !int_arith {
        return Err(
            refused("need float + - * / , i64 + - * / % , or i32 (compare-only stays on fuse-IL)"),
        );
    }
    Ok(
        Inferred {
            slot_ty: slots,
            pool_ty,
            has_i32,
            has_float_arith: float_arith,
            has_i64_arith: int_arith,
        },
    )
}

/// Types of a dense body without known callees. Host calls go by the table `hosts`, here and below.
pub fn infer_numeric(ops: &[IlOp], pool_len: usize, param_count: u32, hosts: &Vec<HostNative>) -> (r: Result<
    Inferred,
    LowerError,
>)
    ensures
        types_are(
            r,
            inferred(ops@, pool_len as nat, param_count, InferMode::Dense, Map::empty(), Map::empty(), false, hosts@),
        ),
{
    let calls: DenseCallMap = IdMap::new();
    assert(calls_view(calls@) =~= Map::empty());
    infer_walk(ops, pool_len, param_count, InferMode::Dense, &calls, &IdMap::new(), false, hosts)
}

/// Like [`infer_numeric`]; calls of mapped callees type their arguments.
pub fn infer_numeric_with(
    ops: &[IlOp],
    pool_len: usize,
    param_count: u32,
    calls: &DenseCallMap,
    hosts: &Vec<HostNative>,
) -> (r: Result<Inferred, LowerError>)
    ensures
        types_are(
            r,
            inferred(
                ops@,
                pool_len as nat,
                param_count,
                InferMode::Dense,
                calls_view(calls@),
                Map::empty(),
                false,
                hosts@,
            ),
        ),
{
    infer_walk(ops, pool_len, param_count, InferMode::Dense, calls, &IdMap::new(), false, hosts)
}

/// Dense types of a body whose allocations have collector maps.
pub fn infer_numeric_across_alloc(
    ops: &[IlOp],
    pool_len: usize,
    param_count: u32,
    calls: &DenseCallMap,
    hosts: &Vec<HostNative>,
) -> (r: Result<Inferred, LowerError>)
    ensures
        types_are(
            r,
            inferred(
                ops@,
                pool_len as nat,
                param_count,
                InferMode::Dense,
                calls_view(calls@),
                Map::empty(),
                true,
                hosts@,
            ),
        ),
{
    infer_walk(ops, pool_len, param_count, InferMode::Dense, calls, &IdMap::new(), true, hosts)
}

/// Types for stack code that goes through SSA form. No loop is needed.
pub fn infer_lir(ops: &[IlOp], pool_len: usize, param_count: u32, hosts: &Vec<HostNative>) -> (r: Result<
    Inferred,
    LowerError,
>)
    ensures
        types_are(
            r,
            inferred(ops@, pool_len as nat, param_count, InferMode::Lir, Map::empty(), Map::empty(), false, hosts@),
        ),
{
    infer_lir_with_seed(ops, pool_len, param_count, &IdMap::new(), hosts)
}

/// Like [`infer_lir`], with slots whose types are known.
pub fn infer_lir_with_seed(
    ops: &[IlOp],
    pool_len: usize,
    param_count: u32,
    seed: &IdMap<MirTy>,
    hosts: &Vec<HostNative>,
) -> (r: Result<Inferred, LowerError>)
    ensures
        types_are(
            r,
            inferred(ops@, pool_len as nat, param_count, InferMode::Lir, Map::empty(), seed@, false, hosts@),
        ),
{
    let calls: DenseCallMap = IdMap::new();
    assert(calls_view(calls@) =~= Map::empty());
    infer_walk(ops, pool_len, param_count, InferMode::Lir, &calls, seed, false, hosts)
}

/// Like [`infer_lir`], for a body whose allocations have collector maps.
pub fn infer_lir_across_alloc(
    ops: &[IlOp],
    pool_len: usize,
    param_count: u32,
    hosts: &Vec<HostNative>,
) -> (r: Result<Inferred, LowerError>)
    ensures
        types_are(
            r,
            inferred(ops@, pool_len as nat, param_count, InferMode::Lir, Map::empty(), Map::empty(), true, hosts@),
        ),
{
    let calls: DenseCallMap = IdMap::new();
    assert(calls_view(calls@) =~= Map::empty());
    infer_walk(ops, pool_len, param_count, InferMode::Lir, &calls, &IdMap::new(), true, hosts)
}

/// Types for collector maps: like [`infer_lir_with_seed`], with allocation.
pub fn infer_stack_map(
    ops: &[IlOp],
    pool_len: usize,
    param_count: u32,
    seed: &IdMap<MirTy>,
    hosts: &Vec<HostNative>,
) -> (r: Result<Inferred, LowerError>)
    ensures
        types_are(
            r,
            inferred(ops@, pool_len as nat, param_count, InferMode::Maps, Map::empty(), seed@, true, hosts@),
        ),
{
    let calls: DenseCallMap = IdMap::new();
    assert(calls_view(calls@) =~= Map::empty());
    infer_walk(ops, pool_len, param_count, InferMode::Maps, &calls, seed, true, hosts)
}

} // verus!

//! Stack code to SSA.
//!
//! The operand stack is carried symbolically. Each label or terminator starts
//! or ends a block; slots become source locals of the builder.
use super::abi::{calls_view, AbiV, DenseCallMap};
use super::builder::{outcome, BuildV, MirBuilder, MirError};
use super::func::{empty_block, empty_func, FuncV, MirFunc};
use super::host_allow::{copy_rows, HostNative};
use super::gc::{alloc_inst, is_alloc_inst};
use super::inst::{
    copy_ids, BlockId, InstV, LocalId, MirAllocKind, MirBinOp, MirCastKind, MirCmpOp, MirConst, MirGcKind, MirInst,
    TermV, Terminator, ValueId,
};
use super::string_barrier::{format_inst, is_format_inst};
use super::ty::MirTy;
use crate::idmap::IdMap;
use crate::ids::listing_holds_the_members;
use crate::il::op::{Byte, EntryKind, IlJumpKind, IlOp, Instruction, Label};
use crate::text::{cat2, cat3, cat4, dec, dec_str};
use vstd::prelude::*;

verus! {

#[derive(Debug, PartialEq, Eq)]
pub enum LowerError {
    /// The body is outside the supported subset.
    Refused(String),
    /// SSA construction failed.
    Mir(MirError),
}

/// Mathematical form of [`LowerError`].
pub enum LowerErrV {
    Refused(Seq<char>),
    Mir(Seq<char>),
}

impl View for LowerError {
    type V = LowerErrV;

    open spec fn view(&self) -> LowerErrV {
        match self {
            LowerError::Refused(s) => LowerErrV::Refused(s@),
            LowerError::Mir(e) => LowerErrV::Mir(e@),
        }
    }
}

impl LowerError {
    /// Message text.
    pub fn message(&self) -> (r: String)
        ensures
            r@ == (match self@ {
                LowerErrV::Refused(s) => "numeric MIR refused: "@ + s,
                LowerErrV::Mir(s) => s,
            }),
    {
        match self {
            LowerError::Refused(s) => cat2("numeric MIR refused: ", s.as_str()),
            LowerError::Mir(e) => e.message().to_owned(),
        }
    }
}

/// Refusal with a fixed text.
pub fn refused(msg: &str) -> (r: LowerError)
    ensures
        r@ == LowerErrV::Refused(msg@),
{
    LowerError::Refused(msg.to_owned())
}

// Hints.

/// Slot and constant types of a fragment, and what it may hold.
#[derive(Debug)]
pub struct LowerHints {
    pub name: String,
    pub slot_ty: IdMap<MirTy>,
    pub default_int: MirTy,
    pub default_float: MirTy,
    pub pool: Vec<u64>,
    pub pool_ty: Vec<Option<MirTy>>,
    /// Slots `0..param_count` are parameters.
    pub param_count: u32,
    /// Callees with a one-word signature, by entry label.
    pub calls: DenseCallMap,
    /// Tag matches, and values on the stack across block ends.
    pub allow_match: bool,
    /// Slot ranges `(base, n)` of unboxed classes.
    pub unboxed_fields: Vec<(u32, u32)>,
    /// Slots of unboxed classes become field accesses.
    pub allow_fields: bool,
    /// Allocations become collector edges.
    pub allow_alloc: bool,
    /// Array reads, writes, lengths and appends.
    pub allow_index: bool,
    /// Host calls outside the precise table.
    pub allow_effects: bool,
    /// Strings, printing and formatting.
    pub allow_string: bool,
    /// Fields of heap objects.
    pub allow_heap_fields: bool,
    /// Leave the finished function unchecked.
    pub skip_verify: bool,
    /// Host table that types the host calls; row `i` has id `i`.
    pub hosts: Vec<HostNative>,
}

/// Mathematical form of [`LowerHints`].
#[verifier::ext_equal]
pub struct HintsV {
    pub name: Seq<char>,
    pub slot_ty: Map<u32, MirTy>,
    pub default_int: MirTy,
    pub default_float: MirTy,
    pub pool: Seq<u64>,
    pub pool_ty: Seq<Option<MirTy>>,
    pub param_count: u32,
    pub calls: Map<u32, AbiV>,
    pub allow_match: bool,
    pub unboxed_fields: Seq<(u32, u32)>,
    pub allow_fields: bool,
    pub allow_alloc: bool,
    pub allow_index: bool,
    pub allow_effects: bool,
    pub allow_string: bool,
    pub allow_heap_fields: bool,
    pub skip_verify: bool,
    pub hosts: Seq<HostNative>,
}

impl View for LowerHints {
    type V = HintsV;

    open spec fn view(&self) -> HintsV {
        HintsV {
            name: self.name@,
            slot_ty: self.slot_ty@,
            default_int: self.default_int,
            default_float: self.default_float,
            pool: self.pool@,
            pool_ty: self.pool_ty@,
            param_count: self.param_count,
            calls: calls_view(self.calls@),
            allow_match: self.allow_match,
            unboxed_fields: self.unboxed_fields@,
            allow_fields: self.allow_fields,
            allow_alloc: self.allow_alloc,
            allow_index: self.allow_index,
            allow_effects: self.allow_effects,
            allow_string: self.allow_string,
            allow_heap_fields: self.allow_heap_fields,
            skip_verify: self.skip_verify,
            hosts: self.hosts@,
        }
    }
}

/// Hints that allow nothing beyond plain numeric code.
pub open spec fn plain_hints(name: Seq<char>, hosts: Seq<HostNative>) -> HintsV {
    HintsV {
        name,
        slot_ty: Map::empty(),
        default_int: MirTy::I64,
        default_float: MirTy::F64,
        pool: Seq::empty(),
        pool_ty: Seq::empty(),
        param_count: 0,
        calls: Map::empty(),
        allow_match: false,
        unboxed_fields: Seq::empty(),
        allow_fields: false,
        allow_alloc: false,
        allow_index: false,
        allow_effects: false,
        allow_string: false,
        allow_heap_fields: false,
        skip_verify: false,
        hosts,
    }
}

/// First range from `i` on that holds `slot`.
pub open spec fn range_of(ranges: Seq<(u32, u32)>, slot: u32, i: nat) -> Option<(u32, u32)>
    decreases ranges.len() - i,
{
    if i >= ranges.len() {
        None
    } else if ranges[i as int].0 <= slot < ranges[i as int].0 + ranges[i as int].1 {
        Some((ranges[i as int].0, (slot - ranges[i as int].0) as u32))
    } else {
        range_of(ranges, slot, i + 1)
    }
}

impl HintsV {
    pub open spec fn slot(self, slot: u32) -> MirTy {
        if self.slot_ty.dom().contains(slot) {
            self.slot_ty[slot]
        } else {
            self.default_int
        }
    }

    /// Base and field number of an unboxed class slot.
    pub open spec fn field_of(self, slot: u32) -> Option<(u32, u32)> {
        if self.allow_fields {
            range_of(self.unboxed_fields, slot, 0)
        } else {
            None
        }
    }

    /// Typed constant at a pool position.
    pub open spec fn pool_const(self, idx: u32) -> Result<MirConst, Seq<char>> {
        let ty = if idx < self.pool_ty.len() && self.pool_ty[idx as int] is Some {
            self.pool_ty[idx as int]->0
        } else {
            self.default_int
        };
        let bits = self.pool[idx as int];
        if idx >= self.pool.len() {
            Err("const pool "@ + dec(idx as nat))
        } else {
            match ty {
                MirTy::I32 => Ok(MirConst::I32(bits as i32)),
                MirTy::I64 => Ok(MirConst::I64(bits as i64)),
                MirTy::F32 => Ok(MirConst::F32(bits as u32)),
                MirTy::F64 => Ok(MirConst::F64(bits)),
                MirTy::Bool => Ok(MirConst::Bool(bits != 0)),
                _ => Err("const pool "@ + dec(idx as nat) + " has type "@ + ty.text()),
            }
        }
    }
}

impl LowerHints {
    pub fn new(name: &str, hosts: &Vec<HostNative>) -> (r: Self)
        ensures
            r@ == plain_hints(name@, hosts@),
    {
        let r = LowerHints {
            name: name.to_owned(),
            slot_ty: IdMap::new(),
            default_int: MirTy::I64,
            default_float: MirTy::F64,
            pool: Vec::new(),
            pool_ty: Vec::new(),
            param_count: 0,
            calls: IdMap::new(),
            allow_match: false,
            unboxed_fields: Vec::new(),
            allow_fields: false,
            allow_alloc: false,
            allow_index: false,
            allow_effects: false,
            allow_string: false,
            allow_heap_fields: false,
            skip_verify: false,
            hosts: copy_rows(hosts),
        };
        assert(r@ =~= plain_hints(name@, hosts@));
        r
    }

    fn slot(&self, slot: u32) -> (r: MirTy)
        ensures
            r == self@.slot(slot),
    {
        match self.slot_ty.get(&slot) {
            Some(t) => *t,
            None => self.default_int,
        }
    }

    fn field_of(&self, slot: u32) -> (r: Option<(u32, u32)>)
        ensures
            r == self@.field_of(slot),
            r matches Some(p) ==> p.0 + p.1 == slot,
    {
        if !self.allow_fields {
            return None;
        }
        let mut i: usize = 0;
        while i < self.unboxed_fields.len()
            invariant
                self.allow_fields,
                i <= self.unboxed_fields@.len(),
                range_of(self.unboxed_fields@, slot, 0) == range_of(self.unboxed_fields@, slot, i as nat),
            decreases self.unboxed_fields@.len() - i,
        {
            let (base, n) = self.unboxed_fields[i];
            if slot >= base && slot - base < n {
                return Some((base, slot - base));
            }
            i = i + 1;
        }
        None
    }

    fn pool_const(&self, idx: u32) -> (r: Result<MirConst, LowerError>)
        ensures
            match self@.pool_const(idx) {
                Ok(c) => r == Ok::<MirConst, LowerError>(c),
                Err(m) => r matches Err(e) && e@ == LowerErrV::Refused(m),
            },
    {
        let i = idx as usize;
        if i >= self.pool.len() {
            let d = dec_str(idx as u64);
            return Err(LowerError::Refused(cat2("const pool ", d.as_str())));
        }
        let bits = self.pool[i];
        let ty = if i < self.pool_ty.len() {
            match self.pool_ty[i] {
                Some(t) => t,
                None => self.default_int,
            }
        } else {
            self.default_int
        };
        match ty {
            MirTy::I32 => Ok(MirConst::I32(bits as i32)),
            MirTy::I64 => Ok(MirConst::I64(bits as i64)),
            MirTy::F32 => Ok(MirConst::F32(bits as u32)),
            MirTy::F64 => Ok(MirConst::F64(bits)),
            MirTy::Bool => Ok(MirConst::Bool(bits != 0)),
            other => {
                let d = dec_str(idx as u64);
                Err(LowerError::Refused(cat4("const pool ", d.as_str(), " has type ", other.as_str())))
            },
        }
    }
}

// Operation tables.

/// Float operations.
pub open spec fn float_op(inst: Instruction) -> bool {
    inst is ADDF || inst is SUBF || inst is MULF || inst is DIVF || inst is MODF || inst is LEF || inst is LEQF
        || inst is GTF || inst is GEQF || inst is PowF
}

fn is_float_inst(inst: Instruction) -> (r: bool)
    ensures
        r == float_op(inst),
{
    matches!(
        inst,
        Instruction::ADDF | Instruction::SUBF | Instruction::MULF | Instruction::DIVF | Instruction::MODF
        | Instruction::LEF | Instruction::LEQF | Instruction::GTF | Instruction::GEQF | Instruction::PowF
    )
}

pub open spec fn arithmetic(inst: Instruction) -> Option<MirBinOp> {
    match inst {
        Instruction::ADD => Some(MirBinOp::Add),
        Instruction::ADDF => Some(MirBinOp::Add),
        Instruction::SUB => Some(MirBinOp::Sub),
        Instruction::SUBF => Some(MirBinOp::Sub),
        Instruction::MUL => Some(MirBinOp::Mul),
        Instruction::MULF => Some(MirBinOp::Mul),
        Instruction::DIV => Some(MirBinOp::Div),
        Instruction::DIVF => Some(MirBinOp::Div),
        Instruction::MOD => Some(MirBinOp::Rem),
        Instruction::MODF => Some(MirBinOp::Rem),
        Instruction::BITAND => Some(MirBinOp::BitAnd),
        Instruction::BITOR => Some(MirBinOp::BitOr),
        Instruction::XOR => Some(MirBinOp::Xor),
        Instruction::SHL => Some(MirBinOp::Shl),
        Instruction::SHR => Some(MirBinOp::Shr),
        _ => None,
    }
}

fn map_bin(inst: Instruction) -> (r: Option<MirBinOp>)
    ensures
        r == arithmetic(inst),
{
    match inst {
        Instruction::ADD | Instruction::ADDF => Some(MirBinOp::Add),
        Instruction::SUB | Instruction::SUBF => Some(MirBinOp::Sub),
        Instruction::MUL | Instruction::MULF => Some(MirBinOp::Mul),
        Instruction::DIV | Instruction::DIVF => Some(MirBinOp::Div),
        Instruction::MOD | Instruction::MODF => Some(MirBinOp::Rem),
        Instruction::BITAND => Some(MirBinOp::BitAnd),
        Instruction::BITOR => Some(MirBinOp::BitOr),
        Instruction::XOR => Some(MirBinOp::Xor),
        Instruction::SHL => Some(MirBinOp::Shl),
        Instruction::SHR => Some(MirBinOp::Shr),
        _ => None,
    }
}

pub open spec fn comparison(inst: Instruction) -> Option<MirCmpOp> {
    match inst {
        Instruction::LE => Some(MirCmpOp::Lt),
        Instruction::LEF => Some(MirCmpOp::Lt),
        Instruction::LEQ => Some(MirCmpOp::Le),
        Instruction::LEQF => Some(MirCmpOp::Le),
        Instruction::GT => Some(MirCmpOp::Gt),
        Instruction::GTF => Some(MirCmpOp::Gt),
        Instruction::GEQ => Some(MirCmpOp::Ge),
        Instruction::GEQF => Some(MirCmpOp::Ge),
        Instruction::EQ => Some(MirCmpOp::Eq),
        Instruction::NEQ => Some(MirCmpOp::Ne),
        _ => None,
    }
}

fn map_compare(inst: Instruction) -> (r: Option<MirCmpOp>)
    ensures
        r == comparison(inst),
{
    match inst {
        Instruction::LE | Instruction::LEF => Some(MirCmpOp::Lt),
        Instruction::LEQ | Instruction::LEQF => Some(MirCmpOp::Le),
        Instruction::GT | Instruction::GTF => Some(MirCmpOp::Gt),
        Instruction::GEQ | Instruction::GEQF => Some(MirCmpOp::Ge),
        Instruction::EQ => Some(MirCmpOp::Eq),
        Instruction::NEQ => Some(MirCmpOp::Ne),
        _ => None,
    }
}

/// Bits of the float one.
pub const FLOAT_ONE: u64 = 0x3ff0_0000_0000_0000;

// One operation.

/// Builder and operand stack.
#[verifier::ext_equal]
pub struct LowV {
    pub b: BuildV,
    pub tos: Seq<ValueId>,
}

pub type LowStep = Result<LowV, LowerErrV>;

pub open spec fn refuse(m: Seq<char>) -> LowStep {
    Err(LowerErrV::Refused(m))
}

/// Constant that names a native, if `v` is one.
pub open spec fn native_const(c: MirConst) -> Option<u16> {
    match c {
        MirConst::I64(n) => if 0 <= n <= 0xffff {
            Some(n as u16)
        } else {
            None
        },
        MirConst::I32(n) => if 0 <= n <= 0xffff {
            Some(n as u16)
        } else {
            None
        },
        _ => None,
    }
}

/// First constant from `i` on that defines `v`.
pub open spec fn const_in(insts: Seq<InstV>, v: ValueId, i: nat) -> Option<MirConst>
    decreases insts.len() - i,
{
    if i >= insts.len() {
        None
    } else if insts[i as int] is Const && insts[i as int].dest() == v {
        Some(insts[i as int]->Const_c)
    } else {
        const_in(insts, v, i + 1)
    }
}

/// First constant from block `b` on that defines `v`.
pub open spec fn const_from(f: FuncV, v: ValueId, b: nat) -> Option<MirConst>
    decreases f.blocks.len() - b,
{
    if b >= f.blocks.len() {
        None
    } else {
        match const_in(f.blocks[b as int].insts, v, 0) {
            Some(c) => Some(c),
            None => const_from(f, v, b + 1),
        }
    }
}

/// Native that `v` names.
pub open spec fn native_id(f: FuncV, v: ValueId) -> Option<u16> {
    match const_from(f, v, 0) {
        Some(c) => native_const(c),
        None => None,
    }
}

/// Type of the payload of a matched word.
pub open spec fn payload_ty(t: MirTy) -> MirTy {
    if t.heap_word() {
        MirTy::HeapRef
    } else {
        t
    }
}

impl LowV {
    pub open spec fn top(self) -> ValueId {
        self.tos.last()
    }

    pub open spec fn second(self) -> ValueId {
        self.tos[self.tos.len() - 2]
    }

    pub open spec fn third(self) -> ValueId {
        self.tos[self.tos.len() - 3]
    }

    /// Without the top `n` values.
    pub open spec fn less(self, n: nat) -> LowV {
        LowV { tos: self.tos.take(self.tos.len() - n), ..self }
    }

    /// The top `n` values, deepest first.
    pub open spec fn args(self, n: nat) -> Seq<ValueId> {
        self.tos.skip(self.tos.len() - n)
    }

    pub open spec fn push(self, v: ValueId) -> LowV {
        LowV { tos: self.tos.push(v), ..self }
    }

    /// Pushes the value of a new instruction.
    pub open spec fn pushed(self, r: (BuildV, Result<ValueId, Seq<char>>)) -> LowStep {
        match r.1 {
            Ok(v) => Ok(LowV { b: r.0, tos: self.tos.push(v) }),
            Err(m) => Err(LowerErrV::Mir(m)),
        }
    }

    /// Keeps a new instruction without pushing its value.
    pub open spec fn kept(self, r: (BuildV, Result<ValueId, Seq<char>>)) -> LowStep {
        match r.1 {
            Ok(v) => Ok(LowV { b: r.0, ..self }),
            Err(m) => Err(LowerErrV::Mir(m)),
        }
    }

    /// Value of a slot.
    pub open spec fn local(self, slot: u32, ty: MirTy) -> Result<(BuildV, ValueId), LowerErrV> {
        match self.b.current {
            Some(cur) => {
                let n = self.b.f.blocks.len();
                Ok(self.b.read(LocalId(slot), ty, cur, n, n, n))
            },
            None => Err(LowerErrV::Mir("no current block"@)),
        }
    }

    pub open spec fn define(self, slot: u32, v: ValueId) -> LowStep {
        match self.b.current {
            Some(cur) => Ok(LowV { b: self.b.write(LocalId(slot), cur, v), ..self }),
            None => Err(LowerErrV::Mir("no current block"@)),
        }
    }

    pub open spec fn load(self, slot: u32, h: HintsV) -> LowStep {
        match self.local(slot, h.slot(slot)) {
            Err(e) => Err(e),
            Ok(r) => match h.field_of(slot) {
                Some(p) => self.pushed(r.0.ins_field_load(r.1, p.0, p.1)),
                None => Ok(LowV { b: r.0, tos: self.tos.push(r.1) }),
            },
        }
    }

    pub open spec fn store(self, slot: u32, h: HintsV) -> LowStep {
        if self.tos.len() == 0 {
            refuse("store stack"@)
        } else {
            let s = self.less(1);
            match h.field_of(slot) {
                Some(p) => s.kept(s.b.ins_field_store(self.top(), p.0, p.1)),
                None => s.define(slot, self.top()),
            }
        }
    }

    /// Arithmetic or comparison of two values.
    pub open spec fn apply(self, inst: Instruction, lhs: ValueId, rhs: ValueId) -> LowStep {
        match arithmetic(inst) {
            Some(op) => self.pushed(self.b.ins_binop(op, lhs, rhs)),
            None => match comparison(inst) {
                Some(op) => self.pushed(self.b.ins_compare(op, lhs, rhs)),
                None => refuse("binop "@ + inst.text()),
            },
        }
    }

    pub open spec fn bin(self, inst: Instruction) -> LowStep {
        if self.tos.len() < 2 {
            refuse("bin stack"@)
        } else {
            self.less(2).apply(inst, self.second(), self.top())
        }
    }

    pub open spec fn bin_slot_imm(self, inst: Instruction, slot: u8, imm: i16, h: HintsV) -> LowStep {
        let ty = if float_op(inst) {
            h.default_float
        } else {
            h.default_int
        };
        match self.local(slot as u32, ty) {
            Err(e) => Err(e),
            Ok(r) => if !(ty is I32 || ty is I64) {
                refuse("BinSlotImm on float"@)
            } else {
                let c = if ty is I32 {
                    MirConst::I32(imm as i32)
                } else {
                    MirConst::I64(imm as i64)
                };
                let k = r.0.ins_const(c);
                match k.1 {
                    Ok(v) => LowV { b: k.0, ..self }.apply(inst, r.1, v),
                    Err(m) => Err(LowerErrV::Mir(m)),
                }
            },
        }
    }

    pub open spec fn bin_slot_slot(self, inst: Instruction, a: u8, b: u8, h: HintsV) -> LowStep {
        let ty = if float_op(inst) {
            h.default_float
        } else {
            h.default_int
        };
        match self.local(a as u32, ty) {
            Err(e) => Err(e),
            Ok(r) => match (LowV { b: r.0, ..self }).local(b as u32, ty) {
                Err(e) => Err(e),
                Ok(q) => LowV { b: q.0, ..self }.apply(inst, r.1, q.1),
            },
        }
    }

    pub open spec fn host(self, arity: nat, layout: u8) -> LowStep {
        if layout != 0 {
            refuse("HostInvoke layout"@)
        } else if self.tos.len() < arity + 1 {
            refuse("HostInvoke stack"@)
        } else {
            let s = self.less(arity + 1);
            match native_id(self.b.f, self.tos[self.tos.len() - arity - 1]) {
                Some(id) => s.pushed(s.b.ins_host_invoke(id, self.args(arity))),
                None => refuse("HostInvoke"@),
            }
        }
    }

    pub open spec fn call(self, arity: nat, ret_words: u32, target: Label, h: HintsV) -> LowStep {
        if ret_words != 1 {
            refuse("dense CALL is one-word"@)
        } else if !h.calls.dom().contains(target.0) {
            refuse("CALL"@)
        } else if h.calls[target.0].params.len() != arity {
            refuse("CALL arity"@)
        } else if self.tos.len() < arity {
            refuse("CALL stack"@)
        } else {
            let s = self.less(arity);
            s.pushed(s.b.ins_call(target, self.args(arity), h.calls[target.0]))
        }
    }

    /// A new object and its collector edge, whose value stands for the object.
    pub open spec fn edged(self, r: (BuildV, Result<ValueId, Seq<char>>)) -> LowStep {
        match r.1 {
            Ok(v) => self.pushed(r.0.ins_gc_barrier(MirGcKind::Safepoint, seq![v])),
            Err(m) => Err(LowerErrV::Mir(m)),
        }
    }

    pub open spec fn make(self, kind: MirAllocKind, arity: nat) -> LowStep {
        if self.tos.len() < arity {
            refuse("alloc stack"@)
        } else {
            let s = self.less(arity);
            s.edged(s.b.ins_alloc(kind, self.args(arity)))
        }
    }

    pub open spec fn index(self, unchecked: bool, h: HintsV) -> LowStep {
        if self.tos.len() < 2 {
            refuse("index stack"@)
        } else {
            let s = self.less(2);
            s.pushed(s.b.ins_index(self.second(), self.top(), h.default_int, unchecked))
        }
    }

    pub open spec fn append(self) -> LowStep {
        if self.tos.len() < 2 {
            refuse("ArrayPush stack"@)
        } else {
            let s = self.less(2);
            s.edged(s.b.ins_array_push(self.second(), self.top()))
        }
    }

    pub open spec fn store_index(self, unchecked: bool) -> LowStep {
        if self.tos.len() < 3 {
            refuse("StoreIndex stack"@)
        } else {
            let s = self.less(3);
            s.pushed(s.b.ins_store_index(self.third(), self.second(), self.top(), unchecked))
        }
    }

    pub open spec fn step_count(self, byte: Byte, h: HintsV) -> LowStep {
        let (slot, prefix, float) = byte.inc_dec();
        let ty = if float {
            h.default_float
        } else {
            h.default_int
        };
        let one = if float {
            MirConst::F64(FLOAT_ONE)
        } else {
            MirConst::I64(1)
        };
        let op = if byte.inst is DEC {
            MirBinOp::Sub
        } else {
            MirBinOp::Add
        };
        match self.local(slot, ty) {
            Err(e) => Err(e),
            Ok(r) => {
                let k = r.0.ins_const(one);
                match k.1 {
                    Err(m) => Err(LowerErrV::Mir(m)),
                    Ok(c) => {
                        let n = k.0.ins_binop(op, r.1, c);
                        match n.1 {
                            Err(m) => Err(LowerErrV::Mir(m)),
                            Ok(v) => LowV { b: n.0, ..self }.define(slot, v),
                        }
                    },
                }
            },
        }
    }

    pub open spec fn unpack(self, arity: u32) -> LowStep {
        if arity > 1 {
            refuse("Unpack arity > 1 (I2)"@)
        } else if self.tos.len() == 0 {
            refuse("Unpack stack"@)
        } else if arity == 1 {
            let s = self.less(1);
            s.pushed(s.b.ins_match_payload(self.top(), 0, payload_ty(s.b.f.ty(self.top()))))
        } else {
            Ok(self.less(1))
        }
    }

    pub open spec fn format(self, byte: Byte) -> LowStep {
        if byte.inst is STRINGIFY {
            if self.tos.len() == 0 {
                refuse("format stack"@)
            } else {
                let s = self.less(1);
                s.edged(s.b.ins_stringify(self.top()))
            }
        } else {
            let n = byte.word() as nat;
            if self.tos.len() < n + 1 {
                refuse("format stack"@)
            } else {
                let s = self.less(n + 1);
                s.edged(s.b.ins_format(self.tos[self.tos.len() - n - 1], self.args(n)))
            }
        }
    }

    pub open spec fn get_field(self, h: HintsV) -> LowStep {
        if self.tos.len() < 2 {
            refuse("field stack"@)
        } else {
            let s = self.less(2);
            s.pushed(s.b.ins_heap_field_load(self.second(), Some(self.top()), 0, h.default_int))
        }
    }

    pub open spec fn set_field(self, index: Option<u32>) -> LowStep {
        if index is Some {
            if self.tos.len() < 2 {
                refuse("field stack"@)
            } else {
                let s = self.less(2);
                s.pushed(s.b.ins_heap_field_store(self.top(), self.second(), None, index))
            }
        } else if self.tos.len() < 3 {
            refuse("field stack"@)
        } else {
            let s = self.less(3);
            s.pushed(s.b.ins_heap_field_store(self.second(), self.third(), Some(self.top()), None))
        }
    }

    /// One byte-level instruction.
    pub open spec fn byte(self, byte: Byte, h: HintsV) -> LowStep {
        let inst = byte.inst;
        let s = self.less(1);
        if inst is INC || inst is DEC {
            self.step_count(byte, h)
        } else if inst is CastIntToFloat {
            if self.tos.len() == 0 {
                refuse("cast stack"@)
            } else {
                s.pushed(s.b.ins_cast(MirCastKind::IntToFloat, h.default_float, self.top()))
            }
        } else if inst is NEGF || inst is NEG {
            if self.tos.len() == 0 {
                refuse("neg stack"@)
            } else {
                s.pushed(s.b.ins_neg(self.top()))
            }
        } else if inst is NOT {
            if self.tos.len() == 0 {
                refuse("not stack"@)
            } else {
                s.pushed(s.b.ins_not(self.top()))
            }
        } else if inst is Seek && h.allow_match {
            Ok(self)
        } else if alloc_inst(inst) && h.allow_alloc {
            let (type_id, nfields) = if inst is InitTyped {
                byte.object()
            } else {
                (0u32, 0u32)
            };
            self.edged(self.b.ins_alloc(MirAllocKind::Object { type_id, nfields }, Seq::empty()))
        } else if format_inst(inst) && h.allow_string {
            self.format(byte)
        } else if format_inst(inst) {
            refuse("format"@)
        } else if inst is Unpack && h.allow_match {
            self.unpack(byte.word())
        } else if inst is ArrayLen && h.allow_index {
            if self.tos.len() == 0 {
                refuse("ArrayLen stack"@)
            } else {
                s.pushed(s.b.ins_array_len(self.top()))
            }
        } else if (inst is StoreIndex || inst is StoreIndexUnchecked) && h.allow_index {
            self.store_index(inst is StoreIndexUnchecked)
        } else if inst is ArrayPush && h.allow_alloc && h.allow_index {
            self.append()
        } else {
            refuse("residual byte "@ + inst.text())
        }
    }

    /// One operation.
    pub open spec fn step(self, op: IlOp, h: HintsV) -> LowStep {
        match op {
            IlOp::Label(_) => Ok(self),
            IlOp::JoinLabel(_) => Ok(self),
            IlOp::Load { slot, .. } => self.load(slot, h),
            IlOp::StorePop { slot, .. } => self.store(slot, h),
            IlOp::Const { imm, .. } => self.pushed(
                self.b.ins_const(
                    if h.default_int is I32 {
                        MirConst::I32(imm)
                    } else {
                        MirConst::I64(imm as i64)
                    },
                ),
            ),
            IlOp::ConstPool { idx, .. } => match h.pool_const(idx) {
                Ok(c) => self.pushed(self.b.ins_const(c)),
                Err(m) => refuse(m),
            },
            IlOp::Dup { .. } => if self.tos.len() == 0 {
                refuse("dup stack"@)
            } else {
                Ok(self.push(self.top()))
            },
            IlOp::Pop { .. } => if self.tos.len() == 0 {
                refuse("pop stack"@)
            } else {
                Ok(self.less(1))
            },
            IlOp::LogNot { .. } => if self.tos.len() == 0 {
                refuse("not stack"@)
            } else if !h.allow_match && !(self.b.f.ty(self.top()) is Bool) {
                refuse("lnot on "@ + self.b.f.ty(self.top()).text())
            } else {
                self.less(1).pushed(self.b.ins_not(self.top()))
            },
            IlOp::Bin { op, .. } => self.bin(op),
            IlOp::BinSlotImm { op, slot, imm, .. } => self.bin_slot_imm(op, slot, imm, h),
            IlOp::BinSlotSlot { op, a, b, .. } => self.bin_slot_slot(op, a, b, h),
            IlOp::Byte { byte, .. } => self.byte(byte, h),
            IlOp::Jump { .. } => Ok(self),
            IlOp::Return { .. } => Ok(self),
            IlOp::Halt { .. } => Ok(self),
            IlOp::HostInvoke { arity, layout, .. } => self.host(arity as nat, layout),
            IlOp::Entry { kind, arity, target, ret_words, .. } => if kind is Call {
                self.call(arity as nat, ret_words, target, h)
            } else {
                refuse("non-numeric IL (classes/heap/calls stay on Value)"@)
            },
            IlOp::MakeTuple { arity, .. } => if h.allow_alloc {
                self.make(MirAllocKind::Tuple, arity as nat)
            } else {
                refuse("non-numeric IL (classes/heap/calls stay on Value)"@)
            },
            IlOp::MakeArray { arity, .. } => if h.allow_alloc {
                self.make(MirAllocKind::Array, arity as nat)
            } else {
                refuse("non-numeric IL (classes/heap/calls stay on Value)"@)
            },
            IlOp::MakeEnum { tag, arity, .. } => if h.allow_alloc {
                self.make(MirAllocKind::Enum { tag: tag as u32 }, arity as nat)
            } else {
                refuse("non-numeric IL (classes/heap/calls stay on Value)"@)
            },
            IlOp::Index { .. } => if h.allow_index {
                self.index(false, h)
            } else {
                refuse("non-numeric IL (classes/heap/calls stay on Value)"@)
            },
            IlOp::IndexUnchecked { .. } => if h.allow_index {
                self.index(true, h)
            } else {
                refuse("non-numeric IL (classes/heap/calls stay on Value)"@)
            },
            IlOp::GetField { .. } => if h.allow_heap_fields {
                self.get_field(h)
            } else {
                refuse("non-numeric IL (classes/heap/calls stay on Value)"@)
            },
            IlOp::SetField { index, .. } => if h.allow_heap_fields {
                self.set_field(index)
            } else {
                refuse("non-numeric IL (classes/heap/calls stay on Value)"@)
            },
            IlOp::String { idx, .. } => if h.allow_string {
                self.pushed(self.b.ins_string(idx))
            } else {
                refuse("I4 string barrier"@)
            },
            IlOp::Print { .. } => if !h.allow_string {
                refuse("I4 print barrier"@)
            } else if self.tos.len() == 0 {
                refuse("print stack"@)
            } else {
                self.less(1).kept(self.b.ins_print(self.top()))
            },
            _ => refuse("non-numeric IL (classes/heap/calls stay on Value)"@),
        }
    }
}

// Executable part of one operation.

spec fn state(b: MirBuilder, tos: Vec<ValueId>) -> LowV {
    LowV { b: b@, tos: tos@ }
}

/// Relates the outcome of a step to its specification. Steps stay in their
/// block.
spec fn low(r: Result<(), LowerError>, s: LowStep, now: LowV, before: BuildV) -> bool {
    match s {
        Ok(n) => {
            &&& r is Ok
            &&& now == n
            &&& now.b.f.blocks.len() == before.f.blocks.len()
            &&& now.b.current == before.current
        },
        Err(e) => r matches Err(x) && x@ == e,
    }
}

fn mir(e: MirError) -> (r: LowerError)
    ensures
        r@ == LowerErrV::Mir(e@),
{
    LowerError::Mir(e)
}

fn stop(m: &str) -> (r: Result<(), LowerError>)
    ensures
        r matches Err(x) && x@ == LowerErrV::Refused(m@),
{
    Err(refused(m))
}

/// Takes the top `n` values off the stack.
fn take_args(tos: &mut Vec<ValueId>, n: usize) -> (r: Vec<ValueId>)
    requires
        n <= old(tos)@.len(),
    ensures
        r@ == old(tos)@.skip(old(tos)@.len() - n),
        final(tos)@ == old(tos)@.take(old(tos)@.len() - n),
{
    let len = tos.len();
    let ghost t0 = tos@;
    let mut r: Vec<ValueId> = Vec::new();
    let mut i: usize = len - n;
    while i < len
        invariant
            tos@ == t0,
            len == t0.len(),
            n <= len,
            len - n <= i <= len,
            r@ == t0.subrange(len - n, i as int),
        decreases len - i,
    {
        r.push(tos[i]);
        i = i + 1;
        assert(r@ =~= t0.subrange(len - n, i as int));
    }
    assert(r@ =~= t0.skip(len - n));
    tos.truncate(len - n);
    assert(tos@ =~= t0.take(len - n));
    r
}

/// Takes the top value off the stack.
fn take_one(tos: &mut Vec<ValueId>) -> (r: ValueId)
    requires
        old(tos)@.len() > 0,
    ensures
        r == old(tos)@.last(),
        final(tos)@ == old(tos)@.take(old(tos)@.len() - 1),
{
    let n = tos.len();
    let v = tos[n - 1];
    tos.truncate(n - 1);
    assert(tos@ =~= old(tos)@.take(n - 1));
    v
}

fn push_value(tos: &mut Vec<ValueId>, r: Result<ValueId, MirError>) -> (o: Result<(), LowerError>)
    ensures
        match r {
            Ok(v) => o is Ok && final(tos)@ == old(tos)@.push(v),
            Err(e) => o matches Err(x) && x@ == LowerErrV::Mir(e@),
        },
{
    match r {
        Ok(v) => {
            tos.push(v);
            Ok(())
        },
        Err(e) => Err(mir(e)),
    }
}

fn lower_load(b: &mut MirBuilder, tos: &mut Vec<ValueId>, slot: u32, hints: &LowerHints) -> (r: Result<(), LowerError>)
    requires
        old(b)@.wf(),
    ensures
        final(b)@.wf(),
        low(r, state(*old(b), *old(tos)).load(slot, hints@), state(*final(b), *final(tos)), old(b)@),
{
    let v = match b.use_local(LocalId(slot), hints.slot(slot)) {
        Ok(v) => v,
        Err(e) => {
            return Err(mir(e));
        },
    };
    match hints.field_of(slot) {
        Some((base, index)) => {
            let r = b.ins_field_load(v, base, index);
            push_value(tos, r)
        },
        None => {
            tos.push(v);
            Ok(())
        },
    }
}

fn lower_store(b: &mut MirBuilder, tos: &mut Vec<ValueId>, slot: u32, hints: &LowerHints) -> (r: Result<(), LowerError>)
    requires
        old(b)@.wf(),
    ensures
        final(b)@.wf(),
        low(r, state(*old(b), *old(tos)).store(slot, hints@), state(*final(b), *final(tos)), old(b)@),
{
    if tos.len() == 0 {
        return stop("store stack");
    }
    let v = take_one(tos);
    match hints.field_of(slot) {
        Some((base, index)) => match b.ins_field_store(v, base, index) {
            Ok(_) => Ok(()),
            Err(e) => Err(mir(e)),
        },
        None => match b.def_local(LocalId(slot), v) {
            Ok(_) => Ok(()),
            Err(e) => Err(mir(e)),
        },
    }
}

fn apply_bin(b: &mut MirBuilder, tos: &mut Vec<ValueId>, inst: Instruction, lhs: ValueId, rhs: ValueId) -> (r: Result<(), LowerError>)
    requires
        old(b)@.wf(),
    ensures
        final(b)@.wf(),
        low(r, state(*old(b), *old(tos)).apply(inst, lhs, rhs), state(*final(b), *final(tos)), old(b)@),
{
    if let Some(op) = map_bin(inst) {
        let r = b.ins_binop(op, lhs, rhs);
        return push_value(tos, r);
    }
    if let Some(op) = map_compare(inst) {
        let r = b.ins_cmp(op, lhs, rhs);
        return push_value(tos, r);
    }
    Err(LowerError::Refused(cat2("binop ", inst.mnemonic())))
}

fn bin_stack(b: &mut MirBuilder, tos: &mut Vec<ValueId>, inst: Instruction) -> (r: Result<(), LowerError>)
    requires
        old(b)@.wf(),
    ensures
        final(b)@.wf(),
        low(r, state(*old(b), *old(tos)).bin(inst), state(*final(b), *final(tos)), old(b)@),
{
    if tos.len() < 2 {
        return stop("bin stack");
    }
    let args = take_args(tos, 2);
    apply_bin(b, tos, inst, args[0], args[1])
}

fn lower_slot_imm(b: &mut MirBuilder, tos: &mut Vec<ValueId>, inst: Instruction, slot: u8, imm: i16, hints: &LowerHints) -> (r: Result<(), LowerError>)
    requires
        old(b)@.wf(),
    ensures
        final(b)@.wf(),
        low(r, state(*old(b), *old(tos)).bin_slot_imm(inst, slot, imm, hints@), state(*final(b), *final(tos)), old(b)@),
{
    let ty = if is_float_inst(inst) {
        hints.default_float
    } else {
        hints.default_int
    };
    let lhs = match b.use_local(LocalId(slot as u32), ty) {
        Ok(v) => v,
        Err(e) => {
            return Err(mir(e));
        },
    };
    let c = match ty {
        MirTy::I32 => MirConst::I32(imm as i32),
        MirTy::I64 => MirConst::I64(imm as i64),
        _ => {
            return stop("BinSlotImm on float");
        },
    };
    let rhs = match b.ins_const(c) {
        Ok(v) => v,
        Err(e) => {
            return Err(mir(e));
        },
    };
    apply_bin(b, tos, inst, lhs, rhs)
}

fn lower_slot_slot(b: &mut MirBuilder, tos: &mut Vec<ValueId>, inst: Instruction, x: u8, y: u8, hints: &LowerHints) -> (r: Result<(), LowerError>)
    requires
        old(b)@.wf(),
    ensures
        final(b)@.wf(),
        low(r, state(*old(b), *old(tos)).bin_slot_slot(inst, x, y, hints@), state(*final(b), *final(tos)), old(b)@),
{
    let ty = if is_float_inst(inst) {
        hints.default_float
    } else {
        hints.default_int
    };
    let lhs = match b.use_local(LocalId(x as u32), ty) {
        Ok(v) => v,
        Err(e) => {
            return Err(mir(e));
        },
    };
    let rhs = match b.use_local(LocalId(y as u32), ty) {
        Ok(v) => v,
        Err(e) => {
            return Err(mir(e));
        },
    };
    apply_bin(b, tos, inst, lhs, rhs)
}

fn const_native_id(func: &MirFunc, v: ValueId) -> (r: Option<u16>)
    ensures
        r == native_id(func@, v),
{
    let mut b: usize = 0;
    while b < func.blocks.len()
        invariant
            b <= func.blocks@.len(),
            const_from(func@, v, 0) == const_from(func@, v, b as nat),
        decreases func.blocks@.len() - b,
    {
        let block = &func.blocks[b];
        let mut i: usize = 0;
        while i < block.insts.len()
            invariant
                b < func.blocks@.len(),
                block@ == func@.blocks[b as int],
                i <= block.insts@.len(),
                const_from(func@, v, 0) == const_from(func@, v, b as nat),
                const_in(block@.insts, v, 0) == const_in(block@.insts, v, i as nat),
            decreases block.insts@.len() - i,
        {
            assert(block@.insts[i as int] == block.insts@[i as int]@);
            if let MirInst::Const { dest, c } = &block.insts[i] {
                if *dest == v {
                    return match *c {
                        MirConst::I64(n) => if 0 <= n && n <= 0xffff {
                            Some(n as u16)
                        } else {
                            None
                        },
                        MirConst::I32(n) => if 0 <= n && n <= 0xffff {
                            Some(n as u16)
                        } else {
                            None
                        },
                        _ => None,
                    };
                }
            }
            i = i + 1;
        }
        b = b + 1;
    }
    None
}

fn lower_host(b: &mut MirBuilder, tos: &mut Vec<ValueId>, arity: u32, layout: u8) -> (r: Result<(), LowerError>)
    requires
        old(b)@.wf(),
    ensures
        final(b)@.wf(),
        low(r, state(*old(b), *old(tos)).host(arity as nat, layout), state(*final(b), *final(tos)), old(b)@),
{
    if layout != 0 {
        return stop("HostInvoke layout");
    }
    let n = arity as usize;
    if tos.len() <= n {
        return stop("HostInvoke stack");
    }
    let ghost t0 = tos@;
    let args = take_args(tos, n);
    let f = take_one(tos);
    proof {
        assert(f == t0[t0.len() - n - 1]);
        assert(tos@ =~= t0.take(t0.len() - n - 1));
    }
    match const_native_id(b.func(), f) {
        Some(id) => {
            let r = b.ins_host_invoke(id, args);
            push_value(tos, r)
        },
        None => stop("HostInvoke"),
    }
}

fn lower_call(b: &mut MirBuilder, tos: &mut Vec<ValueId>, arity: u32, ret_words: u32, target: Label, hints: &LowerHints) -> (r: Result<(), LowerError>)
    requires
        old(b)@.wf(),
    ensures
        final(b)@.wf(),
        low(r, state(*old(b), *old(tos)).call(arity as nat, ret_words, target, hints@), state(*final(b), *final(tos)), old(b)@),
{
    if ret_words != 1 {
        return stop("dense CALL is one-word");
    }
    let abi = match hints.calls.get(&target.0) {
        Some(a) => a,
        None => {
            return stop("CALL");
        },
    };
    let n = arity as usize;
    if abi.params.len() != n {
        return stop("CALL arity");
    }
    if tos.len() < n {
        return stop("CALL stack");
    }
    let args = take_args(tos, n);
    let r = b.ins_call(target, args, abi);
    push_value(tos, r)
}

/// Adds the collector edge behind a new object.
fn add_edge(b: &mut MirBuilder, tos: &mut Vec<ValueId>, r: Result<ValueId, MirError>, Ghost(g): Ghost<
    (BuildV, Result<ValueId, Seq<char>>),
>) -> (o: Result<(), LowerError>)
    requires
        old(b)@.wf(),
        old(b)@ == g.0,
        outcome(r, g.1),
    ensures
        final(b)@.wf(),
        low(o, LowV { b: old(b)@, tos: old(tos)@ }.edged(g), state(*final(b), *final(tos)), old(b)@),
{
    match r {
        Ok(v) => {
            let mut roots: Vec<ValueId> = Vec::new();
            roots.push(v);
            assert(roots@ =~= seq![v]);
            let e = b.ins_gc_barrier(MirGcKind::Safepoint, roots);
            push_value(tos, e)
        },
        Err(e) => Err(mir(e)),
    }
}

fn lower_alloc(b: &mut MirBuilder, tos: &mut Vec<ValueId>, kind: MirAllocKind, arity: u32) -> (r: Result<(), LowerError>)
    requires
        old(b)@.wf(),
    ensures
        final(b)@.wf(),
        low(r, state(*old(b), *old(tos)).make(kind, arity as nat), state(*final(b), *final(tos)), old(b)@),
{
    let n = arity as usize;
    if tos.len() < n {
        return stop("alloc stack");
    }
    let ghost s = state(*b, *tos).less(n as nat);
    let elems = take_args(tos, n);
    let ghost g = b@.ins_alloc(kind, elems@);
    let r = b.ins_alloc(kind, elems);
    assert(b@.f.blocks.len() == old(b)@.f.blocks.len());
    add_edge(b, tos, r, Ghost(g))
}

fn lower_index(b: &mut MirBuilder, tos: &mut Vec<ValueId>, unchecked: bool, hints: &LowerHints) -> (r: Result<(), LowerError>)
    requires
        old(b)@.wf(),
    ensures
        final(b)@.wf(),
        low(r, state(*old(b), *old(tos)).index(unchecked, hints@), state(*final(b), *final(tos)), old(b)@),
{
    if tos.len() < 2 {
        return stop("index stack");
    }
    let args = take_args(tos, 2);
    let r = b.ins_index(args[0], args[1], hints.default_int, unchecked);
    push_value(tos, r)
}

fn lower_store_index(b: &mut MirBuilder, tos: &mut Vec<ValueId>, unchecked: bool) -> (r: Result<(), LowerError>)
    requires
        old(b)@.wf(),
    ensures
        final(b)@.wf(),
        low(r, state(*old(b), *old(tos)).store_index(unchecked), state(*final(b), *final(tos)), old(b)@),
{
    if tos.len() < 3 {
        return stop("StoreIndex stack");
    }
    let args = take_args(tos, 3);
    let r = b.ins_store_index(args[0], args[1], args[2], unchecked);
    push_value(tos, r)
}

fn lower_count(b: &mut MirBuilder, tos: &mut Vec<ValueId>, byte: &Byte, hints: &LowerHints) -> (r: Result<(), LowerError>)
    requires
        old(b)@.wf(),
    ensures
        final(b)@.wf(),
        low(r, state(*old(b), *old(tos)).step_count(*byte, hints@), state(*final(b), *final(tos)), old(b)@),
{
    let (slot, _prefix, float) = byte.inc_dec_parts();
    let ty = if float {
        hints.default_float
    } else {
        hints.default_int
    };
    let cur = match b.use_local(LocalId(slot), ty) {
        Ok(v) => v,
        Err(e) => {
            return Err(mir(e));
        },
    };
    let one = if float {
        MirConst::F64(FLOAT_ONE)
    } else {
        MirConst::I64(1)
    };
    let one = match b.ins_const(one) {
        Ok(v) => v,
        Err(e) => {
            return Err(mir(e));
        },
    };
    let op = if *byte.bytecode() == Instruction::DEC {
        MirBinOp::Sub
    } else {
        MirBinOp::Add
    };
    let next = match b.ins_binop(op, cur, one) {
        Ok(v) => v,
        Err(e) => {
            return Err(mir(e));
        },
    };
    match b.def_local(LocalId(slot), next) {
        Ok(_) => Ok(()),
        Err(e) => Err(mir(e)),
    }
}

fn payload_of(t: MirTy) -> (r: MirTy)
    ensures
        r == payload_ty(t),
{
    match t {
        MirTy::NicheOpt | MirTy::NicheRes | MirTy::HeapRef => MirTy::HeapRef,
        other => other,
    }
}

fn lower_unpack(b: &mut MirBuilder, tos: &mut Vec<ValueId>, arity: u32) -> (r: Result<(), LowerError>)
    requires
        old(b)@.wf(),
    ensures
        final(b)@.wf(),
        low(r, state(*old(b), *old(tos)).unpack(arity), state(*final(b), *final(tos)), old(b)@),
{
    if arity > 1 {
        return stop("Unpack arity > 1 (I2)");
    }
    if tos.len() == 0 {
        return stop("Unpack stack");
    }
    let src = take_one(tos);
    if arity == 1 {
        let ty = payload_of(b.func().ty(src));
        let r = b.ins_match_payload(src, 0, ty);
        return push_value(tos, r);
    }
    Ok(())
}

fn lower_format(b: &mut MirBuilder, tos: &mut Vec<ValueId>, byte: &Byte) -> (r: Result<(), LowerError>)
    requires
        old(b)@.wf(),
    ensures
        final(b)@.wf(),
        low(r, state(*old(b), *old(tos)).format(*byte), state(*final(b), *final(tos)), old(b)@),
{
    if *byte.bytecode() == Instruction::STRINGIFY {
        if tos.len() == 0 {
            return stop("format stack");
        }
        let v = take_one(tos);
        let ghost g = b@.ins_stringify(v);
        let r = b.ins_stringify(v);
        assert(b@.f.blocks.len() == old(b)@.f.blocks.len());
        return add_edge(b, tos, r, Ghost(g));
    }
    let n = byte.operand_u32() as usize;
    if tos.len() <= n {
        return stop("format stack");
    }
    let ghost t0 = tos@;
    let args = take_args(tos, n);
    let fmt = take_one(tos);
    proof {
        assert(fmt == t0[t0.len() - n - 1]);
        assert(tos@ =~= t0.take(t0.len() - n - 1));
    }
    let ghost g = b@.ins_format(fmt, args@);
    let r = b.ins_format(fmt, args);
    assert(b@.f.blocks.len() == old(b)@.f.blocks.len());
    add_edge(b, tos, r, Ghost(g))
}

fn lower_push(b: &mut MirBuilder, tos: &mut Vec<ValueId>) -> (r: Result<(), LowerError>)
    requires
        old(b)@.wf(),
    ensures
        final(b)@.wf(),
        low(r, state(*old(b), *old(tos)).append(), state(*final(b), *final(tos)), old(b)@),
{
    if tos.len() < 2 {
        return stop("ArrayPush stack");
    }
    let args = take_args(tos, 2);
    let ghost g = b@.ins_array_push(args@[0], args@[1]);
    let r = b.ins_array_push(args[0], args[1]);
    assert(b@.f.blocks.len() == old(b)@.f.blocks.len());
    add_edge(b, tos, r, Ghost(g))
}

#[verifier::rlimit(40)]
#[verifier::spinoff_prover]
fn lower_field(b: &mut MirBuilder, tos: &mut Vec<ValueId>, op: &IlOp, hints: &LowerHints) -> (r: Result<(), LowerError>)
    requires
        old(b)@.wf(),
        op is GetField || op is SetField,
    ensures
        final(b)@.wf(),
        low(r, state(*old(b), *old(tos)).step(*op, hints@), state(*final(b), *final(tos)), old(b)@),
{
    if !hints.allow_heap_fields {
        return stop("non-numeric IL (classes/heap/calls stay on Value)");
    }
    match op {
        IlOp::GetField { .. } => {
            if tos.len() < 2 {
                return stop("field stack");
            }
            let args = take_args(tos, 2);
            let r = b.ins_heap_field_load(args[0], Some(args[1]), 0, hints.default_int);
            push_value(tos, r)
        },
        IlOp::SetField { index, .. } => {
            if index.is_some() {
                if tos.len() < 2 {
                    return stop("field stack");
                }
                let args = take_args(tos, 2);
                let r = b.ins_heap_field_store(args[1], args[0], None, *index);
                return push_value(tos, r);
            }
            if tos.len() < 3 {
                return stop("field stack");
            }
            let args = take_args(tos, 3);
            let r = b.ins_heap_field_store(args[1], args[0], Some(args[2]), None);
            push_value(tos, r)
        },
        _ => Ok(()),
    }
}

fn lower_byte(b: &mut MirBuilder, tos: &mut Vec<ValueId>, byte: &Byte, hints: &LowerHints) -> (r: Result<(), LowerError>)
    requires
        old(b)@.wf(),
    ensures
        final(b)@.wf(),
        low(r, state(*old(b), *old(tos)).byte(*byte, hints@), state(*final(b), *final(tos)), old(b)@),
{
    let inst = *byte.bytecode();
    match inst {
        Instruction::INC | Instruction::DEC => {
            return lower_count(b, tos, byte, hints);
        },
        Instruction::CastIntToFloat => {
            if tos.len() == 0 {
                return stop("cast stack");
            }
            let v = take_one(tos);
            let r = b.ins_cast(MirCastKind::IntToFloat, hints.default_float, v);
            return push_value(tos, r);
        },
        Instruction::NEGF | Instruction::NEG => {
            if tos.len() == 0 {
                return stop("neg stack");
            }
            let v = take_one(tos);
            let r = b.ins_neg(v);
            return push_value(tos, r);
        },
        Instruction::NOT => {
            if tos.len() == 0 {
                return stop("not stack");
            }
            let v = take_one(tos);
            let r = b.ins_not(v);
            return push_value(tos, r);
        },
        _ => {},
    }
    if inst == Instruction::Seek && hints.allow_match {
        return Ok(());
    }
    if is_alloc_inst(inst) && hints.allow_alloc {
        let (type_id, nfields) = if inst == Instruction::InitTyped {
            byte.init_typed_parts()
        } else {
            (0u32, 0u32)
        };
        let elems: Vec<ValueId> = Vec::new();
        let kind = MirAllocKind::Object { type_id, nfields };
        assert(elems@ =~= Seq::empty());
        let ghost g = b@.ins_alloc(kind, elems@);
        let r = b.ins_alloc(kind, elems);
        assert(b@.f.blocks.len() == old(b)@.f.blocks.len());
        return add_edge(b, tos, r, Ghost(g));
    }
    if is_format_inst(inst) {
        if hints.allow_string {
            return lower_format(b, tos, byte);
        }
        return stop("format");
    }
    if inst == Instruction::Unpack && hints.allow_match {
        return lower_unpack(b, tos, byte.operand_u32());
    }
    if hints.allow_index {
        if inst == Instruction::ArrayLen {
            if tos.len() == 0 {
                return stop("ArrayLen stack");
            }
            let v = take_one(tos);
            let r = b.ins_array_len(v);
            return push_value(tos, r);
        }
        if inst == Instruction::StoreIndex || inst == Instruction::StoreIndexUnchecked {
            return lower_store_index(b, tos, inst == Instruction::StoreIndexUnchecked);
        }
        if inst == Instruction::ArrayPush && hints.allow_alloc {
            return lower_push(b, tos);
        }
    }
    Err(LowerError::Refused(cat2("residual byte ", inst.mnemonic())))
}

fn lower_op(b: &mut MirBuilder, tos: &mut Vec<ValueId>, op: &IlOp, hints: &LowerHints) -> (r: Result<(), LowerError>)
    requires
        old(b)@.wf(),
    ensures
        final(b)@.wf(),
        low(r, state(*old(b), *old(tos)).step(*op, hints@), state(*final(b), *final(tos)), old(b)@),
{
    match op {
        IlOp::Label(_) | IlOp::JoinLabel(_) => Ok(()),
        IlOp::Load { slot, .. } => lower_load(b, tos, *slot, hints),
        IlOp::StorePop { slot, .. } => lower_store(b, tos, *slot, hints),
        IlOp::Const { imm, .. } => {
            let c = match hints.default_int {
                MirTy::I32 => MirConst::I32(*imm),
                _ => MirConst::I64(*imm as i64),
            };
            let r = b.ins_const(c);
            push_value(tos, r)
        },
        IlOp::ConstPool { idx, .. } => match hints.pool_const(*idx) {
            Ok(c) => {
                let r = b.ins_const(c);
                push_value(tos, r)
            },
            Err(e) => Err(e),
        },
        IlOp::Dup { .. } => {
            let n = tos.len();
            if n == 0 {
                return stop("dup stack");
            }
            let v = tos[n - 1];
            tos.push(v);
            Ok(())
        },
        IlOp::Pop { .. } => {
            if tos.len() == 0 {
                return stop("pop stack");
            }
            let _ = take_one(tos);
            Ok(())
        },
        IlOp::LogNot { .. } => {
            if tos.len() == 0 {
                return stop("not stack");
            }
            let v = take_one(tos);
            let t = b.func().ty(v);
            if !hints.allow_match && t != MirTy::Bool {
                return Err(LowerError::Refused(cat2("lnot on ", t.as_str())));
            }
            let r = b.ins_not(v);
            push_value(tos, r)
        },
        IlOp::Bin { op: inst, .. } => bin_stack(b, tos, *inst),
        IlOp::BinSlotImm { op: inst, slot, imm, .. } => lower_slot_imm(b, tos, *inst, *slot, *imm, hints),
        IlOp::BinSlotSlot { op: inst, a, b: y, .. } => lower_slot_slot(b, tos, *inst, *a, *y, hints),
        IlOp::Byte { byte, .. } => lower_byte(b, tos, byte, hints),
        IlOp::Jump { .. } | IlOp::Return { .. } | IlOp::Halt { .. } => Ok(()),
        IlOp::HostInvoke { arity, layout, .. } => lower_host(b, tos, *arity, *layout),
        IlOp::Entry { kind, arity, target, ret_words, .. } => {
            if *kind == EntryKind::Call {
                lower_call(b, tos, *arity, *ret_words, *target, hints)
            } else {
                stop("non-numeric IL (classes/heap/calls stay on Value)")
            }
        },
        IlOp::MakeTuple { arity, .. } if hints.allow_alloc => lower_alloc(b, tos, MirAllocKind::Tuple, *arity),
        IlOp::MakeArray { arity, .. } if hints.allow_alloc => lower_alloc(b, tos, MirAllocKind::Array, *arity),
        IlOp::MakeEnum { tag, arity, .. } if hints.allow_alloc => lower_alloc(
            b,
            tos,
            MirAllocKind::Enum { tag: *tag as u32 },
            *arity as u32,
        ),
        IlOp::Index { .. } if hints.allow_index => lower_index(b, tos, false, hints),
        IlOp::IndexUnchecked { .. } if hints.allow_index => lower_index(b, tos, true, hints),
        IlOp::GetField { .. } | IlOp::SetField { .. } => lower_field(b, tos, op, hints),
        IlOp::String { idx, .. } => {
            if !hints.allow_string {
                return stop("I4 string barrier");
            }
            let r = b.ins_string(*idx);
            push_value(tos, r)
        },
        IlOp::Print { .. } => {
            if !hints.allow_string {
                return stop("I4 print barrier");
            }
            if tos.len() == 0 {
                return stop("print stack");
            }
            let v = take_one(tos);
            match b.ins_print(v) {
                Ok(_) => Ok(()),
                Err(e) => Err(mir(e)),
            }
        },
        _ => stop("non-numeric IL (classes/heap/calls stay on Value)"),
    }
}

// Blocks.

pub open spec fn ends_block(op: IlOp) -> bool {
    match op {
        IlOp::Jump { .. } => true,
        IlOp::Return { .. } => true,
        IlOp::Halt { .. } => true,
        IlOp::Entry { kind, .. } => !(kind is Call),
        IlOp::LoadReturnSlot { .. } => true,
        IlOp::ConstReturnImm { .. } => true,
        IlOp::BinReturn { .. } => true,
        IlOp::PrologueJmp { .. } => true,
        _ => false,
    }
}

fn is_term(op: &IlOp) -> (r: bool)
    ensures
        r == ends_block(*op),
{
    match op {
        IlOp::Entry { kind, .. } => *kind != EntryKind::Call,
        IlOp::Jump { .. } | IlOp::Return { .. } | IlOp::Halt { .. } | IlOp::LoadReturnSlot { .. }
        | IlOp::ConstReturnImm { .. } | IlOp::BinReturn { .. } | IlOp::PrologueJmp { .. } => true,
        _ => false,
    }
}

fn label_at(op: &IlOp) -> (r: Option<Label>)
    ensures
        r == op.bound(),
{
    match op {
        IlOp::Label(l) | IlOp::JoinLabel(l) => Some(*l),
        _ => None,
    }
}

/// A block starts at operation `i`.
pub open spec fn leads(ops: Seq<IlOp>, i: int) -> bool {
    i == 0 || ops[i].bound() is Some || ends_block(ops[i - 1])
}

/// First block start from `i` on, or the end.
pub open spec fn next_lead(ops: Seq<IlOp>, i: nat) -> nat
    decreases ops.len() - i,
{
    if i >= ops.len() {
        ops.len()
    } else if leads(ops, i as int) {
        i
    } else {
        next_lead(ops, i + 1)
    }
}

pub proof fn next_lead_bounds(ops: Seq<IlOp>, i: nat)
    requires
        i <= ops.len(),
    ensures
        i <= next_lead(ops, i) <= ops.len(),
    decreases ops.len() - i,
{
    if i < ops.len() && !leads(ops, i as int) {
        next_lead_bounds(ops, i + 1);
    }
}

/// Block ranges from the block start `i` on.
pub open spec fn ranges_from(ops: Seq<IlOp>, i: nat) -> Seq<(nat, nat)>
    decreases ops.len() - i,
{
    if i >= ops.len() {
        Seq::empty()
    } else {
        let end = next_lead(ops, i + 1);
        proof {
            next_lead_bounds(ops, i + 1);
        }
        seq![(i, end)] + ranges_from(ops, end)
    }
}

/// Block ranges of a body.
pub open spec fn block_ranges(ops: Seq<IlOp>) -> Seq<(nat, nat)> {
    ranges_from(ops, 0)
}

/// Last of the first `k` blocks that binds `l`.
pub open spec fn bound_block(ops: Seq<IlOp>, ranges: Seq<(nat, nat)>, l: Label, k: nat) -> Option<BlockId>
    decreases k,
{
    if k == 0 {
        None
    } else if ops[ranges[k - 1].0 as int].bound() == Some(l) {
        Some(BlockId((k - 1) as u32))
    } else {
        bound_block(ops, ranges, l, (k - 1) as nat)
    }
}

/// Stack at the end of each predecessor.
pub type Stacks = Seq<(BlockId, Seq<ValueId>)>;

/// The predecessors agree on stack position `i`.
pub open spec fn agree_at(preds: Stacks, i: int) -> bool {
    forall|k: int| 0 <= k < preds.len() ==> (#[trigger] preds[k]).1[i] == preds[0].1[i]
}

pub open spec fn column(preds: Stacks, i: int) -> Seq<(BlockId, ValueId)> {
    preds.map_values(|p: (BlockId, Seq<ValueId>)| (p.0, p.1[i]))
}

impl LowV {
    /// Joins the stack positions from `i` on.
    pub open spec fn join(self, preds: Stacks, i: nat) -> LowStep
        decreases preds[0].1.len() - i,
    {
        if i >= preds[0].1.len() {
            Ok(self)
        } else if agree_at(preds, i as int) {
            self.push(preds[0].1[i as int]).join(preds, i + 1)
        } else {
            match self.pushed(self.b.ins_stack_phi(column(preds, i as int))) {
                Ok(s) => s.join(preds, i + 1),
                Err(e) => Err(e),
            }
        }
    }
}

/// Stack at the start of a block.
pub open spec fn merged(b: BuildV, preds: Stacks) -> LowStep {
    let s = LowV { b, tos: Seq::empty() };
    if preds.len() == 0 {
        Ok(s)
    } else if exists|k: int| 0 <= k < preds.len() && (#[trigger] preds[k]).1.len() != preds[0].1.len() {
        refuse("edge stack height mismatch"@)
    } else {
        s.join(preds, 0)
    }
}

/// State between blocks.
#[verifier::ext_equal]
pub struct RunV {
    pub b: BuildV,
    /// Stacks that lead to blocks that are not started.
    pub incoming: Map<u32, Stacks>,
    /// Stacks that blocks started with.
    pub started: Map<u32, Seq<ValueId>>,
}

pub open spec fn stacks_of(m: Map<u32, Stacks>, b: BlockId) -> Stacks {
    if m.dom().contains(b.0) {
        m[b.0]
    } else {
        Seq::empty()
    }
}

/// The map with one more stack that leads to `to`.
pub open spec fn with_edge(m: Map<u32, Stacks>, from: BlockId, to: BlockId, stack: Seq<ValueId>) -> Map<u32, Stacks> {
    m.insert(to.0, stacks_of(m, to).push((from, stack)))
}

pub type EndStep = Result<(LowV, Map<u32, Stacks>), LowerErrV>;

/// A finished terminator.
pub open spec fn ended_with(s: LowV, r: (BuildV, Option<Seq<char>>), m: Map<u32, Stacks>) -> EndStep {
    match r.1 {
        None => Ok((LowV { b: r.0, ..s }, m)),
        Some(e) => Err(LowerErrV::Mir(e)),
    }
}

pub open spec fn unbound(l: Label) -> LowerErrV {
    LowerErrV::Refused("unbound Label("@ + dec(l.0 as nat) + ")"@)
}

impl LowV {
    /// Two-way branch on the value on top of the stack.
    pub open spec fn fork(
        self,
        sense: bool,
        name: Seq<char>,
        target: Option<BlockId>,
        label: Label,
        next: Option<BlockId>,
        from: BlockId,
        m: Map<u32, Stacks>,
    ) -> EndStep {
        if self.tos.len() == 0 {
            Err(LowerErrV::Refused(name + " stack"@))
        } else if target is None {
            Err(unbound(label))
        } else if next is None {
            Err(LowerErrV::Refused(name + " fallthrough"@))
        } else {
            let s = self.less(1);
            let taken = if sense {
                target->0
            } else {
                next->0
            };
            let not_taken = if sense {
                next->0
            } else {
                target->0
            };
            ended_with(
                s,
                s.b.branch(self.top(), taken, not_taken),
                with_edge(with_edge(m, from, taken, s.tos), from, not_taken, s.tos),
            )
        }
    }

    /// Tag match on the value on top of the stack.
    pub open spec fn tag_match(
        self,
        tag: u32,
        arity: u32,
        target: Option<BlockId>,
        label: Label,
        next: Option<BlockId>,
        from: BlockId,
        h: HintsV,
        m: Map<u32, Stacks>,
    ) -> EndStep {
        if !h.allow_match {
            Err(LowerErrV::Refused("JumpIfMatch / classes"@))
        } else if tag > 1 || arity > 1 {
            Err(LowerErrV::Refused("JumpIfMatch full enum (I2 is niche/two-slot)"@))
        } else if self.tos.len() == 0 {
            Err(LowerErrV::Refused("JumpIfMatch stack"@))
        } else if target is None {
            Err(unbound(label))
        } else if next is None {
            Err(LowerErrV::Refused("JumpIfMatch fallthrough"@))
        } else {
            let s = self.less(1);
            let v = self.top();
            let p = s.b.ins_match_payload(v, 0, payload_ty(s.b.f.ty(v)));
            let miss = s.tos.push(v);
            if arity == 1 && p.1 is Err {
                Err(LowerErrV::Mir(p.1->Err_0))
            } else {
                let b = if arity == 1 {
                    p.0
                } else {
                    s.b
                };
                let payloads = if arity == 1 {
                    seq![p.1->Ok_0]
                } else {
                    Seq::empty()
                };
                ended_with(
                    LowV { b, tos: Seq::empty() },
                    b.jump_if_match(v, tag, payloads, target->0, next->0),
                    with_edge(with_edge(m, from, target->0, s.tos + payloads), from, next->0, miss),
                )
            }
        }
    }

    /// Ends block `from` after its last operation.
    pub open spec fn finish_block(
        self,
        last: IlOp,
        ops: Seq<IlOp>,
        ranges: Seq<(nat, nat)>,
        next: Option<BlockId>,
        from: BlockId,
        h: HintsV,
        m: Map<u32, Stacks>,
    ) -> EndStep {
        match last {
            IlOp::Jump { kind, target, .. } => {
                let to = bound_block(ops, ranges, target, ranges.len());
                match kind {
                    IlJumpKind::Unconditional => if to is None {
                        Err(unbound(target))
                    } else {
                        ended_with(self, self.b.jump(to->0), with_edge(m, from, to->0, self.tos))
                    },
                    IlJumpKind::JumpIfFalse => self.fork(false, "jmpf"@, to, target, next, from, m),
                    IlJumpKind::JumpIfTrue => self.fork(true, "jmpt"@, to, target, next, from, m),
                    IlJumpKind::JumpIfMatch { tag, arity } => self.tag_match(
                        tag,
                        arity,
                        to,
                        target,
                        next,
                        from,
                        h,
                        m,
                    ),
                }
            },
            IlOp::Return { ret_words, .. } => if ret_words >= 2 {
                if self.tos.len() == 0 {
                    Err(LowerErrV::Refused("ret2 tag stack"@))
                } else if self.tos.len() == 1 {
                    Err(LowerErrV::Refused("ret2 payload stack"@))
                } else {
                    ended_with(self.less(2), self.b.ret_pair(self.second(), self.top()), m)
                }
            } else {
                self.give(m)
            },
            IlOp::Halt { .. } => self.give(m),
            _ => if ends_block(last) {
                Err(LowerErrV::Refused("unsupported IL terminator"@))
            } else {
                match next {
                    Some(b) => ended_with(self, self.b.jump(b), with_edge(m, from, b, self.tos)),
                    None => self.give(m),
                }
            },
        }
    }

    /// Returns the value on top of the stack, if there is one.
    pub open spec fn give(self, m: Map<u32, Stacks>) -> EndStep {
        if self.tos.len() == 0 {
            ended_with(self, self.b.ret(None), m)
        } else {
            ended_with(self.less(1), self.b.ret(Some(self.top())), m)
        }
    }

    /// Operations from `i` to `end`.
    pub open spec fn steps(self, ops: Seq<IlOp>, i: nat, end: nat, h: HintsV) -> LowStep
        decreases end - i,
    {
        if i >= end {
            Ok(self)
        } else {
            match self.step(ops[i as int], h) {
                Ok(s) => s.steps(ops, i + 1, end, h),
                Err(e) => Err(e),
            }
        }
    }
}

pub open spec fn term_of(b: BuildV, id: BlockId) -> Option<TermV> {
    b.f.blocks[id.0 as int].term
}

/// One block.
pub open spec fn lower_block(r: RunV, ops: Seq<IlOp>, ranges: Seq<(nat, nat)>, i: nat, h: HintsV) -> Result<
    RunV,
    LowerErrV,
> {
    let id = BlockId(i as u32);
    let start = ranges[i as int].0;
    let end = ranges[i as int].1;
    let next = if i + 1 < ranges.len() {
        Some(BlockId((i + 1) as u32))
    } else {
        None
    };
    match merged(BuildV { current: Some(id), ..r.b }, stacks_of(r.incoming, id)) {
        Err(e) => Err(e),
        Ok(s) => match s.steps(ops, start, end, h) {
            Err(e) => Err(e),
            Ok(t) => {
                let m = r.incoming.remove(id.0);
                let e = if term_of(t.b, id) is None {
                    t.finish_block(ops[end - 1], ops, ranges, next, id, h, m)
                } else {
                    Ok((t, m))
                };
                match e {
                    Err(x) => Err(x),
                    Ok(u) => if u.0.tos.len() > 0 && !h.allow_match && term_of(u.0.b, id) is Some && !(term_of(
                        u.0.b,
                        id,
                    ) matches Some(TermV::Return { .. })) {
                        Err(LowerErrV::Refused("non-empty operand stack at CFG edge (P0)"@))
                    } else {
                        Ok(RunV { b: u.0.b, incoming: u.1, started: r.started.insert(id.0, s.tos) })
                    },
                }
            },
        },
    }
}

/// Blocks from `i` on.
pub open spec fn lower_blocks(r: RunV, ops: Seq<IlOp>, ranges: Seq<(nat, nat)>, i: nat, h: HintsV) -> Result<
    RunV,
    LowerErrV,
>
    decreases ranges.len() - i,
{
    if i >= ranges.len() {
        Ok(r)
    } else {
        match lower_block(r, ops, ranges, i, h) {
            Ok(s) => lower_blocks(s, ops, ranges, i + 1, h),
            Err(e) => Err(e),
        }
    }
}

/// A stack that leads back to a block differs from the one it started with.
pub open spec fn mismatch(r: RunV, to: u32) -> bool {
    r.incoming.dom().contains(to) && r.started.dom().contains(to) && exists|k: int|
        0 <= k < r.incoming[to].len() && (#[trigger] r.incoming[to][k]).1 != r.started[to]
}

/// Parameters from `i` on, bound to their slots.
pub open spec fn with_slots(b: BuildV, i: nat, h: HintsV) -> Result<BuildV, LowerErrV>
    decreases h.param_count - i,
{
    if i >= h.param_count {
        Ok(b)
    } else {
        let ty = h.slot(i as u32);
        if !ty.specialized() {
            Err(LowerErrV::Refused("param slot "@ + dec(i) + " is "@ + ty.text()))
        } else {
            let v = b.next();
            let c = BuildV {
                f: FuncV { types: b.f.types.push(ty), params: b.f.params.push(v), ..b.f },
                ..b
            }.write(LocalId(i as u32), BlockId(0), v);
            with_slots(c, i + 1, h)
        }
    }
}

/// Blocks up to number `n`.
pub open spec fn with_blocks(b: BuildV, n: nat) -> BuildV
    decreases n - b.f.blocks.len(),
{
    if b.f.blocks.len() >= n {
        b
    } else {
        let id = BlockId(b.f.blocks.len() as u32);
        with_blocks(
            BuildV {
                f: FuncV { blocks: b.f.blocks.push(empty_block(id)), ..b.f },
                defs: b.defs.push(Map::empty()),
                sealed: b.sealed.push(false),
                preds: b.preds.push(Seq::empty()),
                incomplete: b.incomplete.push(Seq::empty()),
                ..b
            },
            n,
        )
    }
}

/// Builder for an empty function.
pub open spec fn fresh_builder(h: HintsV) -> BuildV {
    BuildV {
        f: empty_func(h.name, h.hosts),
        current: Some(BlockId(0)),
        defs: seq![Map::empty()],
        sealed: seq![false],
        preds: seq![Seq::empty()],
        incomplete: seq![Seq::empty()],
        subst: Map::empty(),
        effects: h.allow_effects,
        skip: h.skip_verify,
    }
}

/// SSA construction of a body, up to finishing.
pub open spec fn lowered(ops: Seq<IlOp>, h: HintsV) -> Result<BuildV, LowerErrV> {
    let ranges = block_ranges(ops);
    if ops.len() == 0 {
        Err(LowerErrV::Refused("empty IL"@))
    } else {
        match with_slots(fresh_builder(h), 0, h) {
            Err(e) => Err(e),
            Ok(b) => {
                let start = RunV { b: with_blocks(b, ranges.len()), incoming: Map::empty(), started: Map::empty() };
                match lower_blocks(start, ops, ranges, 0, h) {
                    Err(e) => Err(e),
                    Ok(r) => if exists|to: u32| #[trigger] mismatch(r, to) {
                        Err(LowerErrV::Refused("back-edge stack mismatch (I2)"@))
                    } else {
                        Ok(r.b)
                    },
                }
            },
        }
    }
}

/// SSA form of a body.
pub open spec fn numeric(ops: Seq<IlOp>, h: HintsV) -> Result<FuncV, LowerErrV> {
    match lowered(ops, h) {
        Err(e) => Err(e),
        Ok(b) => match b.finished().fault() {
            Some(m) if !b.skip => Err(LowerErrV::Mir(m)),
            _ => Ok(b.finished()),
        },
    }
}

// Executable part of the block walk.

pub open spec fn stacks_view(s: Seq<(BlockId, Vec<ValueId>)>) -> Stacks {
    s.map_values(|p: (BlockId, Vec<ValueId>)| (p.0, p.1@))
}

pub open spec fn incoming_view(m: Map<u32, Vec<(BlockId, Vec<ValueId>)>>) -> Map<u32, Stacks> {
    Map::new(|k: u32| m.dom().contains(k), |k: u32| stacks_view(m[k]@))
}

pub open spec fn started_view(m: Map<u32, Vec<ValueId>>) -> Map<u32, Seq<ValueId>> {
    Map::new(|k: u32| m.dom().contains(k), |k: u32| m[k]@)
}

pub open spec fn spans_view(s: Seq<(usize, usize)>) -> Seq<(nat, nat)> {
    s.map_values(|p: (usize, usize)| (p.0 as nat, p.1 as nat))
}

fn split_blocks(ops: &[IlOp]) -> (r: Vec<(usize, usize)>)
    ensures
        spans_view(r@) == block_ranges(ops@),
        forall|i: int| 0 <= i < r@.len() ==> (#[trigger] r@[i]).0 < r@[i].1 <= ops@.len(),
        r@.len() <= ops@.len(),
        ops@.len() > 0 ==> r@.len() > 0,
{
    let n = ops.len();
    let ghost all = block_ranges(ops@);
    let mut r: Vec<(usize, usize)> = Vec::new();
    let mut i: usize = 0;
    assert(spans_view(r@) + ranges_from(ops@, 0) =~= all);
    while i < n
        invariant
            n == ops@.len(),
            all == block_ranges(ops@),
            i <= n,
            r@.len() <= i,
            i > 0 ==> r@.len() > 0,
            spans_view(r@) + ranges_from(ops@, i as nat) == all,
            forall|k: int| 0 <= k < r@.len() ==> (#[trigger] r@[k]).0 < r@[k].1 <= ops@.len(),
        decreases n - i,
    {
        let mut end: usize = i + 1;
        while end < n && label_at(&ops[end]).is_none() && !is_term(&ops[end - 1])
            invariant
                n == ops@.len(),
                i < end <= n,
                next_lead(ops@, (i + 1) as nat) == next_lead(ops@, end as nat),
            decreases n - end,
        {
            end = end + 1;
        }
        let ghost s0 = spans_view(r@);
        r.push((i, end));
        assert(spans_view(r@) =~= s0.push((i as nat, end as nat)));
        assert(s0 + (seq![(i as nat, end as nat)] + ranges_from(ops@, end as nat)) =~= s0.push(
            (i as nat, end as nat),
        ) + ranges_from(ops@, end as nat));
        i = end;
    }
    assert(spans_view(r@) + ranges_from(ops@, i as nat) =~= spans_view(r@));
    r
}

fn find_block(ops: &[IlOp], ranges: &Vec<(usize, usize)>, l: Label) -> (r: Option<BlockId>)
    requires
        ranges@.len() <= u32::MAX,
        forall|i: int| 0 <= i < ranges@.len() ==> (#[trigger] ranges@[i]).0 < ranges@[i].1 <= ops@.len(),
    ensures
        r == bound_block(ops@, spans_view(ranges@), l, ranges@.len()),
        r matches Some(b) ==> b.0 < ranges@.len(),
{
    let ghost rs = spans_view(ranges@);
    let mut k: usize = ranges.len();
    while k > 0
        invariant
            rs == spans_view(ranges@),
            ranges@.len() <= u32::MAX,
            forall|i: int| 0 <= i < ranges@.len() ==> (#[trigger] ranges@[i]).0 < ranges@[i].1 <= ops@.len(),
            k <= ranges@.len(),
            bound_block(ops@, rs, l, ranges@.len()) == bound_block(ops@, rs, l, k as nat),
        decreases k,
    {
        let (start, _end) = ranges[k - 1];
        assert(rs[k - 1].0 == start);
        if let Some(x) = label_at(&ops[start]) {
            if x == l {
                return Some(BlockId((k - 1) as u32));
            }
        }
        k = k - 1;
    }
    None
}

fn merge_incoming(b: &mut MirBuilder, preds: &Vec<(BlockId, Vec<ValueId>)>) -> (r: Result<Vec<ValueId>, LowerError>)
    requires
        old(b)@.wf(),
    ensures
        final(b)@.wf(),
        match merged(old(b)@, stacks_view(preds@)) {
            Ok(s) => (r matches Ok(t) && t@ == s.tos) && final(b)@ == s.b && final(b)@.f.blocks.len()
                == old(b)@.f.blocks.len() && final(b)@.current == old(b)@.current,
            Err(e) => r matches Err(x) && x@ == e,
        },
{
    let ghost ps = stacks_view(preds@);
    let mut tos: Vec<ValueId> = Vec::new();
    assert(tos@ =~= Seq::empty());
    if preds.len() == 0 {
        return Ok(tos);
    }
    let h = preds[0].1.len();
    assert(ps[0] == (preds@[0].0, preds@[0].1@));
    let mut k: usize = 0;
    while k < preds.len()
        invariant
            ps == stacks_view(preds@),
            preds@.len() > 0,
            h == ps[0].1.len(),
            b@ == old(b)@,
            b@.wf(),
            k <= preds@.len(),
            forall|j: int| 0 <= j < k ==> (#[trigger] ps[j]).1.len() == h,
        decreases preds@.len() - k,
    {
        assert(ps[k as int] == (preds@[k as int].0, preds@[k as int].1@));
        if preds[k].1.len() != h {
            assert(ps[k as int].1.len() != ps[0].1.len());
            return Err(refused("edge stack height mismatch"));
        }
        k = k + 1;
    }
    let ghost s0 = LowV { b: old(b)@, tos: Seq::empty() };
    let mut i: usize = 0;
    while i < h
        invariant
            ps == stacks_view(preds@),
            preds@.len() > 0,
            h == ps[0].1.len(),
            forall|j: int| 0 <= j < preds@.len() ==> (#[trigger] ps[j]).1.len() == h,
            merged(old(b)@, ps) == s0.join(ps, 0),
            b@.wf(),
            b@.f.blocks.len() == old(b)@.f.blocks.len(),
            b@.current == old(b)@.current,
            i <= h,
            s0.join(ps, 0) == (LowV { b: b@, tos: tos@ }).join(ps, i as nat),
        decreases h - i,
    {
        assert(ps[0] == (preds@[0].0, preds@[0].1@));
        let v0 = preds[0].1[i];
        let mut same = true;
        let mut args: Vec<(BlockId, ValueId)> = Vec::new();
        let mut k: usize = 0;
        let ghost col = column(ps, i as int);
        while k < preds.len()
            invariant
                ps == stacks_view(preds@),
                preds@.len() > 0,
                i < h,
                v0 == ps[0].1[i as int],
                col == column(ps, i as int),
                forall|j: int| 0 <= j < preds@.len() ==> (#[trigger] ps[j]).1.len() == h,
                k <= preds@.len(),
                same == (forall|j: int| 0 <= j < k ==> (#[trigger] ps[j]).1[i as int] == v0),
                args@ == col.take(k as int),
            decreases preds@.len() - k,
        {
            assert(ps[k as int] == (preds@[k as int].0, preds@[k as int].1@));
            let v = preds[k].1[i];
            if v != v0 {
                assert(ps[k as int].1[i as int] != v0);
                same = false;
            }
            args.push((preds[k].0, v));
            k = k + 1;
            assert(args@ =~= col.take(k as int));
        }
        assert(args@ =~= col);
        if same {
            tos.push(v0);
        } else {
            match b.ins_stack_phi(args) {
                Ok(v) => tos.push(v),
                Err(e) => {
                    return Err(mir(e));
                },
            }
        }
        i = i + 1;
    }
    Ok(tos)
}

fn record_edge(
    incoming: &mut IdMap<Vec<(BlockId, Vec<ValueId>)>>,
    from: BlockId,
    to: BlockId,
    stack: Vec<ValueId>,
)
    ensures
        incoming_view(final(incoming)@) == with_edge(incoming_view(old(incoming)@), from, to, stack@),
{
    let ghost m0 = incoming@;
    let mut v = match incoming.remove(&to.0) {
        Some(v) => v,
        None => Vec::new(),
    };
    let ghost v0 = stacks_view(v@);
    let ghost st = stack@;
    assert(v0 =~= stacks_of(incoming_view(m0), to));
    v.push((from, stack));
    assert(stacks_view(v@) =~= v0.push((from, st)));
    incoming.insert(to.0, v);
    assert(incoming_view(incoming@) =~= with_edge(incoming_view(m0), from, to, st));
}

fn unbound_label(l: Label) -> (r: LowerError)
    ensures
        r@ == unbound(l),
{
    let d = dec_str(l.0 as u64);
    LowerError::Refused(cat3("unbound Label(", d.as_str(), ")"))
}

/// Relates the outcome of a terminator to its specification.
spec fn closed_with(
    r: Result<(), LowerError>,
    s: EndStep,
    b: BuildV,
    tos: Seq<ValueId>,
    m: Map<u32, Vec<(BlockId, Vec<ValueId>)>>,
    n: nat,
) -> bool {
    match s {
        Ok(u) => r is Ok && b == u.0.b && tos == u.0.tos && incoming_view(m) == u.1 && b.f.blocks.len() == n,
        Err(e) => r matches Err(x) && x@ == e,
    }
}

fn close(r: Result<(), MirError>) -> (o: Result<(), LowerError>)
    ensures
        match r {
            Ok(_) => o is Ok,
            Err(e) => o matches Err(x) && x@ == LowerErrV::Mir(e@),
        },
{
    match r {
        Ok(_) => Ok(()),
        Err(e) => Err(mir(e)),
    }
}

fn give(b: &mut MirBuilder, tos: &mut Vec<ValueId>, incoming: &IdMap<Vec<(BlockId, Vec<ValueId>)>>) -> (r: Result<
    (),
    LowerError,
>)
    requires
        old(b)@.wf(),
    ensures
        final(b)@.wf(),
        closed_with(
            r,
            state(*old(b), *old(tos)).give(incoming_view(incoming@)),
            final(b)@,
            final(tos)@,
            incoming@,
            old(b)@.f.blocks.len(),
        ),
{
    let v = if tos.len() == 0 {
        None
    } else {
        Some(take_one(tos))
    };
    close(b.ret(v))
}

fn fork(
    b: &mut MirBuilder,
    tos: &mut Vec<ValueId>,
    incoming: &mut IdMap<Vec<(BlockId, Vec<ValueId>)>>,
    sense: bool,
    name: &str,
    target: Option<BlockId>,
    label: Label,
    next: Option<BlockId>,
    from: BlockId,
) -> (r: Result<(), LowerError>)
    requires
        old(b)@.wf(),
        target is Some ==> (target->0).0 < old(b)@.f.blocks.len(),
        next is Some ==> (next->0).0 < old(b)@.f.blocks.len(),
    ensures
        final(b)@.wf(),
        closed_with(
            r,
            state(*old(b), *old(tos)).fork(sense, name@, target, label, next, from, incoming_view(old(incoming)@)),
            final(b)@,
            final(tos)@,
            final(incoming)@,
            old(b)@.f.blocks.len(),
        ),
{
    if tos.len() == 0 {
        return Err(LowerError::Refused(cat2(name, " stack")));
    }
    let cond = take_one(tos);
    let to = match target {
        Some(t) => t,
        None => {
            return Err(unbound_label(label));
        },
    };
    let ft = match next {
        Some(t) => t,
        None => {
            return Err(LowerError::Refused(cat2(name, " fallthrough")));
        },
    };
    let (taken, not_taken) = if sense {
        (to, ft)
    } else {
        (ft, to)
    };
    record_edge(incoming, from, taken, copy_ids(tos));
    record_edge(incoming, from, not_taken, copy_ids(tos));
    close(b.branch(cond, taken, not_taken))
}

fn tag_match(
    b: &mut MirBuilder,
    tos: &mut Vec<ValueId>,
    incoming: &mut IdMap<Vec<(BlockId, Vec<ValueId>)>>,
    tag: u32,
    arity: u32,
    target: Option<BlockId>,
    label: Label,
    next: Option<BlockId>,
    from: BlockId,
    hints: &LowerHints,
) -> (r: Result<(), LowerError>)
    requires
        old(b)@.wf(),
        target is Some ==> (target->0).0 < old(b)@.f.blocks.len(),
        next is Some ==> (next->0).0 < old(b)@.f.blocks.len(),
    ensures
        final(b)@.wf(),
        closed_with(
            r,
            state(*old(b), *old(tos)).tag_match(
                tag,
                arity,
                target,
                label,
                next,
                from,
                hints@,
                incoming_view(old(incoming)@),
            ),
            final(b)@,
            final(tos)@,
            final(incoming)@,
            old(b)@.f.blocks.len(),
        ),
{
    if !hints.allow_match {
        return stop("JumpIfMatch / classes");
    }
    if tag > 1 || arity > 1 {
        return stop("JumpIfMatch full enum (I2 is niche/two-slot)");
    }
    if tos.len() == 0 {
        return stop("JumpIfMatch stack");
    }
    let scrutinee = take_one(tos);
    let taken = match target {
        Some(t) => t,
        None => {
            return Err(unbound_label(label));
        },
    };
    let not_taken = match next {
        Some(t) => t,
        None => {
            return stop("JumpIfMatch fallthrough");
        },
    };
    let ghost t0 = tos@;
    let mut payloads: Vec<ValueId> = Vec::new();
    let mut hit = copy_ids(tos);
    let mut miss = copy_ids(tos);
    if arity == 1 {
        let ty = payload_of(b.func().ty(scrutinee));
        match b.ins_match_payload(scrutinee, 0, ty) {
            Ok(v) => {
                payloads.push(v);
                hit.push(v);
            },
            Err(e) => {
                return Err(mir(e));
            },
        }
        assert(payloads@ =~= seq![payloads@[0]]);
    } else {
        assert(payloads@ =~= Seq::empty());
    }
    assert(hit@ =~= t0 + payloads@);
    miss.push(scrutinee);
    record_edge(incoming, from, taken, hit);
    record_edge(incoming, from, not_taken, miss);
    let r = b.jump_if_match(scrutinee, tag, payloads, taken, not_taken);
    tos.clear();
    close(r)
}

fn emit_term(
    b: &mut MirBuilder,
    tos: &mut Vec<ValueId>,
    incoming: &mut IdMap<Vec<(BlockId, Vec<ValueId>)>>,
    last: &IlOp,
    ops: &[IlOp],
    ranges: &Vec<(usize, usize)>,
    next: Option<BlockId>,
    from: BlockId,
    hints: &LowerHints,
) -> (r: Result<(), LowerError>)
    requires
        old(b)@.wf(),
        ranges@.len() <= old(b)@.f.blocks.len(),
        forall|i: int| 0 <= i < ranges@.len() ==> (#[trigger] ranges@[i]).0 < ranges@[i].1 <= ops@.len(),
        next is Some ==> (next->0).0 < old(b)@.f.blocks.len(),
    ensures
        final(b)@.wf(),
        closed_with(
            r,
            state(*old(b), *old(tos)).finish_block(
                *last,
                ops@,
                spans_view(ranges@),
                next,
                from,
                hints@,
                incoming_view(old(incoming)@),
            ),
            final(b)@,
            final(tos)@,
            final(incoming)@,
            old(b)@.f.blocks.len(),
        ),
{
    match last {
        IlOp::Jump { kind, target, .. } => {
            let to = find_block(ops, ranges, *target);
            match kind {
                IlJumpKind::Unconditional => match to {
                    Some(dest) => {
                        record_edge(incoming, from, dest, copy_ids(tos));
                        close(b.jump(dest))
                    },
                    None => Err(unbound_label(*target)),
                },
                IlJumpKind::JumpIfFalse => fork(b, tos, incoming, false, "jmpf", to, *target, next, from),
                IlJumpKind::JumpIfTrue => fork(b, tos, incoming, true, "jmpt", to, *target, next, from),
                IlJumpKind::JumpIfMatch { tag, arity } => tag_match(
                    b,
                    tos,
                    incoming,
                    *tag,
                    *arity,
                    to,
                    *target,
                    next,
                    from,
                    hints,
                ),
            }
        },
        IlOp::Return { ret_words, .. } => {
            if *ret_words >= 2 {
                if tos.len() == 0 {
                    return stop("ret2 tag stack");
                }
                if tos.len() == 1 {
                    return stop("ret2 payload stack");
                }
                let args = take_args(tos, 2);
                return close(b.ret_pair(args[0], args[1]));
            }
            give(b, tos, incoming)
        },
        IlOp::Halt { .. } => give(b, tos, incoming),
        _ => {
            if is_term(last) {
                return stop("unsupported IL terminator");
            }
            match next {
                Some(ft) => {
                    record_edge(incoming, from, ft, copy_ids(tos));
                    close(b.jump(ft))
                },
                None => give(b, tos, incoming),
            }
        },
    }
}

/// Relates the outcome of lowering a block to its specification.
spec fn walked(
    r: Result<(), LowerError>,
    s: Result<RunV, LowerErrV>,
    b: BuildV,
    incoming: Map<u32, Vec<(BlockId, Vec<ValueId>)>>,
    started: Map<u32, Vec<ValueId>>,
    n: nat,
) -> bool {
    match s {
        Ok(u) => r is Ok && b == u.b && incoming_view(incoming) == u.incoming && started_view(started) == u.started
            && b.f.blocks.len() == n,
        Err(e) => r matches Err(x) && x@ == e,
    }
}

fn lower_range(
    b: &mut MirBuilder,
    incoming: &mut IdMap<Vec<(BlockId, Vec<ValueId>)>>,
    started: &mut IdMap<Vec<ValueId>>,
    ops: &[IlOp],
    ranges: &Vec<(usize, usize)>,
    i: usize,
    hints: &LowerHints,
) -> (r: Result<(), LowerError>)
    requires
        old(b)@.wf(),
        ranges@.len() <= old(b)@.f.blocks.len(),
        forall|i: int| 0 <= i < ranges@.len() ==> (#[trigger] ranges@[i]).0 < ranges@[i].1 <= ops@.len(),
        i < ranges@.len(),
    ensures
        final(b)@.wf(),
        walked(
            r,
            lower_block(
                RunV { b: old(b)@, incoming: incoming_view(old(incoming)@), started: started_view(old(started)@) },
                ops@,
                spans_view(ranges@),
                i as nat,
                hints@,
            ),
            final(b)@,
            final(incoming)@,
            final(started)@,
            old(b)@.f.blocks.len(),
        ),
{
    let ghost run0 = RunV { b: b@, incoming: incoming_view(incoming@), started: started_view(started@) };
    let ghost rs = spans_view(ranges@);
    let id = BlockId(i as u32);
    let (start, end) = ranges[i];
    assert(rs[i as int] == (start as nat, end as nat));
    b.switch_to_block(id);
    let ghost m0 = incoming@;
    let preds = match incoming.remove(&id.0) {
        Some(v) => v,
        None => Vec::new(),
    };
    proof {
        assert(stacks_view(preds@) =~= stacks_of(run0.incoming, id));
        assert(incoming_view(incoming@) =~= run0.incoming.remove(id.0));
    }
    let mut tos = match merge_incoming(b, &preds) {
        Ok(t) => t,
        Err(e) => {
            return Err(e);
        },
    };
    let ghost first = LowV { b: b@, tos: tos@ };
    started.insert(id.0, copy_ids(&tos));
    assert(started_view(started@) =~= run0.started.insert(id.0, first.tos));
    let mut k: usize = start;
    while k < end
        invariant
            b@.wf(),
            b@.f.blocks.len() == run0.b.f.blocks.len(),
            merged(BuildV { current: Some(id), ..run0.b }, stacks_of(run0.incoming, id)) == Ok::<LowV, LowerErrV>(first),
            run0 == (RunV {
                b: old(b)@,
                incoming: incoming_view(old(incoming)@),
                started: started_view(old(started)@),
            }),
            rs == spans_view(ranges@),
            i < ranges@.len(),
            rs[i as int] == (start as nat, end as nat),
            id == BlockId(i as u32),
            start <= k <= end <= ops@.len(),
            first.steps(ops@, start as nat, end as nat, hints@) == (LowV { b: b@, tos: tos@ }).steps(
                ops@,
                k as nat,
                end as nat,
                hints@,
            ),
        decreases end - k,
    {
        match lower_op(b, &mut tos, &ops[k], hints) {
            Ok(_) => {},
            Err(e) => {
                return Err(e);
            },
        }
        k = k + 1;
    }
    let next = if i + 1 < ranges.len() {
        Some(BlockId((i + 1) as u32))
    } else {
        None
    };
    if b.func().block(id).term.is_none() {
        match emit_term(b, &mut tos, incoming, &ops[end - 1], ops, ranges, next, id, hints) {
            Ok(_) => {},
            Err(e) => {
                return Err(e);
            },
        }
    }
    if tos.len() > 0 && !hints.allow_match {
        match &b.func().block(id).term {
            Some(Terminator::Return { .. }) => {},
            Some(_) => {
                return stop("non-empty operand stack at CFG edge (P0)");
            },
            None => {},
        }
    }
    Ok(())
}

fn same_ids(a: &Vec<ValueId>, b: &Vec<ValueId>) -> (r: bool)
    ensures
        r == (a@ == b@),
{
    if a.len() != b.len() {
        return false;
    }
    let mut i: usize = 0;
    while i < a.len()
        invariant
            a@.len() == b@.len(),
            i <= a@.len(),
            forall|k: int| 0 <= k < i ==> a@[k] == b@[k],
        decreases a@.len() - i,
    {
        if a[i] != b[i] {
            return false;
        }
        i = i + 1;
    }
    assert(a@ =~= b@);
    true
}

fn has_mismatch(
    incoming: &IdMap<Vec<(BlockId, Vec<ValueId>)>>,
    started: &IdMap<Vec<ValueId>>,
    Ghost(run): Ghost<RunV>,
) -> (r: bool)
    requires
        incoming_view(incoming@) == run.incoming,
        started_view(started@) == run.started,
    ensures
        r == exists|to: u32| #[trigger] mismatch(run, to),
{
    let ks = incoming.keys();
    proof {
        listing_holds_the_members(incoming@.dom());
    }
    let mut i: usize = 0;
    while i < ks.len()
        invariant
            incoming_view(incoming@) == run.incoming,
            started_view(started@) == run.started,
            forall|x: u32| incoming@.dom().contains(x) <==> #[trigger] ks@.contains(x),
            i <= ks@.len(),
            forall|j: int| 0 <= j < i ==> !mismatch(run, #[trigger] ks@[j]),
        decreases ks@.len() - i,
    {
        let to = ks[i];
        if let Some(used) = started.get(&to) {
            assert(run.started.dom().contains(to) && run.started[to] == used@);
            if let Some(stacks) = incoming.get(&to) {
                assert(run.incoming.dom().contains(to) && run.incoming[to] == stacks_view(stacks@));
                let mut k: usize = 0;
                while k < stacks.len()
                    invariant
                        run.started.dom().contains(to) && run.started[to] == used@,
                        run.incoming.dom().contains(to) && run.incoming[to] == stacks_view(stacks@),
                        k <= stacks@.len(),
                        forall|j: int| 0 <= j < k ==> (#[trigger] run.incoming[to][j]).1 == used@,
                    decreases stacks@.len() - k,
                {
                    assert(run.incoming[to][k as int] == (stacks@[k as int].0, stacks@[k as int].1@));
                    if !same_ids(&stacks[k].1, used) {
                        assert(mismatch(run, to));
                        return true;
                    }
                    k = k + 1;
                }
            }
        } else {
            assert(!run.started.dom().contains(to));
        }
        assert(!mismatch(run, to));
        i = i + 1;
    }
    assert forall|to: u32| !#[trigger] mismatch(run, to) by {
        if run.incoming.dom().contains(to) {
            assert(ks@.contains(to));
            let j = ks@.index_of(to);
            assert(!mismatch(run, ks@[j]));
        }
    }
    false
}

/// Lowers a stack code fragment.
pub fn try_lower_numeric(ops: &[IlOp], hints: &LowerHints) -> (r: Result<MirFunc, LowerError>)
    requires
        ops@.len() <= u32::MAX,
    ensures
        match numeric(ops@, hints@) {
            Ok(f) => r matches Ok(x) && x@ == f,
            Err(e) => r matches Err(x) && x@ == e,
        },
{
    if ops.len() == 0 {
        return stop_func("empty IL");
    }
    let ghost h = hints@;
    let ranges = split_blocks(ops);
    let ghost rs = spans_view(ranges@);
    let mut b = MirBuilder::new(hints.name.as_str(), &hints.hosts);
    b.set_effects(hints.allow_effects, hints.skip_verify);
    assert(b@ =~= fresh_builder(h));
    let mut i: u32 = 0;
    while i < hints.param_count
        invariant
            ops@.len() > 0,
            h == hints@,
            b@.wf(),
            b@.current == Some(BlockId(0)),
            b@.f.blocks.len() == 1,
            i <= hints.param_count,
            with_slots(fresh_builder(h), 0, h) == with_slots(b@, i as nat, h),
        decreases hints.param_count - i,
    {
        let ty = hints.slot(i);
        if !ty.is_specialized() {
            let d = dec_str(i as u64);
            return Err(LowerError::Refused(cat4("param slot ", d.as_str(), " is ", ty.as_str())));
        }
        let ghost b0 = b@;
        let v = match b.add_param(ty) {
            Ok(v) => v,
            Err(e) => {
                return Err(mir(e));
            },
        };
        match b.def_local(LocalId(i), v) {
            Ok(_) => {},
            Err(e) => {
                return Err(mir(e));
            },
        }
        i = i + 1;
    }
    let ghost b1 = b@;
    let mut k: usize = 1;
    while k < ranges.len()
        invariant
            b@.wf(),
            1 <= k <= ranges@.len() <= u32::MAX,
            b@.f.blocks.len() == k,
            with_blocks(b1, ranges@.len()) == with_blocks(b@, ranges@.len()),
        decreases ranges@.len() - k,
    {
        let _ = b.create_block();
        k = k + 1;
    }
    let mut incoming: IdMap<Vec<(BlockId, Vec<ValueId>)>> = IdMap::new();
    let mut started: IdMap<Vec<ValueId>> = IdMap::new();
    let ghost start = RunV { b: b@, incoming: Map::empty(), started: Map::empty() };
    proof {
        assert(incoming_view(incoming@) =~= Map::empty());
        assert(started_view(started@) =~= Map::empty());
        assert(with_blocks(b@, ranges@.len()) == b@);
    }
    let mut j: usize = 0;
    while j < ranges.len()
        invariant
            ops@.len() > 0,
            h == hints@,
            rs == spans_view(ranges@),
            rs == block_ranges(ops@),
            with_slots(fresh_builder(h), 0, h) == Ok::<BuildV, LowerErrV>(b1),
            start == (RunV { b: with_blocks(b1, rs.len()), incoming: Map::empty(), started: Map::empty() }),
            b@.wf(),
            b@.f.blocks.len() == ranges@.len(),
            forall|i: int| 0 <= i < ranges@.len() ==> (#[trigger] ranges@[i]).0 < ranges@[i].1 <= ops@.len(),
            j <= ranges@.len(),
            lower_blocks(start, ops@, rs, 0, h) == lower_blocks(
                RunV { b: b@, incoming: incoming_view(incoming@), started: started_view(started@) },
                ops@,
                rs,
                j as nat,
                h,
            ),
        decreases ranges@.len() - j,
    {
        match lower_range(&mut b, &mut incoming, &mut started, ops, &ranges, j, hints) {
            Ok(_) => {},
            Err(e) => {
                return Err(e);
            },
        }
        j = j + 1;
    }
    let ghost run = RunV { b: b@, incoming: incoming_view(incoming@), started: started_view(started@) };
    if has_mismatch(&incoming, &started, Ghost(run)) {
        return stop_func("back-edge stack mismatch (I2)");
    }
    match b.finish() {
        Ok(f) => Ok(f),
        Err(e) => Err(mir(e)),
    }
}

fn stop_func(m: &str) -> (r: Result<MirFunc, LowerError>)
    ensures
        r matches Err(x) && x@ == LowerErrV::Refused(m@),
{
    Err(refused(m))
}

} // verus!

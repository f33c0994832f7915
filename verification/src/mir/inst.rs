//! SSA instructions.
use super::ty::MirTy;
use crate::idmap::IdMap;
use crate::il::op::{DebugLoc, Label};
use crate::text::{cat2, dec, dec_str};
use vstd::prelude::*;

verus! {

/// SSA value name. Dense, function-local.
#[derive(Copy, Clone, Debug, PartialEq, Eq, Hash, PartialOrd, Ord, Structural)]
pub struct ValueId(pub u32);

impl ValueId {
    pub fn index(self) -> (r: usize)
        ensures
            r == self.0,
    {
        self.0 as usize
    }

    /// Name used in messages.
    pub open spec fn text(self) -> Seq<char> {
        "v"@ + dec(self.0 as nat)
    }

    pub fn name(self) -> (r: String)
        ensures
            r@ == self.text(),
    {
        let d = dec_str(self.0 as u64);
        cat2("v", d.as_str())
    }
}

/// Basic-block id. Dense, function-local.
#[derive(Copy, Clone, Debug, PartialEq, Eq, Hash, PartialOrd, Ord, Structural)]
pub struct BlockId(pub u32);

impl BlockId {
    pub fn index(self) -> (r: usize)
        ensures
            r == self.0,
    {
        self.0 as usize
    }

    /// Name used in messages.
    pub open spec fn text(self) -> Seq<char> {
        "bb"@ + dec(self.0 as nat)
    }

    pub fn name(self) -> (r: String)
        ensures
            r@ == self.text(),
    {
        let d = dec_str(self.0 as u64);
        cat2("bb", d.as_str())
    }
}

/// Named mutable source local (stack slot) during SSA construction.
#[derive(Copy, Clone, Debug, PartialEq, Eq, Hash, PartialOrd, Ord, Structural)]
pub struct LocalId(pub u32);

/// Typed immediate. Floats are kept as IEEE bits.
#[derive(Copy, Clone, Debug, PartialEq, Eq, Hash, Structural)]
pub enum MirConst {
    I32(i32),
    I64(i64),
    F32(u32),
    F64(u64),
    Bool(bool),
}

impl MirConst {
    pub open spec fn const_ty(self) -> MirTy {
        match self {
            MirConst::I32(_) => MirTy::I32,
            MirConst::I64(_) => MirTy::I64,
            MirConst::F32(_) => MirTy::F32,
            MirConst::F64(_) => MirTy::F64,
            MirConst::Bool(_) => MirTy::Bool,
        }
    }

    pub fn ty(self) -> (r: MirTy)
        ensures
            r == self.const_ty(),
    {
        match self {
            MirConst::I32(_) => MirTy::I32,
            MirConst::I64(_) => MirTy::I64,
            MirConst::F32(_) => MirTy::F32,
            MirConst::F64(_) => MirTy::F64,
            MirConst::Bool(_) => MirTy::Bool,
        }
    }
}

pub(crate) fn same_str(a: &str, b: &str) -> (r: bool)
    ensures
        r == (a@ == b@),
{
    a.to_owned() == b.to_owned()
}

#[derive(Copy, Clone, Debug, PartialEq, Eq, Hash, Structural)]
pub enum MirBinOp {
    Add,
    Sub,
    Mul,
    Div,
    Rem,
    BitAnd,
    BitOr,
    Xor,
    Shl,
    Shr,
}

impl MirBinOp {
    /// Text form for integer or float operands.
    pub open spec fn text(self, float: bool) -> Seq<char> {
        match self {
            MirBinOp::Add => if float {
                "fadd"@
            } else {
                "iadd"@
            },
            MirBinOp::Sub => if float {
                "fsub"@
            } else {
                "isub"@
            },
            MirBinOp::Mul => if float {
                "fmul"@
            } else {
                "imul"@
            },
            MirBinOp::Div => if float {
                "fdiv"@
            } else {
                "idiv"@
            },
            MirBinOp::Rem => if float {
                "frem"@
            } else {
                "irem"@
            },
            MirBinOp::BitAnd => if float {
                "iand"@
            } else {
                "iand"@
            },
            MirBinOp::BitOr => if float {
                "ior"@
            } else {
                "ior"@
            },
            MirBinOp::Xor => if float {
                "ixor"@
            } else {
                "ixor"@
            },
            MirBinOp::Shl => if float {
                "ishl"@
            } else {
                "ishl"@
            },
            MirBinOp::Shr => if float {
                "ishr"@
            } else {
                "ishr"@
            },
        }
    }

    /// Variant name.
    pub open spec fn variant(self) -> Seq<char> {
        match self {
            MirBinOp::Add => "Add"@,
            MirBinOp::Sub => "Sub"@,
            MirBinOp::Mul => "Mul"@,
            MirBinOp::Div => "Div"@,
            MirBinOp::Rem => "Rem"@,
            MirBinOp::BitAnd => "BitAnd"@,
            MirBinOp::BitOr => "BitOr"@,
            MirBinOp::Xor => "Xor"@,
            MirBinOp::Shl => "Shl"@,
            MirBinOp::Shr => "Shr"@,
        }
    }

    pub fn variant_str(self) -> (r: &'static str)
        ensures
            r@ == self.variant(),
    {
        match self {
            MirBinOp::Add => "Add",
            MirBinOp::Sub => "Sub",
            MirBinOp::Mul => "Mul",
            MirBinOp::Div => "Div",
            MirBinOp::Rem => "Rem",
            MirBinOp::BitAnd => "BitAnd",
            MirBinOp::BitOr => "BitOr",
            MirBinOp::Xor => "Xor",
            MirBinOp::Shl => "Shl",
            MirBinOp::Shr => "Shr",
        }
    }

    pub fn as_str(self, ty: MirTy) -> (r: &'static str)
        ensures
            r@ == self.text(ty.float()),
    {
        let float = ty.is_float();
        match self {
            MirBinOp::Add => if float {
                "fadd"
            } else {
                "iadd"
            },
            MirBinOp::Sub => if float {
                "fsub"
            } else {
                "isub"
            },
            MirBinOp::Mul => if float {
                "fmul"
            } else {
                "imul"
            },
            MirBinOp::Div => if float {
                "fdiv"
            } else {
                "idiv"
            },
            MirBinOp::Rem => if float {
                "frem"
            } else {
                "irem"
            },
            MirBinOp::BitAnd => if float {
                "iand"
            } else {
                "iand"
            },
            MirBinOp::BitOr => if float {
                "ior"
            } else {
                "ior"
            },
            MirBinOp::Xor => if float {
                "ixor"
            } else {
                "ixor"
            },
            MirBinOp::Shl => if float {
                "ishl"
            } else {
                "ishl"
            },
            MirBinOp::Shr => if float {
                "ishr"
            } else {
                "ishr"
            },
        }
    }

    /// Operation and float flag that a text form names.
    pub open spec fn parsed(s: Seq<char>) -> Option<(MirBinOp, bool)> {
        if s == "iadd"@ {
            Some((MirBinOp::Add, false))
        } else if s == "fadd"@ {
            Some((MirBinOp::Add, true))
        } else if s == "isub"@ {
            Some((MirBinOp::Sub, false))
        } else if s == "fsub"@ {
            Some((MirBinOp::Sub, true))
        } else if s == "imul"@ {
            Some((MirBinOp::Mul, false))
        } else if s == "fmul"@ {
            Some((MirBinOp::Mul, true))
        } else if s == "idiv"@ {
            Some((MirBinOp::Div, false))
        } else if s == "fdiv"@ {
            Some((MirBinOp::Div, true))
        } else if s == "irem"@ {
            Some((MirBinOp::Rem, false))
        } else if s == "frem"@ {
            Some((MirBinOp::Rem, true))
        } else if s == "iand"@ {
            Some((MirBinOp::BitAnd, false))
        } else if s == "ior"@ {
            Some((MirBinOp::BitOr, false))
        } else if s == "ixor"@ {
            Some((MirBinOp::Xor, false))
        } else if s == "ishl"@ {
            Some((MirBinOp::Shl, false))
        } else if s == "ishr"@ {
            Some((MirBinOp::Shr, false))
        } else {
            None
        }
    }

    pub fn parse(s: &str) -> (r: Option<(Self, bool)>)
        ensures
            r == MirBinOp::parsed(s@),
    {
        if same_str(s, "iadd") {
            return Some((MirBinOp::Add, false));
        }
        if same_str(s, "fadd") {
            return Some((MirBinOp::Add, true));
        }
        if same_str(s, "isub") {
            return Some((MirBinOp::Sub, false));
        }
        if same_str(s, "fsub") {
            return Some((MirBinOp::Sub, true));
        }
        if same_str(s, "imul") {
            return Some((MirBinOp::Mul, false));
        }
        if same_str(s, "fmul") {
            return Some((MirBinOp::Mul, true));
        }
        if same_str(s, "idiv") {
            return Some((MirBinOp::Div, false));
        }
        if same_str(s, "fdiv") {
            return Some((MirBinOp::Div, true));
        }
        if same_str(s, "irem") {
            return Some((MirBinOp::Rem, false));
        }
        if same_str(s, "frem") {
            return Some((MirBinOp::Rem, true));
        }
        if same_str(s, "iand") {
            return Some((MirBinOp::BitAnd, false));
        }
        if same_str(s, "ior") {
            return Some((MirBinOp::BitOr, false));
        }
        if same_str(s, "ixor") {
            return Some((MirBinOp::Xor, false));
        }
        if same_str(s, "ishl") {
            return Some((MirBinOp::Shl, false));
        }
        if same_str(s, "ishr") {
            return Some((MirBinOp::Shr, false));
        }
        None
    }

    pub open spec fn int_only(self) -> bool {
        self is BitAnd || self is BitOr || self is Xor || self is Shl || self is Shr
    }

    pub fn requires_int(self) -> (r: bool)
        ensures
            r == self.int_only(),
    {
        matches!(self, MirBinOp::BitAnd | MirBinOp::BitOr | MirBinOp::Xor | MirBinOp::Shl | MirBinOp::Shr)
    }
}

#[derive(Copy, Clone, Debug, PartialEq, Eq, Hash, Structural)]
pub enum MirCmpOp {
    Lt,
    Le,
    Gt,
    Ge,
    Eq,
    Ne,
}

impl MirCmpOp {
    /// Text form for integer or float operands.
    pub open spec fn text(self, float: bool) -> Seq<char> {
        match self {
            MirCmpOp::Lt => if float {
                "fcmp.olt"@
            } else {
                "icmp.slt"@
            },
            MirCmpOp::Le => if float {
                "fcmp.ole"@
            } else {
                "icmp.sle"@
            },
            MirCmpOp::Gt => if float {
                "fcmp.ogt"@
            } else {
                "icmp.sgt"@
            },
            MirCmpOp::Ge => if float {
                "fcmp.oge"@
            } else {
                "icmp.sge"@
            },
            MirCmpOp::Eq => if float {
                "fcmp.oeq"@
            } else {
                "icmp.eq"@
            },
            MirCmpOp::Ne => if float {
                "fcmp.one"@
            } else {
                "icmp.ne"@
            },
        }
    }

    pub fn as_str(self, float: bool) -> (r: &'static str)
        ensures
            r@ == self.text(float),
    {
        match self {
            MirCmpOp::Lt => if float {
                "fcmp.olt"
            } else {
                "icmp.slt"
            },
            MirCmpOp::Le => if float {
                "fcmp.ole"
            } else {
                "icmp.sle"
            },
            MirCmpOp::Gt => if float {
                "fcmp.ogt"
            } else {
                "icmp.sgt"
            },
            MirCmpOp::Ge => if float {
                "fcmp.oge"
            } else {
                "icmp.sge"
            },
            MirCmpOp::Eq => if float {
                "fcmp.oeq"
            } else {
                "icmp.eq"
            },
            MirCmpOp::Ne => if float {
                "fcmp.one"
            } else {
                "icmp.ne"
            },
        }
    }

    /// Operation and float flag that a text form names.
    pub open spec fn parsed(s: Seq<char>) -> Option<(MirCmpOp, bool)> {
        if s == "icmp.slt"@ {
            Some((MirCmpOp::Lt, false))
        } else if s == "fcmp.olt"@ {
            Some((MirCmpOp::Lt, true))
        } else if s == "icmp.sle"@ {
            Some((MirCmpOp::Le, false))
        } else if s == "fcmp.ole"@ {
            Some((MirCmpOp::Le, true))
        } else if s == "icmp.sgt"@ {
            Some((MirCmpOp::Gt, false))
        } else if s == "fcmp.ogt"@ {
            Some((MirCmpOp::Gt, true))
        } else if s == "icmp.sge"@ {
            Some((MirCmpOp::Ge, false))
        } else if s == "fcmp.oge"@ {
            Some((MirCmpOp::Ge, true))
        } else if s == "icmp.eq"@ {
            Some((MirCmpOp::Eq, false))
        } else if s == "fcmp.oeq"@ {
            Some((MirCmpOp::Eq, true))
        } else if s == "icmp.ne"@ {
            Some((MirCmpOp::Ne, false))
        } else if s == "fcmp.one"@ {
            Some((MirCmpOp::Ne, true))
        } else {
            None
        }
    }

    pub fn parse(s: &str) -> (r: Option<(Self, bool)>)
        ensures
            r == MirCmpOp::parsed(s@),
    {
        if same_str(s, "icmp.slt") {
            return Some((MirCmpOp::Lt, false));
        }
        if same_str(s, "fcmp.olt") {
            return Some((MirCmpOp::Lt, true));
        }
        if same_str(s, "icmp.sle") {
            return Some((MirCmpOp::Le, false));
        }
        if same_str(s, "fcmp.ole") {
            return Some((MirCmpOp::Le, true));
        }
        if same_str(s, "icmp.sgt") {
            return Some((MirCmpOp::Gt, false));
        }
        if same_str(s, "fcmp.ogt") {
            return Some((MirCmpOp::Gt, true));
        }
        if same_str(s, "icmp.sge") {
            return Some((MirCmpOp::Ge, false));
        }
        if same_str(s, "fcmp.oge") {
            return Some((MirCmpOp::Ge, true));
        }
        if same_str(s, "icmp.eq") {
            return Some((MirCmpOp::Eq, false));
        }
        if same_str(s, "fcmp.oeq") {
            return Some((MirCmpOp::Eq, true));
        }
        if same_str(s, "icmp.ne") {
            return Some((MirCmpOp::Ne, false));
        }
        if same_str(s, "fcmp.one") {
            return Some((MirCmpOp::Ne, true));
        }
        None
    }
}

#[derive(Copy, Clone, Debug, PartialEq, Eq, Hash, Structural)]
pub enum MirUnaryOp {
    Neg,
    Not,
}

#[derive(Copy, Clone, Debug, PartialEq, Eq, Hash, Structural)]
pub enum MirCastKind {
    /// Signed int to IEEE float.
    IntToFloat,
    /// `i32` to `i64`.
    Sext,
}

/// Heap object constructed by an allocation.
#[derive(Copy, Clone, Debug, PartialEq, Eq, Hash, Structural)]
pub enum MirAllocKind {
    Array,
    Tuple,
    Object { type_id: u32, nfields: u32 },
    Enum { tag: u32 },
}

impl MirAllocKind {
    pub fn as_str(self) -> (r: &'static str)
        ensures
            r@ == (match self {
                MirAllocKind::Array => "array"@,
                MirAllocKind::Tuple => "tuple"@,
                MirAllocKind::Object { .. } => "object"@,
                MirAllocKind::Enum { .. } => "enum"@,
            }),
    {
        match self {
            MirAllocKind::Array => "array",
            MirAllocKind::Tuple => "tuple",
            MirAllocKind::Object { .. } => "object",
            MirAllocKind::Enum { .. } => "enum",
        }
    }
}

/// Kind of a collector edge.
#[derive(Copy, Clone, Debug, PartialEq, Eq, Hash, Structural)]
pub enum MirGcKind {
    Safepoint,
    Write,
}

impl MirGcKind {
    pub open spec fn text(self) -> Seq<char> {
        match self {
            MirGcKind::Safepoint => "safepoint"@,
            MirGcKind::Write => "write"@,
        }
    }

    pub fn as_str(self) -> (r: &'static str)
        ensures
            r@ == self.text(),
    {
        match self {
            MirGcKind::Safepoint => "safepoint",
            MirGcKind::Write => "write",
        }
    }

    pub fn parse(s: &str) -> (r: Option<Self>)
        ensures
            r == (if s@ == "safepoint"@ {
                Some(MirGcKind::Safepoint)
            } else if s@ == "write"@ {
                Some(MirGcKind::Write)
            } else {
                None
            }),
    {
        if same_str(s, "safepoint") {
            return Some(MirGcKind::Safepoint);
        }
        if same_str(s, "write") {
            return Some(MirGcKind::Write);
        }
        None
    }
}

/// Kind of a debugger edge.
#[derive(Copy, Clone, Debug, PartialEq, Eq, Hash, Structural)]
pub enum MirDeoptKind {
    /// The debugger may pause here.
    Stop,
    /// Optimised code may be left here.
    Deopt,
}

/// Value-producing instruction. Phis occupy the prefix of a block.
#[derive(Debug, PartialEq, Eq)]
#[allow(inconsistent_fields)]
pub enum MirInst {
    Const { dest: ValueId, c: MirConst },
    Bin { dest: ValueId, op: MirBinOp, ty: MirTy, lhs: ValueId, rhs: ValueId },
    Cmp { dest: ValueId, op: MirCmpOp, ty: MirTy, lhs: ValueId, rhs: ValueId },
    Unary { dest: ValueId, op: MirUnaryOp, src: ValueId },
    Cast { dest: ValueId, kind: MirCastKind, to: MirTy, src: ValueId },
    /// Value chosen by the predecessor that control came from.
    Phi { dest: ValueId, ty: MirTy, args: Vec<(BlockId, ValueId)> },
    /// Call of a host native.
    HostInvoke { dest: ValueId, native_id: u16, layout: u8, args: Vec<ValueId> },
    /// Direct call; `dest_hi` is the second word of a two-slot return.
    Call { dest: ValueId, dest_hi: Option<ValueId>, target: Label, args: Vec<ValueId> },
    Index { dest: ValueId, array: ValueId, index: ValueId, unchecked: bool },
    StoreIndex { dest: ValueId, array: ValueId, index: ValueId, value: ValueId, unchecked: bool },
    ArrayLen { dest: ValueId, array: ValueId },
    ArrayPush { dest: ValueId, array: ValueId, value: ValueId },
    /// Payload of the taken edge of a tag match.
    MatchPayload { dest: ValueId, scrutinee: ValueId, index: u32 },
    /// Field of an unboxed class: `object` is the value of slot `base + index`.
    FieldLoad { dest: ValueId, object: ValueId, base: u32, index: u32 },
    /// Store into an unboxed class field slot.
    FieldStore { dest: ValueId, src: ValueId, base: u32, index: u32 },
    /// Field of a heap object, by index or by interned name.
    HeapFieldLoad { dest: ValueId, object: ValueId, name: Option<ValueId>, index: u32 },
    /// Store to a field of a heap object; `dest` is the stored value.
    HeapFieldStore { dest: ValueId, object: ValueId, value: ValueId, name: Option<ValueId>, index: Option<u32> },
    /// Heap allocation; always a safepoint.
    Alloc { dest: ValueId, kind: MirAllocKind, elems: Vec<ValueId> },
    /// Safepoint; `roots` are the live heap words.
    GcBarrier { dest: ValueId, kind: MirGcKind, roots: Vec<ValueId> },
    /// Debugger stop or deoptimisation point.
    Deopt { dest: ValueId, kind: MirDeoptKind, loc: DebugLoc },
    /// Interned string.
    String { dest: ValueId, idx: u32 },
    Print { dest: ValueId, src: ValueId },
    Format { dest: ValueId, fmt: ValueId, args: Vec<ValueId> },
    Stringify { dest: ValueId, src: ValueId },
}

/// Mathematical form of [`MirInst`].
#[verifier::ext_equal]
#[allow(inconsistent_fields)]
pub enum InstV {
    Const { dest: ValueId, c: MirConst },
    Bin { dest: ValueId, op: MirBinOp, ty: MirTy, lhs: ValueId, rhs: ValueId },
    Cmp { dest: ValueId, op: MirCmpOp, ty: MirTy, lhs: ValueId, rhs: ValueId },
    Unary { dest: ValueId, op: MirUnaryOp, src: ValueId },
    Cast { dest: ValueId, kind: MirCastKind, to: MirTy, src: ValueId },
    Phi { dest: ValueId, ty: MirTy, args: Seq<(BlockId, ValueId)> },
    HostInvoke { dest: ValueId, native_id: u16, layout: u8, args: Seq<ValueId> },
    Call { dest: ValueId, dest_hi: Option<ValueId>, target: Label, args: Seq<ValueId> },
    Index { dest: ValueId, array: ValueId, index: ValueId, unchecked: bool },
    StoreIndex { dest: ValueId, array: ValueId, index: ValueId, value: ValueId, unchecked: bool },
    ArrayLen { dest: ValueId, array: ValueId },
    ArrayPush { dest: ValueId, array: ValueId, value: ValueId },
    MatchPayload { dest: ValueId, scrutinee: ValueId, index: u32 },
    FieldLoad { dest: ValueId, object: ValueId, base: u32, index: u32 },
    FieldStore { dest: ValueId, src: ValueId, base: u32, index: u32 },
    HeapFieldLoad { dest: ValueId, object: ValueId, name: Option<ValueId>, index: u32 },
    HeapFieldStore { dest: ValueId, object: ValueId, value: ValueId, name: Option<ValueId>, index: Option<u32> },
    Alloc { dest: ValueId, kind: MirAllocKind, elems: Seq<ValueId> },
    GcBarrier { dest: ValueId, kind: MirGcKind, roots: Seq<ValueId> },
    Deopt { dest: ValueId, kind: MirDeoptKind, loc: DebugLoc },
    String { dest: ValueId, idx: u32 },
    Print { dest: ValueId, src: ValueId },
    Format { dest: ValueId, fmt: ValueId, args: Seq<ValueId> },
    Stringify { dest: ValueId, src: ValueId },
}

/// The value of an optional operand, as a list.
pub open spec fn opt_seq(o: Option<ValueId>) -> Seq<ValueId> {
    match o {
        Some(v) => seq![v],
        None => Seq::empty(),
    }
}

/// Incoming values of a phi, in argument order.
pub open spec fn arg_values(args: Seq<(BlockId, ValueId)>) -> Seq<ValueId> {
    args.map_values(|a: (BlockId, ValueId)| a.1)
}

/// `v` renamed by `m`; values outside `m` keep their name.
pub open spec fn map_value(m: Map<u32, ValueId>, v: ValueId) -> ValueId {
    if m.dom().contains(v.0) {
        m[v.0]
    } else {
        v
    }
}

pub open spec fn map_values(m: Map<u32, ValueId>, s: Seq<ValueId>) -> Seq<ValueId> {
    s.map_values(|v: ValueId| map_value(m, v))
}

pub open spec fn map_args(m: Map<u32, ValueId>, s: Seq<(BlockId, ValueId)>) -> Seq<(BlockId, ValueId)> {
    s.map_values(|a: (BlockId, ValueId)| (a.0, map_value(m, a.1)))
}

pub open spec fn map_opt(m: Map<u32, ValueId>, o: Option<ValueId>) -> Option<ValueId> {
    match o {
        Some(v) => Some(map_value(m, v)),
        None => None,
    }
}

impl InstV {
    pub open spec fn dest(self) -> ValueId {
        match self {
            InstV::Const { dest, .. } => dest,
            InstV::Bin { dest, .. } => dest,
            InstV::Cmp { dest, .. } => dest,
            InstV::Unary { dest, .. } => dest,
            InstV::Cast { dest, .. } => dest,
            InstV::Phi { dest, .. } => dest,
            InstV::HostInvoke { dest, .. } => dest,
            InstV::Call { dest, .. } => dest,
            InstV::Index { dest, .. } => dest,
            InstV::StoreIndex { dest, .. } => dest,
            InstV::ArrayLen { dest, .. } => dest,
            InstV::ArrayPush { dest, .. } => dest,
            InstV::MatchPayload { dest, .. } => dest,
            InstV::FieldLoad { dest, .. } => dest,
            InstV::FieldStore { dest, .. } => dest,
            InstV::HeapFieldLoad { dest, .. } => dest,
            InstV::HeapFieldStore { dest, .. } => dest,
            InstV::Alloc { dest, .. } => dest,
            InstV::GcBarrier { dest, .. } => dest,
            InstV::Deopt { dest, .. } => dest,
            InstV::String { dest, .. } => dest,
            InstV::Print { dest, .. } => dest,
            InstV::Format { dest, .. } => dest,
            InstV::Stringify { dest, .. } => dest,
        }
    }

    /// Values that the instruction defines.
    pub open spec fn dests(self) -> Seq<ValueId> {
        match self {
            InstV::Call { dest, dest_hi, .. } => seq![dest] + opt_seq(dest_hi),
            _ => seq![self.dest()],
        }
    }

    /// Values that the instruction reads, in operand order.
    pub open spec fn uses(self) -> Seq<ValueId> {
        match self {
            InstV::Const { .. } => Seq::empty(),
            InstV::Bin { lhs, rhs, .. } => seq![lhs, rhs],
            InstV::Cmp { lhs, rhs, .. } => seq![lhs, rhs],
            InstV::Unary { src, .. } => seq![src],
            InstV::Cast { src, .. } => seq![src],
            InstV::Phi { args, .. } => arg_values(args),
            InstV::HostInvoke { args, .. } => args,
            InstV::Call { args, .. } => args,
            InstV::Index { array, index, .. } => seq![array, index],
            InstV::StoreIndex { array, index, value, .. } => seq![array, index, value],
            InstV::ArrayLen { array, .. } => seq![array],
            InstV::ArrayPush { array, value, .. } => seq![array, value],
            InstV::MatchPayload { scrutinee, .. } => seq![scrutinee],
            InstV::FieldLoad { object, .. } => seq![object],
            InstV::FieldStore { src, .. } => seq![src],
            InstV::HeapFieldLoad { object, name, .. } => seq![object] + opt_seq(name),
            InstV::HeapFieldStore { object, value, name, .. } => seq![object, value] + opt_seq(name),
            InstV::Alloc { elems, .. } => elems,
            InstV::GcBarrier { roots, .. } => roots,
            InstV::Deopt { .. } => Seq::empty(),
            InstV::String { .. } => Seq::empty(),
            InstV::Print { src, .. } => seq![src],
            InstV::Format { fmt, args, .. } => seq![fmt] + args,
            InstV::Stringify { src, .. } => seq![src],
        }
    }

    pub open spec fn phi(self) -> bool {
        self is Phi
    }

    pub open spec fn gc_edge(self) -> bool {
        self is Alloc || self is GcBarrier
    }

    /// The instruction with every operand renamed by `m`.
    pub open spec fn renamed(self, m: Map<u32, ValueId>) -> InstV {
        match self {
            InstV::Const { dest, c } => InstV::Const { dest, c },
            InstV::Bin { dest, op, ty, lhs, rhs } => InstV::Bin { dest, op, ty, lhs: map_value(m, lhs), rhs: map_value(m, rhs) },
            InstV::Cmp { dest, op, ty, lhs, rhs } => InstV::Cmp { dest, op, ty, lhs: map_value(m, lhs), rhs: map_value(m, rhs) },
            InstV::Unary { dest, op, src } => InstV::Unary { dest, op, src: map_value(m, src) },
            InstV::Cast { dest, kind, to, src } => InstV::Cast { dest, kind, to, src: map_value(m, src) },
            InstV::Phi { dest, ty, args } => InstV::Phi { dest, ty, args: map_args(m, args) },
            InstV::HostInvoke { dest, native_id, layout, args } => InstV::HostInvoke { dest, native_id, layout, args: map_values(m, args) },
            InstV::Call { dest, dest_hi, target, args } => InstV::Call { dest, dest_hi, target, args: map_values(m, args) },
            InstV::Index { dest, array, index, unchecked } => InstV::Index { dest, array: map_value(m, array), index: map_value(m, index), unchecked },
            InstV::StoreIndex { dest, array, index, value, unchecked } => InstV::StoreIndex { dest, array: map_value(m, array), index: map_value(m, index), value: map_value(m, value), unchecked },
            InstV::ArrayLen { dest, array } => InstV::ArrayLen { dest, array: map_value(m, array) },
            InstV::ArrayPush { dest, array, value } => InstV::ArrayPush { dest, array: map_value(m, array), value: map_value(m, value) },
            InstV::MatchPayload { dest, scrutinee, index } => InstV::MatchPayload { dest, scrutinee: map_value(m, scrutinee), index },
            InstV::FieldLoad { dest, object, base, index } => InstV::FieldLoad { dest, object: map_value(m, object), base, index },
            InstV::FieldStore { dest, src, base, index } => InstV::FieldStore { dest, src: map_value(m, src), base, index },
            InstV::HeapFieldLoad { dest, object, name, index } => InstV::HeapFieldLoad { dest, object: map_value(m, object), name: map_opt(m, name), index },
            InstV::HeapFieldStore { dest, object, value, name, index } => InstV::HeapFieldStore { dest, object: map_value(m, object), value: map_value(m, value), name: map_opt(m, name), index },
            InstV::Alloc { dest, kind, elems } => InstV::Alloc { dest, kind, elems: map_values(m, elems) },
            InstV::GcBarrier { dest, kind, roots } => InstV::GcBarrier { dest, kind, roots: map_values(m, roots) },
            InstV::Deopt { dest, kind, loc } => InstV::Deopt { dest, kind, loc },
            InstV::String { dest, idx } => InstV::String { dest, idx },
            InstV::Print { dest, src } => InstV::Print { dest, src: map_value(m, src) },
            InstV::Format { dest, fmt, args } => InstV::Format { dest, fmt: map_value(m, fmt), args: map_values(m, args) },
            InstV::Stringify { dest, src } => InstV::Stringify { dest, src: map_value(m, src) },
        }
    }
}

impl View for MirInst {
    type V = InstV;

    open spec fn view(&self) -> InstV {
        match *self {
            MirInst::Const { dest, c } => InstV::Const { dest, c },
            MirInst::Bin { dest, op, ty, lhs, rhs } => InstV::Bin { dest, op, ty, lhs, rhs },
            MirInst::Cmp { dest, op, ty, lhs, rhs } => InstV::Cmp { dest, op, ty, lhs, rhs },
            MirInst::Unary { dest, op, src } => InstV::Unary { dest, op, src },
            MirInst::Cast { dest, kind, to, src } => InstV::Cast { dest, kind, to, src },
            MirInst::Phi { dest, ty, args } => InstV::Phi { dest, ty, args: args@ },
            MirInst::HostInvoke { dest, native_id, layout, args } => InstV::HostInvoke { dest, native_id, layout, args: args@ },
            MirInst::Call { dest, dest_hi, target, args } => InstV::Call { dest, dest_hi, target, args: args@ },
            MirInst::Index { dest, array, index, unchecked } => InstV::Index { dest, array, index, unchecked },
            MirInst::StoreIndex { dest, array, index, value, unchecked } => InstV::StoreIndex { dest, array, index, value, unchecked },
            MirInst::ArrayLen { dest, array } => InstV::ArrayLen { dest, array },
            MirInst::ArrayPush { dest, array, value } => InstV::ArrayPush { dest, array, value },
            MirInst::MatchPayload { dest, scrutinee, index } => InstV::MatchPayload { dest, scrutinee, index },
            MirInst::FieldLoad { dest, object, base, index } => InstV::FieldLoad { dest, object, base, index },
            MirInst::FieldStore { dest, src, base, index } => InstV::FieldStore { dest, src, base, index },
            MirInst::HeapFieldLoad { dest, object, name, index } => InstV::HeapFieldLoad { dest, object, name, index },
            MirInst::HeapFieldStore { dest, object, value, name, index } => InstV::HeapFieldStore { dest, object, value, name, index },
            MirInst::Alloc { dest, kind, elems } => InstV::Alloc { dest, kind, elems: elems@ },
            MirInst::GcBarrier { dest, kind, roots } => InstV::GcBarrier { dest, kind, roots: roots@ },
            MirInst::Deopt { dest, kind, loc } => InstV::Deopt { dest, kind, loc },
            MirInst::String { dest, idx } => InstV::String { dest, idx },
            MirInst::Print { dest, src } => InstV::Print { dest, src },
            MirInst::Format { dest, fmt, args } => InstV::Format { dest, fmt, args: args@ },
            MirInst::Stringify { dest, src } => InstV::Stringify { dest, src },
        }
    }
}

/// Copy of a value list.
pub fn copy_ids(s: &Vec<ValueId>) -> (r: Vec<ValueId>)
    ensures
        r@ == s@,
{
    let mut r: Vec<ValueId> = Vec::new();
    push_all(&mut r, s);
    assert(r@ =~= s@);
    r
}

/// Append a value list.
pub fn push_all(r: &mut Vec<ValueId>, s: &Vec<ValueId>)
    ensures
        final(r)@ == old(r)@ + s@,
{
    let ghost r0 = r@;
    let mut i: usize = 0;
    while i < s.len()
        invariant
            i <= s@.len(),
            r@ == r0 + s@.take(i as int),
        decreases s@.len() - i,
    {
        r.push(s[i]);
        i = i + 1;
        assert(r@ =~= r0 + s@.take(i as int));
    }
    assert(s@.take(i as int) =~= s@);
}

/// Append an optional value.
pub fn push_opt(r: &mut Vec<ValueId>, o: &Option<ValueId>)
    ensures
        final(r)@ == old(r)@ + opt_seq(*o),
{
    let ghost r0 = r@;
    if let Some(v) = o {
        r.push(*v);
    }
    assert(r@ =~= r0 + opt_seq(*o));
}

/// Copy of a phi argument list.
pub fn copy_args(s: &Vec<(BlockId, ValueId)>) -> (r: Vec<(BlockId, ValueId)>)
    ensures
        r@ == s@,
{
    let mut r: Vec<(BlockId, ValueId)> = Vec::new();
    let mut i: usize = 0;
    while i < s.len()
        invariant
            i <= s@.len(),
            r@ == s@.take(i as int),
        decreases s@.len() - i,
    {
        r.push(s[i]);
        i = i + 1;
        assert(r@ =~= s@.take(i as int));
    }
    assert(r@ =~= s@);
    r
}

/// Incoming values of a phi.
pub fn values_of(s: &Vec<(BlockId, ValueId)>) -> (r: Vec<ValueId>)
    ensures
        r@ == arg_values(s@),
{
    let mut r: Vec<ValueId> = Vec::new();
    let mut i: usize = 0;
    while i < s.len()
        invariant
            i <= s@.len(),
            r@ == arg_values(s@.take(i as int)),
        decreases s@.len() - i,
    {
        r.push(s[i].1);
        i = i + 1;
        assert(r@ =~= arg_values(s@.take(i as int)));
    }
    assert(s@.take(i as int) =~= s@);
    r
}

/// `v` renamed by `map`.
pub fn value_under(map: &IdMap<ValueId>, v: ValueId) -> (r: ValueId)
    ensures
        r == map_value(map@, v),
{
    match map.get(&v.0) {
        Some(n) => *n,
        None => v,
    }
}

fn opt_under(map: &IdMap<ValueId>, o: &Option<ValueId>) -> (r: Option<ValueId>)
    ensures
        r == map_opt(map@, *o),
{
    match o {
        Some(v) => Some(value_under(map, *v)),
        None => None,
    }
}

/// Value list renamed by `map`.
pub fn values_under(map: &IdMap<ValueId>, s: &Vec<ValueId>) -> (r: Vec<ValueId>)
    ensures
        r@ == map_values(map@, s@),
{
    let mut r: Vec<ValueId> = Vec::new();
    let mut i: usize = 0;
    while i < s.len()
        invariant
            i <= s@.len(),
            r@ == map_values(map@, s@.take(i as int)),
        decreases s@.len() - i,
    {
        r.push(value_under(map, s[i]));
        i = i + 1;
        assert(r@ =~= map_values(map@, s@.take(i as int)));
    }
    assert(s@.take(i as int) =~= s@);
    r
}

fn args_under(map: &IdMap<ValueId>, s: &Vec<(BlockId, ValueId)>) -> (r: Vec<(BlockId, ValueId)>)
    ensures
        r@ == map_args(map@, s@),
{
    let mut r: Vec<(BlockId, ValueId)> = Vec::new();
    let mut i: usize = 0;
    while i < s.len()
        invariant
            i <= s@.len(),
            r@ == map_args(map@, s@.take(i as int)),
        decreases s@.len() - i,
    {
        r.push((s[i].0, value_under(map, s[i].1)));
        i = i + 1;
        assert(r@ =~= map_args(map@, s@.take(i as int)));
    }
    assert(s@.take(i as int) =~= s@);
    r
}

/// Membership in a value list.
pub fn has_id(s: &Vec<ValueId>, v: ValueId) -> (r: bool)
    ensures
        r == s@.contains(v),
{
    let mut i: usize = 0;
    while i < s.len()
        invariant
            i <= s@.len(),
            forall|j: int| 0 <= j < i ==> s@[j] != v,
        decreases s@.len() - i,
    {
        if s[i] == v {
            return true;
        }
        i = i + 1;
    }
    false
}

impl Clone for MirInst {
    fn clone(&self) -> (r: Self)
        ensures
            r@ == self@,
    {
        match self {
            MirInst::Const { dest, c } => MirInst::Const { dest: *dest, c: *c },
            MirInst::Bin { dest, op, ty, lhs, rhs } => MirInst::Bin { dest: *dest, op: *op, ty: *ty, lhs: *lhs, rhs: *rhs },
            MirInst::Cmp { dest, op, ty, lhs, rhs } => MirInst::Cmp { dest: *dest, op: *op, ty: *ty, lhs: *lhs, rhs: *rhs },
            MirInst::Unary { dest, op, src } => MirInst::Unary { dest: *dest, op: *op, src: *src },
            MirInst::Cast { dest, kind, to, src } => MirInst::Cast { dest: *dest, kind: *kind, to: *to, src: *src },
            MirInst::Phi { dest, ty, args } => MirInst::Phi { dest: *dest, ty: *ty, args: copy_args(args) },
            MirInst::HostInvoke { dest, native_id, layout, args } => MirInst::HostInvoke { dest: *dest, native_id: *native_id, layout: *layout, args: copy_ids(args) },
            MirInst::Call { dest, dest_hi, target, args } => MirInst::Call { dest: *dest, dest_hi: *dest_hi, target: *target, args: copy_ids(args) },
            MirInst::Index { dest, array, index, unchecked } => MirInst::Index { dest: *dest, array: *array, index: *index, unchecked: *unchecked },
            MirInst::StoreIndex { dest, array, index, value, unchecked } => MirInst::StoreIndex { dest: *dest, array: *array, index: *index, value: *value, unchecked: *unchecked },
            MirInst::ArrayLen { dest, array } => MirInst::ArrayLen { dest: *dest, array: *array },
            MirInst::ArrayPush { dest, array, value } => MirInst::ArrayPush { dest: *dest, array: *array, value: *value },
            MirInst::MatchPayload { dest, scrutinee, index } => MirInst::MatchPayload { dest: *dest, scrutinee: *scrutinee, index: *index },
            MirInst::FieldLoad { dest, object, base, index } => MirInst::FieldLoad { dest: *dest, object: *object, base: *base, index: *index },
            MirInst::FieldStore { dest, src, base, index } => MirInst::FieldStore { dest: *dest, src: *src, base: *base, index: *index },
            MirInst::HeapFieldLoad { dest, object, name, index } => MirInst::HeapFieldLoad { dest: *dest, object: *object, name: *name, index: *index },
            MirInst::HeapFieldStore { dest, object, value, name, index } => MirInst::HeapFieldStore { dest: *dest, object: *object, value: *value, name: *name, index: *index },
            MirInst::Alloc { dest, kind, elems } => MirInst::Alloc { dest: *dest, kind: *kind, elems: copy_ids(elems) },
            MirInst::GcBarrier { dest, kind, roots } => MirInst::GcBarrier { dest: *dest, kind: *kind, roots: copy_ids(roots) },
            MirInst::Deopt { dest, kind, loc } => MirInst::Deopt { dest: *dest, kind: *kind, loc: *loc },
            MirInst::String { dest, idx } => MirInst::String { dest: *dest, idx: *idx },
            MirInst::Print { dest, src } => MirInst::Print { dest: *dest, src: *src },
            MirInst::Format { dest, fmt, args } => MirInst::Format { dest: *dest, fmt: *fmt, args: copy_ids(args) },
            MirInst::Stringify { dest, src } => MirInst::Stringify { dest: *dest, src: *src },
        }
    }
}

impl MirInst {
    /// First value that the instruction defines.
    pub fn dest(&self) -> (r: ValueId)
        ensures
            r == self@.dest(),
    {
        match self {
            MirInst::Const { dest, .. } => *dest,
            MirInst::Bin { dest, .. } => *dest,
            MirInst::Cmp { dest, .. } => *dest,
            MirInst::Unary { dest, .. } => *dest,
            MirInst::Cast { dest, .. } => *dest,
            MirInst::Phi { dest, .. } => *dest,
            MirInst::HostInvoke { dest, .. } => *dest,
            MirInst::Call { dest, .. } => *dest,
            MirInst::Index { dest, .. } => *dest,
            MirInst::StoreIndex { dest, .. } => *dest,
            MirInst::ArrayLen { dest, .. } => *dest,
            MirInst::ArrayPush { dest, .. } => *dest,
            MirInst::MatchPayload { dest, .. } => *dest,
            MirInst::FieldLoad { dest, .. } => *dest,
            MirInst::FieldStore { dest, .. } => *dest,
            MirInst::HeapFieldLoad { dest, .. } => *dest,
            MirInst::HeapFieldStore { dest, .. } => *dest,
            MirInst::Alloc { dest, .. } => *dest,
            MirInst::GcBarrier { dest, .. } => *dest,
            MirInst::Deopt { dest, .. } => *dest,
            MirInst::String { dest, .. } => *dest,
            MirInst::Print { dest, .. } => *dest,
            MirInst::Format { dest, .. } => *dest,
            MirInst::Stringify { dest, .. } => *dest,
        }
    }

    /// Every value that the instruction defines.
    pub fn dests(&self) -> (r: Vec<ValueId>)
        ensures
            r@ == self@.dests(),
    {
        let mut r: Vec<ValueId> = Vec::new();
        r.push(self.dest());
        assert(r@ =~= seq![self@.dest()]);
        if let MirInst::Call { dest_hi, .. } = self {
            push_opt(&mut r, dest_hi);
        }
        r
    }

    /// Allocation or collector edge.
    pub fn is_gc_edge(&self) -> (r: bool)
        ensures
            r == self@.gc_edge(),
    {
        matches!(self, MirInst::Alloc { .. } | MirInst::GcBarrier { .. })
    }

    pub fn is_phi(&self) -> (r: bool)
        ensures
            r == self@.phi(),
    {
        matches!(self, MirInst::Phi { .. })
    }

    /// Explicit debugger edge.
    pub fn is_deopt_edge(&self) -> (r: bool)
        ensures
            r == (self@ is Deopt),
    {
        matches!(self, MirInst::Deopt { .. })
    }

    /// Values that the instruction reads.
    pub fn operands(&self) -> (r: Vec<ValueId>)
        ensures
            r@ == self@.uses(),
    {
        let r: Vec<ValueId> = match self {
            MirInst::Const { .. } => Vec::new(),
            MirInst::Bin { lhs, rhs, .. } => {
                let mut r: Vec<ValueId> = Vec::new();
                r.push(*lhs);
                r.push(*rhs);
                r
            },
            MirInst::Cmp { lhs, rhs, .. } => {
                let mut r: Vec<ValueId> = Vec::new();
                r.push(*lhs);
                r.push(*rhs);
                r
            },
            MirInst::Unary { src, .. } => {
                let mut r: Vec<ValueId> = Vec::new();
                r.push(*src);
                r
            },
            MirInst::Cast { src, .. } => {
                let mut r: Vec<ValueId> = Vec::new();
                r.push(*src);
                r
            },
            MirInst::Phi { args, .. } => values_of(args),
            MirInst::HostInvoke { args, .. } => copy_ids(args),
            MirInst::Call { args, .. } => copy_ids(args),
            MirInst::Index { array, index, .. } => {
                let mut r: Vec<ValueId> = Vec::new();
                r.push(*array);
                r.push(*index);
                r
            },
            MirInst::StoreIndex { array, index, value, .. } => {
                let mut r: Vec<ValueId> = Vec::new();
                r.push(*array);
                r.push(*index);
                r.push(*value);
                r
            },
            MirInst::ArrayLen { array, .. } => {
                let mut r: Vec<ValueId> = Vec::new();
                r.push(*array);
                r
            },
            MirInst::ArrayPush { array, value, .. } => {
                let mut r: Vec<ValueId> = Vec::new();
                r.push(*array);
                r.push(*value);
                r
            },
            MirInst::MatchPayload { scrutinee, .. } => {
                let mut r: Vec<ValueId> = Vec::new();
                r.push(*scrutinee);
                r
            },
            MirInst::FieldLoad { object, .. } => {
                let mut r: Vec<ValueId> = Vec::new();
                r.push(*object);
                r
            },
            MirInst::FieldStore { src, .. } => {
                let mut r: Vec<ValueId> = Vec::new();
                r.push(*src);
                r
            },
            MirInst::HeapFieldLoad { object, name, .. } => {
                let mut r: Vec<ValueId> = Vec::new();
                r.push(*object);
                push_opt(&mut r, name);
                r
            },
            MirInst::HeapFieldStore { object, value, name, .. } => {
                let mut r: Vec<ValueId> = Vec::new();
                r.push(*object);
                r.push(*value);
                push_opt(&mut r, name);
                r
            },
            MirInst::Alloc { elems, .. } => copy_ids(elems),
            MirInst::GcBarrier { roots, .. } => copy_ids(roots),
            MirInst::Deopt { .. } => Vec::new(),
            MirInst::String { .. } => Vec::new(),
            MirInst::Print { src, .. } => {
                let mut r: Vec<ValueId> = Vec::new();
                r.push(*src);
                r
            },
            MirInst::Format { fmt, args, .. } => {
                let mut r: Vec<ValueId> = Vec::new();
                r.push(*fmt);
                push_all(&mut r, args);
                r
            },
            MirInst::Stringify { src, .. } => {
                let mut r: Vec<ValueId> = Vec::new();
                r.push(*src);
                r
            },
        };
        assert(r@ =~= self@.uses());
        r
    }

    fn under(&self, map: &IdMap<ValueId>) -> (r: MirInst)
        ensures
            r@ == self@.renamed(map@),
    {
        match self {
            MirInst::Const { dest, c } => MirInst::Const { dest: *dest, c: *c },
            MirInst::Bin { dest, op, ty, lhs, rhs } => MirInst::Bin { dest: *dest, op: *op, ty: *ty, lhs: value_under(map, *lhs), rhs: value_under(map, *rhs) },
            MirInst::Cmp { dest, op, ty, lhs, rhs } => MirInst::Cmp { dest: *dest, op: *op, ty: *ty, lhs: value_under(map, *lhs), rhs: value_under(map, *rhs) },
            MirInst::Unary { dest, op, src } => MirInst::Unary { dest: *dest, op: *op, src: value_under(map, *src) },
            MirInst::Cast { dest, kind, to, src } => MirInst::Cast { dest: *dest, kind: *kind, to: *to, src: value_under(map, *src) },
            MirInst::Phi { dest, ty, args } => MirInst::Phi { dest: *dest, ty: *ty, args: args_under(map, args) },
            MirInst::HostInvoke { dest, native_id, layout, args } => MirInst::HostInvoke { dest: *dest, native_id: *native_id, layout: *layout, args: values_under(map, args) },
            MirInst::Call { dest, dest_hi, target, args } => MirInst::Call { dest: *dest, dest_hi: *dest_hi, target: *target, args: values_under(map, args) },
            MirInst::Index { dest, array, index, unchecked } => MirInst::Index { dest: *dest, array: value_under(map, *array), index: value_under(map, *index), unchecked: *unchecked },
            MirInst::StoreIndex { dest, array, index, value, unchecked } => MirInst::StoreIndex { dest: *dest, array: value_under(map, *array), index: value_under(map, *index), value: value_under(map, *value), unchecked: *unchecked },
            MirInst::ArrayLen { dest, array } => MirInst::ArrayLen { dest: *dest, array: value_under(map, *array) },
            MirInst::ArrayPush { dest, array, value } => MirInst::ArrayPush { dest: *dest, array: value_under(map, *array), value: value_under(map, *value) },
            MirInst::MatchPayload { dest, scrutinee, index } => MirInst::MatchPayload { dest: *dest, scrutinee: value_under(map, *scrutinee), index: *index },
            MirInst::FieldLoad { dest, object, base, index } => MirInst::FieldLoad { dest: *dest, object: value_under(map, *object), base: *base, index: *index },
            MirInst::FieldStore { dest, src, base, index } => MirInst::FieldStore { dest: *dest, src: value_under(map, *src), base: *base, index: *index },
            MirInst::HeapFieldLoad { dest, object, name, index } => MirInst::HeapFieldLoad { dest: *dest, object: value_under(map, *object), name: opt_under(map, name), index: *index },
            MirInst::HeapFieldStore { dest, object, value, name, index } => MirInst::HeapFieldStore { dest: *dest, object: value_under(map, *object), value: value_under(map, *value), name: opt_under(map, name), index: *index },
            MirInst::Alloc { dest, kind, elems } => MirInst::Alloc { dest: *dest, kind: *kind, elems: values_under(map, elems) },
            MirInst::GcBarrier { dest, kind, roots } => MirInst::GcBarrier { dest: *dest, kind: *kind, roots: values_under(map, roots) },
            MirInst::Deopt { dest, kind, loc } => MirInst::Deopt { dest: *dest, kind: *kind, loc: *loc },
            MirInst::String { dest, idx } => MirInst::String { dest: *dest, idx: *idx },
            MirInst::Print { dest, src } => MirInst::Print { dest: *dest, src: value_under(map, *src) },
            MirInst::Format { dest, fmt, args } => MirInst::Format { dest: *dest, fmt: value_under(map, *fmt), args: values_under(map, args) },
            MirInst::Stringify { dest, src } => MirInst::Stringify { dest: *dest, src: value_under(map, *src) },
        }
    }

    /// Rename every operand that `map` mentions.
    pub fn rewrite_values(&mut self, map: &IdMap<ValueId>)
        ensures
            final(self)@ == old(self)@.renamed(map@),
    {
        let n = self.under(map);
        *self = n;
    }
}

#[derive(Debug, PartialEq, Eq)]
#[allow(inconsistent_fields)]
pub enum Terminator {
    Jump { dest: BlockId },
    /// `cond` is `bool`; control goes to `taken` when it is true.
    Br { cond: ValueId, taken: BlockId, not_taken: BlockId },
    /// Tag match on an enum word; `payloads` are bound on the taken edge.
    JumpIfMatch { scrutinee: ValueId, tag: u32, payloads: Vec<ValueId>, taken: BlockId, not_taken: BlockId },
    /// One word (`lo`) or two (`hi` on top).
    Return { lo: Option<ValueId>, hi: Option<ValueId> },
    Unreachable,
}

/// Mathematical form of [`Terminator`].
#[verifier::ext_equal]
#[allow(inconsistent_fields)]
pub enum TermV {
    Jump { dest: BlockId },
    Br { cond: ValueId, taken: BlockId, not_taken: BlockId },
    JumpIfMatch { scrutinee: ValueId, tag: u32, payloads: Seq<ValueId>, taken: BlockId, not_taken: BlockId },
    Return { lo: Option<ValueId>, hi: Option<ValueId> },
    Unreachable,
}

impl TermV {
    /// Blocks that control may go to.
    pub open spec fn targets(self) -> Seq<BlockId> {
        match self {
            TermV::Jump { dest } => seq![dest],
            TermV::Br { taken, not_taken, .. } => seq![taken, not_taken],
            TermV::JumpIfMatch { taken, not_taken, .. } => seq![taken, not_taken],
            TermV::Return { .. } => Seq::empty(),
            TermV::Unreachable => Seq::empty(),
        }
    }

    /// Values that the terminator names.
    pub open spec fn uses(self) -> Seq<ValueId> {
        match self {
            TermV::Br { cond, .. } => seq![cond],
            TermV::JumpIfMatch { scrutinee, payloads, .. } => seq![scrutinee] + payloads,
            TermV::Return { lo, hi } => opt_seq(lo) + opt_seq(hi),
            _ => Seq::empty(),
        }
    }

    pub open spec fn renamed(self, m: Map<u32, ValueId>) -> TermV {
        match self {
            TermV::Br { cond, taken, not_taken } => TermV::Br { cond: map_value(m, cond), taken, not_taken },
            TermV::JumpIfMatch { scrutinee, tag, payloads, taken, not_taken } => TermV::JumpIfMatch {
                scrutinee: map_value(m, scrutinee),
                tag,
                payloads: map_values(m, payloads),
                taken,
                not_taken,
            },
            TermV::Return { lo, hi } => TermV::Return { lo: map_opt(m, lo), hi: map_opt(m, hi) },
            other => other,
        }
    }
}

impl View for Terminator {
    type V = TermV;

    open spec fn view(&self) -> TermV {
        match *self {
            Terminator::Jump { dest } => TermV::Jump { dest },
            Terminator::Br { cond, taken, not_taken } => TermV::Br { cond, taken, not_taken },
            Terminator::JumpIfMatch { scrutinee, tag, payloads, taken, not_taken } => TermV::JumpIfMatch {
                scrutinee,
                tag,
                payloads: payloads@,
                taken,
                not_taken,
            },
            Terminator::Return { lo, hi } => TermV::Return { lo, hi },
            Terminator::Unreachable => TermV::Unreachable,
        }
    }
}

impl Clone for Terminator {
    fn clone(&self) -> (r: Self)
        ensures
            r@ == self@,
    {
        match self {
            Terminator::Jump { dest } => Terminator::Jump { dest: *dest },
            Terminator::Br { cond, taken, not_taken } => Terminator::Br {
                cond: *cond,
                taken: *taken,
                not_taken: *not_taken,
            },
            Terminator::JumpIfMatch { scrutinee, tag, payloads, taken, not_taken } => Terminator::JumpIfMatch {
                scrutinee: *scrutinee,
                tag: *tag,
                payloads: copy_ids(payloads),
                taken: *taken,
                not_taken: *not_taken,
            },
            Terminator::Return { lo, hi } => Terminator::Return { lo: *lo, hi: *hi },
            Terminator::Unreachable => Terminator::Unreachable,
        }
    }
}

impl Terminator {
    /// Blocks that control may go to.
    pub fn succs(&self) -> (r: Vec<BlockId>)
        ensures
            r@ == self@.targets(),
    {
        let mut r: Vec<BlockId> = Vec::new();
        match self {
            Terminator::Jump { dest } => {
                r.push(*dest);
            },
            Terminator::Br { taken, not_taken, .. } => {
                r.push(*taken);
                r.push(*not_taken);
            },
            Terminator::JumpIfMatch { taken, not_taken, .. } => {
                r.push(*taken);
                r.push(*not_taken);
            },
            Terminator::Return { .. } => {},
            Terminator::Unreachable => {},
        }
        assert(r@ =~= self@.targets());
        r
    }

    /// Values that the terminator names.
    pub fn operands(&self) -> (r: Vec<ValueId>)
        ensures
            r@ == self@.uses(),
    {
        let mut r: Vec<ValueId> = Vec::new();
        match self {
            Terminator::Br { cond, .. } => {
                r.push(*cond);
            },
            Terminator::JumpIfMatch { scrutinee, payloads, .. } => {
                r.push(*scrutinee);
                push_all(&mut r, payloads);
            },
            Terminator::Return { lo, hi } => {
                push_opt(&mut r, lo);
                push_opt(&mut r, hi);
            },
            _ => {},
        }
        assert(r@ =~= self@.uses());
        r
    }

    fn under(&self, map: &IdMap<ValueId>) -> (r: Terminator)
        ensures
            r@ == self@.renamed(map@),
    {
        match self {
            Terminator::Br { cond, taken, not_taken } => Terminator::Br {
                cond: value_under(map, *cond),
                taken: *taken,
                not_taken: *not_taken,
            },
            Terminator::JumpIfMatch { scrutinee, tag, payloads, taken, not_taken } => Terminator::JumpIfMatch {
                scrutinee: value_under(map, *scrutinee),
                tag: *tag,
                payloads: values_under(map, payloads),
                taken: *taken,
                not_taken: *not_taken,
            },
            Terminator::Return { lo, hi } => Terminator::Return {
                lo: opt_under(map, lo),
                hi: opt_under(map, hi),
            },
            Terminator::Jump { dest } => Terminator::Jump { dest: *dest },
            Terminator::Unreachable => Terminator::Unreachable,
        }
    }

    /// Rename every value that `map` mentions.
    pub fn rewrite_values(&mut self, map: &IdMap<ValueId>)
        ensures
            final(self)@ == old(self)@.renamed(map@),
    {
        let n = self.under(map);
        *self = n;
    }
}

} // verus!

//! Stack code operations and the byte-level instructions that they keep.
use vstd::prelude::*;

verus! {

/// Jump target or function entry.
#[derive(Copy, Clone, Debug, PartialEq, Eq, Hash, PartialOrd, Ord, Structural)]
pub struct Label(pub u32);

/// Source range of an operation.
#[derive(Copy, Clone, Debug, PartialEq, Eq, Hash, Structural)]
pub struct DebugLoc {
    pub file: u32,
    pub start_byte: u32,
    pub end_byte: u32,
}

/// The range of an operation that has no source text.
pub open spec fn no_loc() -> DebugLoc {
    DebugLoc { file: 0xffff_ffff, start_byte: 0, end_byte: 0 }
}

impl DebugLoc {
    pub fn unknown() -> (r: Self)
        ensures
            r == no_loc(),
    {
        DebugLoc { file: 0xffff_ffff, start_byte: 0, end_byte: 0 }
    }

    pub open spec fn known(self) -> bool {
        self.file != 0xffff_ffff
    }

    pub fn is_known(&self) -> (r: bool)
        ensures
            r == self.known(),
    {
        self.file != 0xffff_ffff
    }
}

/// Opcodes that the passes look at.
#[derive(Copy, Clone, Debug, PartialEq, Eq, Hash, Structural)]
pub enum Instruction {
    NOOP,
    CONST,
    STRING,
    LOAD,
    STORE,
    StorePop,
    POP,
    DUP,
    ADD,
    ADDF,
    SUB,
    SUBF,
    MUL,
    MULF,
    DIV,
    DIVF,
    MOD,
    MODF,
    Pow,
    PowF,
    AND,
    OR,
    BITAND,
    BITOR,
    XOR,
    SHL,
    SHR,
    NEG,
    NEGF,
    NOT,
    INC,
    DEC,
    LE,
    LEF,
    LEQ,
    LEQF,
    GT,
    GTF,
    GEQ,
    GEQF,
    EQ,
    NEQ,
    CastIntToFloat,
    JMP,
    JMPF,
    JMPT,
    JumpIfMatch,
    PairJumpIfTag,
    CmpJmpf,
    CmpJmpt,
    LogNotJmpf,
    LogNotJmpt,
    BinSlotImmJmpf,
    BinSlotImmJmpt,
    BinSlotSlotJmpf,
    BinSlotSlotJmpt,
    BinSlotSlotConstJmpf,
    BinSlotSlotConstJmpt,
    BinSlotImmStore,
    BinSlotSlotStore,
    CALL,
    TailCall,
    CallIndirect,
    CodePtr,
    MakePolyFn,
    MakeCoro,
    RETURN,
    ReturnPair,
    HALT,
    LoadReturnSlot,
    ConstReturnImm,
    BinReturn,
    Seek,
    Unpack,
    PairToHeap,
    FfiInvoke,
    Index,
    IndexUnchecked,
    StoreIndex,
    StoreIndexUnchecked,
    ArrayLen,
    ArrayPush,
    MakeArray,
    MakeTuple,
    MakeEnum,
    INIT,
    InitTyped,
    FORMAT,
    STRINGIFY,
    PRINT,
    DenseBin,
    DenseCmp,
    DenseUnary,
    DenseCast,
    DenseConst,
    DenseMove,
    DensePush,
    DenseIndex,
    DenseStoreIndex,
    DenseArrayLen,
    DenseArrayPush,
    DenseMake,
    DenseMakeObject,
    DenseFieldLoad,
    DenseFieldStore,
}

impl Instruction {
    /// Name used in messages.
    pub open spec fn text(self) -> Seq<char> {
        match self {
            Instruction::NOOP => "NOOP"@,
            Instruction::CONST => "CONST"@,
            Instruction::STRING => "STRING"@,
            Instruction::LOAD => "LOAD"@,
            Instruction::STORE => "STORE"@,
            Instruction::StorePop => "StorePop"@,
            Instruction::POP => "POP"@,
            Instruction::DUP => "DUP"@,
            Instruction::ADD => "ADD"@,
            Instruction::ADDF => "ADDF"@,
            Instruction::SUB => "SUB"@,
            Instruction::SUBF => "SUBF"@,
            Instruction::MUL => "MUL"@,
            Instruction::MULF => "MULF"@,
            Instruction::DIV => "DIV"@,
            Instruction::DIVF => "DIVF"@,
            Instruction::MOD => "MOD"@,
            Instruction::MODF => "MODF"@,
            Instruction::Pow => "Pow"@,
            Instruction::PowF => "PowF"@,
            Instruction::AND => "AND"@,
            Instruction::OR => "OR"@,
            Instruction::BITAND => "BITAND"@,
            Instruction::BITOR => "BITOR"@,
            Instruction::XOR => "XOR"@,
            Instruction::SHL => "SHL"@,
            Instruction::SHR => "SHR"@,
            Instruction::NEG => "NEG"@,
            Instruction::NEGF => "NEGF"@,
            Instruction::NOT => "NOT"@,
            Instruction::INC => "INC"@,
            Instruction::DEC => "DEC"@,
            Instruction::LE => "LE"@,
            Instruction::LEF => "LEF"@,
            Instruction::LEQ => "LEQ"@,
            Instruction::LEQF => "LEQF"@,
            Instruction::GT => "GT"@,
            Instruction::GTF => "GTF"@,
            Instruction::GEQ => "GEQ"@,
            Instruction::GEQF => "GEQF"@,
            Instruction::EQ => "EQ"@,
            Instruction::NEQ => "NEQ"@,
            Instruction::CastIntToFloat => "CastIntToFloat"@,
            Instruction::JMP => "JMP"@,
            Instruction::JMPF => "JMPF"@,
            Instruction::JMPT => "JMPT"@,
            Instruction::JumpIfMatch => "JumpIfMatch"@,
            Instruction::PairJumpIfTag => "PairJumpIfTag"@,
            Instruction::CmpJmpf => "CmpJmpf"@,
            Instruction::CmpJmpt => "CmpJmpt"@,
            Instruction::LogNotJmpf => "LogNotJmpf"@,
            Instruction::LogNotJmpt => "LogNotJmpt"@,
            Instruction::BinSlotImmJmpf => "BinSlotImmJmpf"@,
            Instruction::BinSlotImmJmpt => "BinSlotImmJmpt"@,
            Instruction::BinSlotSlotJmpf => "BinSlotSlotJmpf"@,
            Instruction::BinSlotSlotJmpt => "BinSlotSlotJmpt"@,
            Instruction::BinSlotSlotConstJmpf => "BinSlotSlotConstJmpf"@,
            Instruction::BinSlotSlotConstJmpt => "BinSlotSlotConstJmpt"@,
            Instruction::BinSlotImmStore => "BinSlotImmStore"@,
            Instruction::BinSlotSlotStore => "BinSlotSlotStore"@,
            Instruction::CALL => "CALL"@,
            Instruction::TailCall => "TailCall"@,
            Instruction::CallIndirect => "CallIndirect"@,
            Instruction::CodePtr => "CodePtr"@,
            Instruction::MakePolyFn => "MakePolyFn"@,
            Instruction::MakeCoro => "MakeCoro"@,
            Instruction::RETURN => "RETURN"@,
            Instruction::ReturnPair => "ReturnPair"@,
            Instruction::HALT => "HALT"@,
            Instruction::LoadReturnSlot => "LoadReturnSlot"@,
            Instruction::ConstReturnImm => "ConstReturnImm"@,
            Instruction::BinReturn => "BinReturn"@,
            Instruction::Seek => "Seek"@,
            Instruction::Unpack => "Unpack"@,
            Instruction::PairToHeap => "PairToHeap"@,
            Instruction::FfiInvoke => "FfiInvoke"@,
            Instruction::Index => "Index"@,
            Instruction::IndexUnchecked => "IndexUnchecked"@,
            Instruction::StoreIndex => "StoreIndex"@,
            Instruction::StoreIndexUnchecked => "StoreIndexUnchecked"@,
            Instruction::ArrayLen => "ArrayLen"@,
            Instruction::ArrayPush => "ArrayPush"@,
            Instruction::MakeArray => "MakeArray"@,
            Instruction::MakeTuple => "MakeTuple"@,
            Instruction::MakeEnum => "MakeEnum"@,
            Instruction::INIT => "INIT"@,
            Instruction::InitTyped => "InitTyped"@,
            Instruction::FORMAT => "FORMAT"@,
            Instruction::STRINGIFY => "STRINGIFY"@,
            Instruction::PRINT => "PRINT"@,
            Instruction::DenseBin => "DenseBin"@,
            Instruction::DenseCmp => "DenseCmp"@,
            Instruction::DenseUnary => "DenseUnary"@,
            Instruction::DenseCast => "DenseCast"@,
            Instruction::DenseConst => "DenseConst"@,
            Instruction::DenseMove => "DenseMove"@,
            Instruction::DensePush => "DensePush"@,
            Instruction::DenseIndex => "DenseIndex"@,
            Instruction::DenseStoreIndex => "DenseStoreIndex"@,
            Instruction::DenseArrayLen => "DenseArrayLen"@,
            Instruction::DenseArrayPush => "DenseArrayPush"@,
            Instruction::DenseMake => "DenseMake"@,
            Instruction::DenseMakeObject => "DenseMakeObject"@,
            Instruction::DenseFieldLoad => "DenseFieldLoad"@,
            Instruction::DenseFieldStore => "DenseFieldStore"@,
        }
    }

    pub fn mnemonic(self) -> (r: &'static str)
        ensures
            r@ == self.text(),
    {
        match self {
            Instruction::NOOP => "NOOP",
            Instruction::CONST => "CONST",
            Instruction::STRING => "STRING",
            Instruction::LOAD => "LOAD",
            Instruction::STORE => "STORE",
            Instruction::StorePop => "StorePop",
            Instruction::POP => "POP",
            Instruction::DUP => "DUP",
            Instruction::ADD => "ADD",
            Instruction::ADDF => "ADDF",
            Instruction::SUB => "SUB",
            Instruction::SUBF => "SUBF",
            Instruction::MUL => "MUL",
            Instruction::MULF => "MULF",
            Instruction::DIV => "DIV",
            Instruction::DIVF => "DIVF",
            Instruction::MOD => "MOD",
            Instruction::MODF => "MODF",
            Instruction::Pow => "Pow",
            Instruction::PowF => "PowF",
            Instruction::AND => "AND",
            Instruction::OR => "OR",
            Instruction::BITAND => "BITAND",
            Instruction::BITOR => "BITOR",
            Instruction::XOR => "XOR",
            Instruction::SHL => "SHL",
            Instruction::SHR => "SHR",
            Instruction::NEG => "NEG",
            Instruction::NEGF => "NEGF",
            Instruction::NOT => "NOT",
            Instruction::INC => "INC",
            Instruction::DEC => "DEC",
            Instruction::LE => "LE",
            Instruction::LEF => "LEF",
            Instruction::LEQ => "LEQ",
            Instruction::LEQF => "LEQF",
            Instruction::GT => "GT",
            Instruction::GTF => "GTF",
            Instruction::GEQ => "GEQ",
            Instruction::GEQF => "GEQF",
            Instruction::EQ => "EQ",
            Instruction::NEQ => "NEQ",
            Instruction::CastIntToFloat => "CastIntToFloat",
            Instruction::JMP => "JMP",
            Instruction::JMPF => "JMPF",
            Instruction::JMPT => "JMPT",
            Instruction::JumpIfMatch => "JumpIfMatch",
            Instruction::PairJumpIfTag => "PairJumpIfTag",
            Instruction::CmpJmpf => "CmpJmpf",
            Instruction::CmpJmpt => "CmpJmpt",
            Instruction::LogNotJmpf => "LogNotJmpf",
            Instruction::LogNotJmpt => "LogNotJmpt",
            Instruction::BinSlotImmJmpf => "BinSlotImmJmpf",
            Instruction::BinSlotImmJmpt => "BinSlotImmJmpt",
            Instruction::BinSlotSlotJmpf => "BinSlotSlotJmpf",
            Instruction::BinSlotSlotJmpt => "BinSlotSlotJmpt",
            Instruction::BinSlotSlotConstJmpf => "BinSlotSlotConstJmpf",
            Instruction::BinSlotSlotConstJmpt => "BinSlotSlotConstJmpt",
            Instruction::BinSlotImmStore => "BinSlotImmStore",
            Instruction::BinSlotSlotStore => "BinSlotSlotStore",
            Instruction::CALL => "CALL",
            Instruction::TailCall => "TailCall",
            Instruction::CallIndirect => "CallIndirect",
            Instruction::CodePtr => "CodePtr",
            Instruction::MakePolyFn => "MakePolyFn",
            Instruction::MakeCoro => "MakeCoro",
            Instruction::RETURN => "RETURN",
            Instruction::ReturnPair => "ReturnPair",
            Instruction::HALT => "HALT",
            Instruction::LoadReturnSlot => "LoadReturnSlot",
            Instruction::ConstReturnImm => "ConstReturnImm",
            Instruction::BinReturn => "BinReturn",
            Instruction::Seek => "Seek",
            Instruction::Unpack => "Unpack",
            Instruction::PairToHeap => "PairToHeap",
            Instruction::FfiInvoke => "FfiInvoke",
            Instruction::Index => "Index",
            Instruction::IndexUnchecked => "IndexUnchecked",
            Instruction::StoreIndex => "StoreIndex",
            Instruction::StoreIndexUnchecked => "StoreIndexUnchecked",
            Instruction::ArrayLen => "ArrayLen",
            Instruction::ArrayPush => "ArrayPush",
            Instruction::MakeArray => "MakeArray",
            Instruction::MakeTuple => "MakeTuple",
            Instruction::MakeEnum => "MakeEnum",
            Instruction::INIT => "INIT",
            Instruction::InitTyped => "InitTyped",
            Instruction::FORMAT => "FORMAT",
            Instruction::STRINGIFY => "STRINGIFY",
            Instruction::PRINT => "PRINT",
            Instruction::DenseBin => "DenseBin",
            Instruction::DenseCmp => "DenseCmp",
            Instruction::DenseUnary => "DenseUnary",
            Instruction::DenseCast => "DenseCast",
            Instruction::DenseConst => "DenseConst",
            Instruction::DenseMove => "DenseMove",
            Instruction::DensePush => "DensePush",
            Instruction::DenseIndex => "DenseIndex",
            Instruction::DenseStoreIndex => "DenseStoreIndex",
            Instruction::DenseArrayLen => "DenseArrayLen",
            Instruction::DenseArrayPush => "DenseArrayPush",
            Instruction::DenseMake => "DenseMake",
            Instruction::DenseMakeObject => "DenseMakeObject",
            Instruction::DenseFieldLoad => "DenseFieldLoad",
            Instruction::DenseFieldStore => "DenseFieldStore",
        }
    }
}

/// Decoded operand of a byte-level instruction.
#[derive(Copy, Clone, Debug, PartialEq, Eq, Hash, Structural)]
#[allow(inconsistent_fields)]
pub enum Operand {
    Empty,
    /// Plain 32-bit operand.
    Word(u32),
    /// Inline constant.
    Imm(i32),
    /// One to three frame slots.
    Slots { count: u8, a: u32, b: u32, c: u32 },
    /// Direct call: argument count, words returned, target position.
    Call { arity: u32, ret_words: u32, pc: u32 },
    /// In-place increment or decrement of a slot.
    IncDec { slot: u32, prefix: bool, float: bool },
    /// Fused operation on slots whose third part sits in the constant pool.
    Pooled { op: Instruction, a: u8, b: u8, idx: u32 },
    /// Fused operation on two slots with a destination slot.
    SlotSlot { op: Instruction, a: u8, b: u8, dest: u8 },
    /// Jump target, or the pool index of one.
    Target { at: u32, pool: bool },
    /// Tag to match and the pool index of the jump target.
    Match { tag: u16, idx: u16 },
    /// Three-address operation.
    Dense { kind: u8, a: u8, b: u8, c: u8 },
    /// Typed constant load.
    DenseConst { ty: u8, dest: u8, imm: u16, pool: bool },
    /// Object allocation in a slot.
    DenseObject { dest: u8, nfields: u8, type_id: u16 },
    /// Object allocation on the stack.
    Object { type_id: u32, nfields: u32 },
}

/// Byte-level instruction.
#[derive(Copy, Clone, Debug, PartialEq, Eq, Hash, Structural)]
pub struct Byte {
    pub inst: Instruction,
    pub arg: Operand,
}

impl Byte {
    pub fn new(inst: Instruction) -> (r: Self)
        ensures
            r == (Byte { inst, arg: Operand::Empty }),
    {
        Byte { inst, arg: Operand::Empty }
    }

    pub fn bytecode(&self) -> (r: &Instruction)
        ensures
            *r == self.inst,
    {
        &self.inst
    }

    pub fn with_operand_u32(self, v: u32) -> (r: Self)
        ensures
            r == (Byte { inst: self.inst, arg: Operand::Word(v) }),
    {
        Byte { inst: self.inst, arg: Operand::Word(v) }
    }

    /// Plain operand; zero when there is none.
    pub open spec fn word(self) -> u32 {
        match self.arg {
            Operand::Word(v) => v,
            _ => 0,
        }
    }

    pub fn operand_u32(&self) -> (r: u32)
        ensures
            r == self.word(),
    {
        match self.arg {
            Operand::Word(v) => v,
            _ => 0,
        }
    }

    pub fn with_const_inline(self, v: i32) -> (r: Self)
        ensures
            r == (Byte { inst: self.inst, arg: Operand::Imm(v) }),
    {
        Byte { inst: self.inst, arg: Operand::Imm(v) }
    }

    pub fn with_load_store_slot(self, slot: u32) -> (r: Self)
        ensures
            r == (Byte { inst: self.inst, arg: Operand::Slots { count: 1, a: slot, b: 0, c: 0 } }),
    {
        Byte { inst: self.inst, arg: Operand::Slots { count: 1, a: slot, b: 0, c: 0 } }
    }

    pub fn with_load_store_packed(self, count: u8, a: u32, b: u32, c: u32) -> (r: Self)
        ensures
            r == (Byte { inst: self.inst, arg: Operand::Slots { count, a, b, c } }),
    {
        Byte { inst: self.inst, arg: Operand::Slots { count, a, b, c } }
    }

    pub fn with_call_packed(self, arity: u32, pc: u32) -> (r: Self)
        ensures
            r == (Byte { inst: self.inst, arg: Operand::Call { arity, ret_words: 1, pc } }),
    {
        Byte { inst: self.inst, arg: Operand::Call { arity, ret_words: 1, pc } }
    }

    pub fn with_inc_dec(self, slot: u32, prefix: bool, float: bool) -> (r: Self)
        ensures
            r == (Byte { inst: self.inst, arg: Operand::IncDec { slot, prefix, float } }),
    {
        Byte { inst: self.inst, arg: Operand::IncDec { slot, prefix, float } }
    }

    /// Slot, prefix flag and float flag of an increment or decrement.
    pub open spec fn inc_dec(self) -> (u32, bool, bool) {
        match self.arg {
            Operand::IncDec { slot, prefix, float } => (slot, prefix, float),
            _ => (0, false, false),
        }
    }

    pub fn inc_dec_parts(&self) -> (r: (u32, bool, bool))
        ensures
            r == self.inc_dec(),
    {
        match self.arg {
            Operand::IncDec { slot, prefix, float } => (slot, prefix, float),
            _ => (0, false, false),
        }
    }

    pub fn with_dense_abc(self, kind: u8, a: u8, b: u8, c: u8) -> (r: Self)
        ensures
            r == (Byte { inst: self.inst, arg: Operand::Dense { kind, a, b, c } }),
    {
        Byte { inst: self.inst, arg: Operand::Dense { kind, a, b, c } }
    }

    /// Two-slot form: destination and source.
    pub fn with_dense_move(self, a: u8, b: u8) -> (r: Self)
        ensures
            r == (Byte { inst: self.inst, arg: Operand::Dense { kind: 0, a, b, c: 0 } }),
    {
        Byte { inst: self.inst, arg: Operand::Dense { kind: 0, a, b, c: 0 } }
    }

    pub fn with_dense_unary(self, kind: u8, a: u8, b: u8) -> (r: Self)
        ensures
            r == (Byte { inst: self.inst, arg: Operand::Dense { kind, a, b, c: 0 } }),
    {
        Byte { inst: self.inst, arg: Operand::Dense { kind, a, b, c: 0 } }
    }

    pub fn with_dense_const(self, ty: u8, dest: u8, imm: u16, pool: bool) -> (r: Self)
        ensures
            r == (Byte { inst: self.inst, arg: Operand::DenseConst { ty, dest, imm, pool } }),
    {
        Byte { inst: self.inst, arg: Operand::DenseConst { ty, dest, imm, pool } }
    }

    pub fn with_dense_object(self, dest: u8, nfields: u8, type_id: u16) -> (r: Self)
        ensures
            r == (Byte { inst: self.inst, arg: Operand::DenseObject { dest, nfields, type_id } }),
    {
        Byte { inst: self.inst, arg: Operand::DenseObject { dest, nfields, type_id } }
    }

    pub fn with_init_typed(self, type_id: u32, nfields: u32) -> (r: Self)
        ensures
            r == (Byte { inst: self.inst, arg: Operand::Object { type_id, nfields } }),
    {
        Byte { inst: self.inst, arg: Operand::Object { type_id, nfields } }
    }

    /// Type id and field count of an object allocation.
    pub open spec fn object(self) -> (u32, u32) {
        match self.arg {
            Operand::Object { type_id, nfields } => (type_id, nfields),
            _ => (0, 0),
        }
    }

    pub fn init_typed_parts(&self) -> (r: (u32, u32))
        ensures
            r == self.object(),
    {
        match self.arg {
            Operand::Object { type_id, nfields } => (type_id, nfields),
            _ => (0, 0),
        }
    }

    /// Argument count and target of a direct call.
    pub open spec fn call(self) -> (u32, u32) {
        match self.arg {
            Operand::Call { arity, pc, .. } => (arity, pc),
            _ => (0, 0),
        }
    }

    pub fn call_parts(&self) -> (r: (u32, u32))
        ensures
            r == self.call(),
    {
        match self.arg {
            Operand::Call { arity, pc, .. } => (arity, pc),
            _ => (0, 0),
        }
    }

    /// Words that a direct call leaves on the stack.
    pub open spec fn call_words(self) -> u32 {
        match self.arg {
            Operand::Call { ret_words, .. } => ret_words,
            _ => 1,
        }
    }

    pub fn call_ret_words(&self) -> (r: u32)
        ensures
            r == self.call_words(),
    {
        match self.arg {
            Operand::Call { ret_words, .. } => ret_words,
            _ => 1,
        }
    }

    /// Number of slots of a load or store: at most three, one unless packed.
    pub open spec fn slot_count(self) -> nat {
        match self.arg {
            Operand::Slots { count, .. } => if count > 3 {
                3
            } else {
                count as nat
            },
            _ => 0,
        }
    }

    pub fn load_store_count(&self) -> (r: u32)
        ensures
            r == self.slot_count(),
            r <= 3,
    {
        match self.arg {
            Operand::Slots { count, .. } => if count > 3 {
                3
            } else {
                count as u32
            },
            _ => 0,
        }
    }

    /// Slot `i` of a load or store.
    pub open spec fn slot_at(self, i: int) -> u32 {
        match self.arg {
            Operand::Slots { a, b, c, .. } => if i == 0 {
                a
            } else if i == 1 {
                b
            } else {
                c
            },
            _ => 0,
        }
    }

    pub fn load_store_slot_at(&self, i: u32) -> (r: u32)
        ensures
            r == self.slot_at(i as int),
    {
        match self.arg {
            Operand::Slots { a, b, c, .. } => if i == 0 {
                a
            } else if i == 1 {
                b
            } else {
                c
            },
            _ => 0,
        }
    }

    pub fn with_bin_slot_slot_store(self, op: Instruction, a: u8, b: u8, dest: u8) -> (r: Self)
        ensures
            r == (Byte { inst: self.inst, arg: Operand::SlotSlot { op, a, b, dest } }),
    {
        Byte { inst: self.inst, arg: Operand::SlotSlot { op, a, b, dest } }
    }

    pub fn with_pooled(self, op: Instruction, a: u8, b: u8, idx: u32) -> (r: Self)
        ensures
            r == (Byte { inst: self.inst, arg: Operand::Pooled { op, a, b, idx } }),
    {
        Byte { inst: self.inst, arg: Operand::Pooled { op, a, b, idx } }
    }

    pub fn with_target(self, at: u32, pool: bool) -> (r: Self)
        ensures
            r == (Byte { inst: self.inst, arg: Operand::Target { at, pool } }),
    {
        Byte { inst: self.inst, arg: Operand::Target { at, pool } }
    }

    pub fn with_match(self, tag: u16, idx: u16) -> (r: Self)
        ensures
            r == (Byte { inst: self.inst, arg: Operand::Match { tag, idx } }),
    {
        Byte { inst: self.inst, arg: Operand::Match { tag, idx } }
    }
}

/// Branch-weight hint on a jump.
#[derive(Copy, Clone, Debug, PartialEq, Eq, Hash, Structural)]
pub enum JumpHint {
    Neutral,
    Likely,
    Unlikely,
}

impl Default for JumpHint {
    fn default() -> (r: Self)
        ensures
            r == JumpHint::Neutral,
    {
        JumpHint::Neutral
    }
}

#[derive(Copy, Clone, Debug, PartialEq, Eq, Hash, Structural)]
pub enum IlJumpKind {
    Unconditional,
    JumpIfFalse,
    JumpIfTrue,
    /// Taken when the enum on top of the stack has tag `tag`; its `arity`
    /// payload words are left on the stack.
    JumpIfMatch { tag: u32, arity: u32 },
}

#[derive(Copy, Clone, Debug, PartialEq, Eq, Hash, Structural)]
pub enum EntryKind {
    Call,
    TailCall,
    CodePtr,
    MakePolyFn,
    MakeCoro,
}

/// One stack code operation.
#[derive(Copy, Clone, Debug, PartialEq, Eq, Hash, Structural)]
#[allow(inconsistent_fields)]
pub enum IlOp {
    Label(Label),
    /// Label that several paths join at.
    JoinLabel(Label),
    Load { slot: u32, loc: DebugLoc },
    StorePop { slot: u32, loc: DebugLoc },
    Const { imm: i32, loc: DebugLoc },
    ConstPool { idx: u32, loc: DebugLoc },
    String { idx: u32, loc: DebugLoc },
    Dup { loc: DebugLoc },
    Pop { loc: DebugLoc },
    LogNot { loc: DebugLoc },
    Bin { op: Instruction, loc: DebugLoc },
    BinSlotImm { op: Instruction, slot: u8, imm: i16, loc: DebugLoc },
    BinSlotSlot { op: Instruction, a: u8, b: u8, loc: DebugLoc },
    Jump { kind: IlJumpKind, target: Label, loc: DebugLoc, hint: JumpHint },
    Return { loc: DebugLoc, ret_words: u32 },
    Halt { loc: DebugLoc },
    Entry { kind: EntryKind, arity: u32, target: Label, loc: DebugLoc, ret_words: u32 },
    HostInvoke { arity: u32, layout: u8, loc: DebugLoc },
    MakeArray { arity: u32, loc: DebugLoc },
    MakeTuple { arity: u32, loc: DebugLoc },
    MakeEnum { tag: u16, arity: u16, loc: DebugLoc },
    GetField { loc: DebugLoc },
    /// Store by index, or by the name on top of the stack.
    SetField { index: Option<u32>, loc: DebugLoc },
    LoadField { slot: u32, loc: DebugLoc },
    BoxValue { loc: DebugLoc },
    UnboxValue { loc: DebugLoc },
    Index { loc: DebugLoc },
    IndexUnchecked { loc: DebugLoc },
    ArrayPin { loc: DebugLoc },
    IndexPin { loc: DebugLoc },
    IndexPinUnchecked { loc: DebugLoc },
    StoreIndexPin { loc: DebugLoc },
    StoreIndexPinUnchecked { loc: DebugLoc },
    Print { loc: DebugLoc },
    LoadReturnSlot { slot: u32, loc: DebugLoc },
    ConstReturnImm { imm: i32, loc: DebugLoc },
    BinReturn { op: Instruction, loc: DebugLoc },
    PrologueJmp { target: Label, loc: DebugLoc },
    Byte { byte: Byte, loc: DebugLoc },
}

impl IlOp {
    /// Byte-level instruction without a source range.
    pub fn byte(byte: Byte) -> (r: Self)
        ensures
            r == (IlOp::Byte { byte, loc: no_loc() }),
    {
        IlOp::Byte { byte, loc: DebugLoc::unknown() }
    }

    pub fn from_plain_byte(byte: Byte, loc: DebugLoc) -> (r: Self)
        ensures
            r == (IlOp::Byte { byte, loc }),
    {
        IlOp::Byte { byte, loc }
    }

    /// Whether the operation becomes an instruction. Labels only mark a position.
    pub open spec fn emits(self) -> bool {
        self.bound() is None
    }

    pub fn emits_code(&self) -> (r: bool)
        ensures
            r == self.emits(),
    {
        match self {
            IlOp::Label(_) => false,
            IlOp::JoinLabel(_) => false,
            _ => true,
        }
    }

    /// Label that the operation binds.
    pub open spec fn bound(self) -> Option<Label> {
        match self {
            IlOp::Label(l) => Some(l),
            IlOp::JoinLabel(l) => Some(l),
            _ => None,
        }
    }
}

} // verus!

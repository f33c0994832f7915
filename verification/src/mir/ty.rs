//! SSA value types.
//!
//! The lattice is flat: [`MirTy::Bottom`] lies below every type and
//! [`MirTy::Value`] above every type. A *specialized* type is one that an SSA
//! value may carry in a dense slot.
use super::layout::MirLayout;
use vstd::prelude::*;

verus! {

#[derive(Copy, Clone, Debug, PartialEq, Eq, Hash, Structural)]
pub enum MirTy {
    I32,
    I64,
    F32,
    F64,
    Bool,
    /// Pointer to a heap object.
    HeapRef,
    /// `Option` over a heap object: `0` is `None`.
    NicheOpt,
    /// `Result` over heap objects: low bit set is `Err`.
    NicheRes,
    /// Boxed VM value.
    Value,
    Bottom,
}

impl MirTy {
    pub open spec fn float(self) -> bool {
        self is F32 || self is F64
    }

    pub open spec fn int_ty(self) -> bool {
        self is I32 || self is I64
    }

    pub open spec fn numeric(self) -> bool {
        self.int_ty() || self.float() || self is Bool
    }

    pub open spec fn heap_word(self) -> bool {
        self is HeapRef || self is NicheOpt || self is NicheRes
    }

    pub open spec fn specialized(self) -> bool {
        self.numeric() || self.heap_word()
    }

    pub open spec fn spec_join(self, other: MirTy) -> MirTy {
        if self == other {
            self
        } else if self is Bottom {
            other
        } else if other is Bottom {
            self
        } else {
            MirTy::Value
        }
    }

    pub open spec fn spec_le(self, other: MirTy) -> bool {
        self == other || self is Bottom || other is Value
    }

    pub open spec fn layout_of(self) -> MirLayout {
        if self is NicheOpt || self is NicheRes {
            MirLayout::HeapNiche
        } else {
            MirLayout::Word
        }
    }

    /// Name used in messages.
    pub open spec fn text(self) -> Seq<char> {
        match self {
            MirTy::I32 => "i32"@,
            MirTy::I64 => "i64"@,
            MirTy::F32 => "f32"@,
            MirTy::F64 => "f64"@,
            MirTy::Bool => "bool"@,
            MirTy::HeapRef => "heapref"@,
            MirTy::NicheOpt => "niche_opt"@,
            MirTy::NicheRes => "niche_res"@,
            MirTy::Value => "value"@,
            MirTy::Bottom => "bottom"@,
        }
    }

    pub fn is_float(self) -> (r: bool)
        ensures
            r == self.float(),
    {
        matches!(self, MirTy::F32 | MirTy::F64)
    }

    pub fn is_int(self) -> (r: bool)
        ensures
            r == self.int_ty(),
    {
        matches!(self, MirTy::I32 | MirTy::I64)
    }

    /// Integers, floats and `bool`.
    pub fn is_numeric(self) -> (r: bool)
        ensures
            r == self.numeric(),
    {
        matches!(self, MirTy::I32 | MirTy::I64 | MirTy::F32 | MirTy::F64 | MirTy::Bool)
    }

    pub fn is_heap_word(self) -> (r: bool)
        ensures
            r == self.heap_word(),
    {
        matches!(self, MirTy::HeapRef | MirTy::NicheOpt | MirTy::NicheRes)
    }

    /// Numeric types and heap words; neither `value` nor `bottom`.
    pub fn is_specialized(self) -> (r: bool)
        ensures
            r == self.specialized(),
    {
        self.is_numeric() || self.is_heap_word()
    }

    /// Fits one word of the call ABI.
    pub fn is_word_lane(self) -> (r: bool)
        ensures
            r == self.specialized(),
    {
        self.is_specialized()
    }

    /// Least upper bound.
    pub fn join(self, other: MirTy) -> (r: MirTy)
        ensures
            r == self.spec_join(other),
    {
        if self == other {
            self
        } else if self == MirTy::Bottom {
            other
        } else if other == MirTy::Bottom {
            self
        } else {
            MirTy::Value
        }
    }

    /// Lattice order.
    pub fn le(self, other: MirTy) -> (r: bool)
        ensures
            r == self.spec_le(other),
    {
        self == other || self == MirTy::Bottom || other == MirTy::Value
    }

    /// Return layout of a one-word value of this type.
    pub fn layout(self) -> (r: MirLayout)
        ensures
            r == self.layout_of(),
    {
        if self == MirTy::NicheOpt || self == MirTy::NicheRes {
            MirLayout::HeapNiche
        } else {
            MirLayout::Word
        }
    }

    pub fn as_str(self) -> (r: &'static str)
        ensures
            r@ == self.text(),
    {
        match self {
            MirTy::I32 => "i32",
            MirTy::I64 => "i64",
            MirTy::F32 => "f32",
            MirTy::F64 => "f64",
            MirTy::Bool => "bool",
            MirTy::HeapRef => "heapref",
            MirTy::NicheOpt => "niche_opt",
            MirTy::NicheRes => "niche_res",
            MirTy::Value => "value",
            MirTy::Bottom => "bottom",
        }
    }
}

/// `join` is commutative, associative and idempotent, and `le` is the order
/// that it induces.
pub proof fn join_is_least_upper_bound(a: MirTy, b: MirTy, c: MirTy)
    ensures
        a.spec_join(b) == b.spec_join(a),
        a.spec_join(b).spec_join(c) == a.spec_join(b.spec_join(c)),
        a.spec_join(a) == a,
        a.spec_le(b) == (a.spec_join(b) == b),
        a.spec_le(a.spec_join(b)),
        a.spec_le(c) && b.spec_le(c) ==> a.spec_join(b).spec_le(c),
{
}

} // verus!

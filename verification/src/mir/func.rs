//! Functions, blocks, and SSA verification.
use super::effects::{host_effects, row_effects};
use super::gc::{LiveRootSet, RootsV};
use super::host_allow::{copy_rows, edge, host_edge_spec, row_in, HostNative};
use super::inst::{
    BlockId, InstV, LocalId, MirBinOp, MirCastKind, MirDeoptKind, MirInst, MirUnaryOp, TermV, Terminator, ValueId,
};
use super::layout::MirLayout;
use super::ty::MirTy;
use crate::idmap::IdMap;
use crate::il::op::{no_loc, DebugLoc};
use crate::order::{sort_blocks, sorted_blocks};
use crate::text::{cat2, cat3, cat4, cat5, cat6, dec, dec_str};
use vstd::prelude::*;

verus! {

#[derive(Debug, PartialEq, Eq)]
pub struct MirBlock {
    pub id: BlockId,
    pub insts: Vec<MirInst>,
    pub term: Option<Terminator>,
}

/// Mathematical form of [`MirBlock`].
#[verifier::ext_equal]
pub struct BlockV {
    pub id: BlockId,
    pub insts: Seq<InstV>,
    pub term: Option<TermV>,
}

pub open spec fn insts_view(s: Seq<MirInst>) -> Seq<InstV> {
    Seq::new(s.len(), |i: int| s[i]@)
}

pub open spec fn term_view(t: Option<Terminator>) -> Option<TermV> {
    match t {
        Some(t) => Some(t@),
        None => None,
    }
}

impl View for MirBlock {
    type V = BlockV;

    open spec fn view(&self) -> BlockV {
        BlockV { id: self.id, insts: insts_view(self.insts@), term: term_view(self.term) }
    }
}

pub open spec fn blocks_view(s: Seq<MirBlock>) -> Seq<BlockV> {
    Seq::new(s.len(), |i: int| s[i]@)
}

/// A block without instructions.
pub open spec fn empty_block(id: BlockId) -> BlockV {
    BlockV { id, insts: Seq::empty(), term: None }
}

impl MirBlock {
    pub fn new(id: BlockId) -> (r: Self)
        ensures
            r@ == empty_block(id),
    {
        let r = MirBlock { id, insts: Vec::new(), term: None };
        assert(r@.insts =~= Seq::<InstV>::empty());
        r
    }
}

/// Copy of an instruction list.
pub fn copy_insts(s: &Vec<MirInst>) -> (r: Vec<MirInst>)
    ensures
        insts_view(r@) == insts_view(s@),
{
    let mut r: Vec<MirInst> = Vec::new();
    let mut i: usize = 0;
    while i < s.len()
        invariant
            i <= s@.len(),
            insts_view(r@) == insts_view(s@).take(i as int),
        decreases s@.len() - i,
    {
        let ghost r0 = r@;
        r.push(s[i].clone());
        assert(insts_view(r@) =~= insts_view(r0).push(s@[i as int]@));
        i = i + 1;
        assert(insts_view(r@) =~= insts_view(s@).take(i as int));
    }
    assert(insts_view(r@) =~= insts_view(s@));
    r
}

impl Clone for MirBlock {
    fn clone(&self) -> (r: Self)
        ensures
            r@ == self@,
    {
        let term = match &self.term {
            Some(t) => Some(t.clone()),
            None => None,
        };
        MirBlock { id: self.id, insts: copy_insts(&self.insts), term }
    }
}

/// Live locals at a debugger edge.
#[derive(Debug, PartialEq, Eq)]
pub struct DeoptSite {
    pub kind: MirDeoptKind,
    pub at: Option<ValueId>,
    pub loc: DebugLoc,
    pub slots: Vec<(LocalId, ValueId)>,
}

/// Mathematical form of [`DeoptSite`].
#[verifier::ext_equal]
pub struct SiteV {
    pub kind: MirDeoptKind,
    pub at: Option<ValueId>,
    pub loc: DebugLoc,
    pub slots: Seq<(LocalId, ValueId)>,
}

impl View for DeoptSite {
    type V = SiteV;

    open spec fn view(&self) -> SiteV {
        SiteV { kind: self.kind, at: self.at, loc: self.loc, slots: self.slots@ }
    }
}

pub open spec fn sites_view(s: Seq<DeoptSite>) -> Seq<SiteV> {
    Seq::new(s.len(), |i: int| s[i]@)
}

pub open spec fn roots_view(s: Seq<LiveRootSet>) -> Seq<RootsV> {
    Seq::new(s.len(), |i: int| s[i]@)
}

pub open spec fn env_view(m: Map<u32, Vec<(LocalId, ValueId)>>) -> Map<u32, Seq<(LocalId, ValueId)>> {
    Map::new(|k: u32| m.dom().contains(k), |k: u32| m[k]@)
}

#[derive(Debug, PartialEq, Eq)]
pub struct MirFunc {
    pub name: String,
    pub params: Vec<ValueId>,
    pub ret_ty: Option<MirTy>,
    pub ret_hi_ty: Option<MirTy>,
    pub ret_layout: MirLayout,
    pub entry: BlockId,
    pub blocks: Vec<MirBlock>,
    /// Type of each allocated value, indexed by value number.
    pub types: Vec<MirTy>,
    /// Source locals in scope at each collector edge, by the edge's value.
    pub slot_env: IdMap<Vec<(LocalId, ValueId)>>,
    /// Live heap words at each collector edge.
    pub gc_roots: Vec<LiveRootSet>,
    /// Named source locals and their values.
    pub debug_slots: IdMap<ValueId>,
    /// Debugger edges.
    pub deopt_sites: Vec<DeoptSite>,
    /// Source range of a value's definition.
    pub locs: IdMap<DebugLoc>,
    /// Source range of a block's terminator.
    pub term_locs: IdMap<DebugLoc>,
    /// Host table that types the host calls; row `i` has id `i`.
    pub hosts: Vec<HostNative>,
}

/// Mathematical form of [`MirFunc`].
#[verifier::ext_equal]
pub struct FuncV {
    pub name: Seq<char>,
    pub params: Seq<ValueId>,
    pub ret_ty: Option<MirTy>,
    pub ret_hi_ty: Option<MirTy>,
    pub ret_layout: MirLayout,
    pub entry: BlockId,
    pub blocks: Seq<BlockV>,
    pub types: Seq<MirTy>,
    pub slot_env: Map<u32, Seq<(LocalId, ValueId)>>,
    pub gc_roots: Seq<RootsV>,
    pub debug_slots: Map<u32, ValueId>,
    pub deopt_sites: Seq<SiteV>,
    pub locs: Map<u32, DebugLoc>,
    pub term_locs: Map<u32, DebugLoc>,
    pub hosts: Seq<HostNative>,
}

impl View for MirFunc {
    type V = FuncV;

    open spec fn view(&self) -> FuncV {
        FuncV {
            name: self.name@,
            params: self.params@,
            ret_ty: self.ret_ty,
            ret_hi_ty: self.ret_hi_ty,
            ret_layout: self.ret_layout,
            entry: self.entry,
            blocks: blocks_view(self.blocks@),
            types: self.types@,
            slot_env: env_view(self.slot_env@),
            gc_roots: roots_view(self.gc_roots@),
            debug_slots: self.debug_slots@,
            deopt_sites: sites_view(self.deopt_sites@),
            locs: self.locs@,
            term_locs: self.term_locs@,
            hosts: self.hosts@,
        }
    }
}

/// The blocks that jump to `b`, among the first `k` blocks and in their order.
pub open spec fn preds_upto(blocks: Seq<BlockV>, k: nat, b: nat) -> Seq<BlockId>
    decreases k,
{
    if k == 0 {
        Seq::empty()
    } else {
        preds_upto(blocks, (k - 1) as nat, b) + edges_to(blocks[k - 1], b)
    }
}

/// One mention of the block for each of its edges to `b`.
pub open spec fn edges_to(block: BlockV, b: nat) -> Seq<BlockId> {
    match block.term {
        Some(t) => hits(t.targets(), t.targets().len(), b, block.id),
        None => Seq::empty(),
    }
}

/// `id` once for each of the first `k` targets that is block `b`.
pub open spec fn hits(targets: Seq<BlockId>, k: nat, b: nat, id: BlockId) -> Seq<BlockId>
    decreases k,
{
    if k == 0 {
        Seq::empty()
    } else if targets[k - 1].0 == b {
        hits(targets, (k - 1) as nat, b, id).push(id)
    } else {
        hits(targets, (k - 1) as nat, b, id)
    }
}

/// First position at or behind `i` whose value has no specialized type.
pub open spec fn first_loose(f: FuncV, s: Seq<ValueId>, i: nat) -> Option<nat>
    decreases s.len() - i,
{
    if i >= s.len() {
        None
    } else if !f.ty(s[i as int]).specialized() {
        Some(i)
    } else {
        first_loose(f, s, i + 1)
    }
}

/// First position at or behind `i` whose value is not a heap word.
pub open spec fn first_non_heap(f: FuncV, s: Seq<ValueId>, i: nat) -> Option<nat>
    decreases s.len() - i,
{
    if i >= s.len() {
        None
    } else if !f.ty(s[i as int]).heap_word() {
        Some(i)
    } else {
        first_non_heap(f, s, i + 1)
    }
}

/// First position at or behind `i` where the value's type is not that of `tys`.
pub open spec fn first_mistyped(f: FuncV, s: Seq<ValueId>, tys: Seq<MirTy>, i: nat) -> Option<nat>
    decreases s.len() - i,
{
    if i >= s.len() {
        None
    } else if f.ty(s[i as int]) != tys[i as int] {
        Some(i)
    } else {
        first_mistyped(f, s, tys, i + 1)
    }
}

/// First position at or behind `i` where a phi argument's type is not `ty`.
pub open spec fn first_misphi(f: FuncV, s: Seq<(BlockId, ValueId)>, ty: MirTy, i: nat) -> Option<nat>
    decreases s.len() - i,
{
    if i >= s.len() {
        None
    } else if f.ty(s[i as int].1) != ty {
        Some(i)
    } else {
        first_misphi(f, s, ty, i + 1)
    }
}

/// Predecessor blocks of a phi's arguments.
pub open spec fn arg_blocks(args: Seq<(BlockId, ValueId)>) -> Seq<BlockId> {
    args.map_values(|a: (BlockId, ValueId)| a.0)
}

/// `BlockId(1), BlockId(2)` from position `i` on.
pub open spec fn block_items(s: Seq<BlockId>, i: nat) -> Seq<char>
    decreases s.len() - i,
{
    if i >= s.len() {
        Seq::empty()
    } else {
        (if i > 0 {
            ", "@
        } else {
            ""@
        }) + "BlockId("@ + dec(s[i as int].0 as nat) + ")"@ + block_items(s, i + 1)
    }
}

/// Bracketed list of blocks.
pub open spec fn block_list(s: Seq<BlockId>) -> Seq<char> {
    "["@ + block_items(s, 0) + "]"@
}

/// A heap word or an `i64`, as heap bit operations accept.
pub open spec fn heap_or_i64(t: MirTy) -> bool {
    t.heap_word() || t is I64
}

pub open spec fn at_index(v: ValueId, what: Seq<char>, i: nat, tail: Seq<char>) -> Seq<char> {
    v.text() + what + dec(i) + tail
}

impl FuncV {
    /// Type of a value; values that were never allocated have none.
    pub open spec fn ty(self, v: ValueId) -> MirTy {
        if v.0 < self.types.len() {
            self.types[v.0 as int]
        } else {
            MirTy::Bottom
        }
    }

    /// Predecessors of block `b`, in block order.
    pub open spec fn preds(self, b: nat) -> Seq<BlockId> {
        preds_upto(self.blocks, self.blocks.len(), b)
    }

    /// Some instruction satisfies `p`.
    pub open spec fn any_inst(self, p: spec_fn(InstV) -> bool) -> bool {
        exists|b: int, i: int|
            0 <= b < self.blocks.len() && 0 <= i < self.blocks[b].insts.len() && p(
                #[trigger] self.blocks[b].insts[i],
            )
    }

    /// Arithmetic, comparisons and conversions.
    pub open spec fn numeric_fault(self, inst: InstV) -> Option<Seq<char>> {
        match inst {
            InstV::Const { dest, c } => if self.ty(dest) != c.const_ty() {
                Some(dest.text() + " const type mismatch"@)
            } else {
                None
            },
            InstV::Bin { dest, op, ty, lhs, rhs } => {
                let lt = self.ty(lhs);
                let rt = self.ty(rhs);
                if ty.heap_word() && (op is BitAnd || op is BitOr || op is Xor) {
                    if !heap_or_i64(lt) || !heap_or_i64(rt) {
                        Some(dest.text() + " heap bitwise operand type"@)
                    } else if self.ty(dest) != ty {
                        Some(dest.text() + " binop dest type"@)
                    } else {
                        None
                    }
                } else if !ty.numeric() || ty is Bool {
                    Some(dest.text() + " binop on "@ + ty.text())
                } else if op.int_only() && !ty.int_ty() {
                    Some(dest.text() + " bitwise on "@ + ty.text())
                } else if lt != ty || rt != ty {
                    Some(dest.text() + " binop operand type"@)
                } else if self.ty(dest) != ty {
                    Some(dest.text() + " binop dest type"@)
                } else {
                    None
                }
            },
            InstV::Cmp { dest, op, ty, lhs, rhs } => {
                let lt = self.ty(lhs);
                let rt = self.ty(rhs);
                if ty.heap_word() {
                    if !heap_or_i64(lt) || !heap_or_i64(rt) {
                        Some(dest.text() + " heap cmp operand type"@)
                    } else if !(self.ty(dest) is Bool) {
                        Some(dest.text() + " cmp dest is not bool"@)
                    } else {
                        None
                    }
                } else if !ty.numeric() || ty is Bool {
                    Some(dest.text() + " cmp on "@ + ty.text())
                } else if lt != ty || rt != ty {
                    Some(dest.text() + " cmp operand type"@)
                } else if !(self.ty(dest) is Bool) {
                    Some(dest.text() + " cmp dest is not bool"@)
                } else {
                    None
                }
            },
            InstV::Unary { dest, op, src } => {
                let t = self.ty(src);
                match op {
                    MirUnaryOp::Not => if !(self.ty(dest) is Bool) {
                        Some(dest.text() + " lnot dest is not bool"@)
                    } else if !(t is Bool) && !t.int_ty() && !t.heap_word() {
                        Some(dest.text() + " lnot on "@ + t.text())
                    } else {
                        None
                    },
                    MirUnaryOp::Neg => if !t.int_ty() && !t.float() {
                        Some(dest.text() + " neg on "@ + t.text())
                    } else if self.ty(dest) != t {
                        Some(dest.text() + " neg dest type"@)
                    } else {
                        None
                    },
                }
            },
            InstV::Cast { dest, kind, to, src } => {
                let from = self.ty(src);
                let ok = match kind {
                    MirCastKind::IntToFloat => from.int_ty() && to.float(),
                    MirCastKind::Sext => from is I32 && to is I64,
                };
                if !ok || self.ty(dest) != to {
                    Some(dest.text() + " illegal cast "@ + from.text() + " -> "@ + to.text())
                } else {
                    None
                }
            },
            _ => None,
        }
    }

    /// Host calls and direct calls.
    pub open spec fn call_fault(self, inst: InstV) -> Option<Seq<char>> {
        match inst {
            InstV::HostInvoke { dest, native_id, args, .. } => match edge(self.hosts, native_id) {
                None => Some(dest.text() + " host "@ + dec(native_id as nat) + " not a typed edge"@),
                Some(spec) => if spec.args.len() != args.len() {
                    Some(dest.text() + " host arity"@)
                } else {
                    match first_mistyped(self, args, spec.args, 0) {
                        Some(i) => Some(at_index(dest, " host arg "@, i, " type"@)),
                        None => if self.ty(dest) != spec.ret {
                            Some(dest.text() + " host dest type"@)
                        } else {
                            None
                        },
                    }
                },
            },
            InstV::Call { dest, dest_hi, args, .. } => if !self.ty(dest).specialized() {
                Some(dest.text() + " call dest is not a word lane"@)
            } else if dest_hi is Some && !self.ty(dest_hi->0).specialized() {
                Some(dest_hi->0.text() + " call hi dest is not a word lane"@)
            } else {
                match first_loose(self, args, 0) {
                    Some(i) => Some(at_index(dest, " call arg "@, i, " type"@)),
                    None => None,
                }
            },
            _ => None,
        }
    }

    /// Array, payload and field accesses.
    pub open spec fn memory_fault(self, inst: InstV) -> Option<Seq<char>> {
        match inst {
            InstV::Index { dest, array, index, .. } => if !(self.ty(array) is HeapRef) {
                Some(dest.text() + " Index array is not heapref"@)
            } else if !self.ty(index).int_ty() {
                Some(dest.text() + " Index index type"@)
            } else if !self.ty(dest).specialized() {
                Some(dest.text() + " Index dest type"@)
            } else {
                None
            },
            InstV::StoreIndex { dest, array, index, value, .. } => if !(self.ty(array) is HeapRef) {
                Some(dest.text() + " StoreIndex array is not heapref"@)
            } else if !self.ty(index).int_ty() {
                Some(dest.text() + " StoreIndex index type"@)
            } else if !self.ty(value).specialized() || self.ty(dest) != self.ty(value) {
                Some(dest.text() + " StoreIndex value type"@)
            } else {
                None
            },
            InstV::ArrayLen { dest, array } => if !(self.ty(array) is HeapRef) {
                Some(dest.text() + " ArrayLen array is not heapref"@)
            } else if !(self.ty(dest) is I64) {
                Some(dest.text() + " ArrayLen dest type"@)
            } else {
                None
            },
            InstV::ArrayPush { dest, array, value } => if !(self.ty(array) is HeapRef) {
                Some(dest.text() + " ArrayPush array is not heapref"@)
            } else if !self.ty(value).specialized() {
                Some(dest.text() + " ArrayPush value type"@)
            } else if !(self.ty(dest) is HeapRef) {
                Some(dest.text() + " ArrayPush dest is not heapref"@)
            } else {
                None
            },
            InstV::MatchPayload { dest, scrutinee, index } => if index > 0 {
                Some(dest.text() + " MatchPayload index"@)
            } else if !self.ty(scrutinee).specialized() {
                Some(dest.text() + " MatchPayload scrutinee type"@)
            } else if !self.ty(dest).specialized() {
                Some(dest.text() + " MatchPayload dest type"@)
            } else {
                None
            },
            InstV::FieldLoad { dest, object, index, .. } => if !self.ty(object).specialized() {
                Some(dest.text() + " FieldLoad object type"@)
            } else if self.ty(dest) != self.ty(object) {
                Some(dest.text() + " FieldLoad dest type"@)
            } else if index > 32 {
                Some(dest.text() + " FieldLoad index"@)
            } else {
                None
            },
            InstV::FieldStore { dest, src, index, .. } => if !self.ty(src).specialized() {
                Some(dest.text() + " FieldStore src type"@)
            } else if self.ty(dest) != self.ty(src) {
                Some(dest.text() + " FieldStore dest type"@)
            } else if index > 32 {
                Some(dest.text() + " FieldStore index"@)
            } else {
                None
            },
            InstV::HeapFieldLoad { dest, object, .. } => if !(self.ty(object) is HeapRef) {
                Some(dest.text() + " HeapFieldLoad object is not heapref"@)
            } else if !self.ty(dest).specialized() {
                Some(dest.text() + " HeapFieldLoad dest type"@)
            } else {
                None
            },
            InstV::HeapFieldStore { dest, object, value, .. } => if !(self.ty(object) is HeapRef) {
                Some(dest.text() + " HeapFieldStore object is not heapref"@)
            } else if !self.ty(value).specialized() || self.ty(dest) != self.ty(value) {
                Some(dest.text() + " HeapFieldStore value type"@)
            } else {
                None
            },
            _ => None,
        }
    }

    /// Allocation, collector and debugger edges, and text.
    pub open spec fn object_fault(self, inst: InstV) -> Option<Seq<char>> {
        match inst {
            InstV::Alloc { dest, elems, .. } => if !(self.ty(dest) is HeapRef) {
                Some(dest.text() + " Alloc dest is not heapref"@)
            } else {
                match first_loose(self, elems, 0) {
                    Some(i) => Some(at_index(dest, " Alloc elem "@, i, " type"@)),
                    None => None,
                }
            },
            InstV::GcBarrier { dest, roots, .. } => if !(self.ty(dest) is HeapRef) {
                Some(dest.text() + " GcBarrier dest is not heapref"@)
            } else {
                match first_non_heap(self, roots, 0) {
                    Some(i) => Some(at_index(dest, " GcBarrier root "@, i, " is not a heap word"@)),
                    None => None,
                }
            },
            InstV::Deopt { dest, .. } => if !(self.ty(dest) is Bool) {
                Some(dest.text() + " Deopt dest is not bool"@)
            } else {
                None
            },
            InstV::String { dest, .. } => if !(self.ty(dest) is HeapRef) {
                Some(dest.text() + " String dest is not heapref"@)
            } else {
                None
            },
            InstV::Print { dest, src } => if !(self.ty(dest) is Bool) {
                Some(dest.text() + " Print dest is not bool"@)
            } else if !self.ty(src).specialized() {
                Some(dest.text() + " Print src type"@)
            } else {
                None
            },
            InstV::Format { dest, fmt, args } => if !(self.ty(dest) is HeapRef) {
                Some(dest.text() + " Format dest is not heapref"@)
            } else if !(self.ty(fmt) is HeapRef) && !(self.ty(fmt) is Value) {
                Some(dest.text() + " Format fmt type"@)
            } else {
                match first_loose(self, args, 0) {
                    Some(i) => Some(at_index(dest, " Format arg "@, i, " type"@)),
                    None => None,
                }
            },
            InstV::Stringify { dest, src } => if !(self.ty(dest) is HeapRef) {
                Some(dest.text() + " Stringify dest is not heapref"@)
            } else if !self.ty(src).specialized() {
                Some(dest.text() + " Stringify src type"@)
            } else {
                None
            },
            _ => None,
        }
    }

    /// Phis: one argument for each predecessor.
    pub open spec fn phi_fault(self, inst: InstV, preds: Seq<BlockId>) -> Option<Seq<char>> {
        match inst {
            InstV::Phi { dest, ty, args } => if self.ty(dest) != ty {
                Some(dest.text() + " phi type"@)
            } else if !ty.specialized() {
                Some(dest.text() + " phi is not specialized"@)
            } else if sorted_blocks(arg_blocks(args)) != sorted_blocks(preds) {
                Some(
                    dest.text() + " phi preds "@ + block_list(sorted_blocks(arg_blocks(args)))
                        + " != block preds "@ + block_list(sorted_blocks(preds)),
                )
            } else {
                match first_misphi(self, args, ty, 0) {
                    Some(i) => Some(dest.text() + " phi arg "@ + args[i as int].1.text() + " type"@),
                    None => None,
                }
            },
            _ => None,
        }
    }

    /// What is wrong with an instruction of a block with predecessors `preds`.
    pub open spec fn inst_fault(self, inst: InstV, preds: Seq<BlockId>) -> Option<Seq<char>> {
        match inst {
            InstV::Const { .. } => self.numeric_fault(inst),
            InstV::Bin { .. } => self.numeric_fault(inst),
            InstV::Cmp { .. } => self.numeric_fault(inst),
            InstV::Unary { .. } => self.numeric_fault(inst),
            InstV::Cast { .. } => self.numeric_fault(inst),
            InstV::HostInvoke { .. } => self.call_fault(inst),
            InstV::Call { .. } => self.call_fault(inst),
            InstV::Index { .. } => self.memory_fault(inst),
            InstV::StoreIndex { .. } => self.memory_fault(inst),
            InstV::ArrayLen { .. } => self.memory_fault(inst),
            InstV::ArrayPush { .. } => self.memory_fault(inst),
            InstV::MatchPayload { .. } => self.memory_fault(inst),
            InstV::FieldLoad { .. } => self.memory_fault(inst),
            InstV::FieldStore { .. } => self.memory_fault(inst),
            InstV::HeapFieldLoad { .. } => self.memory_fault(inst),
            InstV::HeapFieldStore { .. } => self.memory_fault(inst),
            InstV::Alloc { .. } => self.object_fault(inst),
            InstV::GcBarrier { .. } => self.object_fault(inst),
            InstV::Deopt { .. } => self.object_fault(inst),
            InstV::String { .. } => self.object_fault(inst),
            InstV::Print { .. } => self.object_fault(inst),
            InstV::Format { .. } => self.object_fault(inst),
            InstV::Stringify { .. } => self.object_fault(inst),
            InstV::Phi { .. } => self.phi_fault(inst, preds),
        }
    }

    /// Marks the values `ds` from position `i` on as defined. Fails on a value
    /// without a type and on a second definition.
    pub open spec fn define(self, seen: Seq<bool>, ds: Seq<ValueId>, i: nat) -> Result<Seq<bool>, Seq<char>>
        decreases ds.len() - i,
    {
        if i >= ds.len() {
            Ok(seen)
        } else {
            let d = ds[i as int];
            if d.0 >= self.types.len() {
                Err("dest "@ + d.text() + " has no type"@)
            } else if seen[d.0 as int] {
                Err("value "@ + d.text() + " defined twice"@)
            } else {
                self.define(seen.update(d.0 as int, true), ds, i + 1)
            }
        }
    }

    /// First operand at or behind `i` that is not defined yet.
    pub open spec fn first_undefined(self, seen: Seq<bool>, us: Seq<ValueId>, i: nat) -> Option<nat>
        decreases us.len() - i,
    {
        if i >= us.len() {
            None
        } else if us[i as int].0 >= self.types.len() || !seen[us[i as int].0 as int] {
            Some(i)
        } else {
            self.first_undefined(seen, us, i + 1)
        }
    }

    /// Walks the instructions of block `b` from `i` on: phis first, one
    /// definition per value, definitions before uses, and types.
    pub open spec fn insts_check(self, b: nat, i: nat, non_phi: bool, seen: Seq<bool>) -> Result<
        Seq<bool>,
        Seq<char>,
    >
        decreases self.blocks[b as int].insts.len() - i,
    {
        let block = self.blocks[b as int];
        if i >= block.insts.len() {
            Ok(seen)
        } else {
            let inst = block.insts[i as int];
            if inst.phi() && non_phi {
                Err("phi after non-phi in "@ + block.id.text())
            } else {
                match self.define(seen, inst.dests(), 0) {
                    Err(e) => Err(e),
                    Ok(seen2) => match self.inst_fault(inst, self.preds(b)) {
                        Some(e) => Err(e),
                        None => match self.first_undefined(seen2, inst.uses(), 0) {
                            Some(k) => if inst.phi() {
                                self.insts_check(b, i + 1, non_phi, seen2)
                            } else {
                                Err(inst.dest().text() + " uses undefined "@ + inst.uses()[k as int].text())
                            },
                            None => self.insts_check(b, i + 1, non_phi || !inst.phi(), seen2),
                        },
                    },
                }
            }
        }
    }

    /// What is wrong with a terminator.
    pub open spec fn term_fault(self, term: TermV) -> Option<Seq<char>> {
        match term {
            TermV::Br { cond, .. } => if !(self.ty(cond) is Bool) {
                Some("br cond "@ + cond.text() + " is "@ + self.ty(cond).text())
            } else {
                None
            },
            TermV::JumpIfMatch { scrutinee, payloads, .. } => if payloads.len() > 1 {
                Some("JumpIfMatch arity > 1 (I2)"@)
            } else if !self.ty(scrutinee).specialized() {
                Some("JumpIfMatch scrutinee "@ + scrutinee.text() + " is "@ + self.ty(scrutinee).text())
            } else {
                match first_loose(self, payloads, 0) {
                    Some(i) => Some(
                        "JumpIfMatch payload "@ + payloads[i as int].text() + " is "@ + self.ty(
                            payloads[i as int],
                        ).text(),
                    ),
                    None => None,
                }
            },
            TermV::Return { lo, hi } => if hi is Some && lo is None {
                Some("two-slot return missing payload word"@)
            } else if lo is Some && self.ret_ty is Some && !self.ty(lo->0).spec_le(self.ret_ty->0) {
                Some(
                    "return "@ + lo->0.text() + " : "@ + self.ty(lo->0).text() + " vs "@
                        + self.ret_ty->0.text(),
                )
            } else if hi is Some && !(self.ret_layout is TwoSlot) {
                Some("hi return word requires twoslot layout"@)
            } else if hi is Some && self.ret_hi_ty is Some && !self.ty(hi->0).spec_le(self.ret_hi_ty->0) {
                Some(
                    "return hi "@ + hi->0.text() + " : "@ + self.ty(hi->0).text() + " vs "@
                        + self.ret_hi_ty->0.text(),
                )
            } else {
                None
            },
            _ => None,
        }
    }

    /// First target at or behind `i` that is no block.
    pub open spec fn first_missing(self, ts: Seq<BlockId>, i: nat) -> Option<nat>
        decreases ts.len() - i,
    {
        if i >= ts.len() {
            None
        } else if ts[i as int].0 >= self.blocks.len() {
            Some(i)
        } else {
            self.first_missing(ts, i + 1)
        }
    }

    /// Walks the blocks from `b` on.
    pub open spec fn blocks_check(self, b: nat, seen: Seq<bool>) -> Option<Seq<char>>
        decreases self.blocks.len() - b,
    {
        if b >= self.blocks.len() {
            None
        } else {
            let block = self.blocks[b as int];
            if block.id.0 != b {
                Some("block id mismatch at "@ + dec(b))
            } else {
                match block.term {
                    None => Some(block.id.text() + " has no terminator"@),
                    Some(term) => match self.insts_check(b, 0, false, seen) {
                        Err(e) => Some(e),
                        Ok(seen2) => match self.term_fault(term) {
                            Some(e) => Some(e),
                            None => match self.first_missing(term.targets(), 0) {
                                Some(k) => Some(
                                    block.id.text() + " jumps to missing "@ + term.targets()[k as int].text(),
                                ),
                                None => self.blocks_check(b + 1, seen2),
                            },
                        },
                    },
                }
            }
        }
    }

    /// Marks the parameters from position `i` on as defined.
    pub open spec fn params_check(self, seen: Seq<bool>, i: nat) -> Result<Seq<bool>, Seq<char>>
        decreases self.params.len() - i,
    {
        if i >= self.params.len() {
            Ok(seen)
        } else {
            let p = self.params[i as int];
            if p.0 >= self.types.len() {
                Err("param "@ + p.text() + " has no type"@)
            } else if !self.ty(p).specialized() {
                Err("param "@ + p.text() + " is not a specialized SSA type"@)
            } else {
                self.params_check(seen.update(p.0 as int, true), i + 1)
            }
        }
    }

    /// First violation of SSA form or of the type rules.
    pub open spec fn fault(self) -> Option<Seq<char>> {
        if self.blocks.len() == 0 {
            Some("function has no blocks"@)
        } else if self.entry.0 >= self.blocks.len() {
            Some("entry block out of range"@)
        } else {
            match self.params_check(Seq::new(self.types.len(), |i: int| false), 0) {
                Err(e) => Some(e),
                Ok(seen) => self.blocks_check(0, seen),
            }
        }
    }
}

/// A function without parameters whose entry block is empty.
pub open spec fn empty_func(name: Seq<char>, hosts: Seq<HostNative>) -> FuncV {
    FuncV {
        name,
        params: Seq::empty(),
        ret_ty: None,
        ret_hi_ty: None,
        ret_layout: MirLayout::Word,
        entry: BlockId(0),
        blocks: seq![empty_block(BlockId(0))],
        types: Seq::empty(),
        slot_env: Map::empty(),
        gc_roots: Seq::empty(),
        debug_slots: Map::empty(),
        deopt_sites: Seq::empty(),
        locs: Map::empty(),
        term_locs: Map::empty(),
        hosts,
    }
}

/// Relates a check result to its specification.
pub open spec fn is_fault(r: Result<(), String>, f: Option<Seq<char>>) -> bool {
    match (r, f) {
        (Ok(_), None) => true,
        (Err(e), Some(m)) => e@ == m,
        _ => false,
    }
}

fn about(v: ValueId, msg: &str) -> (r: Result<(), String>)
    ensures
        is_fault(r, Some(v.text() + msg@)),
{
    let n = v.name();
    Err(cat2(n.as_str(), msg))
}

fn about_ty(v: ValueId, msg: &str, ty: MirTy) -> (r: Result<(), String>)
    ensures
        is_fault(r, Some(v.text() + msg@ + ty.text())),
{
    let n = v.name();
    Err(cat3(n.as_str(), msg, ty.as_str()))
}

fn about_at(v: ValueId, what: &str, i: usize, tail: &str) -> (r: Result<(), String>)
    ensures
        is_fault(r, Some(at_index(v, what@, i as nat, tail@))),
{
    let n = v.name();
    let d = dec_str(i as u64);
    Err(cat4(n.as_str(), what, d.as_str(), tail))
}

fn heap_or_int(t: MirTy) -> (r: bool)
    ensures
        r == heap_or_i64(t),
{
    t.is_heap_word() || t == MirTy::I64
}

fn items_text(s: &Vec<BlockId>, i: usize) -> (r: String)
    requires
        i <= s@.len(),
    ensures
        r@ == block_items(s@, i as nat),
    decreases s@.len() - i,
{
    if i >= s.len() {
        String::new()
    } else {
        let d = dec_str(s[i].0 as u64);
        let rest = items_text(s, i + 1);
        let sep = if i > 0 {
            ", "
        } else {
            ""
        };
        cat5(sep, "BlockId(", d.as_str(), ")", rest.as_str())
    }
}

fn list_text(s: &Vec<BlockId>) -> (r: String)
    ensures
        r@ == block_list(s@),
{
    let items = items_text(s, 0);
    cat3("[", items.as_str(), "]")
}

fn blocks_of(args: &Vec<(BlockId, ValueId)>) -> (r: Vec<BlockId>)
    ensures
        r@ == arg_blocks(args@),
{
    let mut r: Vec<BlockId> = Vec::new();
    let mut i: usize = 0;
    while i < args.len()
        invariant
            i <= args@.len(),
            r@ == arg_blocks(args@.take(i as int)),
        decreases args@.len() - i,
    {
        r.push(args[i].0);
        i = i + 1;
        assert(r@ =~= arg_blocks(args@.take(i as int)));
    }
    assert(args@.take(i as int) =~= args@);
    r
}

fn same_blocks(a: &Vec<BlockId>, b: &Vec<BlockId>) -> (r: bool)
    ensures
        r == (a@ == b@),
{
    if a.len() != b.len() {
        return false;
    }
    let mut i: usize = 0;
    while i < a.len()
        invariant
            i <= a@.len(),
            a@.len() == b@.len(),
            forall|j: int| 0 <= j < i ==> a@[j] == b@[j],
        decreases a@.len() - i,
    {
        if a[i] != b[i] {
            return false;
        }
        i = i + 1;
    }
    assert(a@ =~= b@);
    true
}

impl MirFunc {
    /// An empty function whose host calls go by the table `hosts`.
    pub fn new(name: &str, hosts: &Vec<HostNative>) -> (r: Self)
        ensures
            r@ == empty_func(name@, hosts@),
    {
        let mut blocks: Vec<MirBlock> = Vec::new();
        blocks.push(MirBlock::new(BlockId(0)));
        let r = MirFunc {
            name: name.to_owned(),
            params: Vec::new(),
            ret_ty: None,
            ret_hi_ty: None,
            ret_layout: MirLayout::Word,
            entry: BlockId(0),
            blocks,
            types: Vec::new(),
            slot_env: IdMap::new(),
            gc_roots: Vec::new(),
            debug_slots: IdMap::new(),
            deopt_sites: Vec::new(),
            locs: IdMap::new(),
            term_locs: IdMap::new(),
            hosts: copy_rows(hosts),
        };
        assert(r@ =~= empty_func(name@, hosts@));
        r
    }

    /// Collector edge whose value is `at`.
    pub fn live_roots_at(&self, at: ValueId) -> (r: Option<&LiveRootSet>)
        ensures
            match r {
                Some(s) => exists|i: int|
                    0 <= i < self.gc_roots@.len() && *s == #[trigger] self.gc_roots@[i] && s.at == at && (forall|j: int|
                        0 <= j < i ==> (#[trigger] self.gc_roots@[j]).at != at),
                None => forall|j: int| 0 <= j < self.gc_roots@.len() ==> (#[trigger] self.gc_roots@[j]).at != at,
            },
    {
        let mut i: usize = 0;
        while i < self.gc_roots.len()
            invariant
                i <= self.gc_roots@.len(),
                forall|j: int| 0 <= j < i ==> (#[trigger] self.gc_roots@[j]).at != at,
            decreases self.gc_roots@.len() - i,
        {
            if self.gc_roots[i].at == at {
                return Some(&self.gc_roots[i]);
            }
            i = i + 1;
        }
        None
    }

    /// Type of a value; `bottom` for one that was never allocated.
    pub fn ty(&self, v: ValueId) -> (r: MirTy)
        ensures
            r == self@.ty(v),
    {
        let i = v.index();
        if i < self.types.len() {
            self.types[i]
        } else {
            MirTy::Bottom
        }
    }

    /// Source range of the definition of `v`.
    pub fn loc_of(&self, v: ValueId) -> (r: DebugLoc)
        ensures
            r == self@.loc_of(v),
    {
        match self.locs.get(&v.0) {
            Some(l) => *l,
            None => DebugLoc::unknown(),
        }
    }

    /// Source range of the terminator of block `b`.
    pub fn term_loc(&self, b: BlockId) -> (r: DebugLoc)
        ensures
            r == self@.term_loc(b),
    {
        match self.term_locs.get(&b.0) {
            Some(l) => *l,
            None => DebugLoc::unknown(),
        }
    }

    /// True when any host call is impure.
    pub fn has_impure_host(&self) -> (r: bool)
        ensures
            r == self@.any_inst(
                |i: InstV| i is HostInvoke && !row_effects(row_in(self@.hosts, i->HostInvoke_native_id)).pure(),
            ),
    {
        let ghost p = |i: InstV| i is HostInvoke && !row_effects(row_in(self@.hosts, i->HostInvoke_native_id)).pure();
        let mut b: usize = 0;
        while b < self.blocks.len()
            invariant
                b <= self.blocks@.len(),
                p == (|i: InstV| i is HostInvoke && !row_effects(row_in(self@.hosts, i->HostInvoke_native_id)).pure()),
                forall|x: int, y: int|
                    0 <= x < b && 0 <= y < self@.blocks[x].insts.len() ==> !p(#[trigger] self@.blocks[x].insts[y]),
            decreases self.blocks@.len() - b,
        {
            let insts = &self.blocks[b].insts;
            let mut i: usize = 0;
            while i < insts.len()
                invariant
                    b < self.blocks@.len(),
                    insts@ == self.blocks@[b as int].insts@,
                    i <= insts@.len(),
                    p == (|i: InstV| i is HostInvoke && !row_effects(row_in(self@.hosts, i->HostInvoke_native_id)).pure()),
                    forall|y: int| 0 <= y < i ==> !p(#[trigger] self@.blocks[b as int].insts[y]),
                decreases insts@.len() - i,
            {
                if let MirInst::HostInvoke { native_id, .. } = &insts[i] {
                    if !host_effects(&self.hosts, *native_id).is_pure() {
                        assert(p(self@.blocks[b as int].insts[i as int]));
                        return true;
                    }
                }
                i = i + 1;
            }
            b = b + 1;
        }
        false
    }

    /// True when any instruction is an allocation or a collector edge.
    pub fn has_gc_edge(&self) -> (r: bool)
        ensures
            r == self@.gc_edge(),
    {
        let mut b: usize = 0;
        while b < self.blocks.len()
            invariant
                b <= self.blocks@.len(),
                forall|x: int, y: int|
                    0 <= x < b && 0 <= y < self@.blocks[x].insts.len() ==> !(
                    #[trigger] self@.blocks[x].insts[y]).gc_edge(),
            decreases self.blocks@.len() - b,
        {
            let insts = &self.blocks[b].insts;
            let mut i: usize = 0;
            while i < insts.len()
                invariant
                    b < self.blocks@.len(),
                    insts@ == self.blocks@[b as int].insts@,
                    i <= insts@.len(),
                    forall|y: int| 0 <= y < i ==> !(#[trigger] self@.blocks[b as int].insts[y]).gc_edge(),
                decreases insts@.len() - i,
            {
                if insts[i].is_gc_edge() {
                    assert(self@.blocks[b as int].insts[i as int].gc_edge());
                    return true;
                }
                i = i + 1;
            }
            b = b + 1;
        }
        false
    }

    /// True when any instruction is an explicit debugger edge.
    pub fn has_deopt_edge(&self) -> (r: bool)
        ensures
            r == self@.deopt_edge(),
    {
        let mut b: usize = 0;
        while b < self.blocks.len()
            invariant
                b <= self.blocks@.len(),
                forall|x: int, y: int|
                    0 <= x < b && 0 <= y < self@.blocks[x].insts.len() ==> !((
                    #[trigger] self@.blocks[x].insts[y]) is Deopt),
            decreases self.blocks@.len() - b,
        {
            let insts = &self.blocks[b].insts;
            let mut i: usize = 0;
            while i < insts.len()
                invariant
                    b < self.blocks@.len(),
                    insts@ == self.blocks@[b as int].insts@,
                    i <= insts@.len(),
                    forall|y: int| 0 <= y < i ==> !((#[trigger] self@.blocks[b as int].insts[y]) is Deopt),
                decreases insts@.len() - i,
            {
                if insts[i].is_deopt_edge() {
                    assert(self@.blocks[b as int].insts[i as int] is Deopt);
                    return true;
                }
                i = i + 1;
            }
            b = b + 1;
        }
        false
    }

    pub fn block(&self, id: BlockId) -> (r: &MirBlock)
        requires
            id.0 < self.blocks@.len(),
        ensures
            *r == self.blocks@[id.0 as int],
            r@ == self@.blocks[id.0 as int],
    {
        &self.blocks[id.index()]
    }

    pub fn block_mut(&mut self, id: BlockId) -> (r: &mut MirBlock)
        requires
            id.0 < old(self).blocks@.len(),
        ensures
            *r == old(self).blocks@[id.0 as int],
            final(self).blocks@ == old(self).blocks@.update(id.0 as int, *final(r)),
            final(self)@ == (FuncV {
                blocks: old(self)@.blocks.update(id.0 as int, final(r)@),
                ..old(self)@
            }),
    {
        let i = id.index();
        &mut self.blocks[i]
    }
}

impl MirFunc {
    /// Predecessors of every block.
    pub fn preds(&self) -> (r: Vec<Vec<BlockId>>)
        ensures
            r@.len() == self@.blocks.len(),
            forall|b: int| 0 <= b < r@.len() ==> (#[trigger] r@[b])@ == self@.preds(b as nat),
    {
        let n = self.blocks.len();
        let mut r: Vec<Vec<BlockId>> = Vec::new();
        let mut i: usize = 0;
        while i < n
            invariant
                i <= n,
                r@.len() == i,
                forall|b: int| 0 <= b < i ==> (#[trigger] r@[b])@ == preds_upto(self@.blocks, 0, b as nat),
            decreases n - i,
        {
            r.push(Vec::new());
            i = i + 1;
        }
        let mut k: usize = 0;
        while k < n
            invariant
                k <= n,
                n == self.blocks@.len(),
                r@.len() == n,
                forall|b: int| 0 <= b < n ==> (#[trigger] r@[b])@ == preds_upto(self@.blocks, k as nat, b as nat),
            decreases n - k,
        {
            let block = &self.blocks[k];
            let ghost bv = self@.blocks[k as int];
            if let Some(term) = &block.term {
                let ts = term.succs();
                let mut j: usize = 0;
                assert forall|b: int| 0 <= b < n implies (#[trigger] r@[b])@ =~= preds_upto(
                    self@.blocks,
                    k as nat,
                    b as nat,
                ) + hits(ts@, 0, b as nat, bv.id) by {}
                while j < ts.len()
                    invariant
                        j <= ts@.len(),
                        k < n,
                        n == self.blocks@.len(),
                        r@.len() == n,
                        bv == self@.blocks[k as int],
                        block.id == bv.id,
                        forall|b: int|
                            0 <= b < n ==> (#[trigger] r@[b])@ == preds_upto(self@.blocks, k as nat, b as nat) + hits(
                                ts@,
                                j as nat,
                                b as nat,
                                bv.id,
                            ),
                    decreases ts@.len() - j,
                {
                    let s = ts[j].index();
                    let ghost r0 = r@;
                    if s < n {
                        let mut l: Vec<BlockId> = Vec::new();
                        std::mem::swap(&mut l, &mut r[s]);
                        l.push(block.id);
                        r.set(s, l);
                    }
                    j = j + 1;
                    assert forall|b: int| 0 <= b < n implies (#[trigger] r@[b])@ =~= preds_upto(
                        self@.blocks,
                        k as nat,
                        b as nat,
                    ) + hits(ts@, j as nat, b as nat, bv.id) by {
                        assert(r0[b]@ == preds_upto(self@.blocks, k as nat, b as nat) + hits(
                            ts@,
                            (j - 1) as nat,
                            b as nat,
                            bv.id,
                        ));
                    }
                }
            }
            k = k + 1;
            assert forall|b: int| 0 <= b < n implies (#[trigger] r@[b])@ =~= preds_upto(
                self@.blocks,
                k as nat,
                b as nat,
            ) by {}
        }
        r
    }

    fn loose(&self, s: &Vec<ValueId>) -> (r: Option<usize>)
        ensures
            match r {
                Some(i) => first_loose(self@, s@, 0) == Some(i as nat),
                None => first_loose(self@, s@, 0) is None,
            },
    {
        let mut i: usize = 0;
        while i < s.len()
            invariant
                i <= s@.len(),
                first_loose(self@, s@, 0) == first_loose(self@, s@, i as nat),
            decreases s@.len() - i,
        {
            if !self.ty(s[i]).is_specialized() {
                return Some(i);
            }
            i = i + 1;
        }
        None
    }

    fn non_heap(&self, s: &Vec<ValueId>) -> (r: Option<usize>)
        ensures
            match r {
                Some(i) => first_non_heap(self@, s@, 0) == Some(i as nat),
                None => first_non_heap(self@, s@, 0) is None,
            },
    {
        let mut i: usize = 0;
        while i < s.len()
            invariant
                i <= s@.len(),
                first_non_heap(self@, s@, 0) == first_non_heap(self@, s@, i as nat),
            decreases s@.len() - i,
        {
            if !self.ty(s[i]).is_heap_word() {
                return Some(i);
            }
            i = i + 1;
        }
        None
    }

    fn mistyped(&self, s: &Vec<ValueId>, tys: &Vec<MirTy>) -> (r: Option<usize>)
        requires
            s@.len() == tys@.len(),
        ensures
            match r {
                Some(i) => first_mistyped(self@, s@, tys@, 0) == Some(i as nat),
                None => first_mistyped(self@, s@, tys@, 0) is None,
            },
    {
        let mut i: usize = 0;
        while i < s.len()
            invariant
                i <= s@.len(),
                s@.len() == tys@.len(),
                first_mistyped(self@, s@, tys@, 0) == first_mistyped(self@, s@, tys@, i as nat),
            decreases s@.len() - i,
        {
            if self.ty(s[i]) != tys[i] {
                return Some(i);
            }
            i = i + 1;
        }
        None
    }

    fn misphi(&self, s: &Vec<(BlockId, ValueId)>, ty: MirTy) -> (r: Option<usize>)
        ensures
            match r {
                Some(i) => i < s@.len() && first_misphi(self@, s@, ty, 0) == Some(i as nat),
                None => first_misphi(self@, s@, ty, 0) is None,
            },
    {
        let mut i: usize = 0;
        while i < s.len()
            invariant
                i <= s@.len(),
                first_misphi(self@, s@, ty, 0) == first_misphi(self@, s@, ty, i as nat),
            decreases s@.len() - i,
        {
            if self.ty(s[i].1) != ty {
                return Some(i);
            }
            i = i + 1;
        }
        None
    }

    fn check_numeric(&self, inst: &MirInst) -> (r: Result<(), String>)
        ensures
            is_fault(r, self@.numeric_fault(inst@)),
    {
        match inst {
            MirInst::Const { dest, c } => {
                if self.ty(*dest) != c.ty() {
                    return about(*dest, " const type mismatch");
                }
            },
            MirInst::Bin { dest, op, ty, lhs, rhs } => {
                let lt = self.ty(*lhs);
                let rt = self.ty(*rhs);
                let heap_bit = ty.is_heap_word() && matches!(op, MirBinOp::BitAnd | MirBinOp::BitOr | MirBinOp::Xor);
                if heap_bit {
                    if !heap_or_int(lt) || !heap_or_int(rt) {
                        return about(*dest, " heap bitwise operand type");
                    }
                } else {
                    if !ty.is_numeric() || *ty == MirTy::Bool {
                        return about_ty(*dest, " binop on ", *ty);
                    }
                    if op.requires_int() && !ty.is_int() {
                        return about_ty(*dest, " bitwise on ", *ty);
                    }
                    if lt != *ty || rt != *ty {
                        return about(*dest, " binop operand type");
                    }
                }
                if self.ty(*dest) != *ty {
                    return about(*dest, " binop dest type");
                }
            },
            MirInst::Cmp { dest, ty, lhs, rhs, .. } => {
                let lt = self.ty(*lhs);
                let rt = self.ty(*rhs);
                if ty.is_heap_word() {
                    if !heap_or_int(lt) || !heap_or_int(rt) {
                        return about(*dest, " heap cmp operand type");
                    }
                } else {
                    if !ty.is_numeric() || *ty == MirTy::Bool {
                        return about_ty(*dest, " cmp on ", *ty);
                    }
                    if lt != *ty || rt != *ty {
                        return about(*dest, " cmp operand type");
                    }
                }
                if self.ty(*dest) != MirTy::Bool {
                    return about(*dest, " cmp dest is not bool");
                }
            },
            MirInst::Unary { dest, op, src } => {
                let t = self.ty(*src);
                match op {
                    MirUnaryOp::Not => {
                        if self.ty(*dest) != MirTy::Bool {
                            return about(*dest, " lnot dest is not bool");
                        }
                        if t != MirTy::Bool && !t.is_int() && !t.is_heap_word() {
                            return about_ty(*dest, " lnot on ", t);
                        }
                    },
                    MirUnaryOp::Neg => {
                        if !t.is_int() && !t.is_float() {
                            return about_ty(*dest, " neg on ", t);
                        }
                        if self.ty(*dest) != t {
                            return about(*dest, " neg dest type");
                        }
                    },
                }
            },
            MirInst::Cast { dest, kind, to, src } => {
                let from = self.ty(*src);
                let ok = match kind {
                    MirCastKind::IntToFloat => from.is_int() && to.is_float(),
                    MirCastKind::Sext => from == MirTy::I32 && *to == MirTy::I64,
                };
                if !ok || self.ty(*dest) != *to {
                    let n = dest.name();
                    return Err(cat5(n.as_str(), " illegal cast ", from.as_str(), " -> ", to.as_str()));
                }
            },
            _ => {},
        }
        Ok(())
    }

    fn check_call(&self, inst: &MirInst) -> (r: Result<(), String>)
        ensures
            is_fault(r, self@.call_fault(inst@)),
    {
        match inst {
            MirInst::HostInvoke { dest, native_id, args, .. } => {
                match host_edge_spec(&self.hosts, *native_id) {
                    None => {
                        let n = dest.name();
                        let d = dec_str(*native_id as u64);
                        return Err(cat4(n.as_str(), " host ", d.as_str(), " not a typed edge"));
                    },
                    Some(spec) => {
                        if spec.args.len() != args.len() {
                            return about(*dest, " host arity");
                        }
                        if let Some(i) = self.mistyped(args, &spec.args) {
                            return about_at(*dest, " host arg ", i, " type");
                        }
                        if self.ty(*dest) != spec.ret {
                            return about(*dest, " host dest type");
                        }
                    },
                }
            },
            MirInst::Call { dest, dest_hi, args, .. } => {
                if !self.ty(*dest).is_word_lane() {
                    return about(*dest, " call dest is not a word lane");
                }
                if let Some(hi) = dest_hi {
                    if !self.ty(*hi).is_word_lane() {
                        return about(*hi, " call hi dest is not a word lane");
                    }
                }
                if let Some(i) = self.loose(args) {
                    return about_at(*dest, " call arg ", i, " type");
                }
            },
            _ => {},
        }
        Ok(())
    }

    fn check_memory(&self, inst: &MirInst) -> (r: Result<(), String>)
        ensures
            is_fault(r, self@.memory_fault(inst@)),
    {
        match inst {
            MirInst::Index { dest, array, index, .. } => {
                if self.ty(*array) != MirTy::HeapRef {
                    return about(*dest, " Index array is not heapref");
                }
                if !self.ty(*index).is_int() {
                    return about(*dest, " Index index type");
                }
                if !self.ty(*dest).is_word_lane() {
                    return about(*dest, " Index dest type");
                }
            },
            MirInst::StoreIndex { dest, array, index, value, .. } => {
                if self.ty(*array) != MirTy::HeapRef {
                    return about(*dest, " StoreIndex array is not heapref");
                }
                if !self.ty(*index).is_int() {
                    return about(*dest, " StoreIndex index type");
                }
                if !self.ty(*value).is_word_lane() || self.ty(*dest) != self.ty(*value) {
                    return about(*dest, " StoreIndex value type");
                }
            },
            MirInst::ArrayLen { dest, array } => {
                if self.ty(*array) != MirTy::HeapRef {
                    return about(*dest, " ArrayLen array is not heapref");
                }
                if self.ty(*dest) != MirTy::I64 {
                    return about(*dest, " ArrayLen dest type");
                }
            },
            MirInst::ArrayPush { dest, array, value } => {
                if self.ty(*array) != MirTy::HeapRef {
                    return about(*dest, " ArrayPush array is not heapref");
                }
                if !self.ty(*value).is_word_lane() {
                    return about(*dest, " ArrayPush value type");
                }
                if self.ty(*dest) != MirTy::HeapRef {
                    return about(*dest, " ArrayPush dest is not heapref");
                }
            },
            MirInst::MatchPayload { dest, scrutinee, index } => {
                if *index > 0 {
                    return about(*dest, " MatchPayload index");
                }
                if !self.ty(*scrutinee).is_specialized() {
                    return about(*dest, " MatchPayload scrutinee type");
                }
                if !self.ty(*dest).is_specialized() {
                    return about(*dest, " MatchPayload dest type");
                }
            },
            MirInst::FieldLoad { dest, object, index, .. } => {
                if !self.ty(*object).is_specialized() {
                    return about(*dest, " FieldLoad object type");
                }
                if self.ty(*dest) != self.ty(*object) {
                    return about(*dest, " FieldLoad dest type");
                }
                if *index > 32 {
                    return about(*dest, " FieldLoad index");
                }
            },
            MirInst::FieldStore { dest, src, index, .. } => {
                if !self.ty(*src).is_specialized() {
                    return about(*dest, " FieldStore src type");
                }
                if self.ty(*dest) != self.ty(*src) {
                    return about(*dest, " FieldStore dest type");
                }
                if *index > 32 {
                    return about(*dest, " FieldStore index");
                }
            },
            MirInst::HeapFieldLoad { dest, object, .. } => {
                if self.ty(*object) != MirTy::HeapRef {
                    return about(*dest, " HeapFieldLoad object is not heapref");
                }
                if !self.ty(*dest).is_word_lane() {
                    return about(*dest, " HeapFieldLoad dest type");
                }
            },
            MirInst::HeapFieldStore { dest, object, value, .. } => {
                if self.ty(*object) != MirTy::HeapRef {
                    return about(*dest, " HeapFieldStore object is not heapref");
                }
                if !self.ty(*value).is_word_lane() || self.ty(*dest) != self.ty(*value) {
                    return about(*dest, " HeapFieldStore value type");
                }
            },
            _ => {},
        }
        Ok(())
    }

    fn check_object(&self, inst: &MirInst) -> (r: Result<(), String>)
        ensures
            is_fault(r, self@.object_fault(inst@)),
    {
        match inst {
            MirInst::Alloc { dest, elems, .. } => {
                if self.ty(*dest) != MirTy::HeapRef {
                    return about(*dest, " Alloc dest is not heapref");
                }
                if let Some(i) = self.loose(elems) {
                    return about_at(*dest, " Alloc elem ", i, " type");
                }
            },
            MirInst::GcBarrier { dest, roots, .. } => {
                if self.ty(*dest) != MirTy::HeapRef {
                    return about(*dest, " GcBarrier dest is not heapref");
                }
                if let Some(i) = self.non_heap(roots) {
                    return about_at(*dest, " GcBarrier root ", i, " is not a heap word");
                }
            },
            MirInst::Deopt { dest, .. } => {
                if self.ty(*dest) != MirTy::Bool {
                    return about(*dest, " Deopt dest is not bool");
                }
            },
            MirInst::String { dest, .. } => {
                if self.ty(*dest) != MirTy::HeapRef {
                    return about(*dest, " String dest is not heapref");
                }
            },
            MirInst::Print { dest, src } => {
                if self.ty(*dest) != MirTy::Bool {
                    return about(*dest, " Print dest is not bool");
                }
                if !self.ty(*src).is_specialized() {
                    return about(*dest, " Print src type");
                }
            },
            MirInst::Format { dest, fmt, args } => {
                if self.ty(*dest) != MirTy::HeapRef {
                    return about(*dest, " Format dest is not heapref");
                }
                if self.ty(*fmt) != MirTy::HeapRef && self.ty(*fmt) != MirTy::Value {
                    return about(*dest, " Format fmt type");
                }
                if let Some(i) = self.loose(args) {
                    return about_at(*dest, " Format arg ", i, " type");
                }
            },
            MirInst::Stringify { dest, src } => {
                if self.ty(*dest) != MirTy::HeapRef {
                    return about(*dest, " Stringify dest is not heapref");
                }
                if !self.ty(*src).is_specialized() {
                    return about(*dest, " Stringify src type");
                }
            },
            _ => {},
        }
        Ok(())
    }

    fn check_phi(&self, inst: &MirInst, preds: &Vec<BlockId>) -> (r: Result<(), String>)
        ensures
            is_fault(r, self@.phi_fault(inst@, preds@)),
    {
        match inst {
            MirInst::Phi { dest, ty, args } => {
                if self.ty(*dest) != *ty {
                    return about(*dest, " phi type");
                }
                if !ty.is_specialized() {
                    return about(*dest, " phi is not specialized");
                }
                let seen = sort_blocks(preds);
                let got = sort_blocks(&blocks_of(args));
                if !same_blocks(&got, &seen) {
                    let n = dest.name();
                    let g = list_text(&got);
                    let s = list_text(&seen);
                    return Err(cat5(n.as_str(), " phi preds ", g.as_str(), " != block preds ", s.as_str()));
                }
                if let Some(i) = self.misphi(args, *ty) {
                    let n = dest.name();
                    let v = args[i].1.name();
                    return Err(cat4(n.as_str(), " phi arg ", v.as_str(), " type"));
                }
            },
            _ => {},
        }
        Ok(())
    }

    /// Type rules of one instruction.
    fn check_inst(&self, inst: &MirInst, preds: &Vec<BlockId>) -> (r: Result<(), String>)
        ensures
            is_fault(r, self@.inst_fault(inst@, preds@)),
    {
        match inst {
            MirInst::Const { .. }
            | MirInst::Bin { .. }
            | MirInst::Cmp { .. }
            | MirInst::Unary { .. }
            | MirInst::Cast { .. } => self.check_numeric(inst),
            MirInst::HostInvoke { .. }
            | MirInst::Call { .. } => self.check_call(inst),
            MirInst::Index { .. }
            | MirInst::StoreIndex { .. }
            | MirInst::ArrayLen { .. }
            | MirInst::ArrayPush { .. }
            | MirInst::MatchPayload { .. }
            | MirInst::FieldLoad { .. }
            | MirInst::FieldStore { .. }
            | MirInst::HeapFieldLoad { .. }
            | MirInst::HeapFieldStore { .. } => self.check_memory(inst),
            MirInst::Alloc { .. }
            | MirInst::GcBarrier { .. }
            | MirInst::Deopt { .. }
            | MirInst::String { .. }
            | MirInst::Print { .. }
            | MirInst::Format { .. }
            | MirInst::Stringify { .. } => self.check_object(inst),
            MirInst::Phi { .. } => self.check_phi(inst, preds),
        }
    }

    fn check_term(&self, term: &Terminator) -> (r: Result<(), String>)
        ensures
            is_fault(r, self@.term_fault(term@)),
    {
        match term {
            Terminator::Br { cond, .. } => {
                let t = self.ty(*cond);
                if t != MirTy::Bool {
                    let n = cond.name();
                    return Err(cat4("br cond ", n.as_str(), " is ", t.as_str()));
                }
            },
            Terminator::JumpIfMatch { scrutinee, payloads, .. } => {
                if payloads.len() > 1 {
                    return Err("JumpIfMatch arity > 1 (I2)".to_owned());
                }
                let t = self.ty(*scrutinee);
                if !t.is_specialized() {
                    let n = scrutinee.name();
                    return Err(cat4("JumpIfMatch scrutinee ", n.as_str(), " is ", t.as_str()));
                }
                if payloads.len() == 1 {
                    let p = payloads[0];
                    let pt = self.ty(p);
                    if !pt.is_specialized() {
                        let n = p.name();
                        return Err(cat4("JumpIfMatch payload ", n.as_str(), " is ", pt.as_str()));
                    }
                    assert(first_loose(self@, payloads@, 1) is None);
                }
            },
            Terminator::Return { lo, hi } => {
                if hi.is_some() && lo.is_none() {
                    return Err("two-slot return missing payload word".to_owned());
                }
                if let Some(v) = lo {
                    if let Some(rt) = self.ret_ty {
                        let t = self.ty(*v);
                        if !t.le(rt) {
                            let n = v.name();
                            return Err(cat6("return ", n.as_str(), " : ", t.as_str(), " vs ", rt.as_str()));
                        }
                    }
                }
                if let Some(v) = hi {
                    if self.ret_layout != MirLayout::TwoSlot {
                        return Err("hi return word requires twoslot layout".to_owned());
                    }
                    if let Some(rt) = self.ret_hi_ty {
                        let t = self.ty(*v);
                        if !t.le(rt) {
                            let n = v.name();
                            return Err(cat6("return hi ", n.as_str(), " : ", t.as_str(), " vs ", rt.as_str()));
                        }
                    }
                }
            },
            _ => {},
        }
        Ok(())
    }

    fn mark_defined(&self, seen: &mut Vec<bool>, ds: &Vec<ValueId>) -> (r: Result<(), String>)
        requires
            old(seen)@.len() == self@.types.len(),
        ensures
            match self@.define(old(seen)@, ds@, 0) {
                Ok(s) => r is Ok && final(seen)@ == s && s.len() == self@.types.len(),
                Err(e) => r matches Err(m) && m@ == e,
            },
    {
        let ghost s0 = seen@;
        let mut i: usize = 0;
        while i < ds.len()
            invariant
                i <= ds@.len(),
                s0 == old(seen)@,
                seen@.len() == self@.types.len(),
                self@.define(s0, ds@, 0) == self@.define(seen@, ds@, i as nat),
            decreases ds@.len() - i,
        {
            let d = ds[i];
            if d.index() >= self.types.len() {
                let n = d.name();
                return Err(cat3("dest ", n.as_str(), " has no type"));
            }
            if seen[d.index()] {
                let n = d.name();
                return Err(cat3("value ", n.as_str(), " defined twice"));
            }
            seen.set(d.index(), true);
            i = i + 1;
        }
        Ok(())
    }

    fn undefined(&self, seen: &Vec<bool>, us: &Vec<ValueId>) -> (r: Option<usize>)
        requires
            seen@.len() == self@.types.len(),
        ensures
            match r {
                Some(i) => i < us@.len() && self@.first_undefined(seen@, us@, 0) == Some(i as nat),
                None => self@.first_undefined(seen@, us@, 0) is None,
            },
    {
        let mut i: usize = 0;
        while i < us.len()
            invariant
                i <= us@.len(),
                seen@.len() == self@.types.len(),
                self@.first_undefined(seen@, us@, 0) == self@.first_undefined(seen@, us@, i as nat),
            decreases us@.len() - i,
        {
            let v = us[i].index();
            if v >= self.types.len() || !seen[v] {
                return Some(i);
            }
            i = i + 1;
        }
        None
    }

    fn missing(&self, ts: &Vec<BlockId>) -> (r: Option<usize>)
        ensures
            match r {
                Some(i) => i < ts@.len() && self@.first_missing(ts@, 0) == Some(i as nat),
                None => self@.first_missing(ts@, 0) is None,
            },
    {
        let mut i: usize = 0;
        while i < ts.len()
            invariant
                i <= ts@.len(),
                self@.first_missing(ts@, 0) == self@.first_missing(ts@, i as nat),
            decreases ts@.len() - i,
        {
            if ts[i].index() >= self.blocks.len() {
                return Some(i);
            }
            i = i + 1;
        }
        None
    }

    fn check_insts(&self, b: usize, seen: &mut Vec<bool>, preds: &Vec<BlockId>) -> (r: Result<(), String>)
        requires
            b < self@.blocks.len(),
            old(seen)@.len() == self@.types.len(),
            preds@ == self@.preds(b as nat),
        ensures
            match self@.insts_check(b as nat, 0, false, old(seen)@) {
                Ok(s) => r is Ok && final(seen)@ == s && s.len() == self@.types.len(),
                Err(e) => r matches Err(m) && m@ == e,
            },
    {
        let ghost s0 = seen@;
        let block = &self.blocks[b];
        let mut non_phi = false;
        let mut i: usize = 0;
        while i < block.insts.len()
            invariant
                b < self@.blocks.len(),
                *block == self.blocks@[b as int],
                i <= block.insts@.len(),
                preds@ == self@.preds(b as nat),
                s0 == old(seen)@,
                seen@.len() == self@.types.len(),
                self@.insts_check(b as nat, 0, false, s0) == self@.insts_check(b as nat, i as nat, non_phi, seen@),
            decreases block.insts@.len() - i,
        {
            let inst = &block.insts[i];
            assert(self@.blocks[b as int].insts[i as int] == inst@);
            if inst.is_phi() && non_phi {
                let n = block.id.name();
                return Err(cat2("phi after non-phi in ", n.as_str()));
            }
            match self.mark_defined(seen, &inst.dests()) {
                Ok(_) => {},
                Err(e) => {
                    return Err(e);
                },
            }
            match self.check_inst(inst, preds) {
                Ok(_) => {},
                Err(e) => {
                    return Err(e);
                },
            }
            let us = inst.operands();
            if let Some(k) = self.undefined(seen, &us) {
                if !inst.is_phi() {
                    let n = inst.dest().name();
                    let o = us[k].name();
                    return Err(cat3(n.as_str(), " uses undefined ", o.as_str()));
                }
            }
            if !inst.is_phi() {
                non_phi = true;
            }
            i = i + 1;
        }
        Ok(())
    }

    /// Structural SSA and type checks.
    pub fn verify(&self) -> (r: Result<(), String>)
        ensures
            is_fault(r, self@.fault()),
    {
        if self.blocks.len() == 0 {
            return Err("function has no blocks".to_owned());
        }
        if self.entry.index() >= self.blocks.len() {
            return Err("entry block out of range".to_owned());
        }
        let n = self.types.len();
        let mut seen: Vec<bool> = Vec::new();
        let mut i: usize = 0;
        while i < n
            invariant
                i <= n,
                seen@ == Seq::new(i as nat, |k: int| false),
            decreases n - i,
        {
            seen.push(false);
            i = i + 1;
            assert(seen@ =~= Seq::new(i as nat, |k: int| false));
        }
        let ghost start = seen@;
        assert(start =~= Seq::new(self@.types.len(), |k: int| false));
        let mut j: usize = 0;
        while j < self.params.len()
            invariant
                j <= self.params@.len(),
                seen@.len() == self@.types.len(),
                self@.params_check(start, 0) == self@.params_check(seen@, j as nat),
                start == Seq::new(self@.types.len(), |k: int| false),
                self@.blocks.len() > 0,
                self@.entry.0 < self@.blocks.len(),
            decreases self.params@.len() - j,
        {
            let p = self.params[j];
            if p.index() >= self.types.len() {
                let t = p.name();
                return Err(cat3("param ", t.as_str(), " has no type"));
            }
            if !self.ty(p).is_specialized() {
                let t = p.name();
                return Err(cat3("param ", t.as_str(), " is not a specialized SSA type"));
            }
            seen.set(p.index(), true);
            j = j + 1;
        }
        let preds = self.preds();
        assert(self@.fault() == self@.blocks_check(0, seen@));
        let mut b: usize = 0;
        while b < self.blocks.len()
            invariant
                b <= self.blocks@.len(),
                seen@.len() == self@.types.len(),
                preds@.len() == self@.blocks.len(),
                forall|x: int| 0 <= x < preds@.len() ==> (#[trigger] preds@[x])@ == self@.preds(x as nat),
                self@.fault() == self@.blocks_check(b as nat, seen@),
            decreases self.blocks@.len() - b,
        {
            let block = &self.blocks[b];
            assert(self@.blocks[b as int] == block@);
            if block.id.index() != b {
                let d = dec_str(b as u64);
                return Err(cat2("block id mismatch at ", d.as_str()));
            }
            let term = match &block.term {
                Some(t) => t,
                None => {
                    let t = block.id.name();
                    return Err(cat2(t.as_str(), " has no terminator"));
                },
            };
            match self.check_insts(b, &mut seen, &preds[b]) {
                Ok(_) => {},
                Err(e) => {
                    return Err(e);
                },
            }
            match self.check_term(term) {
                Ok(_) => {},
                Err(e) => {
                    return Err(e);
                },
            }
            let ts = term.succs();
            if let Some(k) = self.missing(&ts) {
                let t = block.id.name();
                let s = ts[k].name();
                return Err(cat3(t.as_str(), " jumps to missing ", s.as_str()));
            }
            b = b + 1;
        }
        Ok(())
    }
}

impl FuncV {
    pub open spec fn loc_of(self, v: ValueId) -> DebugLoc {
        if self.locs.dom().contains(v.0) {
            self.locs[v.0]
        } else {
            no_loc()
        }
    }

    pub open spec fn term_loc(self, b: BlockId) -> DebugLoc {
        if self.term_locs.dom().contains(b.0) {
            self.term_locs[b.0]
        } else {
            no_loc()
        }
    }

    pub open spec fn gc_edge(self) -> bool {
        exists|b: int, i: int|
            0 <= b < self.blocks.len() && 0 <= i < self.blocks[b].insts.len() && (
            #[trigger] self.blocks[b].insts[i]).gc_edge()
    }

    pub open spec fn deopt_edge(self) -> bool {
        exists|b: int, i: int|
            0 <= b < self.blocks.len() && 0 <= i < self.blocks[b].insts.len() && (
            #[trigger] self.blocks[b].insts[i]) is Deopt
    }
}

} // verus!

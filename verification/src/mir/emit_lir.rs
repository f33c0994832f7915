//! SSA form to stack code.
//!
//! A value that is read once, in the block that defines it, is computed on the
//! operand stack where it is read. The others live in frame slots.
use super::call_convoy::{compare_from, find_compare, flag, fused_compare_of, fused_flags, has_flag, phi_read_flags};
use super::deopt::{debug_slot_remap, encode_draft, remapped, resume_map, DraftDeoptMap};
use super::emit::{
    emit_regs,
    alloc_block_labels, alloc_op, block_labels, bump, byte_op, compare_from_found, cond_jumps, const_i16,
    emit_cond_jumps, find_in_pool, highest, highest_slot, il_for_alloc, imm_of, jump, jump_op, label_hint,
    max_label_hint, paired_alloc, paired_alloc_dest, pool_index, pool_pos, pool_pos_bound, ret_words,
    ret_words_from_hi, stack_bin, stack_bin_op, stack_compare, stack_compare_op, Emit,
};
use super::func::{edges_to, hits, preds_upto, BlockV, FuncV, MirBlock, MirFunc};
use super::index::reads;
use super::inst::{
    has_id, BlockId, InstV, MirCastKind, MirConst, MirInst, MirUnaryOp, TermV, Terminator, ValueId,
};
use super::layout::MirLayout;
use super::lower::{refused, LowerErrV, LowerError};
use super::moves::{edge_moves, phi_moves};
use super::regs::{
    assign_regs, assigned, coalesce_safe_latch_phis, coalesced, falls_through, is_fallthrough, phis_indexed,
};
use crate::idmap::IdMap;
use crate::il::op::{
    no_loc, Byte, DebugLoc, EntryKind, IlJumpKind, IlOp, Instruction, Label, Operand,
};
use vstd::prelude::*;

verus! {

// Which values are rebuilt on the stack.

/// How often `v` stands among the first `k` entries.
pub open spec fn occurs(s: Seq<ValueId>, v: ValueId, k: nat) -> nat
    decreases k,
{
    if k == 0 {
        0
    } else {
        occurs(s, v, (k - 1) as nat) + if s[k - 1] == v {
            1nat
        } else {
            0nat
        }
    }
}

/// Reads of `v` by the first `k` instructions.
pub open spec fn inst_reads(insts: Seq<InstV>, v: ValueId, k: nat) -> nat
    decreases k,
{
    if k == 0 {
        0
    } else {
        inst_reads(insts, v, (k - 1) as nat) + occurs(insts[k - 1].uses(), v, insts[k - 1].uses().len())
    }
}

pub open spec fn block_reads(block: BlockV, v: ValueId) -> nat {
    inst_reads(block.insts, v, block.insts.len()) + match block.term {
        Some(t) => occurs(t.uses(), v, t.uses().len()),
        None => 0nat,
    }
}

/// Reads of `v` in the first `b` blocks.
pub open spec fn reads_below(f: FuncV, v: ValueId, b: nat) -> nat
    decreases b,
{
    if b == 0 {
        0
    } else {
        reads_below(f, v, (b - 1) as nat) + block_reads(f.blocks[b - 1], v)
    }
}

/// How often `v` is read.
pub open spec fn read_count(f: FuncV, v: ValueId) -> nat {
    reads_below(f, v, f.blocks.len())
}

/// The comparison that the branch of block `b` absorbs reads `v`.
pub open spec fn branch_compares(f: FuncV, b: int, v: ValueId) -> bool {
    match f.fused_compare(b) {
        Some(d) => match f.def(d) {
            Some(p) => p.0 == f.blocks[b].id && match f.blocks[p.0.0 as int].insts[p.1 as int] {
                InstV::Cmp { lhs, rhs, .. } => lhs == v || rhs == v,
                _ => false,
            },
            None => false,
        },
        None => false,
    }
}

/// The instruction can take an operand from the stack.
pub open spec fn stack_reader(f: FuncV, inst: InstV, v: ValueId) -> bool {
    !inst.phi() && !f.is_fused(inst.dest()) && inst.uses().contains(v)
}

/// Block `b` reads `v` where it can come from the stack.
pub open spec fn consumed_in(f: FuncV, b: int, v: ValueId) -> bool {
    ||| (f.blocks[b].term matches Some(TermV::Return { lo, hi }) && (lo == Some(v) || hi == Some(v)))
    ||| branch_compares(f, b, v)
    ||| exists|i: int| 0 <= i < f.blocks[b].insts.len() && stack_reader(f, #[trigger] f.blocks[b].insts[i], v)
}

/// `v` is read once, in its own block, from the stack.
pub open spec fn single_use(f: FuncV, v: ValueId) -> bool {
    &&& !f.is_fused(v)
    &&& !f.read_by_phi(v)
    &&& read_count(f, v) == 1
    &&& !f.param(v.0 as int)
    &&& match f.home(v) {
        Some(b) => consumed_in(f, b.0 as int, v),
        None => false,
    }
}

/// `v` is one word of a two-word call result.
pub open spec fn pair_word(inst: InstV, v: ValueId) -> bool {
    inst matches InstV::Call { dest, dest_hi: Some(hi), .. } && (v == dest || v == hi)
}

pub open spec fn in_pair(f: FuncV, v: ValueId) -> bool {
    exists|b: int, i: int|
        0 <= b < f.blocks.len() && 0 <= i < f.blocks[b].insts.len() && pair_word(#[trigger] f.blocks[b].insts[i], v)
}

/// `v` is rebuilt on the stack.
pub open spec fn in_tree(f: FuncV, v: ValueId) -> bool {
    single_use(f, v) && !in_pair(f, v)
}

/// `v` lives in a frame slot.
pub open spec fn in_slot(f: FuncV, v: ValueId) -> bool {
    ||| f.param(v.0 as int)
    ||| in_pair(f, v)
    ||| (!f.is_fused(v) && !single_use(f, v) && f.home(v) is Some && !(f.def_inst(v) matches Some(InstV::Print { .. })))
}

pub open spec fn tree_flags(f: FuncV) -> Seq<bool> {
    Seq::new(f.types.len(), |i: int| in_tree(f, ValueId(i as u32)))
}

pub open spec fn slot_flags(f: FuncV) -> Seq<bool> {
    Seq::new(f.types.len(), |i: int| in_slot(f, ValueId(i as u32)))
}

struct EmitPlan {
    tree: Vec<bool>,
    need_slot: Vec<bool>,
    def: Vec<Option<(BlockId, usize)>>,
}

/// Adds the occurrences of `v` to `n`, counting no further than two.
fn count_ids(s: &Vec<ValueId>, v: ValueId, n: u8, Ghost(total): Ghost<nat>) -> (r: u8)
    requires
        n == (if total < 2 {
            total as int
        } else {
            2
        }),
    ensures
        r == (if total + occurs(s@, v, s@.len()) < 2 {
            total + occurs(s@, v, s@.len())
        } else {
            2
        }),
{
    let mut n = n;
    let mut i: usize = 0;
    while i < s.len()
        invariant
            i <= s@.len(),
            n == (if total + occurs(s@, v, i as nat) < 2 {
                total + occurs(s@, v, i as nat)
            } else {
                2
            }),
        decreases s@.len() - i,
    {
        if s[i] == v && n < 2 {
            n = n + 1;
        }
        i = i + 1;
    }
    n
}

fn read_once(func: &MirFunc, v: ValueId) -> (r: bool)
    ensures
        r == (read_count(func@, v) == 1),
{
    let ghost f = func@;
    let mut n: u8 = 0;
    let mut b: usize = 0;
    while b < func.blocks.len()
        invariant
            f == func@,
            b <= func.blocks@.len(),
            n == (if reads_below(f, v, b as nat) < 2 {
                reads_below(f, v, b as nat) as int
            } else {
                2
            }),
        decreases func.blocks@.len() - b,
    {
        let block = &func.blocks[b];
        let ghost base = reads_below(f, v, b as nat);
        let mut i: usize = 0;
        while i < block.insts.len()
            invariant
                block@ == f.blocks[b as int],
                i <= block.insts@.len(),
                n == (if base + inst_reads(block@.insts, v, i as nat) < 2 {
                    base + inst_reads(block@.insts, v, i as nat)
                } else {
                    2
                }),
            decreases block.insts@.len() - i,
        {
            assert(block@.insts[i as int] == block.insts@[i as int]@);
            let us = block.insts[i].operands();
            n = count_ids(&us, v, n, Ghost(base + inst_reads(block@.insts, v, i as nat)));
            i = i + 1;
        }
        if let Some(t) = &block.term {
            let us = t.operands();
            n = count_ids(&us, v, n, Ghost(base + inst_reads(block@.insts, v, block@.insts.len())));
        }
        b = b + 1;
    }
    n == 1
}

fn is_consumed(func: &MirFunc, b: usize, v: ValueId, def: &Vec<Option<(BlockId, usize)>>, fused: &Vec<bool>) -> (r: bool)
    requires
        func@.indexed(),
        b < func@.blocks.len(),
        def@.len() == func@.types.len(),
        forall|v: int|
            0 <= v < def@.len() ==> match #[trigger] def@[v] {
                Some(p) => func@.def(ValueId(v as u32)) == Some((p.0, p.1 as nat)) && p.0.0 < func@.blocks.len() && p.1
                    < func@.blocks[p.0.0 as int].insts.len(),
                None => func@.def(ValueId(v as u32)) is None,
            },
        fused@.len() == func@.types.len(),
        forall|i: int| 0 <= i < fused@.len() ==> #[trigger] fused@[i] == func@.is_fused(ValueId(i as u32)),
    ensures
        r == consumed_in(func@, b as int, v),
{
    let block = &func.blocks[b];
    proof {
        assert(func@.block_indexed(func@.blocks[b as int], b as int));
    }
    if let Some(Terminator::Return { lo, hi }) = &block.term {
        if let Some(x) = lo {
            if *x == v {
                return true;
            }
        }
        if let Some(x) = hi {
            if *x == v {
                return true;
            }
        }
    }
    if let Some(d) = fused_compare_of(func, b) {
        proof {
            assert(func@.blocks[b as int].term->0.uses()[0] == d);
            assert(def@[d.0 as int] == def@[d.0 as int]);
            assert(ValueId(d.0 as int as u32) == d);
        }
        if let Some((db, di)) = def[d.index()] {
            if db == block.id {
                assert(func@.blocks[db.0 as int].insts[di as int] == func.blocks@[db.0 as int].insts@[di as int]@);
                if let MirInst::Cmp { lhs, rhs, .. } = &func.blocks[db.index()].insts[di] {
                    if *lhs == v || *rhs == v {
                        return true;
                    }
                }
            }
        }
    }
    let mut i: usize = 0;
    while i < block.insts.len()
        invariant
            func@.indexed(),
            b < func@.blocks.len(),
            block@ == func@.blocks[b as int],
            fused@.len() == func@.types.len(),
            forall|i: int| 0 <= i < fused@.len() ==> #[trigger] fused@[i] == func@.is_fused(ValueId(i as u32)),
            i <= block.insts@.len(),
            forall|j: int| 0 <= j < i ==> !stack_reader(func@, #[trigger] block@.insts[j], v),
        decreases block.insts@.len() - i,
    {
        let inst = &block.insts[i];
        proof {
            assert(block@.insts[i as int] == inst@);
            assert(func@.block_indexed(func@.blocks[b as int], b as int));
            assert(func@.inst_indexed(inst@));
            let d = inst@.dest();
            assert(fused@[d.0 as int] == func@.is_fused(ValueId(d.0 as int as u32)));
        }
        if !inst.is_phi() && !fused[inst.dest().index()] && reads(inst, v) {
            assert(stack_reader(func@, func@.blocks[b as int].insts[i as int], v));
            return true;
        }
        i = i + 1;
    }
    false
}

fn is_pair_word(func: &MirFunc, v: ValueId) -> (r: bool)
    ensures
        r == in_pair(func@, v),
{
    let mut b: usize = 0;
    while b < func.blocks.len()
        invariant
            b <= func.blocks@.len(),
            forall|x: int, i: int|
                0 <= x < b && 0 <= i < func@.blocks[x].insts.len() ==> !pair_word(
                    #[trigger] func@.blocks[x].insts[i],
                    v,
                ),
        decreases func.blocks@.len() - b,
    {
        let block = &func.blocks[b];
        let mut i: usize = 0;
        while i < block.insts.len()
            invariant
                b < func.blocks@.len(),
                block@ == func@.blocks[b as int],
                i <= block.insts@.len(),
                forall|j: int| 0 <= j < i ==> !pair_word(#[trigger] block@.insts[j], v),
            decreases block.insts@.len() - i,
        {
            assert(block@.insts[i as int] == block.insts@[i as int]@);
            if let MirInst::Call { dest, dest_hi, .. } = &block.insts[i] {
                if let Some(hi) = dest_hi {
                    if v == *dest || v == *hi {
                        assert(pair_word(func@.blocks[b as int].insts[i as int], v));
                        return true;
                    }
                }
            }
            i = i + 1;
        }
        b = b + 1;
    }
    false
}

impl EmitPlan {
    spec fn plans(self, f: FuncV) -> bool {
        &&& self.tree@ == tree_flags(f)
        &&& self.need_slot@ == slot_flags(f)
        &&& self.def@.len() == f.types.len()
        &&& forall|v: int|
            0 <= v < self.def@.len() ==> match #[trigger] self.def@[v] {
                Some(p) => f.def(ValueId(v as u32)) == Some((p.0, p.1 as nat)) && p.0.0 < f.blocks.len() && p.1
                    < f.blocks[p.0.0 as int].insts.len(),
                None => f.def(ValueId(v as u32)) is None,
            }
    }

    fn new(func: &MirFunc) -> (r: Self)
        requires
            func@.indexed(),
        ensures
            r.plans(func@),
    {
        let ghost f = func@;
        let n = func.types.len();
        let def = func.defs();
        let fused = fused_flags(func);
        let phi_in = phi_read_flags(func);
        let mut tree: Vec<bool> = Vec::new();
        let mut need_slot: Vec<bool> = Vec::new();
        let mut i: usize = 0;
        while i < n
            invariant
                f == func@,
                f.indexed(),
                n == f.types.len(),
                i <= n,
                def@.len() == n,
                forall|v: int|
                    0 <= v < def@.len() ==> match #[trigger] def@[v] {
                        Some(p) => f.def(ValueId(v as u32)) == Some((p.0, p.1 as nat)) && p.0.0 < f.blocks.len() && p.1
                            < f.blocks[p.0.0 as int].insts.len(),
                        None => f.def(ValueId(v as u32)) is None,
                    },
                fused@.len() == n,
                forall|i: int| 0 <= i < fused@.len() ==> #[trigger] fused@[i] == f.is_fused(ValueId(i as u32)),
                phi_in@.len() == n,
                forall|i: int| 0 <= i < phi_in@.len() ==> #[trigger] phi_in@[i] == f.read_by_phi(ValueId(i as u32)),
                tree@.len() == i,
                forall|j: int| 0 <= j < i ==> #[trigger] tree@[j] == in_tree(f, ValueId(j as u32)),
                need_slot@.len() == i,
                forall|j: int| 0 <= j < i ==> #[trigger] need_slot@[j] == in_slot(f, ValueId(j as u32)),
            decreases n - i,
        {
            let v = ValueId(i as u32);
            assert(def@[i as int] == def@[i as int]);
            assert(fused@[i as int] == f.is_fused(v));
            assert(phi_in@[i as int] == f.read_by_phi(v));
            let param = func.is_param(i);
            let home = match def[i] {
                Some(p) => Some(p.0),
                None => if param {
                    Some(func.entry)
                } else {
                    None
                },
            };
            assert(home == f.home(v));
            let pair = is_pair_word(func, v);
            let single = !fused[i] && !phi_in[i] && !param && read_once(func, v) && (match home {
                Some(b) => is_consumed(func, b.index(), v, &def, &fused),
                None => false,
            });
            let print = match def[i] {
                Some((b, k)) => {
                    assert(f.blocks[b.0 as int].insts[k as int] == func.blocks@[b.0 as int].insts@[k as int]@);
                    matches!(&func.blocks[b.index()].insts[k], MirInst::Print { .. })
                },
                None => false,
            };
            tree.push(single && !pair);
            need_slot.push(param || pair || (!fused[i] && !single && home.is_some() && !print));
            i = i + 1;
        }
        assert(tree@ =~= tree_flags(f));
        assert(need_slot@ =~= slot_flags(f));
        EmitPlan { tree, need_slot, def }
    }
}

// Emission.

/// What emission looks up.
pub struct LirV {
    pub f: FuncV,
    pub tree: Seq<bool>,
    pub slots: Seq<bool>,
    pub regs: Seq<u8>,
    pub scratch: u8,
    pub labs: Seq<Label>,
}

impl LirV {
    pub open spec fn reg(self, v: ValueId) -> u8 {
        self.regs[v.0 as int]
    }

    /// Small immediate that `v` is rebuilt as.
    pub open spec fn small(self, v: ValueId) -> Option<i16> {
        if flag(self.tree, v) {
            match self.f.def_inst(v) {
                Some(InstV::Const { c, .. }) => const_i16(c),
                _ => None,
            }
        } else {
            None
        }
    }
}

/// The block ends with a tag match that leaves `v`.
pub open spec fn leaves(block: BlockV, v: ValueId) -> bool {
    block.term matches Some(TermV::JumpIfMatch { payloads, .. }) && payloads.contains(v)
}

/// `v` is a payload that a tag match leaves on the stack.
pub open spec fn match_leaves(f: FuncV, v: ValueId) -> bool {
    exists|b: int| 0 <= b < f.blocks.len() && leaves(#[trigger] f.blocks[b], v)
}

/// The operation that follows the operands of `inst`, if there is one.
pub open spec fn tail_op(f: FuncV, inst: InstV, loc: DebugLoc) -> Result<Option<IlOp>, Seq<char>> {
    match inst {
        InstV::Cmp { op, ty, .. } => Ok(Some(IlOp::Bin { op: stack_compare(op, ty), loc })),
        InstV::Unary { op, src, .. } => Ok(
            Some(
                if op is Not {
                    IlOp::LogNot { loc }
                } else if f.ty(src).float() {
                    byte_op(Instruction::NEGF, Operand::Empty, loc)
                } else {
                    byte_op(Instruction::NEG, Operand::Empty, loc)
                },
            ),
        ),
        InstV::Cast { kind, .. } => match kind {
            MirCastKind::IntToFloat => Ok(Some(byte_op(Instruction::CastIntToFloat, Operand::Empty, loc))),
            MirCastKind::Sext => Err("lir sext"@),
        },
        InstV::Index { unchecked, .. } => Ok(
            Some(
                if unchecked {
                    IlOp::IndexUnchecked { loc }
                } else {
                    IlOp::Index { loc }
                },
            ),
        ),
        InstV::StoreIndex { unchecked, .. } => Ok(
            Some(
                byte_op(
                    if unchecked {
                        Instruction::StoreIndexUnchecked
                    } else {
                        Instruction::StoreIndex
                    },
                    Operand::Empty,
                    loc,
                ),
            ),
        ),
        InstV::ArrayLen { .. } => Ok(Some(byte_op(Instruction::ArrayLen, Operand::Empty, loc))),
        InstV::ArrayPush { .. } => Ok(Some(byte_op(Instruction::ArrayPush, Operand::Empty, loc))),
        InstV::Alloc { kind, elems, .. } => match alloc_op(kind, elems.len() as u32, loc) {
            Ok(op) => Ok(Some(op)),
            Err(e) => Err(e),
        },
        InstV::Print { .. } => Ok(Some(IlOp::Print { loc })),
        InstV::Format { args, .. } => Ok(
            Some(byte_op(Instruction::FORMAT, Operand::Word(args.len() as u32), loc)),
        ),
        InstV::Stringify { .. } => Ok(Some(byte_op(Instruction::STRINGIFY, Operand::Empty, loc))),
        _ => Ok(None),
    }
}

/// A rebuilt result that also has a slot is copied there.
pub open spec fn copies_result(inst: InstV) -> bool {
    inst is Index || inst is StoreIndex || inst is ArrayLen || inst is ArrayPush
}

/// Instructions without an operand on the stack.
pub open spec fn leaf(inst: InstV) -> bool {
    inst is Const || inst is Phi || inst is HostInvoke || inst is Call || inst is MatchPayload || inst is Deopt
        || inst is String || inst is HeapFieldLoad || inst is HeapFieldStore
}

impl Emit {
    pub open spec fn apply(self, op: Result<Option<IlOp>, Seq<char>>) -> Emit {
        match op {
            Ok(Some(o)) => self.emit(o),
            Ok(None) => self,
            Err(e) => self.fail(e),
        }
    }

    /// Makes sure that the pool holds `bits` at a 32-bit index.
    pub open spec fn intern_wide(self, bits: u64) -> Emit {
        if self.err is Some {
            self
        } else {
            match pool_pos(self.pool, bits, 0) {
                Some(i) => if i > u32::MAX {
                    self.fail("pool idx"@)
                } else {
                    self
                },
                None => {
                    let e = Emit { pool: self.pool.push(bits), ..self };
                    if self.pool.len() > u32::MAX {
                        e.fail("const pool full"@)
                    } else {
                        e
                    }
                },
            }
        }
    }

    pub open spec fn push_wide(self, bits: u64, loc: DebugLoc) -> Emit {
        self.intern_wide(bits).emit(IlOp::ConstPool { idx: pool_index(self.pool, bits) as u32, loc })
    }

    /// Pushes a constant. Negative numbers go through the pool.
    pub open spec fn lir_const(self, c: MirConst, loc: DebugLoc) -> Emit {
        match c {
            MirConst::I64(v) => if 0 <= v <= i32::MAX {
                self.emit(IlOp::Const { imm: v as i32, loc })
            } else {
                self.push_wide(v as u64, loc)
            },
            MirConst::I32(v) => if v >= 0 {
                self.emit(IlOp::Const { imm: v, loc })
            } else {
                self.push_wide(v as i64 as u64, loc)
            },
            MirConst::Bool(v) => self.emit(
                IlOp::Const {
                    imm: if v {
                        1
                    } else {
                        0
                    },
                    loc,
                },
            ),
            MirConst::F64(bits) => self.push_wide(bits, loc),
            MirConst::F32(bits) => self.push_wide(bits as u64, loc),
        }
    }

    /// Stores the value on top of the stack if `v` has a slot.
    pub open spec fn store_slotted(self, c: LirV, v: ValueId, loc: DebugLoc) -> Emit {
        if flag(c.slots, v) {
            self.store(c.reg(v), loc)
        } else {
            self
        }
    }

    /// Rebuilt values that have no operand on the stack.
    pub open spec fn lir_leaf(self, c: LirV, inst: InstV, loc: DebugLoc) -> Emit {
        match inst {
            InstV::Const { c: k, .. } => self.lir_const(k, loc),
            InstV::Phi { dest, .. } => self.load(c.reg(dest), loc),
            InstV::HostInvoke { .. } => self.fail("MIR→LIR leafs do not emit HostInvoke/CALL (dense W4/M2)"@),
            InstV::Call { .. } => self.fail("MIR→LIR leafs do not emit HostInvoke/CALL (dense W4/M2)"@),
            InstV::MatchPayload { dest, .. } => if match_leaves(c.f, dest) {
                if flag(c.slots, dest) {
                    self.load(c.reg(dest), loc)
                } else {
                    self
                }
            } else {
                self.emit(byte_op(Instruction::Unpack, Operand::Word(1), loc))
            },
            InstV::String { idx, .. } => self.emit(IlOp::String { idx, loc }),
            InstV::HeapFieldLoad { .. } => self.fail("MIR→LIR refuses heap fields"@),
            InstV::HeapFieldStore { .. } => self.fail("MIR→LIR refuses heap fields"@),
            _ => self,
        }
    }

    /// Leaves `v` on top of the stack. Operands are rebuilt up to `depth` deep.
    pub open spec fn lir_stack(self, c: LirV, v: ValueId, loc: DebugLoc, depth: nat) -> Emit
        decreases depth, 0nat, 0nat,
    {
        if self.err is Some {
            self
        } else if !flag(c.tree, v) {
            self.load(c.reg(v), loc)
        } else {
            match c.f.def(v) {
                None => self.fail("tree value has no def"@),
                Some(p) => {
                    let inst = c.f.blocks[p.0.0 as int].insts[p.1 as int];
                    let less = (depth - 1) as nat;
                    if leaf(inst) {
                        self.lir_leaf(c, inst, loc)
                    } else if depth == 0 {
                        self.fail("tree value has no def"@)
                    } else {
                        match inst {
                            InstV::Bin { op, ty, lhs, rhs, .. } => self.lir_bin(
                                c,
                                stack_bin(op, ty),
                                lhs,
                                rhs,
                                loc,
                                less,
                            ),
                            InstV::Cmp { op, ty, lhs, rhs, .. } => self.lir_bin(
                                c,
                                stack_compare(op, ty),
                                lhs,
                                rhs,
                                loc,
                                less,
                            ),
                            InstV::GcBarrier { dest, .. } => match paired_alloc(c.f, dest, 0) {
                                Some(obj) => self.lir_stack(c, obj, loc, less),
                                None => if flag(c.slots, dest) {
                                    self.load(c.reg(dest), loc)
                                } else {
                                    self.fail("GcBarrier has no alloc"@)
                                },
                            },
                            _ => {
                                let e = self.lir_all(c, inst.uses(), 0, loc, less).apply(tail_op(c.f, inst, loc));
                                if copies_result(inst) && flag(c.slots, inst.dest()) {
                                    e.emit(IlOp::Dup { loc }).store(c.reg(inst.dest()), loc)
                                } else {
                                    e
                                }
                            },
                        }
                    }
                },
            }
        }
    }

    /// Two operands and the operation, fused with slots where that is possible.
    pub open spec fn lir_bin(
        self,
        c: LirV,
        op: Instruction,
        lhs: ValueId,
        rhs: ValueId,
        loc: DebugLoc,
        depth: nat,
    ) -> Emit
        decreases depth, 1nat, 0nat,
    {
        if flag(c.slots, lhs) && c.small(rhs) is Some {
            self.emit(IlOp::BinSlotImm { op, slot: c.reg(lhs), imm: c.small(rhs)->0, loc })
        } else if flag(c.slots, lhs) && flag(c.slots, rhs) {
            self.emit(IlOp::BinSlotSlot { op, a: c.reg(lhs), b: c.reg(rhs), loc })
        } else {
            self.lir_stack(c, lhs, loc, depth).lir_stack(c, rhs, loc, depth).emit(IlOp::Bin { op, loc })
        }
    }

    /// Leaves the values from `i` on on the stack.
    pub open spec fn lir_all(self, c: LirV, s: Seq<ValueId>, i: nat, loc: DebugLoc, depth: nat) -> Emit
        decreases depth, 1nat, s.len() - i,
    {
        if self.err is Some || i >= s.len() {
            self
        } else {
            self.lir_stack(c, s[i as int], loc, depth).lir_all(c, s, i + 1, loc, depth)
        }
    }

    /// Leaves `v` on top of the stack. No chain of definitions is longer than there are values,
    /// unless a value is defined by itself.
    pub open spec fn lir_value(self, c: LirV, v: ValueId, loc: DebugLoc) -> Emit {
        self.lir_stack(c, v, loc, c.f.types.len())
    }

    /// Leaves all of `s` on the stack.
    pub open spec fn lir_values(self, c: LirV, s: Seq<ValueId>, loc: DebugLoc) -> Emit {
        self.lir_all(c, s, 0, loc, c.f.types.len())
    }

    /// One instruction whose result is not rebuilt.
    pub open spec fn lir_stored(self, c: LirV, inst: InstV, loc: DebugLoc) -> Emit {
        match inst {
            InstV::Const { dest, c: k } => self.lir_const(k, loc).store(c.reg(dest), loc),
            InstV::Bin { dest, op, ty, lhs, rhs } => self.lir_bin(
                c,
                stack_bin(op, ty),
                lhs,
                rhs,
                loc,
                c.f.types.len(),
            ).store(c.reg(dest), loc),
            InstV::Phi { .. } => self,
            InstV::MatchPayload { .. } => self,
            InstV::Deopt { .. } => self,
            InstV::FieldStore { dest, base, index, .. } => {
                let slot = (base + index) as u32;
                let e = self.lir_values(c, inst.uses(), loc).emit(IlOp::StorePop { slot, loc });
                if flag(c.slots, dest) {
                    e.emit(IlOp::Load { slot, loc }).store(c.reg(dest), loc)
                } else {
                    e
                }
            },
            InstV::HostInvoke { .. } => self.fail("MIR→LIR leafs do not emit HostInvoke (dense W4)"@),
            InstV::HeapFieldLoad { .. } => self.fail("MIR→LIR refuses heap fields"@),
            InstV::HeapFieldStore { .. } => self.fail("MIR→LIR refuses heap fields"@),
            InstV::Call { dest, dest_hi, target, args } => {
                let e = self.lir_values(c, args, loc).emit(
                    IlOp::Entry {
                        kind: EntryKind::Call,
                        arity: args.len() as u32,
                        target,
                        loc,
                        ret_words: ret_words(dest_hi),
                    },
                );
                let e2 = match dest_hi {
                    Some(h) => e.store(c.reg(h), loc),
                    None => e,
                };
                e2.store_slotted(c, dest, loc)
            },
            InstV::GcBarrier { dest, .. } => match paired_alloc(c.f, dest, 0) {
                Some(obj) => self.lir_value(c, obj, loc).store(c.reg(dest), loc),
                None => self,
            },
            InstV::String { dest, idx } => self.emit(IlOp::String { idx, loc }).store_slotted(c, dest, loc),
            InstV::Print { .. } => self.lir_values(c, inst.uses(), loc).apply(tail_op(c.f, inst, loc)),
            InstV::Format { dest, .. } => self.lir_values(c, inst.uses(), loc).apply(
                tail_op(c.f, inst, loc),
            ).store_slotted(c, dest, loc),
            InstV::Stringify { dest, .. } => self.lir_values(c, inst.uses(), loc).apply(
                tail_op(c.f, inst, loc),
            ).store_slotted(c, dest, loc),
            _ => self.lir_values(c, inst.uses(), loc).apply(tail_op(c.f, inst, loc)).store(
                c.reg(inst.dest()),
                loc,
            ),
        }
    }

    /// Stores the first `k` payloads that have a slot, last one first.
    pub open spec fn lir_payloads(self, c: LirV, s: Seq<ValueId>, k: nat, loc: DebugLoc) -> Emit
        decreases k,
    {
        if k == 0 {
            self
        } else {
            self.store_slotted(c, s[k - 1], loc).lir_payloads(c, s, (k - 1) as nat, loc)
        }
    }

    /// Payloads that the predecessors from `k` on leave for block `b`.
    pub open spec fn lir_consume(self, c: LirV, b: BlockId, k: nat, loc: DebugLoc) -> Emit
        decreases c.f.preds(b.0 as nat).len() - k,
    {
        let ps = c.f.preds(b.0 as nat);
        if k >= ps.len() {
            self
        } else {
            let e = match c.f.blocks[ps[k as int].0 as int].term {
                Some(TermV::JumpIfMatch { taken, payloads, .. }) => if taken == b {
                    self.lir_payloads(c, payloads, payloads.len(), loc)
                } else {
                    self
                },
                _ => self,
            };
            e.lir_consume(c, b, k + 1, loc)
        }
    }

    /// Copies between slots, through the stack.
    pub open spec fn lir_copies(self, ms: Seq<(u8, u8)>, i: nat, loc: DebugLoc) -> Emit
        decreases ms.len() - i,
    {
        if self.err is Some || i >= ms.len() {
            self
        } else {
            let m = ms[i as int];
            let e = if m.0 == m.1 {
                self
            } else {
                self.load(m.1, loc).store(m.0, loc)
            };
            e.lir_copies(ms, i + 1, loc)
        }
    }

    /// Leaves the condition of a branch on the stack.
    pub open spec fn lir_cond(self, c: LirV, block: BlockV, cond: ValueId, loc: DebugLoc) -> Emit {
        match compare_from(block.insts, cond, 0) {
            Some(k) => {
                let inst = block.insts[k as int];
                self.lir_bin(
                    c,
                    stack_compare(inst->Cmp_op, inst->Cmp_ty),
                    inst->Cmp_lhs,
                    inst->Cmp_rhs,
                    loc,
                    c.f.types.len(),
                )
            },
            None => self.lir_value(c, cond, loc),
        }
    }

    /// Second return word. Built from the first one where it is computed from it.
    pub open spec fn lir_second(self, c: LirV, lo: ValueId, hi: ValueId, loc: DebugLoc) -> Emit {
        match c.f.def_inst(hi) {
            Some(InstV::Bin { op, ty, lhs, rhs, .. }) => if flag(c.tree, hi) && lhs == lo {
                self.emit(IlOp::Dup { loc }).lir_value(c, rhs, loc).emit(IlOp::Bin { op: stack_bin(op, ty), loc })
            } else {
                self.lir_value(c, hi, loc)
            },
            _ => self.lir_value(c, hi, loc),
        }
    }

    pub open spec fn lir_return(self, c: LirV, lo: Option<ValueId>, hi: Option<ValueId>, loc: DebugLoc) -> Emit {
        if hi is Some && c.f.ret_layout != MirLayout::TwoSlot {
            self.fail("pair return without twoslot"@)
        } else {
            let e = match lo {
                Some(v) => self.lir_value(c, v, loc),
                None => if hi is None {
                    self.emit(IlOp::Const { imm: 0, loc })
                } else {
                    self.fail("empty pair return"@)
                },
            };
            let e2 = match hi {
                Some(h) => match lo {
                    Some(l) => e.lir_second(c, l, h, loc),
                    None => e.lir_value(c, h, loc),
                },
                None => e,
            };
            e2.emit(IlOp::Return { loc, ret_words: ret_words(hi) })
        }
    }

    /// Two-way branch whose edges copy phi arguments. The true edge comes
    /// first and always jumps: behind it stand the copies of the false edge.
    pub open spec fn lir_split(
        self,
        ts: Seq<(u8, u8)>,
        tl: Label,
        fs: Seq<(u8, u8)>,
        fl: Label,
        loc: DebugLoc,
    ) -> Emit {
        if self.err is Some {
            self
        } else {
            let l = Label(self.next);
            let e = Emit { next: bump(self.next), ..self }.emit(jump(IlJumpKind::JumpIfFalse, l, loc)).lir_copies(
                ts,
                0,
                loc,
            );
            e.emit(jump(IlJumpKind::Unconditional, tl, loc)).emit(IlOp::Label(l)).lir_copies(fs, 0, loc).emit(
                jump(IlJumpKind::Unconditional, fl, loc),
            )
        }
    }

    /// Terminator of block `b`.
    pub open spec fn lir_term(self, c: LirV, b: int, loc: DebugLoc) -> Emit {
        let block = c.f.blocks[b];
        if self.err is Some {
            self
        } else {
            match block.term {
                None => self.fail("missing terminator"@),
                Some(TermV::Jump { dest }) => {
                    let e = self.lir_copies(edge_moves(c.f, block.id, dest, c.regs, c.scratch), 0, loc);
                    if falls_through(c.f, block.id, dest) {
                        e
                    } else {
                        e.emit(jump(IlJumpKind::Unconditional, c.labs[dest.0 as int], loc))
                    }
                },
                Some(TermV::Br { cond, taken, not_taken }) => {
                    let ts = edge_moves(c.f, block.id, taken, c.regs, c.scratch);
                    let fs = edge_moves(c.f, block.id, not_taken, c.regs, c.scratch);
                    let e = self.lir_cond(c, block, cond, loc);
                    if ts.len() == 0 && fs.len() == 0 {
                        e.emit_all(cond_jumps(c.f, block.id, taken, not_taken, c.labs, loc))
                    } else {
                        e.lir_split(
                            ts,
                            c.labs[taken.0 as int],
                            fs,
                            c.labs[not_taken.0 as int],
                            loc,
                        )
                    }
                },
                Some(TermV::Return { lo, hi }) => self.lir_return(c, lo, hi, loc),
                Some(TermV::Unreachable) => self.emit(IlOp::Halt { loc }),
                Some(TermV::JumpIfMatch { scrutinee, tag, payloads, taken, not_taken }) => {
                    let ts = edge_moves(c.f, block.id, taken, c.regs, c.scratch);
                    let fs = edge_moves(c.f, block.id, not_taken, c.regs, c.scratch);
                    if ts.len() > 0 || fs.len() > 0 {
                        self.fail("JumpIfMatch + phi moves (keep fuse-IL)"@)
                    } else {
                        let e = self.lir_value(c, scrutinee, loc).emit(
                            jump(
                                IlJumpKind::JumpIfMatch { tag, arity: payloads.len() as u32 },
                                c.labs[taken.0 as int],
                                loc,
                            ),
                        );
                        if falls_through(c.f, block.id, not_taken) {
                            e
                        } else {
                            e.emit(jump(IlJumpKind::Unconditional, c.labs[not_taken.0 as int], loc))
                        }
                    }
                },
            }
        }
    }

    /// One instruction of block `b`.
    pub open spec fn lir_step(self, c: LirV, b: int, i: int) -> Emit {
        let inst = c.f.blocks[b].insts[i];
        let dest = inst.dest();
        let loc = c.f.loc_of(dest);
        if self.err is Some || inst.phi() || flag(c.tree, dest) {
            self
        } else if inst is MatchPayload {
            if match_leaves(c.f, dest) {
                self
            } else {
                self.emit(byte_op(Instruction::Unpack, Operand::Word(1), loc)).store_slotted(c, dest, loc)
            }
        } else if c.f.fused_compare(b) == Some(dest) {
            self
        } else {
            self.lir_stored(c, inst, loc)
        }
    }

    /// Instructions of block `b` from `i` on.
    pub open spec fn lir_insts(self, c: LirV, b: int, i: nat) -> Emit
        decreases c.f.blocks[b].insts.len() - i,
    {
        if self.err is Some || i >= c.f.blocks[b].insts.len() {
            self
        } else {
            self.lir_step(c, b, i as int).lir_insts(c, b, i + 1)
        }
    }

    /// Blocks from `b` on.
    pub open spec fn lir_blocks(self, c: LirV, b: nat) -> Emit
        decreases c.f.blocks.len() - b,
    {
        if self.err is Some || b >= c.f.blocks.len() {
            self
        } else {
            let block = c.f.blocks[b as int];
            let loc = c.f.term_loc(block.id);
            let e = if block.id != c.f.entry {
                self.emit(IlOp::Label(c.labs[b as int]))
            } else {
                self
            };
            e.lir_consume(c, block.id, 0, loc).lir_insts(c, b as int, 0).lir_term(c, b as int, loc).lir_blocks(
                c,
                b + 1,
            )
        }
    }
}

/// Stack code of a function.
pub open spec fn lir_code(f: FuncV, entry: Option<Label>, pool: Seq<u64>, across: bool) -> Emit {
    let start = Emit { out: Seq::empty(), stacked: Seq::empty(), pool, next: label_hint(entry), err: None };
    if f.gc_edge() && !across {
        start.fail("MIR→LIR refuses Alloc/GcBarrier without S2b maps (S2c)"@)
    } else {
        match assigned(f, slot_flags(f), "too many lir slots"@) {
            Err(e) => start.fail(e),
            Ok(a) => {
                let regs = coalesced(f, a.0);
                let labs = block_labels(f, entry, Set::empty(), label_hint(entry), f.blocks.len());
                let c = LirV { f, tree: tree_flags(f), slots: slot_flags(f), regs, scratch: a.1, labs: labs.0 };
                let frame = highest(regs, slot_flags(f), 0, 0) + 1;
                let e = Emit { next: labs.1, ..start }.emit(IlOp::Label(labs.0[f.entry.0 as int]));
                let e2 = if frame > f.params.len() {
                    e.emit(byte_op(Instruction::Seek, Operand::Word(frame as u32), no_loc()))
                } else {
                    e
                };
                e2.lir_blocks(c, 0)
            },
        }
    }
}

/// Slots of unboxed fields are slot numbers.
pub open spec fn field_slots_fit(f: FuncV) -> bool {
    forall|b: int, i: int|
        0 <= b < f.blocks.len() && 0 <= i < f.blocks[b].insts.len() && (#[trigger] f.blocks[b].insts[i]) is FieldStore
            ==> f.blocks[b].insts[i]->FieldStore_base + f.blocks[b].insts[i]->FieldStore_index <= u32::MAX
}

// Executable emission.

struct Lir<'a> {
    func: &'a MirFunc,
    plan: &'a EmitPlan,
    regs: &'a Vec<u8>,
    scratch: u8,
    labs: &'a Vec<Label>,
}

impl<'a> View for Lir<'a> {
    type V = LirV;

    closed spec fn view(&self) -> LirV {
        LirV {
            f: self.func@,
            tree: self.plan.tree@,
            slots: self.plan.need_slot@,
            regs: self.regs@,
            scratch: self.scratch,
            labs: self.labs@,
        }
    }
}

impl<'a> Lir<'a> {
    spec fn ok(self) -> bool {
        &&& self.func@.indexed()
        &&& field_slots_fit(self.func@)
        &&& self.plan.plans(self.func@)
        &&& self.regs@.len() == self.func@.types.len()
        &&& self.labs@.len() == self.func@.blocks.len()
    }

    spec fn has(self, v: ValueId) -> bool {
        v.0 < self.func@.types.len()
    }

    fn reg(&self, v: ValueId) -> (r: u8)
        requires
            self.ok(),
            self.has(v),
        ensures
            r == self@.reg(v),
    {
        self.regs[v.index()]
    }

    fn slotted(&self, v: ValueId) -> (r: bool)
        ensures
            r == flag(self@.slots, v),
    {
        has_flag(&self.plan.need_slot, v)
    }

    fn rebuilt(&self, v: ValueId) -> (r: bool)
        ensures
            r == flag(self@.tree, v),
    {
        has_flag(&self.plan.tree, v)
    }

    fn def(&self, v: ValueId) -> (r: Option<(BlockId, usize)>)
        requires
            self.ok(),
            self.has(v),
        ensures
            match r {
                Some(p) => self@.f.def(v) == Some((p.0, p.1 as nat)) && p.0.0 < self.func@.blocks.len() && p.1
                    < self.func@.blocks[p.0.0 as int].insts.len(),
                None => self@.f.def(v) is None,
            },
    {
        self.plan.def[v.index()]
    }

    fn inst_at(&self, b: BlockId, i: usize) -> (r: &'a MirInst)
        requires
            self.ok(),
            b.0 < self.func@.blocks.len(),
            i < self.func@.blocks[b.0 as int].insts.len(),
        ensures
            r@ == self@.f.blocks[b.0 as int].insts[i as int],
            self.func@.inst_indexed(r@),
    {
        assert(self.func@.block_indexed(self.func@.blocks[b.0 as int], b.0 as int));
        assert(self.func@.inst_indexed(self.func@.blocks[b.0 as int].insts[i as int]));
        &self.func.blocks[b.index()].insts[i]
    }

    fn small(&self, v: ValueId) -> (r: Option<i16>)
        requires
            self.ok(),
            self.has(v),
        ensures
            r == self@.small(v),
    {
        if !self.rebuilt(v) {
            return None;
        }
        match self.def(v) {
            Some((b, i)) => match self.inst_at(b, i) {
                MirInst::Const { c, .. } => imm_of(*c),
                _ => None,
            },
            None => None,
        }
    }
}

fn is_match_payload(func: &MirFunc, v: ValueId) -> (r: bool)
    ensures
        r == match_leaves(func@, v),
{
    let mut b: usize = 0;
    while b < func.blocks.len()
        invariant
            b <= func.blocks@.len(),
            forall|x: int| 0 <= x < b ==> !leaves(#[trigger] func@.blocks[x], v),
        decreases func.blocks@.len() - b,
    {
        if let Some(Terminator::JumpIfMatch { payloads, .. }) = &func.blocks[b].term {
            if has_id(payloads, v) {
                assert(leaves(func@.blocks[b as int], v));
                return true;
            }
        }
        b = b + 1;
    }
    false
}

fn tail_of(func: &MirFunc, inst: &MirInst, loc: DebugLoc) -> (r: Result<Option<IlOp>, LowerError>)
    ensures
        match tail_op(func@, inst@, loc) {
            Ok(o) => r == Ok::<Option<IlOp>, LowerError>(o),
            Err(e) => r matches Err(x) && x@ == LowerErrV::Refused(e),
        },
{
    match inst {
        MirInst::Cmp { op, ty, .. } => Ok(Some(IlOp::Bin { op: stack_compare_op(*op, *ty), loc })),
        MirInst::Unary { op, src, .. } => match op {
            MirUnaryOp::Not => Ok(Some(IlOp::LogNot { loc })),
            MirUnaryOp::Neg => if func.ty(*src).is_float() {
                Ok(Some(IlOp::from_plain_byte(Byte::new(Instruction::NEGF), loc)))
            } else {
                Ok(Some(IlOp::from_plain_byte(Byte::new(Instruction::NEG), loc)))
            },
        },
        MirInst::Cast { kind, .. } => match kind {
            MirCastKind::IntToFloat => Ok(
                Some(IlOp::from_plain_byte(Byte::new(Instruction::CastIntToFloat), loc)),
            ),
            MirCastKind::Sext => Err(refused("lir sext")),
        },
        MirInst::Index { unchecked, .. } => if *unchecked {
            Ok(Some(IlOp::IndexUnchecked { loc }))
        } else {
            Ok(Some(IlOp::Index { loc }))
        },
        MirInst::StoreIndex { unchecked, .. } => {
            let i = if *unchecked {
                Instruction::StoreIndexUnchecked
            } else {
                Instruction::StoreIndex
            };
            Ok(Some(IlOp::from_plain_byte(Byte::new(i), loc)))
        },
        MirInst::ArrayLen { .. } => Ok(Some(IlOp::from_plain_byte(Byte::new(Instruction::ArrayLen), loc))),
        MirInst::ArrayPush { .. } => Ok(Some(IlOp::from_plain_byte(Byte::new(Instruction::ArrayPush), loc))),
        MirInst::Alloc { kind, elems, .. } => match il_for_alloc(*kind, elems.len() as u32, loc) {
            Ok(op) => Ok(Some(op)),
            Err(e) => Err(e),
        },
        MirInst::Print { .. } => Ok(Some(IlOp::Print { loc })),
        MirInst::Format { args, .. } => Ok(
            Some(
                IlOp::from_plain_byte(Byte::new(Instruction::FORMAT).with_operand_u32(args.len() as u32), loc),
            ),
        ),
        MirInst::Stringify { .. } => Ok(Some(IlOp::from_plain_byte(Byte::new(Instruction::STRINGIFY), loc))),
        _ => Ok(None),
    }
}

struct LirOut {
    out: Vec<IlOp>,
    pool: Vec<u64>,
    next: u32,
}

impl View for LirOut {
    type V = Emit;

    closed spec fn view(&self) -> Emit {
        Emit { out: self.out@, stacked: Seq::empty(), pool: self.pool@, next: self.next, err: None }
    }
}

/// Relates the outcome of an emission step to its specification.
spec fn ran(r: Result<(), LowerError>, s: Emit, now: LirOut) -> bool {
    match s.err {
        None => r is Ok && now@ == s,
        Some(m) => r matches Err(x) && x@ == LowerErrV::Refused(m) && now@.pool == s.pool,
    }
}

fn fail(m: &str) -> (r: Result<(), LowerError>)
    ensures
        r matches Err(x) && x@ == LowerErrV::Refused(m@),
{
    Err(refused(m))
}

impl LirOut {
    fn emit(&mut self, op: IlOp)
        ensures
            final(self)@ == old(self)@.emit(op),
    {
        self.out.push(op);
    }

    fn load(&mut self, slot: u8, loc: DebugLoc)
        ensures
            final(self)@ == old(self)@.load(slot, loc),
    {
        self.emit(IlOp::Load { slot: slot as u32, loc });
    }

    fn store(&mut self, slot: u8, loc: DebugLoc)
        ensures
            final(self)@ == old(self)@.store(slot, loc),
    {
        self.emit(IlOp::StorePop { slot: slot as u32, loc });
    }

    fn store_slotted(&mut self, c: &Lir<'_>, v: ValueId, loc: DebugLoc)
        requires
            c.ok(),
            c.has(v),
        ensures
            final(self)@ == old(self)@.store_slotted(c@, v, loc),
    {
        if c.slotted(v) {
            self.store(c.reg(v), loc);
        }
    }

    fn apply(&mut self, op: Result<Option<IlOp>, LowerError>, Ghost(s): Ghost<Result<Option<IlOp>, Seq<char>>>) -> (r:
        Result<(), LowerError>)
        requires
            match s {
                Ok(o) => op == Ok::<Option<IlOp>, LowerError>(o),
                Err(e) => op matches Err(x) && x@ == LowerErrV::Refused(e),
            },
        ensures
            ran(r, old(self)@.apply(s), *final(self)),
    {
        match op {
            Ok(Some(o)) => {
                self.emit(o);
                Ok(())
            },
            Ok(None) => Ok(()),
            Err(e) => Err(e),
        }
    }

    fn push_wide(&mut self, bits: u64, loc: DebugLoc) -> (r: Result<(), LowerError>)
        ensures
            ran(r, old(self)@.push_wide(bits, loc), *final(self)),
    {
        proof {
            pool_pos_bound(self.pool@, bits, 0);
        }
        if let Some(i) = find_in_pool(&self.pool, bits) {
            if i > 0xffff_ffff {
                return fail("pool idx");
            }
            self.emit(IlOp::ConstPool { idx: i as u32, loc });
            return Ok(());
        }
        let i = self.pool.len();
        self.pool.push(bits);
        if i > 0xffff_ffff {
            return fail("const pool full");
        }
        self.emit(IlOp::ConstPool { idx: i as u32, loc });
        Ok(())
    }

    fn push_const(&mut self, c: MirConst, loc: DebugLoc) -> (r: Result<(), LowerError>)
        ensures
            ran(r, old(self)@.lir_const(c, loc), *final(self)),
    {
        match c {
            MirConst::I64(v) => {
                if 0 <= v && v <= 0x7fff_ffff {
                    self.emit(IlOp::Const { imm: v as i32, loc });
                    Ok(())
                } else {
                    self.push_wide(v as u64, loc)
                }
            },
            MirConst::I32(v) => {
                if v >= 0 {
                    self.emit(IlOp::Const { imm: v, loc });
                    Ok(())
                } else {
                    self.push_wide(v as i64 as u64, loc)
                }
            },
            MirConst::Bool(v) => {
                let imm: i32 = if v {
                    1
                } else {
                    0
                };
                self.emit(IlOp::Const { imm, loc });
                Ok(())
            },
            MirConst::F64(bits) => self.push_wide(bits, loc),
            MirConst::F32(bits) => self.push_wide(bits as u64, loc),
        }
    }

    fn emit_leaf(&mut self, c: &Lir<'_>, inst: &MirInst, loc: DebugLoc) -> (r: Result<(), LowerError>)
        requires
            c.ok(),
            c.func@.inst_indexed(inst@),
        ensures
            ran(r, old(self)@.lir_leaf(c@, inst@, loc), *final(self)),
    {
        match inst {
            MirInst::Const { c: k, .. } => {
                return self.push_const(*k, loc);
            },
            MirInst::Phi { dest, .. } => self.load(c.reg(*dest), loc),
            MirInst::HostInvoke { .. } | MirInst::Call { .. } => {
                return fail("MIR→LIR leafs do not emit HostInvoke/CALL (dense W4/M2)");
            },
            MirInst::MatchPayload { dest, .. } => {
                if is_match_payload(c.func, *dest) {
                    if c.slotted(*dest) {
                        self.load(c.reg(*dest), loc);
                    }
                } else {
                    self.emit(IlOp::from_plain_byte(Byte::new(Instruction::Unpack).with_operand_u32(1), loc));
                }
            },
            MirInst::String { idx, .. } => self.emit(IlOp::String { idx: *idx, loc }),
            MirInst::HeapFieldLoad { .. } | MirInst::HeapFieldStore { .. } => {
                return fail("MIR→LIR refuses heap fields");
            },
            _ => {},
        }
        Ok(())
    }

    fn emit_stack(&mut self, c: &Lir<'_>, v: ValueId, loc: DebugLoc, depth: usize) -> (r: Result<
        (),
        LowerError,
    >)
        requires
            c.ok(),
            c.has(v),
        ensures
            ran(r, old(self)@.lir_stack(c@, v, loc, depth as nat), *final(self)),
        decreases depth, 0nat, 0nat,
    {
        if !c.rebuilt(v) {
            self.load(c.reg(v), loc);
            return Ok(());
        }
        let (b, i) = match c.def(v) {
            Some(p) => p,
            None => {
                return fail("tree value has no def");
            },
        };
        let inst = c.inst_at(b, i);
        let is_leaf = matches!(
            inst,
            MirInst::Const { .. } | MirInst::Phi { .. } | MirInst::HostInvoke { .. } | MirInst::Call { .. }
            | MirInst::MatchPayload { .. } | MirInst::Deopt { .. } | MirInst::String { .. }
            | MirInst::HeapFieldLoad { .. } | MirInst::HeapFieldStore { .. }
        );
        if is_leaf {
            return self.emit_leaf(c, inst, loc);
        }
        if depth == 0 {
            return fail("tree value has no def");
        }
        let less = depth - 1;
        let ghost u = inst@.uses();
        match inst {
            MirInst::Bin { op, ty, lhs, rhs, .. } => {
                assert(u[0] == *lhs && u[1] == *rhs);
                self.emit_bin(c, stack_bin_op(*op, *ty), *lhs, *rhs, loc, less)
            },
            MirInst::Cmp { op, ty, lhs, rhs, .. } => {
                assert(u[0] == *lhs && u[1] == *rhs);
                self.emit_bin(c, stack_compare_op(*op, *ty), *lhs, *rhs, loc, less)
            },
            MirInst::GcBarrier { dest, .. } => {
                match paired_alloc_dest(c.func, *dest) {
                    Some(obj) => self.emit_stack(c, obj, loc, less),
                    None => if c.slotted(*dest) {
                        self.load(c.reg(*dest), loc);
                        Ok(())
                    } else {
                        fail("GcBarrier has no alloc")
                    },
                }
            },
            _ => {
                let us = inst.operands();
                match self.emit_all(c, &us, loc, less) {
                    Ok(_) => {},
                    Err(e) => {
                        return Err(e);
                    },
                }
                let op = tail_of(c.func, inst, loc);
                match self.apply(op, Ghost(tail_op(c@.f, inst@, loc))) {
                    Ok(_) => {},
                    Err(e) => {
                        return Err(e);
                    },
                }
                let copied = matches!(
                    inst,
                    MirInst::Index { .. } | MirInst::StoreIndex { .. } | MirInst::ArrayLen { .. }
                    | MirInst::ArrayPush { .. }
                );
                let dest = inst.dest();
                if copied && c.slotted(dest) {
                    self.emit(IlOp::Dup { loc });
                    self.store(c.reg(dest), loc);
                }
                Ok(())
            },
        }
    }

    fn emit_bin(
        &mut self,
        c: &Lir<'_>,
        op: Instruction,
        lhs: ValueId,
        rhs: ValueId,
        loc: DebugLoc,
        depth: usize,
    ) -> (r: Result<(), LowerError>)
        requires
            c.ok(),
            c.has(lhs),
            c.has(rhs),
        ensures
            ran(r, old(self)@.lir_bin(c@, op, lhs, rhs, loc, depth as nat), *final(self)),
        decreases depth, 1nat, 0nat,
    {
        if c.slotted(lhs) {
            if let Some(imm) = c.small(rhs) {
                self.emit(IlOp::BinSlotImm { op, slot: c.reg(lhs), imm, loc });
                return Ok(());
            }
            if c.slotted(rhs) {
                self.emit(IlOp::BinSlotSlot { op, a: c.reg(lhs), b: c.reg(rhs), loc });
                return Ok(());
            }
        }
        proof {
            reveal_with_fuel(Emit::lir_stack, 2);
        }
        match self.emit_stack(c, lhs, loc, depth) {
            Ok(_) => {},
            Err(e) => {
                return Err(e);
            },
        }
        match self.emit_stack(c, rhs, loc, depth) {
            Ok(_) => {},
            Err(e) => {
                return Err(e);
            },
        }
        self.emit(IlOp::Bin { op, loc });
        Ok(())
    }

    fn emit_all(&mut self, c: &Lir<'_>, s: &Vec<ValueId>, loc: DebugLoc, depth: usize) -> (r: Result<
        (),
        LowerError,
    >)
        requires
            c.ok(),
            forall|i: int| 0 <= i < s@.len() ==> c.has(#[trigger] s@[i]),
        ensures
            ran(r, old(self)@.lir_all(c@, s@, 0, loc, depth as nat), *final(self)),
        decreases depth, 1nat, s@.len(),
    {
        let ghost e0 = self@;
        let mut i: usize = 0;
        while i < s.len()
            invariant
                e0 == old(self)@,
                c.ok(),
                forall|i: int| 0 <= i < s@.len() ==> c.has(#[trigger] s@[i]),
                i <= s@.len(),
                e0.lir_all(c@, s@, 0, loc, depth as nat) == self@.lir_all(
                    c@,
                    s@,
                    i as nat,
                    loc,
                    depth as nat,
                ),
            decreases s@.len() - i,
        {
            proof {
                reveal_with_fuel(Emit::lir_all, 2);
            }
            match self.emit_stack(c, s[i], loc, depth) {
                Ok(_) => {},
                Err(e) => {
                    return Err(e);
                },
            }
            i = i + 1;
        }
        Ok(())
    }
}

/// Predecessors exist.
proof fn preds_in_range(f: FuncV, k: nat, b: nat)
    requires
        f.indexed(),
        k <= f.blocks.len(),
    ensures
        forall|i: int| 0 <= i < preds_upto(f.blocks, k, b).len() ==> (#[trigger] preds_upto(f.blocks, k, b)[i]).0
            < f.blocks.len(),
    decreases k,
{
    if k > 0 {
        preds_in_range(f, (k - 1) as nat, b);
        assert(f.block_indexed(f.blocks[k - 1], k - 1));
        let prior = preds_upto(f.blocks, (k - 1) as nat, b);
        let own = edges_to(f.blocks[k - 1], b);
        if let Some(t) = f.blocks[k - 1].term {
            hits_are(t.targets(), t.targets().len(), b, f.blocks[k - 1].id);
        }
        assert forall|i: int| 0 <= i < preds_upto(f.blocks, k, b).len() implies (#[trigger] preds_upto(
            f.blocks,
            k,
            b,
        )[i]).0 < f.blocks.len() by {
            if i < prior.len() {
                assert(prior[i].0 < f.blocks.len());
            } else {
                assert(own[i - prior.len()] == f.blocks[k - 1].id);
            }
        }
    }
}

proof fn hits_are(targets: Seq<BlockId>, k: nat, b: nat, id: BlockId)
    ensures
        forall|i: int| 0 <= i < hits(targets, k, b, id).len() ==> #[trigger] hits(targets, k, b, id)[i] == id,
    decreases k,
{
    if k > 0 {
        let prior = hits(targets, (k - 1) as nat, b, id);
        hits_are(targets, (k - 1) as nat, b, id);
        assert forall|i: int| 0 <= i < hits(targets, k, b, id).len() implies #[trigger] hits(targets, k, b, id)[i]
            == id by {
            if i < prior.len() {
                assert(prior[i] == id);
            }
        }
    }
}

impl LirOut {
    fn emit_value(&mut self, c: &Lir<'_>, v: ValueId, loc: DebugLoc) -> (r: Result<(), LowerError>)
        requires
            c.ok(),
            c.has(v),
        ensures
            ran(r, old(self)@.lir_value(c@, v, loc), *final(self)),
    {
        self.emit_stack(c, v, loc, c.func.types.len())
    }

    fn emit_values(&mut self, c: &Lir<'_>, s: &Vec<ValueId>, loc: DebugLoc) -> (r: Result<(), LowerError>)
        requires
            c.ok(),
            forall|i: int| 0 <= i < s@.len() ==> c.has(#[trigger] s@[i]),
        ensures
            ran(r, old(self)@.lir_values(c@, s@, loc), *final(self)),
    {
        self.emit_all(c, s, loc, c.func.types.len())
    }

    /// The operands of an instruction, and its operation.
    fn emit_operation(&mut self, c: &Lir<'_>, inst: &MirInst, loc: DebugLoc) -> (r: Result<(), LowerError>)
        requires
            c.ok(),
            c.func@.inst_indexed(inst@),
        ensures
            ran(r, old(self)@.lir_values(c@, inst@.uses(), loc).apply(tail_op(c@.f, inst@, loc)), *final(self)),
    {
        let us = inst.operands();
        match self.emit_values(c, &us, loc) {
            Ok(_) => {},
            Err(e) => {
                return Err(e);
            },
        }
        let op = tail_of(c.func, inst, loc);
        self.apply(op, Ghost(tail_op(c@.f, inst@, loc)))
    }

    fn emit_stored(&mut self, c: &Lir<'_>, inst: &MirInst, loc: DebugLoc) -> (r: Result<(), LowerError>)
        requires
            c.ok(),
            c.func@.inst_indexed(inst@),
            inst@ is FieldStore ==> inst@->FieldStore_base + inst@->FieldStore_index <= u32::MAX,
        ensures
            ran(r, old(self)@.lir_stored(c@, inst@, loc), *final(self)),
    {
        let ghost u = inst@.uses();
        match inst {
            MirInst::Const { dest, c: k } => {
                match self.push_const(*k, loc) {
                    Ok(_) => {},
                    Err(e) => {
                        return Err(e);
                    },
                }
                self.store(c.reg(*dest), loc);
            },
            MirInst::Bin { dest, op, ty, lhs, rhs } => {
                assert(u[0] == *lhs && u[1] == *rhs);
                let op = stack_bin_op(*op, *ty);
                match self.emit_bin(c, op, *lhs, *rhs, loc, c.func.types.len()) {
                    Ok(_) => {},
                    Err(e) => {
                        return Err(e);
                    },
                }
                self.store(c.reg(*dest), loc);
            },
            MirInst::Phi { .. } | MirInst::MatchPayload { .. } | MirInst::Deopt { .. } => {},
            MirInst::FieldStore { dest, base, index, .. } => {
                let us = inst.operands();
                let slot: u32 = *base + *index;
                match self.emit_values(c, &us, loc) {
                    Ok(_) => {},
                    Err(e) => {
                        return Err(e);
                    },
                }
                self.emit(IlOp::StorePop { slot, loc });
                if c.slotted(*dest) {
                    self.emit(IlOp::Load { slot, loc });
                    self.store(c.reg(*dest), loc);
                }
            },
            MirInst::HostInvoke { .. } => {
                return fail("MIR→LIR leafs do not emit HostInvoke (dense W4)");
            },
            MirInst::HeapFieldLoad { .. } | MirInst::HeapFieldStore { .. } => {
                return fail("MIR→LIR refuses heap fields");
            },
            MirInst::Call { dest, dest_hi, target, args } => {
                assert forall|i: int| 0 <= i < args@.len() implies c.has(#[trigger] args@[i]) by {
                    assert(u[i] == args@[i]);
                }
                proof {
                    if let Some(h) = dest_hi {
                        assert(inst@.dests()[1] == *h);
                    }
                }
                match self.emit_values(c, args, loc) {
                    Ok(_) => {},
                    Err(e) => {
                        return Err(e);
                    },
                }
                self.emit(
                    IlOp::Entry {
                        kind: EntryKind::Call,
                        arity: args.len() as u32,
                        target: *target,
                        loc,
                        ret_words: ret_words_from_hi(*dest_hi),
                    },
                );
                if let Some(h) = dest_hi {
                    self.store(c.reg(*h), loc);
                }
                self.store_slotted(c, *dest, loc);
            },
            MirInst::GcBarrier { dest, .. } => {
                if let Some(obj) = paired_alloc_dest(c.func, *dest) {
                    match self.emit_value(c, obj, loc) {
                        Ok(_) => {},
                        Err(e) => {
                            return Err(e);
                        },
                    }
                    self.store(c.reg(*dest), loc);
                }
            },
            MirInst::String { dest, idx } => {
                self.emit(IlOp::String { idx: *idx, loc });
                self.store_slotted(c, *dest, loc);
            },
            MirInst::Print { .. } => {
                return self.emit_operation(c, inst, loc);
            },
            MirInst::Format { dest, .. } | MirInst::Stringify { dest, .. } => {
                match self.emit_operation(c, inst, loc) {
                    Ok(_) => {},
                    Err(e) => {
                        return Err(e);
                    },
                }
                self.store_slotted(c, *dest, loc);
            },
            _ => {
                match self.emit_operation(c, inst, loc) {
                    Ok(_) => {},
                    Err(e) => {
                        return Err(e);
                    },
                }
                self.store(c.reg(inst.dest()), loc);
            },
        }
        Ok(())
    }

    fn payloads(&mut self, c: &Lir<'_>, s: &Vec<ValueId>, loc: DebugLoc)
        requires
            c.ok(),
            forall|i: int| 0 <= i < s@.len() ==> c.has(#[trigger] s@[i]),
        ensures
            final(self)@ == old(self)@.lir_payloads(c@, s@, s@.len(), loc),
    {
        let ghost e0 = self@;
        let mut k: usize = s.len();
        while k > 0
            invariant
                c.ok(),
                forall|i: int| 0 <= i < s@.len() ==> c.has(#[trigger] s@[i]),
                k <= s@.len(),
                e0.lir_payloads(c@, s@, s@.len(), loc) == self@.lir_payloads(c@, s@, k as nat, loc),
            decreases k,
        {
            self.store_slotted(c, s[k - 1], loc);
            k = k - 1;
        }
    }

    fn consume_match(&mut self, c: &Lir<'_>, b: BlockId, preds: &Vec<BlockId>, loc: DebugLoc)
        requires
            c.ok(),
            preds@ == c.func@.preds(b.0 as nat),
        ensures
            final(self)@ == old(self)@.lir_consume(c@, b, 0, loc),
    {
        let ghost e0 = self@;
        proof {
            preds_in_range(c.func@, c.func@.blocks.len(), b.0 as nat);
        }
        let mut k: usize = 0;
        while k < preds.len()
            invariant
                c.ok(),
                preds@ == c.func@.preds(b.0 as nat),
                forall|i: int| 0 <= i < preds@.len() ==> (#[trigger] preds@[i]).0 < c.func@.blocks.len(),
                k <= preds@.len(),
                e0.lir_consume(c@, b, 0, loc) == self@.lir_consume(c@, b, k as nat, loc),
            decreases preds@.len() - k,
        {
            let p = preds[k];
            let block = c.func.block(p);
            if let Some(Terminator::JumpIfMatch { taken, payloads, .. }) = &block.term {
                if *taken == b {
                    proof {
                        assert(c.func@.block_indexed(c.func@.blocks[p.0 as int], p.0 as int));
                        let t = c.func@.blocks[p.0 as int].term->0;
                        assert forall|i: int| 0 <= i < payloads@.len() implies c.has(#[trigger] payloads@[i]) by {
                            assert(t.uses()[i + 1] == payloads@[i]);
                        }
                    }
                    self.payloads(c, payloads, loc);
                }
            }
            k = k + 1;
        }
    }

    fn copies(&mut self, ms: &Vec<(u8, u8)>, loc: DebugLoc)
        ensures
            final(self)@ == old(self)@.lir_copies(ms@, 0, loc),
    {
        let ghost e0 = self@;
        let mut i: usize = 0;
        while i < ms.len()
            invariant
                i <= ms@.len(),
                e0.lir_copies(ms@, 0, loc) == self@.lir_copies(ms@, i as nat, loc),
            decreases ms@.len() - i,
        {
            let m = ms[i];
            if m.0 != m.1 {
                self.load(m.1, loc);
                self.store(m.0, loc);
            }
            i = i + 1;
        }
    }

    fn emit_br_cond(&mut self, c: &Lir<'_>, block: &MirBlock, cond: ValueId, loc: DebugLoc) -> (r: Result<
        (),
        LowerError,
    >)
        requires
            c.ok(),
            c.has(cond),
            block.id.0 < c.func@.blocks.len(),
            block@ == c.func@.blocks[block.id.0 as int],
        ensures
            ran(r, old(self)@.lir_cond(c@, block@, cond, loc), *final(self)),
    {
        let k = match find_compare(block, cond) {
            Some(k) => k,
            None => {
                return self.emit_value(c, cond, loc);
            },
        };
        proof {
            compare_from_found(block@.insts, cond, 0);
            assert(c.func@.block_indexed(c.func@.blocks[block.id.0 as int], block.id.0 as int));
            assert(c.func@.inst_indexed(block@.insts[k as int]));
            assert(block@.insts[k as int] == block.insts@[k as int]@);
        }
        if let MirInst::Cmp { op, ty, lhs, rhs, .. } = &block.insts[k] {
            proof {
                let u = block@.insts[k as int].uses();
                assert(u[0] == *lhs && u[1] == *rhs);
            }
            return self.emit_bin(c, stack_compare_op(*op, *ty), *lhs, *rhs, loc, c.func.types.len());
        }
        Ok(())
    }

    fn emit_hi_after_lo(&mut self, c: &Lir<'_>, lo: ValueId, hi: ValueId, loc: DebugLoc) -> (r: Result<
        (),
        LowerError,
    >)
        requires
            c.ok(),
            c.has(hi),
        ensures
            ran(r, old(self)@.lir_second(c@, lo, hi, loc), *final(self)),
    {
        if c.rebuilt(hi) {
            if let Some((b, i)) = c.def(hi) {
                let inst = c.inst_at(b, i);
                if let MirInst::Bin { op, ty, lhs, rhs, .. } = inst {
                    if *lhs == lo {
                        assert(inst@.uses()[1] == *rhs);
                        self.emit(IlOp::Dup { loc });
                        match self.emit_value(c, *rhs, loc) {
                            Ok(_) => {},
                            Err(e) => {
                                return Err(e);
                            },
                        }
                        self.emit(IlOp::Bin { op: stack_bin_op(*op, *ty), loc });
                        return Ok(());
                    }
                }
            }
        }
        self.emit_value(c, hi, loc)
    }

    fn emit_return(&mut self, c: &Lir<'_>, lo: Option<ValueId>, hi: Option<ValueId>, loc: DebugLoc) -> (r: Result<
        (),
        LowerError,
    >)
        requires
            c.ok(),
            lo is Some ==> c.has(lo->0),
            hi is Some ==> c.has(hi->0),
        ensures
            ran(r, old(self)@.lir_return(c@, lo, hi, loc), *final(self)),
    {
        if hi.is_some() && c.func.ret_layout != MirLayout::TwoSlot {
            return fail("pair return without twoslot");
        }
        match lo {
            Some(v) => {
                match self.emit_value(c, v, loc) {
                    Ok(_) => {},
                    Err(e) => {
                        return Err(e);
                    },
                }
            },
            None => {
                if hi.is_some() {
                    return fail("empty pair return");
                }
                self.emit(IlOp::Const { imm: 0, loc });
            },
        }
        if let Some(h) = hi {
            if let Some(l) = lo {
                match self.emit_hi_after_lo(c, l, h, loc) {
                    Ok(_) => {},
                    Err(e) => {
                        return Err(e);
                    },
                }
            }
        }
        self.emit(IlOp::Return { loc, ret_words: ret_words_from_hi(hi) });
        Ok(())
    }

    fn split(&mut self, ts: &Vec<(u8, u8)>, tl: Label, fs: &Vec<(u8, u8)>, fl: Label, loc: DebugLoc)
        ensures
            final(self)@ == old(self)@.lir_split(ts@, tl, fs@, fl, loc),
    {
        let l = Label(self.next);
        if self.next < 0xffff_ffff {
            self.next = self.next + 1;
        }
        self.emit(jump_op(IlJumpKind::JumpIfFalse, l, loc));
        self.copies(ts, loc);
        self.emit(jump_op(IlJumpKind::Unconditional, tl, loc));
        self.emit(IlOp::Label(l));
        self.copies(fs, loc);
        self.emit(jump_op(IlJumpKind::Unconditional, fl, loc));
    }

    fn emit_term(&mut self, c: &Lir<'_>, b: usize, loc: DebugLoc) -> (r: Result<(), LowerError>)
        requires
            c.ok(),
            b < c.func@.blocks.len(),
        ensures
            ran(r, old(self)@.lir_term(c@, b as int, loc), *final(self)),
    {
        let block = &c.func.blocks[b];
        proof {
            assert(c.func@.block_indexed(c.func@.blocks[b as int], b as int));
        }
        let term = match &block.term {
            Some(t) => t,
            None => {
                return fail("missing terminator");
            },
        };
        let ghost u = term@.uses();
        let ghost t = term@.targets();
        assert(c.func@.term_indexed(term@));
        match term {
            Terminator::Jump { dest } => {
                assert(t[0] == *dest);
                let ms = phi_moves(c.func, block.id, *dest, c.regs, c.scratch);
                self.copies(&ms, loc);
                if !is_fallthrough(c.func, block.id, *dest) {
                    self.emit(jump_op(IlJumpKind::Unconditional, c.labs[dest.index()], loc));
                }
                Ok(())
            },
            Terminator::Br { cond, taken, not_taken } => {
                assert(u[0] == *cond && t[0] == *taken && t[1] == *not_taken);
                let ts = phi_moves(c.func, block.id, *taken, c.regs, c.scratch);
                let fs = phi_moves(c.func, block.id, *not_taken, c.regs, c.scratch);
                match self.emit_br_cond(c, block, *cond, loc) {
                    Ok(_) => {},
                    Err(e) => {
                        return Err(e);
                    },
                }
                if ts.len() == 0 && fs.len() == 0 {
                    emit_cond_jumps(&mut self.out, c.func, block.id, *taken, *not_taken, c.labs, loc);
                    return Ok(());
                }
                self.split(&ts, c.labs[taken.index()], &fs, c.labs[not_taken.index()], loc);
                Ok(())
            },
            Terminator::Return { lo, hi } => {
                proof {
                    if lo is Some {
                        assert(u[0] == lo->0);
                    }
                    if hi is Some {
                        assert(u[u.len() - 1] == hi->0);
                    }
                }
                self.emit_return(c, *lo, *hi, loc)
            },
            Terminator::Unreachable => {
                self.emit(IlOp::Halt { loc });
                Ok(())
            },
            Terminator::JumpIfMatch { scrutinee, tag, payloads, taken, not_taken } => {
                assert(u[0] == *scrutinee && t[0] == *taken && t[1] == *not_taken);
                let ts = phi_moves(c.func, block.id, *taken, c.regs, c.scratch);
                let fs = phi_moves(c.func, block.id, *not_taken, c.regs, c.scratch);
                if ts.len() > 0 || fs.len() > 0 {
                    return fail("JumpIfMatch + phi moves (keep fuse-IL)");
                }
                match self.emit_value(c, *scrutinee, loc) {
                    Ok(_) => {},
                    Err(e) => {
                        return Err(e);
                    },
                }
                self.emit(
                    jump_op(
                        IlJumpKind::JumpIfMatch { tag: *tag, arity: payloads.len() as u32 },
                        c.labs[taken.index()],
                        loc,
                    ),
                );
                if !is_fallthrough(c.func, block.id, *not_taken) {
                    self.emit(jump_op(IlJumpKind::Unconditional, c.labs[not_taken.index()], loc));
                }
                Ok(())
            },
        }
    }

    fn step(&mut self, c: &Lir<'_>, b: usize, i: usize, fused: Option<ValueId>) -> (r: Result<(), LowerError>)
        requires
            c.ok(),
            b < c.func@.blocks.len(),
            i < c.func@.blocks[b as int].insts.len(),
            fused == c.func@.fused_compare(b as int),
        ensures
            ran(r, old(self)@.lir_step(c@, b as int, i as int), *final(self)),
    {
        let inst = c.inst_at(BlockId(b as u32), i);
        proof {
            assert(c.func@.blocks[b as int].insts[i as int] == inst@);
        }
        let dest = inst.dest();
        let loc = c.func.loc_of(dest);
        if inst.is_phi() || c.rebuilt(dest) {
            return Ok(());
        }
        if let MirInst::MatchPayload { .. } = inst {
            if !is_match_payload(c.func, dest) {
                self.emit(IlOp::from_plain_byte(Byte::new(Instruction::Unpack).with_operand_u32(1), loc));
                self.store_slotted(c, dest, loc);
            }
            return Ok(());
        }
        if let Some(d) = fused {
            if d == dest {
                return Ok(());
            }
        }
        self.emit_stored(c, inst, loc)
    }

    fn insts(&mut self, c: &Lir<'_>, b: usize) -> (r: Result<(), LowerError>)
        requires
            c.ok(),
            b < c.func@.blocks.len(),
        ensures
            ran(r, old(self)@.lir_insts(c@, b as int, 0), *final(self)),
    {
        let ghost e0 = self@;
        let fused = fused_compare_of(c.func, b);
        let block = &c.func.blocks[b];
        let mut i: usize = 0;
        while i < block.insts.len()
            invariant
                e0 == old(self)@,
                c.ok(),
                b < c.func@.blocks.len(),
                block == c.func.blocks@[b as int],
                fused == c.func@.fused_compare(b as int),
                i <= block.insts@.len(),
                e0.lir_insts(c@, b as int, 0) == self@.lir_insts(c@, b as int, i as nat),
            decreases block.insts@.len() - i,
        {
            proof {
                reveal_with_fuel(Emit::lir_insts, 2);
            }
            match self.step(c, b, i, fused) {
                Ok(_) => {},
                Err(e) => {
                    return Err(e);
                },
            }
            i = i + 1;
        }
        Ok(())
    }

    fn blocks(&mut self, c: &Lir<'_>) -> (r: Result<(), LowerError>)
        requires
            c.ok(),
        ensures
            ran(r, old(self)@.lir_blocks(c@, 0), *final(self)),
    {
        let ghost e0 = self@;
        let preds = c.func.preds();
        let mut b: usize = 0;
        while b < c.func.blocks.len()
            invariant
                e0 == old(self)@,
                c.ok(),
                preds@.len() == c.func@.blocks.len(),
                forall|b: int| 0 <= b < preds@.len() ==> (#[trigger] preds@[b])@ == c.func@.preds(b as nat),
                b <= c.func.blocks@.len(),
                e0.lir_blocks(c@, 0) == self@.lir_blocks(c@, b as nat),
            decreases c.func.blocks@.len() - b,
        {
            proof {
                reveal_with_fuel(Emit::lir_blocks, 2);
                assert(c.func@.block_indexed(c.func@.blocks[b as int], b as int));
            }
            let block = &c.func.blocks[b];
            if block.id != c.func.entry {
                self.emit(IlOp::Label(c.labs[b]));
            }
            let loc = c.func.term_loc(block.id);
            self.consume_match(c, block.id, &preds[b], loc);
            match self.insts(c, b) {
                Ok(_) => {},
                Err(e) => {
                    return Err(e);
                },
            }
            match self.emit_term(c, b, loc) {
                Ok(_) => {},
                Err(e) => {
                    return Err(e);
                },
            }
            b = b + 1;
        }
        Ok(())
    }
}

/// Emits stack code. `entry` is the function's own call label. `across_alloc`
/// states that stack maps exist, so that values may stay in slots across
/// allocations. New constants are appended to `pool`.
///
/// A value that is rebuilt on the stack is rebuilt from its operands in turn. Where a value is
/// defined by itself, which verification refuses, the function is refused here too.
pub fn emit_lir(
    func: &MirFunc,
    entry: Option<Label>,
    pool: &mut Vec<u64>,
    across_alloc: bool,
) -> (r: Result<Vec<IlOp>, LowerError>)
    requires
        func@.indexed(),
        phis_indexed(func@),
        field_slots_fit(func@),
    ensures
        ({
            let e = lir_code(func@, entry, old(pool)@, across_alloc);
            &&& final(pool)@ == e.pool
            &&& match e.err {
                None => r matches Ok(v) && v@ == e.out,
                Some(m) => r matches Err(x) && x@ == LowerErrV::Refused(m),
            }
        }),
{
    if func.has_gc_edge() && !across_alloc {
        return Err(refused("MIR→LIR refuses Alloc/GcBarrier without S2b maps (S2c)"));
    }
    let plan = EmitPlan::new(func);
    let (regs, scratch) = match assign_regs(func, &plan.need_slot, "too many lir slots") {
        Ok(a) => a,
        Err(e) => {
            return Err(e);
        },
    };
    let regs = coalesce_safe_latch_phis(func, regs);
    let reserved: Vec<u32> = Vec::new();
    assert(Set::new(|l: u32| reserved@.contains(l)) =~= Set::empty());
    let (labs, next) = alloc_block_labels(func, entry, &reserved, max_label_hint(entry));
    let frame: u32 = highest_slot(&regs, &plan.need_slot) as u32 + 1;
    let c = Lir { func, plan: &plan, regs: &regs, scratch, labs: &labs };
    let mut e = LirOut { out: Vec::new(), pool: Vec::new(), next };
    std::mem::swap(&mut e.pool, pool);
    e.emit(IlOp::Label(labs[func.entry.index()]));
    if frame as usize > func.params.len() {
        e.emit(IlOp::byte(Byte::new(Instruction::Seek).with_operand_u32(frame)));
    }
    let r = e.blocks(&c);
    std::mem::swap(&mut e.pool, pool);
    match r {
        Ok(_) => Ok(e.out),
        Err(x) => Err(x),
    }
}

/// The registers of named locals and the resume map, for the registers that [`emit_lir`] assigns.
pub fn lir_sidecars(func: &MirFunc) -> (r: (IdMap<u32>, DraftDeoptMap))
    requires
        func@.indexed(),
        phis_indexed(func@),
    ensures
        ({
            let slots = slot_flags(func@);
            let regs = emit_regs(func@, slots, "too many lir slots"@);
            &&& r.0@ == remapped(func@, regs, slots)
            &&& r.1@ == resume_map(func@, regs, slots)
        }),
{
    let plan = EmitPlan::new(func);
    let regs: Vec<u8> = match assign_regs(func, &plan.need_slot, "too many lir slots") {
        Ok(a) => coalesce_safe_latch_phis(func, a.0),
        Err(_) => Vec::new(),
    };
    assert(regs@ =~= emit_regs(func@, slot_flags(func@), "too many lir slots"@));
    (
        debug_slot_remap(func, regs.as_slice(), plan.need_slot.as_slice()),
        encode_draft(func, regs.as_slice(), plan.need_slot.as_slice()),
    )
}

} // verus!

//! Values that stay on the operand stack in dense code.
//!
//! A value that only feeds a call of the function itself, or the return behind
//! one, needs no slot: it is computed on the stack where it is used.
use super::func::{BlockV, FuncV, MirBlock, MirFunc};
use super::index::{first_in, reads, term_reads};
use super::inst::{has_id, BlockId, InstV, MirConst, MirInst, TermV, Terminator, ValueId};
use crate::il::op::Label;
use vstd::prelude::*;

verus! {

pub struct ConvoyPlan {
    pub need_slot: Vec<bool>,
    pub def: Vec<Option<(BlockId, usize)>>,
    pub self_entry: Option<Label>,
}

/// Membership flag; `false` behind the end.
pub open spec fn flag(s: Seq<bool>, v: ValueId) -> bool {
    v.0 < s.len() && s[v.0 as int]
}

pub fn has_flag(s: &Vec<bool>, v: ValueId) -> (r: bool)
    ensures
        r == flag(s@, v),
{
    let i = v.index();
    i < s.len() && s[i]
}

/// Number of set flags.
pub open spec fn count_set(s: Seq<bool>) -> nat
    decreases s.len(),
{
    if s.len() == 0 {
        0
    } else {
        count_set(s.drop_last()) + (if s.last() {
            1nat
        } else {
            0nat
        })
    }
}

pub proof fn count_set_bound(s: Seq<bool>)
    ensures
        count_set(s) <= s.len(),
    decreases s.len(),
{
    if s.len() > 0 {
        count_set_bound(s.drop_last());
    }
}

pub proof fn count_set_update(s: Seq<bool>, i: int)
    requires
        0 <= i < s.len(),
        !s[i],
    ensures
        count_set(s.update(i, true)) == count_set(s) + 1,
    decreases s.len(),
{
    let t = s.update(i, true);
    if i == s.len() - 1 {
        assert(t.drop_last() =~= s.drop_last());
    } else {
        assert(t.drop_last() =~= s.drop_last().update(i, true));
        count_set_update(s.drop_last(), i);
    }
}

/// All flags false.
pub fn no_flags(n: usize) -> (r: Vec<bool>)
    ensures
        r@ == Seq::new(n as nat, |i: int| false),
{
    let mut r: Vec<bool> = Vec::new();
    let mut i: usize = 0;
    while i < n
        invariant
            i <= n,
            r@ == Seq::new(i as nat, |k: int| false),
        decreases n - i,
    {
        r.push(false);
        i = i + 1;
        assert(r@ =~= Seq::new(i as nat, |k: int| false));
    }
    r
}

/// Call of the function itself.
pub open spec fn self_call(inst: InstV, entry: Option<Label>) -> bool {
    inst is Call && Some(inst->target) == entry
}

fn same_label(a: Label, b: Option<Label>) -> (r: bool)
    ensures
        r == (Some(a) == b),
{
    match b {
        Some(l) => a.0 == l.0,
        None => false,
    }
}

fn is_self_call_inst(inst: &MirInst, entry: Option<Label>) -> (r: bool)
    ensures
        r == self_call(inst@, entry),
{
    match inst {
        MirInst::Call { target, .. } => same_label(*target, entry),
        _ => false,
    }
}

/// Comparison of a block, from position `i` on, whose result is `cond`.
pub open spec fn compare_from(insts: Seq<InstV>, cond: ValueId, i: nat) -> Option<nat>
    decreases insts.len() - i,
{
    if i >= insts.len() {
        None
    } else if insts[i as int] is Cmp && insts[i as int].dest() == cond {
        Some(i)
    } else {
        compare_from(insts, cond, i + 1)
    }
}

/// A terminator that names `d`, other than the branch of block `home`.
pub open spec fn term_elsewhere(block: BlockV, d: ValueId, home: BlockId) -> bool {
    match block.term {
        Some(TermV::Br { cond, .. }) => cond == d && block.id != home,
        Some(TermV::Return { lo, hi }) => lo == Some(d) || hi == Some(d),
        Some(TermV::JumpIfMatch { scrutinee, payloads, .. }) => scrutinee == d || payloads.contains(d),
        _ => false,
    }
}

impl FuncV {
    /// Something besides the branch of block `home` names `d`.
    pub open spec fn used_outside_branch(self, d: ValueId, home: BlockId) -> bool {
        self.read_by_inst(d) || exists|b: int|
            0 <= b < self.blocks.len() && term_elsewhere(#[trigger] self.blocks[b], d, home)
    }

    /// Comparison of block `b` that only its branch reads.
    pub open spec fn fused_compare(self, b: int) -> Option<ValueId> {
        match self.blocks[b].term {
            Some(TermV::Br { cond, .. }) => if compare_from(self.blocks[b].insts, cond, 0) is Some
                && !self.used_outside_branch(cond, self.blocks[b].id) {
                Some(cond)
            } else {
                None
            },
            _ => None,
        }
    }

    pub open spec fn is_fused(self, v: ValueId) -> bool {
        exists|b: int| 0 <= b < self.blocks.len() && #[trigger] self.fused_compare(b) == Some(v)
    }

    /// Some phi reads `v`.
    pub open spec fn read_by_phi(self, v: ValueId) -> bool {
        exists|b: int, i: int|
            0 <= b < self.blocks.len() && 0 <= i < self.blocks[b].insts.len() && (
            #[trigger] self.blocks[b].insts[i]).phi() && self.blocks[b].insts[i].uses().contains(v)
    }

    /// Constant that is cheaper to rebuild than to keep.
    pub open spec fn cheap_const(self, v: ValueId) -> bool {
        match self.def_inst(v) {
            Some(InstV::Const { c, .. }) => c is I64 || c is I32 || c is Bool,
            _ => false,
        }
    }

    /// Some call of the function itself returns `a` or `b`.
    pub open spec fn self_call_gives(self, a: ValueId, b: ValueId, entry: Option<Label>) -> bool {
        exists|x: int, i: int|
            0 <= x < self.blocks.len() && 0 <= i < self.blocks[x].insts.len() && self_call(
                #[trigger] self.blocks[x].insts[i],
                entry,
            ) && (self.blocks[x].insts[i].dest() == a || self.blocks[x].insts[i].dest() == b)
    }

    /// `d` is read by nothing but one-word returns, and by one of those.
    pub open spec fn only_returned(self, d: ValueId) -> bool {
        &&& !self.read_by_inst(d)
        &&& forall|b: int|
            0 <= b < self.blocks.len() && (#[trigger] self.blocks[b]).term is Some
                && self.blocks[b].term->0.uses().contains(d) ==> self.blocks[b].term == Some(
                (TermV::Return { lo: Some(d), hi: None }),
            )
        &&& exists|b: int|
            0 <= b < self.blocks.len() && (#[trigger] self.blocks[b]).term == Some(
                (TermV::Return { lo: Some(d), hi: None }),
            )
    }

    /// Binary operation that joins a call's result and is then returned.
    pub open spec fn joins_call(self, d: ValueId, convoy: Seq<bool>, entry: Option<Label>) -> bool {
        match self.first_def(d, 0) {
            Some(InstV::Bin { lhs, rhs, .. }) => (flag(convoy, lhs) || flag(convoy, rhs) || self.self_call_gives(
                lhs,
                rhs,
                entry,
            )) && self.only_returned(d),
            _ => false,
        }
    }

    /// Instruction that takes its operands from the stack.
    pub open spec fn keeps_on_stack(self, inst: InstV, convoy: Seq<bool>, entry: Option<Label>) -> bool {
        match inst {
            InstV::Call { target, .. } => Some(target) == entry,
            InstV::Bin { dest, .. } => flag(convoy, dest) || self.joins_call(dest, convoy, entry),
            _ => false,
        }
    }

    /// Call result, or convoy value built from one.
    pub open spec fn call_like(self, v: ValueId, convoy: Seq<bool>, entry: Option<Label>) -> bool {
        match self.def_inst(v) {
            Some(inst) => self_call(inst, entry) || (flag(convoy, v) && inst is Bin),
            None => false,
        }
    }

    /// Instruction `inst` of block `b` does not keep `v` off the stack.
    pub open spec fn inst_permits(
        self,
        b: int,
        inst: InstV,
        v: ValueId,
        convoy: Seq<bool>,
        entry: Option<Label>,
    ) -> bool {
        inst.uses().contains(v) ==> !inst.phi() && Some(self.blocks[b].id) == self.home(v) && self.keeps_on_stack(
            inst,
            convoy,
            entry,
        )
    }

    /// The terminator of block `b` does not keep `v` off the stack.
    pub open spec fn term_permits(self, b: int, v: ValueId, convoy: Seq<bool>, entry: Option<Label>) -> bool {
        match self.blocks[b].term {
            Some(t) => t.uses().contains(v) ==> Some(self.blocks[b].id) == self.home(v) && t == (TermV::Return {
                lo: Some(v),
                hi: None,
            }) && self.returned_kind(v, convoy, entry),
            None => true,
        }
    }

    /// Value whose return may stay on the stack: a call, or an operation that
    /// joins one.
    pub open spec fn returned_kind(self, v: ValueId, convoy: Seq<bool>, entry: Option<Label>) -> bool {
        match self.def_inst(v) {
            Some(inst) => self_call(inst, entry) || (match inst {
                InstV::Bin { lhs, rhs, .. } => self.call_like(lhs, convoy, entry) || self.call_like(
                    rhs,
                    convoy,
                    entry,
                ),
                _ => false,
            }),
            None => false,
        }
    }

    /// Something reads `v`.
    pub open spec fn read_at_all(self, v: ValueId) -> bool {
        self.read_by_inst(v) || exists|b: int|
            0 <= b < self.blocks.len() && (#[trigger] self.blocks[b]).term is Some
                && self.blocks[b].term->0.uses().contains(v)
    }

    /// `v` can live on the stack, given the values that already do.
    pub open spec fn convoy_shape(self, v: ValueId, convoy: Seq<bool>, entry: Option<Label>) -> bool {
        &&& match self.def_inst(v) {
            Some(inst) => inst is Const || inst is Bin || self_call(inst, entry),
            None => false,
        }
        &&& forall|b: int, i: int|
            0 <= b < self.blocks.len() && 0 <= i < self.blocks[b].insts.len() ==> self.inst_permits(
                b,
                #[trigger] self.blocks[b].insts[i],
                v,
                convoy,
                entry,
            )
        &&& forall|b: int| 0 <= b < self.blocks.len() ==> #[trigger] self.term_permits(b, v, convoy, entry)
        &&& self.read_at_all(v)
    }

    /// One sweep over the values from `i` on.
    pub open spec fn convoy_sweep(self, convoy: Seq<bool>, i: nat, entry: Option<Label>) -> Seq<bool>
        decreases self.types.len() - i,
    {
        if i >= self.types.len() {
            convoy
        } else {
            let v = ValueId(i as u32);
            let take = !convoy[i as int] && !self.is_fused(v) && !self.read_by_phi(v) && !self.param(i as int)
                && self.convoy_shape(v, convoy, entry);
            self.convoy_sweep(
                if take {
                    convoy.update(i as int, true)
                } else {
                    convoy
                },
                i + 1,
                entry,
            )
        }
    }

    /// Sweeps until nothing changes. Each sweep but the last adds a value, so
    /// one sweep per value is enough.
    pub open spec fn convoy_settled(self, convoy: Seq<bool>, fuel: nat, entry: Option<Label>) -> Seq<bool>
        decreases fuel,
    {
        let next = self.convoy_sweep(convoy, 0, entry);
        if fuel == 0 || next == convoy {
            convoy
        } else {
            self.convoy_settled(next, (fuel - 1) as nat, entry)
        }
    }

    /// Values on the operand stack.
    pub open spec fn convoy(self, entry: Option<Label>) -> Seq<bool> {
        self.convoy_settled(Seq::new(self.types.len(), |i: int| false), self.types.len() + 1, entry)
    }

    /// Slots before constants and call pairs are settled.
    pub open spec fn base_slots(self, entry: Option<Label>) -> Seq<bool> {
        Seq::new(
            self.types.len(),
            |i: int|
                self.param(i) || (!self.is_fused(ValueId(i as u32)) && !self.convoy(entry)[i]
                    && !self.cheap_const(ValueId(i as u32)) && self.home(ValueId(i as u32)) is Some),
        )
    }

    /// Some instruction whose result has a slot reads `v`.
    pub open spec fn read_by_slotted(self, v: ValueId, slots: Seq<bool>) -> bool {
        exists|b: int, i: int|
            0 <= b < self.blocks.len() && 0 <= i < self.blocks[b].insts.len() && (
            #[trigger] self.blocks[b].insts[i]).uses().contains(v) && flag(slots, self.blocks[b].insts[i].dest())
    }

    /// Gives cheap constants from `i` on a slot where a slotted value reads
    /// them.
    pub open spec fn const_slots(self, slots: Seq<bool>, i: nat) -> Seq<bool>
        decreases self.types.len() - i,
    {
        if i >= self.types.len() {
            slots
        } else {
            let v = ValueId(i as u32);
            self.const_slots(
                if self.cheap_const(v) && self.read_by_slotted(v, slots) {
                    slots.update(i as int, true)
                } else {
                    slots
                },
                i + 1,
            )
        }
    }

    /// Both words of a two-word call get a slot when one of them has one.
    pub open spec fn pair_slots(self, slots: Seq<bool>, b: nat, i: nat) -> Seq<bool>
        decreases self.blocks.len() - b, (if b < self.blocks.len() {
            self.blocks[b as int].insts.len() - i
        } else {
            0
        }),
    {
        if b >= self.blocks.len() {
            slots
        } else if i >= self.blocks[b as int].insts.len() {
            self.pair_slots(slots, b + 1, 0)
        } else {
            self.pair_slots(pair_slot(slots, self.blocks[b as int].insts[i as int]), b, i + 1)
        }
    }

    /// Values that dense code keeps in a slot.
    pub open spec fn dense_slots(self, entry: Option<Label>) -> Seq<bool> {
        self.pair_slots(self.const_slots(self.base_slots(entry), 0), 0, 0)
    }
}

pub open spec fn pair_slot(slots: Seq<bool>, inst: InstV) -> Seq<bool> {
    match inst {
        InstV::Call { dest, dest_hi: Some(hi), .. } => if slots[dest.0 as int] || slots[hi.0 as int] {
            slots.update(dest.0 as int, true).update(hi.0 as int, true)
        } else {
            slots
        },
        _ => slots,
    }
}

/// The instruction at `i` ends the block with a call whose result is returned.
pub open spec fn tail_call(block: BlockV, i: int) -> bool {
    i == block.insts.len() - 1 && match (block.insts[i], block.term) {
        (InstV::Call { dest, dest_hi, .. }, Some(TermV::Return { lo, hi })) => lo == Some(dest) && hi == dest_hi,
        _ => false,
    }
}

pub(crate) fn same_opt(a: Option<ValueId>, b: Option<ValueId>) -> (r: bool)
    ensures
        r == (a == b),
{
    match (a, b) {
        (Some(x), Some(y)) => x == y,
        (None, None) => true,
        _ => false,
    }
}

pub fn is_tail_call_inst(block: &MirBlock, i: usize) -> (r: bool)
    requires
        i < block@.insts.len(),
    ensures
        r == tail_call(block@, i as int),
{
    assert(block@.insts[i as int] == block.insts@[i as int]@);
    if i != block.insts.len() - 1 {
        return false;
    }
    if let MirInst::Call { dest, dest_hi, .. } = &block.insts[i] {
        if let Some(Terminator::Return { lo, hi }) = &block.term {
            return same_opt(*lo, Some(*dest)) && same_opt(*hi, *dest_hi);
        }
    }
    false
}

impl ConvoyPlan {
    /// The plan is that of `f`.
    pub open spec fn plans(self, f: FuncV) -> bool {
        &&& self.need_slot@ == f.dense_slots(self.self_entry)
        &&& self.need_slot@.len() == f.types.len()
        &&& self.def@.len() == f.types.len()
        &&& forall|v: int|
            0 <= v < self.def@.len() ==> match #[trigger] self.def@[v] {
                Some(p) => f.def(ValueId(v as u32)) == Some((p.0, p.1 as nat)) && p.0.0 < f.blocks.len() && p.1
                    < f.blocks[p.0.0 as int].insts.len(),
                None => f.def(ValueId(v as u32)) is None,
            }
    }
}

pub fn find_compare(block: &MirBlock, cond: ValueId) -> (r: Option<usize>)
    ensures
        match r {
            Some(i) => compare_from(block@.insts, cond, 0) == Some(i as nat),
            None => compare_from(block@.insts, cond, 0) is None,
        },
{
    let mut i: usize = 0;
    while i < block.insts.len()
        invariant
            i <= block.insts@.len(),
            compare_from(block@.insts, cond, 0) == compare_from(block@.insts, cond, i as nat),
        decreases block.insts@.len() - i,
    {
        assert(block@.insts[i as int] == block.insts@[i as int]@);
        if let MirInst::Cmp { dest, .. } = &block.insts[i] {
            if *dest == cond {
                return Some(i);
            }
        }
        i = i + 1;
    }
    None
}

fn names_elsewhere(block: &MirBlock, d: ValueId, home: BlockId) -> (r: bool)
    ensures
        r == term_elsewhere(block@, d, home),
{
    match &block.term {
        Some(Terminator::Br { cond, .. }) => *cond == d && block.id != home,
        Some(Terminator::Return { lo, hi }) => same_opt(*lo, Some(d)) || same_opt(*hi, Some(d)),
        Some(Terminator::JumpIfMatch { scrutinee, payloads, .. }) => *scrutinee == d || has_id(payloads, d),
        _ => false,
    }
}

fn used_outside(func: &MirFunc, d: ValueId, home: BlockId) -> (r: bool)
    ensures
        r == func@.used_outside_branch(d, home),
{
    if func.read_by_inst(d) {
        return true;
    }
    let mut b: usize = 0;
    while b < func.blocks.len()
        invariant
            b <= func.blocks@.len(),
            forall|x: int| 0 <= x < b ==> !term_elsewhere(#[trigger] func@.blocks[x], d, home),
        decreases func.blocks@.len() - b,
    {
        if names_elsewhere(&func.blocks[b], d, home) {
            assert(term_elsewhere(func@.blocks[b as int], d, home));
            return true;
        }
        b = b + 1;
    }
    false
}

/// Comparison of a block that only the block's branch reads.
pub fn fused_compare_of(func: &MirFunc, b: usize) -> (r: Option<ValueId>)
    requires
        b < func@.blocks.len(),
    ensures
        r == func@.fused_compare(b as int),
{
    let block = &func.blocks[b];
    assert(func@.blocks[b as int] == block@);
    if let Some(Terminator::Br { cond, .. }) = &block.term {
        if find_compare(block, *cond).is_some() && !used_outside(func, *cond, block.id) {
            return Some(*cond);
        }
    }
    None
}

/// Which values are fused comparisons.
pub fn fused_flags(func: &MirFunc) -> (r: Vec<bool>)
    requires
        func@.indexed(),
    ensures
        r@.len() == func@.types.len(),
        forall|i: int| 0 <= i < r@.len() ==> #[trigger] r@[i] == func@.is_fused(ValueId(i as u32)),
{
    let mut r = no_flags(func.types.len());
    let mut b: usize = 0;
    while b < func.blocks.len()
        invariant
            b <= func.blocks@.len(),
            func@.indexed(),
            r@.len() == func@.types.len(),
            forall|i: int|
                0 <= i < r@.len() ==> (#[trigger] r@[i] <==> exists|x: int|
                    0 <= x < b && #[trigger] func@.fused_compare(x) == Some(ValueId(i as u32))),
        decreases func.blocks@.len() - b,
    {
        let ghost r0 = r@;
        if let Some(d) = fused_compare_of(func, b) {
            proof {
                assert(func@.block_indexed(func@.blocks[b as int], b as int));
                assert(func@.blocks[b as int].term->0.uses() =~= seq![d]);
                assert(func@.blocks[b as int].term->0.uses()[0] == d);
            }
            r.set(d.index(), true);
        }
        assert forall|i: int| 0 <= i < r@.len() implies (#[trigger] r@[i] <==> exists|x: int|
            0 <= x < b + 1 && #[trigger] func@.fused_compare(x) == Some(ValueId(i as u32))) by {
            if r0[i] {
                let x = choose|x: int| 0 <= x < b && #[trigger] func@.fused_compare(x) == Some(ValueId(i as u32));
                assert(func@.fused_compare(x) == Some(ValueId(i as u32)));
            }
            if func@.fused_compare(b as int) == Some(ValueId(i as u32)) {
            }
        }
        b = b + 1;
    }
    r
}

/// Which values some phi reads.
pub fn phi_read_flags(func: &MirFunc) -> (r: Vec<bool>)
    requires
        func@.indexed(),
    ensures
        r@.len() == func@.types.len(),
        forall|i: int| 0 <= i < r@.len() ==> #[trigger] r@[i] == func@.read_by_phi(ValueId(i as u32)),
{
    let n = func.types.len();
    let mut r: Vec<bool> = Vec::new();
    let mut v: usize = 0;
    while v < n
        invariant
            v <= n,
            n == func@.types.len(),
            func@.indexed(),
            r@.len() == v,
            forall|i: int| 0 <= i < r@.len() ==> #[trigger] r@[i] == func@.read_by_phi(ValueId(i as u32)),
        decreases n - v,
    {
        let x = phi_reads(func, ValueId(v as u32));
        r.push(x);
        v = v + 1;
    }
    r
}

fn phi_reads(func: &MirFunc, v: ValueId) -> (r: bool)
    ensures
        r == func@.read_by_phi(v),
{
    let mut b: usize = 0;
    while b < func.blocks.len()
        invariant
            b <= func.blocks@.len(),
            forall|x: int, y: int|
                0 <= x < b && 0 <= y < func@.blocks[x].insts.len() ==> !((
                #[trigger] func@.blocks[x].insts[y]).phi() && func@.blocks[x].insts[y].uses().contains(v)),
        decreases func.blocks@.len() - b,
    {
        let insts = &func.blocks[b].insts;
        let mut i: usize = 0;
        while i < insts.len()
            invariant
                b < func.blocks@.len(),
                insts@ == func.blocks@[b as int].insts@,
                i <= insts@.len(),
                forall|y: int|
                    0 <= y < i ==> !((#[trigger] func@.blocks[b as int].insts[y]).phi()
                        && func@.blocks[b as int].insts[y].uses().contains(v)),
            decreases insts@.len() - i,
        {
            if insts[i].is_phi() && reads(&insts[i], v) {
                assert(func@.blocks[b as int].insts[i as int].phi());
                return true;
            }
            i = i + 1;
        }
        b = b + 1;
    }
    false
}

/// Instruction that defines `v`.
fn def_inst_of<'a>(func: &'a MirFunc, def: &Vec<Option<(BlockId, usize)>>, v: ValueId) -> (r: Option<&'a MirInst>)
    requires
        func@.indexed(),
        def@.len() == func@.types.len(),
        v.0 < def@.len(),
        forall|x: int|
            0 <= x < def@.len() ==> match #[trigger] def@[x] {
                Some(p) => func@.def(ValueId(x as u32)) == Some((p.0, p.1 as nat)) && p.0.0 < func@.blocks.len() && p.1
                    < func@.blocks[p.0.0 as int].insts.len(),
                None => func@.def(ValueId(x as u32)) is None,
            },
    ensures
        match r {
            Some(i) => func@.def_inst(v) == Some(i@),
            None => func@.def_inst(v) is None,
        },
{
    match def[v.index()] {
        Some((b, i)) => {
            assert(func@.blocks[b.0 as int].insts[i as int] == func.blocks@[b.0 as int].insts@[i as int]@);
            Some(&func.blocks[b.index()].insts[i])
        },
        None => None,
    }
}

/// Facts shared by the queries of one plan.
struct Shape<'a> {
    func: &'a MirFunc,
    def: &'a Vec<Option<(BlockId, usize)>>,
    entry: Option<Label>,
}

impl<'a> Shape<'a> {
    spec fn ok(self) -> bool {
        &&& self.func@.indexed()
        &&& self.def@.len() == self.func@.types.len()
        &&& forall|x: int|
            0 <= x < self.def@.len() ==> match #[trigger] self.def@[x] {
                Some(p) => self.func@.def(ValueId(x as u32)) == Some((p.0, p.1 as nat)) && p.0.0
                    < self.func@.blocks.len() && p.1 < self.func@.blocks[p.0.0 as int].insts.len(),
                None => self.func@.def(ValueId(x as u32)) is None,
            }
    }

    fn inst(&self, v: ValueId) -> (r: Option<&'a MirInst>)
        requires
            self.ok(),
            v.0 < self.def@.len(),
        ensures
            match r {
                Some(i) => self.func@.def_inst(v) == Some(i@),
                None => self.func@.def_inst(v) is None,
            },
    {
        def_inst_of(self.func, self.def, v)
    }

    fn home(&self, v: ValueId) -> (r: Option<BlockId>)
        requires
            self.ok(),
            v.0 < self.def@.len(),
        ensures
            r == self.func@.home(v),
    {
        match self.def[v.index()] {
            Some((b, _)) => Some(b),
            None => if self.func.is_param(v.index()) {
                Some(self.func.entry)
            } else {
                None
            },
        }
    }

    fn gives(&self, a: ValueId, c: ValueId) -> (r: bool)
        ensures
            r == self.func@.self_call_gives(a, c, self.entry),
    {
        let func = self.func;
        let mut b: usize = 0;
        while b < func.blocks.len()
            invariant
                func == self.func,
                b <= func.blocks@.len(),
                forall|x: int, y: int|
                    0 <= x < b && 0 <= y < func@.blocks[x].insts.len() ==> !(self_call(
                        #[trigger] func@.blocks[x].insts[y],
                        self.entry,
                    ) && (func@.blocks[x].insts[y].dest() == a || func@.blocks[x].insts[y].dest() == c)),
            decreases func.blocks@.len() - b,
        {
            let insts = &func.blocks[b].insts;
            let mut i: usize = 0;
            while i < insts.len()
                invariant
                    func == self.func,
                    b < func.blocks@.len(),
                    insts@ == func.blocks@[b as int].insts@,
                    i <= insts@.len(),
                    forall|y: int|
                        0 <= y < i ==> !(self_call(#[trigger] func@.blocks[b as int].insts[y], self.entry) && (
                        func@.blocks[b as int].insts[y].dest() == a || func@.blocks[b as int].insts[y].dest() == c)),
                decreases insts@.len() - i,
            {
                let inst = &insts[i];
                assert(func@.blocks[b as int].insts[i as int] == inst@);
                if is_self_call_inst(inst, self.entry) && (inst.dest() == a || inst.dest() == c) {
                    return true;
                }
                i = i + 1;
            }
            b = b + 1;
        }
        false
    }

    fn only_returned(&self, d: ValueId) -> (r: bool)
        ensures
            r == self.func@.only_returned(d),
    {
        let func = self.func;
        if func.read_by_inst(d) {
            return false;
        }
        let mut only = false;
        let mut b: usize = 0;
        while b < func.blocks.len()
            invariant
                func == self.func,
                !func@.read_by_inst(d),
                b <= func.blocks@.len(),
                only == (exists|x: int|
                    0 <= x < b && (#[trigger] func@.blocks[x]).term == Some(
                        (TermV::Return { lo: Some(d), hi: None }),
                    )),
                forall|x: int|
                    0 <= x < b && (#[trigger] func@.blocks[x]).term is Some && func@.blocks[x].term->0.uses().contains(
                        d,
                    ) ==> func@.blocks[x].term == Some((TermV::Return { lo: Some(d), hi: None })),
            decreases func.blocks@.len() - b,
        {
            let block = &func.blocks[b];
            assert(func@.blocks[b as int] == block@);
            if let Some(t) = &block.term {
                let hit = term_reads(t, d);
                let one = is_one_return(t, d);
                if one {
                    only = true;
                } else if hit {
                    return false;
                }
            }
            b = b + 1;
        }
        only
    }

    fn joins_call(&self, d: ValueId, convoy: &Vec<bool>) -> (r: bool)
        ensures
            r == self.func@.joins_call(d, convoy@, self.entry),
    {
        match first_def_of(self.func, d) {
            Some(MirInst::Bin { lhs, rhs, .. }) => (has_flag(convoy, *lhs) || has_flag(convoy, *rhs) || self.gives(
                *lhs,
                *rhs,
            )) && self.only_returned(d),
            _ => false,
        }
    }

    fn keeps(&self, inst: &MirInst, convoy: &Vec<bool>) -> (r: bool)
        ensures
            r == self.func@.keeps_on_stack(inst@, convoy@, self.entry),
    {
        match inst {
            MirInst::Call { target, .. } => same_label(*target, self.entry),
            MirInst::Bin { dest, .. } => has_flag(convoy, *dest) || self.joins_call(*dest, convoy),
            _ => false,
        }
    }

    fn call_like(&self, v: ValueId, convoy: &Vec<bool>) -> (r: bool)
        requires
            self.ok(),
            v.0 < self.def@.len(),
        ensures
            r == self.func@.call_like(v, convoy@, self.entry),
    {
        match self.inst(v) {
            Some(inst) => is_self_call_inst(inst, self.entry) || (has_flag(convoy, v) && matches!(
                inst,
                MirInst::Bin { .. }
            )),
            None => false,
        }
    }

    fn returned_kind(&self, v: ValueId, convoy: &Vec<bool>) -> (r: bool)
        requires
            self.ok(),
            v.0 < self.def@.len(),
        ensures
            r == self.func@.returned_kind(v, convoy@, self.entry),
    {
        match self.inst(v) {
            Some(inst) => {
                if is_self_call_inst(inst, self.entry) {
                    return true;
                }
                match inst {
                    MirInst::Bin { lhs, rhs, .. } => {
                        proof {
                            assert(self.def@[v.0 as int] is Some);
                            let p = self.func@.def(v)->0;
                            let x = self.func@.blocks[p.0.0 as int];
                            assert(self.func@.block_indexed(x, p.0.0 as int));
                            assert(self.func@.inst_indexed(x.insts[p.1 as int]));
                            let u = inst@.uses();
                            assert(u[0] == *lhs && u[1] == *rhs);
                        }
                        self.call_like(*lhs, convoy) || self.call_like(*rhs, convoy)
                    },
                    _ => false,
                }
            },
            None => false,
        }
    }

    fn insts_permit(&self, b: usize, v: ValueId, convoy: &Vec<bool>) -> (r: (bool, bool))
        requires
            self.ok(),
            v.0 < self.def@.len(),
            b < self.func@.blocks.len(),
        ensures
            r.0 == (forall|i: int|
                0 <= i < self.func@.blocks[b as int].insts.len() ==> self.func@.inst_permits(
                    b as int,
                    #[trigger] self.func@.blocks[b as int].insts[i],
                    v,
                    convoy@,
                    self.entry,
                )),
            r.0 ==> r.1 == (exists|i: int|
                0 <= i < self.func@.blocks[b as int].insts.len() && (
                #[trigger] self.func@.blocks[b as int].insts[i]).uses().contains(v)),
    {
        let func = self.func;
        let block = &func.blocks[b];
        let home = self.home(v);
        let mut saw = false;
        let mut i: usize = 0;
        while i < block.insts.len()
            invariant
                self.ok(),
                func == self.func,
                b < func@.blocks.len(),
                block@ == func@.blocks[b as int],
                home == func@.home(v),
                i <= block.insts@.len(),
                forall|y: int|
                    0 <= y < i ==> func@.inst_permits(
                        b as int,
                        #[trigger] func@.blocks[b as int].insts[y],
                        v,
                        convoy@,
                        self.entry,
                    ),
                saw == (exists|y: int|
                    0 <= y < i && (#[trigger] func@.blocks[b as int].insts[y]).uses().contains(v)),
            decreases block.insts@.len() - i,
        {
            let inst = &block.insts[i];
            assert(func@.blocks[b as int].insts[i as int] == inst@);
            if reads(inst, v) {
                if inst.is_phi() {
                    return (false, false);
                }
                let at_home = match home {
                    Some(h) => block.id == h,
                    None => false,
                };
                if !at_home || !self.keeps(inst, convoy) {
                    assert(!func@.inst_permits(b as int, inst@, v, convoy@, self.entry));
                    return (false, false);
                }
                saw = true;
            }
            i = i + 1;
        }
        (true, saw)
    }

    fn term_permits(&self, b: usize, v: ValueId, convoy: &Vec<bool>) -> (r: (bool, bool))
        requires
            self.ok(),
            v.0 < self.def@.len(),
            b < self.func@.blocks.len(),
        ensures
            r.0 == self.func@.term_permits(b as int, v, convoy@, self.entry),
            r.0 ==> r.1 == (self.func@.blocks[b as int].term is Some
                && self.func@.blocks[b as int].term->0.uses().contains(v)),
    {
        let func = self.func;
        let block = &func.blocks[b];
        assert(block@ == func@.blocks[b as int]);
        if let Some(t) = &block.term {
            if term_reads(t, v) {
                let at_home = match self.home(v) {
                    Some(h) => block.id == h,
                    None => false,
                };
                return (at_home && is_one_return(t, v) && self.returned_kind(v, convoy), true);
            }
        }
        (true, false)
    }

    fn convoy_shape(&self, v: ValueId, convoy: &Vec<bool>) -> (r: bool)
        requires
            self.ok(),
            v.0 < self.def@.len(),
        ensures
            r == self.func@.convoy_shape(v, convoy@, self.entry),
    {
        let kind = match self.inst(v) {
            Some(inst) => matches!(inst, MirInst::Const { .. } | MirInst::Bin { .. }) || is_self_call_inst(
                inst,
                self.entry,
            ),
            None => false,
        };
        if !kind {
            return false;
        }
        let func = self.func;
        let mut saw = false;
        let mut b: usize = 0;
        while b < func.blocks.len()
            invariant
                self.ok(),
                func == self.func,
                v.0 < self.def@.len(),
                b <= func.blocks@.len(),
                forall|x: int, y: int|
                    0 <= x < b && 0 <= y < func@.blocks[x].insts.len() ==> func@.inst_permits(
                        x,
                        #[trigger] func@.blocks[x].insts[y],
                        v,
                        convoy@,
                        self.entry,
                    ),
                forall|x: int| 0 <= x < b ==> #[trigger] func@.term_permits(x, v, convoy@, self.entry),
                saw == ((exists|x: int, y: int|
                    0 <= x < b && 0 <= y < func@.blocks[x].insts.len() && (
                    #[trigger] func@.blocks[x].insts[y]).uses().contains(v)) || (exists|x: int|
                    0 <= x < b && (#[trigger] func@.blocks[x]).term is Some
                        && func@.blocks[x].term->0.uses().contains(v))),
            decreases func.blocks@.len() - b,
        {
            let (ok, seen) = self.insts_permit(b, v, convoy);
            if !ok {
                return false;
            }
            let (tok, tseen) = self.term_permits(b, v, convoy);
            if !tok {
                return false;
            }
            let ghost saw0 = saw;
            saw = saw || seen || tseen;
            proof {
                let bb = b as int;
                if seen {
                    let y = choose|y: int|
                        0 <= y < func@.blocks[bb].insts.len() && (
                        #[trigger] func@.blocks[bb].insts[y]).uses().contains(v);
                    assert(func@.blocks[bb].insts[y].uses().contains(v));
                }
                if tseen {
                    assert(func@.blocks[bb].term is Some);
                }
            }
            b = b + 1;
        }
        saw
    }
}

fn is_one_return(t: &Terminator, d: ValueId) -> (r: bool)
    ensures
        r == (t@ == (TermV::Return { lo: Some(d), hi: None })),
{
    match t {
        Terminator::Return { lo, hi } => same_opt(*lo, Some(d)) && hi.is_none(),
        _ => false,
    }
}

fn first_def_of(func: &MirFunc, d: ValueId) -> (r: Option<&MirInst>)
    ensures
        match r {
            Some(i) => func@.first_def(d, 0) == Some(i@),
            None => func@.first_def(d, 0) is None,
        },
{
    let mut b: usize = 0;
    while b < func.blocks.len()
        invariant
            b <= func.blocks@.len(),
            func@.first_def(d, 0) == func@.first_def(d, b as nat),
        decreases func.blocks@.len() - b,
    {
        let block = &func.blocks[b];
        let mut i: usize = 0;
        while i < block.insts.len()
            invariant
                b < func.blocks@.len(),
                block@ == func@.blocks[b as int],
                i <= block.insts@.len(),
                func@.first_def(d, 0) == func@.first_def(d, b as nat),
                first_in(block@.insts, d, 0) == first_in(block@.insts, d, i as nat),
            decreases block.insts@.len() - i,
        {
            assert(block@.insts[i as int] == block.insts@[i as int]@);
            if block.insts[i].dest() == d {
                return Some(&block.insts[i]);
            }
            i = i + 1;
        }
        b = b + 1;
    }
    None
}

fn is_cheap(inst: Option<&MirInst>) -> (r: bool)
    ensures
        r == (match inst {
            Some(i) => match i@ {
                InstV::Const { c, .. } => c is I64 || c is I32 || c is Bool,
                _ => false,
            },
            None => false,
        }),
{
    match inst {
        Some(MirInst::Const { c, .. }) => matches!(c, MirConst::I64(_) | MirConst::I32(_) | MirConst::Bool(_)),
        _ => false,
    }
}

fn slotted_reader(func: &MirFunc, v: ValueId, slots: &Vec<bool>) -> (r: bool)
    ensures
        r == func@.read_by_slotted(v, slots@),
{
    let mut b: usize = 0;
    while b < func.blocks.len()
        invariant
            b <= func.blocks@.len(),
            forall|x: int, y: int|
                0 <= x < b && 0 <= y < func@.blocks[x].insts.len() ==> !((
                #[trigger] func@.blocks[x].insts[y]).uses().contains(v) && flag(
                    slots@,
                    func@.blocks[x].insts[y].dest(),
                )),
        decreases func.blocks@.len() - b,
    {
        let insts = &func.blocks[b].insts;
        let mut i: usize = 0;
        while i < insts.len()
            invariant
                b < func.blocks@.len(),
                insts@ == func.blocks@[b as int].insts@,
                i <= insts@.len(),
                forall|y: int|
                    0 <= y < i ==> !((#[trigger] func@.blocks[b as int].insts[y]).uses().contains(v) && flag(
                        slots@,
                        func@.blocks[b as int].insts[y].dest(),
                    )),
            decreases insts@.len() - i,
        {
            if reads(&insts[i], v) && has_flag(slots, insts[i].dest()) {
                assert(func@.blocks[b as int].insts[i as int].uses().contains(v));
                return true;
            }
            i = i + 1;
        }
        b = b + 1;
    }
    false
}

fn convoy_flags(sh: &Shape<'_>, fused: &Vec<bool>, phi_in: &Vec<bool>) -> (r: Vec<bool>)
    requires
        sh.ok(),
        fused@.len() == sh.func@.types.len(),
        phi_in@.len() == sh.func@.types.len(),
        forall|i: int| 0 <= i < fused@.len() ==> #[trigger] fused@[i] == sh.func@.is_fused(ValueId(i as u32)),
        forall|i: int| 0 <= i < phi_in@.len() ==> #[trigger] phi_in@[i] == sh.func@.read_by_phi(ValueId(i as u32)),
    ensures
        r@ == sh.func@.convoy(sh.entry),
        r@.len() == sh.func@.types.len(),
{
    let func = sh.func;
    let n = func.types.len();
    let mut convoy = no_flags(n);
    let ghost f = func@;
    let ghost c0 = convoy@;
    let ghost mut fuel: nat = n as nat + 1;
    let mut changed = true;
    while changed
        invariant
            sh.ok(),
            func == sh.func,
            f == func@,
            n == f.types.len(),
            fused@.len() == n,
            phi_in@.len() == n,
            forall|i: int| 0 <= i < fused@.len() ==> #[trigger] fused@[i] == f.is_fused(ValueId(i as u32)),
            forall|i: int| 0 <= i < phi_in@.len() ==> #[trigger] phi_in@[i] == f.read_by_phi(ValueId(i as u32)),
            convoy@.len() == n,
            c0 == Seq::new(n as nat, |i: int| false),
            f.convoy_settled(c0, n as nat + 1, sh.entry) == f.convoy_settled(convoy@, fuel, sh.entry),
            changed ==> count_set(convoy@) + fuel >= n + 1,
            !changed ==> f.convoy_settled(convoy@, fuel, sh.entry) == convoy@,
        decreases (if changed { 1int } else { 0int }) + n - count_set(convoy@),
    {
        let ghost before = convoy@;
        changed = false;
        let mut i: usize = 0;
        while i < n
            invariant
                sh.ok(),
                func == sh.func,
                f == func@,
                n == f.types.len(),
                fused@.len() == n,
                phi_in@.len() == n,
                forall|i: int| 0 <= i < fused@.len() ==> #[trigger] fused@[i] == f.is_fused(ValueId(i as u32)),
                forall|i: int|
                    0 <= i < phi_in@.len() ==> #[trigger] phi_in@[i] == f.read_by_phi(ValueId(i as u32)),
                convoy@.len() == n,
                i <= n,
                f.convoy_sweep(before, 0, sh.entry) == f.convoy_sweep(convoy@, i as nat, sh.entry),
                changed == (convoy@ != before),
                changed ==> count_set(convoy@) > count_set(before),
            decreases n - i,
        {
            let v = ValueId(i as u32);
            if !convoy[i] && !fused[i] && !phi_in[i] && !func.is_param(i) && sh.convoy_shape(v, &convoy) {
                proof {
                    count_set_update(convoy@, i as int);
                }
                convoy.set(i, true);
                changed = true;
            }
            i = i + 1;
        }
        proof {
            count_set_bound(before);
            count_set_bound(convoy@);
            assert(convoy@ == f.convoy_sweep(before, 0, sh.entry));
            if changed {
                fuel = (fuel - 1) as nat;
            }
        }
    }
    convoy
}

impl ConvoyPlan {
    /// `self_entry` is the function's own call label.
    pub fn new(func: &MirFunc, self_entry: Option<Label>) -> (r: Self)
        requires
            func@.indexed(),
        ensures
            r.plans(func@),
            r.self_entry == self_entry,
    {
        let n = func.types.len();
        let def = func.defs();
        let fused = fused_flags(func);
        let phi_in = phi_read_flags(func);
        let sh = Shape { func, def: &def, entry: self_entry };
        let convoy = convoy_flags(&sh, &fused, &phi_in);
        let ghost f = func@;
        let mut slots: Vec<bool> = Vec::new();
        let mut i: usize = 0;
        while i < n
            invariant
                i <= n,
                sh.ok(),
                sh.func == func,
                sh.entry == self_entry,
                f == func@,
                n == f.types.len(),
                convoy@ == f.convoy(self_entry),
                convoy@.len() == n,
                fused@.len() == n,
                forall|k: int| 0 <= k < fused@.len() ==> #[trigger] fused@[k] == f.is_fused(ValueId(k as u32)),
                slots@ == f.base_slots(self_entry).take(i as int),
            decreases n - i,
        {
            let v = ValueId(i as u32);
            let p = func.is_param(i);
            let x = p || (!fused[i] && !convoy[i] && !is_cheap(sh.inst(v)) && sh.home(v).is_some());
            slots.push(x);
            assert(f.base_slots(self_entry)[i as int] == x);
            i = i + 1;
            assert(slots@ =~= f.base_slots(self_entry).take(i as int));
        }
        assert(slots@ =~= f.base_slots(self_entry));
        let ghost base = slots@;
        let mut j: usize = 0;
        while j < n
            invariant
                j <= n,
                sh.ok(),
                sh.func == func,
                f == func@,
                n == f.types.len(),
                slots@.len() == n,
                f.const_slots(base, 0) == f.const_slots(slots@, j as nat),
            decreases n - j,
        {
            let v = ValueId(j as u32);
            if is_cheap(sh.inst(v)) && slotted_reader(func, v, &slots) {
                slots.set(j, true);
            }
            j = j + 1;
        }
        let ghost mid = slots@;
        let mut b: usize = 0;
        while b < func.blocks.len()
            invariant
                b <= func.blocks@.len(),
                f == func@,
                f.indexed(),
                slots@.len() == f.types.len(),
                f.pair_slots(mid, 0, 0) == f.pair_slots(slots@, b as nat, 0),
            decreases func.blocks@.len() - b,
        {
            let insts = &func.blocks[b].insts;
            let mut k: usize = 0;
            while k < insts.len()
                invariant
                    b < func.blocks@.len(),
                    f == func@,
                    f.indexed(),
                    insts@ == func.blocks@[b as int].insts@,
                    k <= insts@.len(),
                    slots@.len() == f.types.len(),
                    f.pair_slots(mid, 0, 0) == f.pair_slots(slots@, b as nat, k as nat),
                decreases insts@.len() - k,
            {
                let inst = &insts[k];
                assert(f.blocks[b as int].insts[k as int] == inst@);
                if let MirInst::Call { dest, dest_hi: Some(hi), .. } = inst {
                    proof {
                        assert(f.block_indexed(f.blocks[b as int], b as int));
                        assert(f.inst_indexed(inst@));
                        let ds = inst@.dests();
                        assert(ds =~= seq![*dest, *hi]);
                        assert(ds[0] == *dest && ds[1] == *hi);
                    }
                    if slots[dest.index()] || slots[hi.index()] {
                        slots.set(dest.index(), true);
                        slots.set(hi.index(), true);
                    }
                }
                k = k + 1;
            }
            b = b + 1;
        }
        ConvoyPlan { need_slot: slots, def, self_entry }
    }

    pub fn needs_slot(&self, v: ValueId) -> (r: bool)
        ensures
            r == flag(self.need_slot@, v),
    {
        has_flag(&self.need_slot, v)
    }

    pub fn is_self_call(&self, target: Label) -> (r: bool)
        ensures
            r == (self.self_entry == Some(target)),
    {
        same_label(target, self.self_entry)
    }
}

} // verus!

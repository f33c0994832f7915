//! Loops of stack code.
//!
//! A loop runs from the label at its head to the jump back to it. Only loops with one entry
//! count: nothing else jumps to the head but a jump directly in front of it, and nothing outside
//! jumps into the body.
use vstd::prelude::*;
use super::op::{Byte, IlJumpKind, IlOp, Instruction, Label};

verus! {

/// A loop with one entry.
#[derive(Copy, Clone, Debug, PartialEq, Eq, Structural)]
pub struct NaturalLoop {
    /// Index of the label at the head.
    pub header: usize,
    /// Index of the jump back.
    pub latch: usize,
    pub header_label: Label,
}

impl NaturalLoop {
    /// Index behind the label at the head.
    pub fn body_start(&self) -> (r: usize)
        requires
            self.header < usize::MAX,
        ensures
            r == self.header + 1,
    {
        self.header + 1
    }
}

/// Label that an operation refers to.
pub open spec fn reference(op: IlOp) -> Option<Label> {
    match op {
        IlOp::Jump { target, .. } => Some(target),
        IlOp::PrologueJmp { target, .. } => Some(target),
        IlOp::Entry { target, .. } => Some(target),
        _ => None,
    }
}

fn find_reference(op: &IlOp) -> (r: Option<Label>)
    ensures
        r == reference(*op),
{
    match op {
        IlOp::Jump { target, .. } => Some(*target),
        IlOp::PrologueJmp { target, .. } => Some(*target),
        IlOp::Entry { target, .. } => Some(*target),
        _ => None,
    }
}

/// Whether `op` is an unconditional jump to `l`.
pub open spec fn goes_to(op: IlOp, l: Label) -> bool {
    match op {
        IlOp::Jump { kind, target, .. } => kind is Unconditional && target == l,
        _ => false,
    }
}

fn is_jump_to(op: &IlOp, l: Label) -> (r: bool)
    ensures
        r == goes_to(*op, l),
{
    match op {
        IlOp::Jump { kind: IlJumpKind::Unconditional, target, .. } => target.0 == l.0,
        _ => false,
    }
}

/// The first operation from `i` on that jumps unconditionally to `l`.
pub open spec fn jump_back(ops: Seq<IlOp>, l: Label, i: int) -> Option<int>
    decreases ops.len() - i,
{
    if i >= ops.len() {
        None
    } else if goes_to(ops[i], l) {
        Some(i)
    } else {
        jump_back(ops, l, i + 1)
    }
}

/// Whether the loop from `h` to `latch` is entered at its head only: its head label is bound
/// once, no other reference to it exists but a jump directly in front, and no reference from
/// outside names a label bound inside.
pub open spec fn single_entry(ops: Seq<IlOp>, h: int, latch: int, l: Label) -> bool {
    &&& forall|k: int| 0 <= k < ops.len() && k != h ==> (#[trigger] ops[k]).bound() != Some(l)
    &&& forall|k: int|
        0 <= k < ops.len() && reference(#[trigger] ops[k]) == Some(l) ==> k == latch || (k == h - 1
            && goes_to(ops[k], l))
    &&& forall|k: int, b: int|
        0 <= k < ops.len() && (k < h || k > latch) && h < b < latch && reference(#[trigger] ops[k]) is Some
            ==> reference(ops[k]) != (#[trigger] ops[b]).bound()
}

/// The loop whose head is at `h`.
pub open spec fn loop_at(ops: Seq<IlOp>, h: int) -> Option<NaturalLoop> {
    match ops[h].bound() {
        Some(l) => match jump_back(ops, l, h + 1) {
            Some(latch) => if single_entry(ops, h, latch, l) {
                Some(NaturalLoop { header: h as usize, latch: latch as usize, header_label: l })
            } else {
                None
            },
            None => None,
        },
        None => None,
    }
}

pub(crate) proof fn jump_back_in_range(ops: Seq<IlOp>, l: Label, i: int)
    requires
        0 <= i,
    ensures
        jump_back(ops, l, i) matches Some(k) ==> i <= k < ops.len() && goes_to(ops[k], l),
    decreases ops.len() - i,
{
    if i < ops.len() {
        jump_back_in_range(ops, l, i + 1);
    }
}

fn bound_label(op: &IlOp) -> (r: Option<Label>)
    ensures
        r == op.bound(),
{
    match op {
        IlOp::Label(l) => Some(*l),
        IlOp::JoinLabel(l) => Some(*l),
        _ => None,
    }
}

fn same_label(a: Option<Label>, l: Label) -> (r: bool)
    ensures
        r == (a == Some(l)),
{
    match a {
        Some(x) => x.0 == l.0,
        None => false,
    }
}

fn names_inside(ops: &Vec<IlOp>, l: Label, h: usize, latch: usize) -> (r: bool)
    requires
        h < latch < ops@.len(),
    ensures
        r == exists|b: int| h < b < latch && (#[trigger] ops@[b]).bound() == Some(l),
{
    let mut b: usize = h + 1;
    while b < latch
        invariant
            h < b <= latch < ops@.len(),
            forall|x: int| h < x < b ==> (#[trigger] ops@[x]).bound() != Some(l),
        decreases latch - b,
    {
        if same_label(bound_label(&ops[b]), l) {
            return true;
        }
        b += 1;
    }
    false
}

fn has_single_entry(ops: &Vec<IlOp>, h: usize, latch: usize, l: Label) -> (r: bool)
    requires
        h < latch < ops@.len(),
    ensures
        r == single_entry(ops@, h as int, latch as int, l),
{
    let mut k: usize = 0;
    while k < ops.len()
        invariant
            k <= ops@.len(),
            h < latch < ops@.len(),
            forall|x: int|
                0 <= x < k && x != h as int ==> (#[trigger] ops@[x]).bound() != Some(l),
            forall|x: int|
                0 <= x < k && reference(#[trigger] ops@[x]) == Some(l) ==> x == latch as int || (x
                    == h - 1 && goes_to(ops@[x], l)),
            forall|x: int, b: int|
                0 <= x < k && (x < h || x > latch) && h < b < latch && reference(
                    #[trigger] ops@[x],
                ) is Some ==> reference(ops@[x]) != (#[trigger] ops@[b]).bound(),
        decreases ops@.len() - k,
    {
        if k != h && same_label(bound_label(&ops[k]), l) {
            return false;
        }
        let to = find_reference(&ops[k]);
        if same_label(to, l) && k != latch {
            if !(h > 0 && k == h - 1 && is_jump_to(&ops[k], l)) {
                return false;
            }
        }
        if k < h || k > latch {
            if let Some(t) = to {
                if names_inside(ops, t, h, latch) {
                    proof {
                        let b = choose|b: int|
                            h < b < latch && (#[trigger] ops@[b]).bound() == Some(t);
                        assert(reference(ops@[k as int]) == ops@[b].bound());
                    }
                    return false;
                }
            }
        }
        k += 1;
    }
    true
}

/// The loop whose head is at `h`.
pub fn find_loop(ops: &Vec<IlOp>, h: usize) -> (r: Option<NaturalLoop>)
    requires
        h < ops@.len(),
    ensures
        r == loop_at(ops@, h as int),
        r matches Some(lp) ==> lp.header == h && h < lp.latch < ops@.len(),
{
    let l = match bound_label(&ops[h]) {
        Some(l) => l,
        None => return None,
    };
    let n = ops.len();
    let mut k: usize = h + 1;
    while k < n && !is_jump_to(&ops[k], l)
        invariant
            h < k <= n,
            n == ops@.len(),
            jump_back(ops@, l, h + 1) == jump_back(ops@, l, k as int),
        decreases n - k,
    {
        k += 1;
    }
    if k >= n {
        return None;
    }
    if has_single_entry(ops, h, k, l) {
        Some(NaturalLoop { header: h, latch: k, header_label: l })
    } else {
        None
    }
}

/// Whether `op` may write to slot `slot`. A fused store whose slot sits in the constant pool may
/// write anywhere.
pub open spec fn writes(op: IlOp, slot: u32) -> bool {
    match op {
        IlOp::StorePop { slot: s, .. } => s == slot,
        IlOp::Byte { byte, .. } => match byte.inst {
            Instruction::STORE | Instruction::StorePop => exists|k: int|
                0 <= k < byte.slot_count() && #[trigger] byte.slot_at(k) == slot,
            Instruction::INC | Instruction::DEC => byte.inc_dec().0 == slot,
            Instruction::BinSlotSlotStore => super::tell::store_dest(byte) as u32 == slot,
            Instruction::BinSlotImmStore => true,
            _ => false,
        },
        _ => false,
    }
}

fn packs_slot(byte: &Byte, slot: u32) -> (r: bool)
    ensures
        r == exists|k: int| 0 <= k < byte.slot_count() && #[trigger] byte.slot_at(k) == slot,
{
    let n = byte.load_store_count();
    let mut k: u32 = 0;
    while k < n
        invariant
            k <= n,
            n == byte.slot_count(),
            forall|x: int| 0 <= x < k ==> #[trigger] byte.slot_at(x) != slot,
        decreases n - k,
    {
        if byte.load_store_slot_at(k) == slot {
            return true;
        }
        k += 1;
    }
    false
}

fn may_write(op: &IlOp, slot: u32) -> (r: bool)
    ensures
        r == writes(*op, slot),
{
    match op {
        IlOp::StorePop { slot: s, .. } => *s == slot,
        IlOp::Byte { byte, .. } => match byte.inst {
            Instruction::STORE | Instruction::StorePop => packs_slot(byte, slot),
            Instruction::INC | Instruction::DEC => byte.inc_dec_parts().0 == slot,
            Instruction::BinSlotSlotStore => super::tell::find_store_dest(byte) as u32 == slot,
            Instruction::BinSlotImmStore => true,
            _ => false,
        },
        _ => false,
    }
}

/// Whether slot `slot` may be written inside the loop.
pub open spec fn stored(ops: Seq<IlOp>, lp: NaturalLoop, slot: u32) -> bool {
    exists|k: int| lp.header <= k <= lp.latch && writes(#[trigger] ops[k], slot)
}

/// Whether slot `slot` may be written inside the loop.
pub fn stored_in_loop(ops: &Vec<IlOp>, lp: &NaturalLoop, slot: u32) -> (r: bool)
    requires
        lp.header <= lp.latch < ops@.len(),
    ensures
        r == stored(ops@, *lp, slot),
{
    let n = ops.len();
    let mut k: usize = lp.header;
    while k <= lp.latch
        invariant
            lp.header <= k <= lp.latch + 1,
            lp.latch < n,
            n == ops@.len(),
            forall|x: int| lp.header <= x < k ==> !writes(#[trigger] ops@[x], slot),
        decreases lp.latch + 1 - k,
    {
        if may_write(&ops[k], slot) {
            return true;
        }
        k += 1;
    }
    false
}

/// Where code that runs once before the loop goes: in front of the jump to its head, or else in
/// front of the head.
pub open spec fn preheader(ops: Seq<IlOp>, h: int, l: Label) -> int {
    if h > 0 && goes_to(ops[h - 1], l) {
        h - 1
    } else {
        h
    }
}

/// `ops` with `pre` in front of the loop.
pub open spec fn with_preheader(ops: Seq<IlOp>, h: int, l: Label, pre: Seq<IlOp>) -> Seq<IlOp> {
    let p = preheader(ops, h, l);
    ops.take(p) + pre + ops.skip(p)
}

/// The operations of `v` from `from` to `to`, appended to `out`.
pub(crate) fn extend_range(out: &mut Vec<IlOp>, v: &Vec<IlOp>, from: usize, to: usize)
    requires
        from <= to <= v@.len(),
    ensures
        final(out)@ == old(out)@ + v@.subrange(from as int, to as int),
{
    let ghost o0 = out@;
    let mut i: usize = from;
    while i < to
        invariant
            from <= i <= to <= v@.len(),
            out@ == o0 + v@.subrange(from as int, i as int),
        decreases to - i,
    {
        out.push(v[i]);
        i += 1;
        assert(out@ =~= o0 + v@.subrange(from as int, i as int));
    }
}

/// `ops` with `pre` in front of the loop.
pub fn insert_preheader_ops(ops: &Vec<IlOp>, h: usize, l: Label, pre: &Vec<IlOp>) -> (r: Vec<IlOp>)
    requires
        h < ops@.len(),
    ensures
        r@ == with_preheader(ops@, h as int, l, pre@),
{
    let p = if h > 0 && is_jump_to(&ops[h - 1], l) {
        h - 1
    } else {
        h
    };
    let mut r: Vec<IlOp> = Vec::new();
    extend_range(&mut r, ops, 0, p);
    extend_range(&mut r, pre, 0, pre.len());
    extend_range(&mut r, ops, p, ops.len());
    assert(r@ =~= ops@.take(p as int) + pre@ + ops@.skip(p as int));
    r
}

} // verus!

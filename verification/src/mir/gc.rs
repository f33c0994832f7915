//! Collector edges and their live roots.
use super::call_convoy::{count_set, count_set_bound, count_set_update, no_flags};
use super::func::{blocks_view, insts_view, roots_view, BlockV, FuncV, MirBlock, MirFunc};
use super::index::reads;
use super::inst::{copy_ids, has_id, BlockId, InstV, LocalId, MirInst, TermV, Terminator, ValueId};
use crate::idmap::IdMap;
use crate::ids::{ascending_ids, listing_holds_the_members};
use crate::il::op::{IlOp, Instruction};
use vstd::prelude::*;

verus! {

/// Live heap words at one collector edge.
#[derive(Debug, PartialEq, Eq)]
pub struct LiveRootSet {
    /// Value of the edge.
    pub at: ValueId,
    /// Live heap-word values, ascending. The new object is among them.
    pub values: Vec<ValueId>,
    /// Source slots that hold one of them, ascending.
    pub slots: Vec<LocalId>,
}

/// Mathematical form of [`LiveRootSet`].
#[verifier::ext_equal]
pub struct RootsV {
    pub at: ValueId,
    pub values: Seq<ValueId>,
    pub slots: Seq<LocalId>,
}

impl View for LiveRootSet {
    type V = RootsV;

    open spec fn view(&self) -> RootsV {
        RootsV { at: self.at, values: self.values@, slots: self.slots@ }
    }
}

pub open spec fn alloc_inst(inst: Instruction) -> bool {
    inst is InitTyped || inst is INIT || inst is DenseMake
}

/// Object-building opcodes.
pub fn is_alloc_inst(inst: Instruction) -> (r: bool)
    ensures
        r == alloc_inst(inst),
{
    matches!(inst, Instruction::InitTyped | Instruction::INIT | Instruction::DenseMake)
}

/// Kind of allocation that an operation performs.
pub open spec fn alloc_reason(op: IlOp) -> Option<Seq<char>> {
    match op {
        IlOp::MakeArray { .. } => Some("heap/aggregate"@),
        IlOp::MakeTuple { .. } => Some("heap/aggregate"@),
        IlOp::MakeEnum { .. } => Some("heap/aggregate"@),
        IlOp::Byte { byte, .. } => if alloc_inst(byte.inst) {
            Some("heap/alloc"@)
        } else if byte.inst is ArrayPush || byte.inst is DenseArrayPush {
            Some("heap/grow"@)
        } else if byte.inst is STRINGIFY || (byte.inst is FORMAT && byte.word() > 0) {
            Some("heap/format"@)
        } else {
            None
        },
        _ => None,
    }
}

/// Operation that allocates, and so is a safepoint.
pub fn refuses_alloc(op: &IlOp) -> (r: bool)
    ensures
        r == (alloc_reason(*op) is Some),
{
    refuse_reason(op).is_some()
}

/// `heap/aggregate` for arrays, tuples and enums, `heap/alloc` for objects,
/// `heap/grow` for array growth and `heap/format` for text.
pub fn refuse_reason(op: &IlOp) -> (r: Option<&'static str>)
    ensures
        match r {
            Some(s) => alloc_reason(*op) == Some(s@),
            None => alloc_reason(*op) is None,
        },
{
    match op {
        IlOp::MakeArray { .. } | IlOp::MakeTuple { .. } | IlOp::MakeEnum { .. } => Some("heap/aggregate"),
        IlOp::Byte { byte, .. } => {
            let inst = *byte.bytecode();
            if is_alloc_inst(inst) {
                Some("heap/alloc")
            } else if inst == Instruction::ArrayPush || inst == Instruction::DenseArrayPush {
                Some("heap/grow")
            } else if inst == Instruction::STRINGIFY || (inst == Instruction::FORMAT && byte.operand_u32() > 0) {
                Some("heap/format")
            } else {
                None
            }
        },
        _ => None,
    }
}

// Liveness of one value.

/// The instruction reads `v` as data. The roots of a collector edge are
/// metadata.
pub open spec fn data_read(inst: InstV, v: ValueId) -> bool {
    !(inst is GcBarrier) && inst.uses().contains(v)
}

/// The terminator reads `v`. Payloads are bound, not read.
pub open spec fn term_data_read(block: BlockV, v: ValueId) -> bool {
    match block.term {
        Some(TermV::Br { cond, .. }) => cond == v,
        Some(TermV::JumpIfMatch { scrutinee, .. }) => scrutinee == v,
        Some(TermV::Return { lo, hi }) => lo == Some(v) || hi == Some(v),
        _ => false,
    }
}

/// `v` is live before instruction `i` when it is live (`end`) behind the last.
pub open spec fn live_at(insts: Seq<InstV>, i: nat, v: ValueId, end: bool) -> bool
    decreases insts.len() - i,
{
    if i >= insts.len() {
        end
    } else {
        (live_at(insts, i + 1, v, end) && insts[i as int].dest() != v) || (!insts[i as int].phi() && data_read(
            insts[i as int],
            v,
        ))
    }
}

/// One of the leading phis from `i` on defines `v`.
pub open spec fn leading_phi(insts: Seq<InstV>, v: ValueId, i: nat) -> bool
    decreases insts.len() - i,
{
    i < insts.len() && insts[i as int].phi() && (insts[i as int].dest() == v || leading_phi(insts, v, i + 1))
}

/// One of the leading phis from `i` on takes `v` from `pred`.
pub open spec fn phi_takes(insts: Seq<InstV>, pred: BlockId, v: ValueId, i: nat) -> bool
    decreases insts.len() - i,
{
    i < insts.len() && insts[i as int] is Phi && (insts[i as int]->Phi_args.contains((pred, v)) || phi_takes(
        insts,
        pred,
        v,
        i + 1,
    ))
}

/// `v` is live on the edge from block `b` to `s`; `ins` says where it is live
/// at the start of a block.
pub open spec fn live_edge(f: FuncV, b: int, s: BlockId, v: ValueId, ins: Seq<bool>) -> bool {
    s.0 < f.blocks.len() && ((ins[s.0 as int] && !leading_phi(f.blocks[s.0 as int].insts, v, 0)) || phi_takes(
        f.blocks[s.0 as int].insts,
        BlockId(b as u32),
        v,
        0,
    ))
}

/// `v` is live behind the instructions of block `b`.
pub open spec fn live_end(f: FuncV, b: int, v: ValueId, ins: Seq<bool>) -> bool {
    term_data_read(f.blocks[b], v) || (f.blocks[b].term is Some && exists|k: int|
        0 <= k < f.blocks[b].term->0.targets().len() && live_edge(
            f,
            b,
            #[trigger] f.blocks[b].term->0.targets()[k],
            v,
            ins,
        ))
}

/// `v` is live at the start of block `b`.
pub open spec fn live_start(f: FuncV, b: int, v: ValueId, ins: Seq<bool>) -> bool {
    live_at(f.blocks[b].insts, 0, v, live_end(f, b, v, ins))
}

/// Blocks from whose start a read of `v` is at most `n` blocks away.
pub open spec fn live_within(f: FuncV, v: ValueId, n: nat) -> Seq<bool>
    decreases n,
{
    if n == 0 {
        Seq::new(f.blocks.len(), |b: int| false)
    } else {
        Seq::new(f.blocks.len(), |b: int| live_start(f, b, v, live_within(f, v, (n - 1) as nat)))
    }
}

/// A read of `v` can be reached from the start of block `b`.
pub open spec fn reaches_read(f: FuncV, v: ValueId, b: int) -> bool {
    exists|n: nat| #[trigger] live_within(f, v, n)[b]
}

/// Blocks at whose start `v` is live.
pub open spec fn live_ins(f: FuncV, v: ValueId) -> Seq<bool> {
    Seq::new(f.blocks.len(), |b: int| reaches_read(f, v, b))
}

/// `v` is live directly behind instruction `i` of block `b`.
pub open spec fn live_after(f: FuncV, b: int, i: int, v: ValueId) -> bool {
    live_at(f.blocks[b].insts, (i + 1) as nat, v, live_end(f, b, v, live_ins(f, v)))
}

// Roots.

/// `v` is the token of a collector edge.
pub open spec fn barrier_token(f: FuncV, v: ValueId) -> bool {
    exists|b: int, i: int|
        0 <= b < f.blocks.len() && 0 <= i < f.blocks[b].insts.len() && (#[trigger] f.blocks[b].insts[i]) is GcBarrier
            && f.blocks[b].insts[i].dest() == v
}

/// Some parameter or instruction defines `v`.
pub open spec fn defined(f: FuncV, v: ValueId) -> bool {
    f.params.contains(v) || exists|b: int, i: int|
        0 <= b < f.blocks.len() && 0 <= i < f.blocks[b].insts.len() && (
        #[trigger] f.blocks[b].insts[i]).dests().contains(v)
}

/// Source locals in scope at an edge.
pub open spec fn env_at(f: FuncV, at: ValueId) -> Seq<(LocalId, ValueId)> {
    if f.slot_env.dom().contains(at.0) {
        f.slot_env[at.0]
    } else {
        Seq::empty()
    }
}

/// A source local in scope at the edge holds `v`.
pub open spec fn in_env(env: Seq<(LocalId, ValueId)>, v: ValueId) -> bool {
    exists|k: int| 0 <= k < env.len() && (#[trigger] env[k]).1 == v
}

/// `v` is a root at the edge behind instruction `i` of block `b`: a live heap
/// word, the new object, or a heap word that a source local holds.
pub open spec fn is_root(f: FuncV, b: int, i: int, at: ValueId, new: Option<ValueId>, v: ValueId) -> bool {
    ||| (f.ty(v).heap_word() && !barrier_token(f, v) && live_after(f, b, i, v))
    ||| new == Some(v)
    ||| (in_env(env_at(f, at), v) && defined(f, v) && f.ty(v).heap_word())
}

/// Values that can be roots because they are live.
pub open spec fn candidates(f: FuncV) -> Set<u32> {
    Set::new(|x: u32| f.ty(ValueId(x)).heap_word() && !barrier_token(f, ValueId(x)))
}

/// Heap words that are live behind instruction `i` of block `b`.
pub open spec fn live_heap(f: FuncV, b: int, i: int) -> Set<u32> {
    Set::new(|x: u32| candidates(f).contains(x) && live_after(f, b, i, ValueId(x)))
}

/// Heap words that source locals hold.
pub open spec fn env_roots(f: FuncV, env: Seq<(LocalId, ValueId)>) -> Set<u32> {
    Set::new(|x: u32| in_env(env, ValueId(x)) && defined(f, ValueId(x)) && f.ty(ValueId(x)).heap_word())
}

pub open spec fn root_ids(f: FuncV, b: int, i: int, at: ValueId, new: Option<ValueId>) -> Set<u32> {
    Set::new(|x: u32| is_root(f, b, i, at, new, ValueId(x)))
}

/// Source locals that hold one of the roots.
pub open spec fn root_slots(env: Seq<(LocalId, ValueId)>, roots: Set<u32>) -> Set<u32> {
    Set::new(
        |x: u32| exists|k: int| 0 <= k < env.len() && (#[trigger] env[k]).0 == LocalId(x) && roots.contains(env[k].1.0),
    )
}

pub open spec fn as_values(s: Seq<u32>) -> Seq<ValueId> {
    s.map_values(|x: u32| ValueId(x))
}

pub open spec fn as_locals(s: Seq<u32>) -> Seq<LocalId> {
    s.map_values(|x: u32| LocalId(x))
}

/// Roots at one edge, ascending.
pub open spec fn root_set(f: FuncV, b: int, i: int, at: ValueId, new: Option<ValueId>) -> RootsV {
    let ids = root_ids(f, b, i, at, new);
    RootsV {
        at,
        values: as_values(ascending_ids(ids)),
        slots: as_locals(ascending_ids(root_slots(env_at(f, at), ids))),
    }
}

/// The instruction makes an object.
pub open spec fn makes_object(inst: InstV) -> bool {
    inst is Alloc || inst is ArrayPush || inst is Format || inst is Stringify
}

/// Root sets of the edges from instruction `(b, i)` on; `prev` is the object
/// that the instruction before made.
pub open spec fn root_sets(f: FuncV, b: nat, i: nat, prev: Option<ValueId>) -> Seq<RootsV>
    decreases f.blocks.len() - b, (if b < f.blocks.len() {
        f.blocks[b as int].insts.len() - i
    } else {
        0
    }),
{
    if b >= f.blocks.len() {
        Seq::empty()
    } else if i >= f.blocks[b as int].insts.len() {
        root_sets(f, b + 1, 0, None)
    } else {
        let inst = f.blocks[b as int].insts[i as int];
        let dest = inst.dest();
        if makes_object(inst) {
            seq![root_set(f, b as int, i as int, dest, Some(dest))] + root_sets(f, b, i + 1, Some(dest))
        } else if inst is GcBarrier {
            seq![root_set(f, b as int, i as int, dest, prev)] + root_sets(f, b, i + 1, None)
        } else {
            root_sets(f, b, i + 1, None)
        }
    }
}

/// Last of the first `k` sets that belongs to `at`.
pub open spec fn last_set(sets: Seq<RootsV>, at: ValueId, k: nat) -> Option<Seq<ValueId>>
    decreases k,
{
    if k == 0 {
        None
    } else if sets[k - 1].at == at {
        Some(sets[k - 1].values)
    } else {
        last_set(sets, at, (k - 1) as nat)
    }
}

/// A collector edge with its roots filled in.
pub open spec fn with_roots(inst: InstV, sets: Seq<RootsV>) -> InstV {
    match inst {
        InstV::GcBarrier { dest, kind, .. } => match last_set(sets, dest, sets.len()) {
            Some(roots) => InstV::GcBarrier { dest, kind, roots },
            None => inst,
        },
        _ => inst,
    }
}

pub open spec fn block_with_roots(block: BlockV, sets: Seq<RootsV>) -> BlockV {
    BlockV { insts: block.insts.map_values(|x: InstV| with_roots(x, sets)), ..block }
}

/// The function with root sets recorded and collector edges filled in.
pub open spec fn with_live_roots(f: FuncV) -> FuncV {
    if !f.gc_edge() {
        FuncV { gc_roots: Seq::empty(), ..f }
    } else {
        let sets = root_sets(f, 0, 0, None);
        FuncV { gc_roots: sets, blocks: f.blocks.map_values(|x: BlockV| block_with_roots(x, sets)), ..f }
    }
}

// Liveness is monotone, and settles.

pub open spec fn within(a: Seq<bool>, b: Seq<bool>) -> bool {
    a.len() == b.len() && forall|i: int| 0 <= i < a.len() && #[trigger] a[i] ==> b[i]
}

proof fn live_at_grows(insts: Seq<InstV>, i: nat, v: ValueId, a: bool, b: bool)
    requires
        a ==> b,
    ensures
        live_at(insts, i, v, a) ==> live_at(insts, i, v, b),
    decreases insts.len() - i,
{
    if i < insts.len() {
        live_at_grows(insts, i + 1, v, a, b);
    }
}

proof fn live_start_grows(f: FuncV, b: int, v: ValueId, x: Seq<bool>, y: Seq<bool>)
    requires
        within(x, y),
        x.len() == f.blocks.len(),
    ensures
        live_start(f, b, v, x) ==> live_start(f, b, v, y),
{
    if live_end(f, b, v, x) && !term_data_read(f.blocks[b], v) {
        let t = f.blocks[b].term->0.targets();
        let k = choose|k: int| 0 <= k < t.len() && live_edge(f, b, #[trigger] t[k], v, x);
        assert(x[t[k].0 as int] ==> y[t[k].0 as int]);
        assert(live_edge(f, b, t[k], v, y));
    }
    live_at_grows(f.blocks[b].insts, 0, v, live_end(f, b, v, x), live_end(f, b, v, y));
}

proof fn live_within_grows(f: FuncV, v: ValueId, n: nat)
    ensures
        within(live_within(f, v, n), live_within(f, v, n + 1)),
    decreases n,
{
    let x = live_within(f, v, n);
    let y = live_within(f, v, n + 1);
    if n > 0 {
        live_within_grows(f, v, (n - 1) as nat);
        assert forall|b: int| 0 <= b < x.len() && #[trigger] x[b] implies y[b] by {
            live_start_grows(f, b, v, live_within(f, v, (n - 1) as nat), x);
        }
    }
}

proof fn live_within_later(f: FuncV, v: ValueId, n: nat, m: nat)
    requires
        n <= m,
    ensures
        within(live_within(f, v, n), live_within(f, v, m)),
    decreases m - n,
{
    if n < m {
        live_within_later(f, v, n, (m - 1) as nat);
        live_within_grows(f, v, (m - 1) as nat);
        let x = live_within(f, v, n);
        let z = live_within(f, v, (m - 1) as nat);
        assert forall|b: int| 0 <= b < x.len() && #[trigger] x[b] implies live_within(f, v, m)[b] by {
            assert(z[b]);
        }
    }
}

/// One number of steps covers the first `k` blocks.
proof fn steps_enough(f: FuncV, v: ValueId, k: nat) -> (n: nat)
    requires
        k <= f.blocks.len(),
    ensures
        forall|b: int| 0 <= b < k && #[trigger] reaches_read(f, v, b) ==> live_within(f, v, n)[b],
    decreases k,
{
    if k == 0 {
        0
    } else {
        let n = steps_enough(f, v, (k - 1) as nat);
        let b = k - 1;
        if reaches_read(f, v, b) {
            let m = choose|m: nat| #[trigger] live_within(f, v, m)[b];
            let r = if m > n {
                m
            } else {
                n
            };
            live_within_later(f, v, n, r);
            live_within_later(f, v, m, r);
            r
        } else {
            n
        }
    }
}

/// Liveness at block starts is the least solution of its equations.
pub proof fn liveness_is_least_solution(f: FuncV, v: ValueId, x: Seq<bool>)
    requires
        x.len() == f.blocks.len(),
        forall|b: int| 0 <= b < f.blocks.len() && live_start(f, b, v, x) ==> #[trigger] x[b],
    ensures
        forall|b: int| 0 <= b < f.blocks.len() ==> #[trigger] live_ins(f, v)[b] == live_start(f, b, v, live_ins(f, v)),
        within(live_ins(f, v), x),
{
    let l = live_ins(f, v);
    let n = steps_enough(f, v, f.blocks.len());
    let w = live_within(f, v, n);
    assert forall|b: int| 0 <= b < l.len() && #[trigger] l[b] implies w[b] by {
        assert(reaches_read(f, v, b));
    }
    assert forall|b: int| 0 <= b < f.blocks.len() implies #[trigger] l[b] == live_start(f, b, v, l) by {
        if l[b] {
            let m = choose|m: nat| #[trigger] live_within(f, v, m)[b];
            if m > 0 {
                let p = live_within(f, v, (m - 1) as nat);
                assert(within(p, l)) by {
                    assert forall|c: int| 0 <= c < p.len() && #[trigger] p[c] implies l[c] by {
                        assert(live_within(f, v, (m - 1) as nat)[c]);
                    }
                }
                live_start_grows(f, b, v, p, l);
            }
        }
        if live_start(f, b, v, l) {
            live_start_grows(f, b, v, l, w);
            assert(live_within(f, v, n + 1)[b]);
        }
    }
    assert forall|b: int| 0 <= b < l.len() && #[trigger] l[b] implies x[b] by {
        let m = choose|m: nat| #[trigger] live_within(f, v, m)[b];
        stays_below(f, v, m, x);
    }
}

proof fn stays_below(f: FuncV, v: ValueId, n: nat, x: Seq<bool>)
    requires
        x.len() == f.blocks.len(),
        forall|b: int| 0 <= b < f.blocks.len() && live_start(f, b, v, x) ==> #[trigger] x[b],
    ensures
        within(live_within(f, v, n), x),
    decreases n,
{
    let w = live_within(f, v, n);
    if n > 0 {
        stays_below(f, v, (n - 1) as nat, x);
        assert forall|b: int| 0 <= b < w.len() && #[trigger] w[b] implies x[b] by {
            live_start_grows(f, b, v, live_within(f, v, (n - 1) as nat), x);
        }
    }
}

// Executable part.

fn reads_data(inst: &MirInst, v: ValueId) -> (r: bool)
    ensures
        r == data_read(inst@, v),
{
    match inst {
        MirInst::GcBarrier { .. } => false,
        _ => reads(inst, v),
    }
}

fn term_reads_data(block: &MirBlock, v: ValueId) -> (r: bool)
    ensures
        r == term_data_read(block@, v),
{
    match &block.term {
        Some(Terminator::Br { cond, .. }) => *cond == v,
        Some(Terminator::JumpIfMatch { scrutinee, .. }) => *scrutinee == v,
        Some(Terminator::Return { lo, hi }) => {
            let a = match lo {
                Some(x) => *x == v,
                None => false,
            };
            let b = match hi {
                Some(x) => *x == v,
                None => false,
            };
            a || b
        },
        _ => false,
    }
}

fn is_live_at(block: &MirBlock, i: usize, v: ValueId, end: bool) -> (r: bool)
    ensures
        r == live_at(block@.insts, i as nat, v, end),
{
    let mut live = end;
    let mut k: usize = block.insts.len();
    while k > i
        invariant
            k <= block.insts@.len(),
            i <= block.insts@.len() ==> i <= k,
            i > block.insts@.len() ==> k == block.insts@.len(),
            live == live_at(block@.insts, k as nat, v, end),
        decreases k,
    {
        k = k - 1;
        let inst = &block.insts[k];
        assert(block@.insts[k as int] == inst@);
        live = (live && inst.dest() != v) || (!inst.is_phi() && reads_data(inst, v));
    }
    live
}

fn is_leading_phi(block: &MirBlock, v: ValueId) -> (r: bool)
    ensures
        r == leading_phi(block@.insts, v, 0),
{
    let mut i: usize = 0;
    while i < block.insts.len()
        invariant
            i <= block.insts@.len(),
            leading_phi(block@.insts, v, 0) == leading_phi(block@.insts, v, i as nat),
        decreases block.insts@.len() - i,
    {
        let inst = &block.insts[i];
        assert(block@.insts[i as int] == inst@);
        if !inst.is_phi() {
            return false;
        }
        if inst.dest() == v {
            return true;
        }
        i = i + 1;
    }
    false
}

fn has_arg(args: &Vec<(BlockId, ValueId)>, pred: BlockId, v: ValueId) -> (r: bool)
    ensures
        r == args@.contains((pred, v)),
{
    let mut i: usize = 0;
    while i < args.len()
        invariant
            i <= args@.len(),
            forall|k: int| 0 <= k < i ==> args@[k] != (pred, v),
        decreases args@.len() - i,
    {
        let a = args[i];
        if a.0 == pred && a.1 == v {
            assert(args@[i as int] == (pred, v));
            return true;
        }
        i = i + 1;
    }
    false
}

fn phis_take(block: &MirBlock, pred: BlockId, v: ValueId) -> (r: bool)
    ensures
        r == phi_takes(block@.insts, pred, v, 0),
{
    let mut i: usize = 0;
    while i < block.insts.len()
        invariant
            i <= block.insts@.len(),
            phi_takes(block@.insts, pred, v, 0) == phi_takes(block@.insts, pred, v, i as nat),
        decreases block.insts@.len() - i,
    {
        let inst = &block.insts[i];
        assert(block@.insts[i as int] == inst@);
        match inst {
            MirInst::Phi { args, .. } => {
                if has_arg(args, pred, v) {
                    return true;
                }
            },
            _ => {
                return false;
            },
        }
        i = i + 1;
    }
    false
}

fn is_live_end(func: &MirFunc, b: usize, v: ValueId, ins: &Vec<bool>) -> (r: bool)
    requires
        b < func@.blocks.len(),
        ins@.len() == func@.blocks.len(),
    ensures
        r == live_end(func@, b as int, v, ins@),
{
    let block = &func.blocks[b];
    let ghost f = func@;
    if term_reads_data(block, v) {
        return true;
    }
    if let Some(t) = &block.term {
        let ts = t.succs();
        let mut k: usize = 0;
        while k < ts.len()
            invariant
                f == func@,
                b < f.blocks.len(),
                f.blocks[b as int].term is Some,
                ts@ == f.blocks[b as int].term->0.targets(),
                ins@.len() == f.blocks.len(),
                k <= ts@.len(),
                forall|j: int| 0 <= j < k ==> !live_edge(f, b as int, #[trigger] ts@[j], v, ins@),
            decreases ts@.len() - k,
        {
            let s = ts[k].index();
            if s < func.blocks.len() {
                if (ins[s] && !is_leading_phi(&func.blocks[s], v)) || phis_take(
                    &func.blocks[s],
                    BlockId(b as u32),
                    v,
                ) {
                    assert(live_edge(f, b as int, f.blocks[b as int].term->0.targets()[k as int], v, ins@));
                    return true;
                }
            }
            k = k + 1;
        }
    }
    false
}

/// Blocks at whose start `v` is live.
fn live_blocks(func: &MirFunc, v: ValueId) -> (r: Vec<bool>)
    ensures
        r@ == live_ins(func@, v),
{
    let ghost f = func@;
    let n = func.blocks.len();
    let mut x = no_flags(n);
    let mut changed = true;
    while changed
        invariant
            f == func@,
            n == f.blocks.len(),
            x@.len() == n,
            within(x@, live_ins(f, v)),
            !changed ==> forall|b: int| 0 <= b < n && live_start(f, b, v, x@) ==> #[trigger] x@[b],
        decreases
                n - count_set(x@),
                (if changed {
                    1int
                } else {
                    0int
                }),
    {
        changed = false;
        let ghost x0 = x@;
        let mut b: usize = n;
        while b > 0
            invariant
                f == func@,
                n == f.blocks.len(),
                b <= n,
                x@.len() == n,
                within(x@, live_ins(f, v)),
                count_set(x@) >= count_set(x0),
                changed ==> count_set(x@) > count_set(x0),
                !changed ==> x@ == x0 && forall|c: int| b <= c < n && live_start(f, c, v, x@) ==> #[trigger] x@[c],
            decreases b,
        {
            b = b - 1;
            if !x[b] && is_live_at(&func.blocks[b], 0, v, is_live_end(func, b, v, &x)) {
                proof {
                    assert(func.blocks@[b as int]@ == f.blocks[b as int]);
                    live_start_grows(f, b as int, v, x@, live_ins(f, v));
                    liveness_is_least_solution(f, v, Seq::new(f.blocks.len(), |c: int| true));
                    assert(live_ins(f, v)[b as int] == live_start(f, b as int, v, live_ins(f, v)));
                    count_set_update(x@, b as int);
                }
                x.set(b, true);
                changed = true;
            } else {
                assert(func.blocks@[b as int]@ == f.blocks[b as int]);
            }
        }
        proof {
            count_set_bound(x@);
            count_set_bound(x0);
        }
    }
    proof {
        liveness_is_least_solution(f, v, x@);
        assert(x@ =~= live_ins(f, v));
    }
    x
}

fn is_barrier_token(func: &MirFunc, v: ValueId) -> (r: bool)
    ensures
        r == barrier_token(func@, v),
{
    let mut b: usize = 0;
    while b < func.blocks.len()
        invariant
            b <= func.blocks@.len(),
            forall|x: int, i: int|
                0 <= x < b && 0 <= i < func@.blocks[x].insts.len() ==> !((
                #[trigger] func@.blocks[x].insts[i]) is GcBarrier && func@.blocks[x].insts[i].dest() == v),
        decreases func.blocks@.len() - b,
    {
        let block = &func.blocks[b];
        let mut i: usize = 0;
        while i < block.insts.len()
            invariant
                b < func.blocks@.len(),
                block@ == func@.blocks[b as int],
                i <= block.insts@.len(),
                forall|j: int|
                    0 <= j < i ==> !((#[trigger] block@.insts[j]) is GcBarrier && block@.insts[j].dest() == v),
            decreases block.insts@.len() - i,
        {
            assert(block@.insts[i as int] == block.insts@[i as int]@);
            if let MirInst::GcBarrier { dest, .. } = &block.insts[i] {
                if *dest == v {
                    assert(func@.blocks[b as int].insts[i as int] is GcBarrier);
                    return true;
                }
            }
            i = i + 1;
        }
        b = b + 1;
    }
    false
}

fn is_defined(func: &MirFunc, v: ValueId) -> (r: bool)
    ensures
        r == defined(func@, v),
{
    if has_id(&func.params, v) {
        return true;
    }
    let mut b: usize = 0;
    while b < func.blocks.len()
        invariant
            b <= func.blocks@.len(),
            forall|x: int, i: int|
                0 <= x < b && 0 <= i < func@.blocks[x].insts.len() ==> !(
                #[trigger] func@.blocks[x].insts[i]).dests().contains(v),
        decreases func.blocks@.len() - b,
    {
        let block = &func.blocks[b];
        let mut i: usize = 0;
        while i < block.insts.len()
            invariant
                b < func.blocks@.len(),
                block@ == func@.blocks[b as int],
                i <= block.insts@.len(),
                forall|j: int| 0 <= j < i ==> !(#[trigger] block@.insts[j]).dests().contains(v),
            decreases block.insts@.len() - i,
        {
            assert(block@.insts[i as int] == block.insts@[i as int]@);
            let ds = block.insts[i].dests();
            if has_id(&ds, v) {
                assert(func@.blocks[b as int].insts[i as int].dests().contains(v));
                return true;
            }
            i = i + 1;
        }
        b = b + 1;
    }
    false
}

/// Liveness of the heap words that can be roots because they are live.
struct HeapLiveness {
    /// Blocks at whose start the value is live, by value.
    ins: IdMap<Vec<bool>>,
}

impl HeapLiveness {
    spec fn of(self, f: FuncV) -> bool {
        &&& self.ins@.dom() == candidates(f)
        &&& forall|x: u32| #[trigger]
            self.ins@.dom().contains(x) ==> self.ins@[x]@ == live_ins(f, ValueId(x))
    }

    fn new(func: &MirFunc) -> (r: Self)
        ensures
            r.of(func@),
    {
        let ghost f = func@;
        let n = func.types.len();
        let mut ins: IdMap<Vec<bool>> = IdMap::new();
        let mut i: u32 = 0;
        let mut more = true;
        assert(ins@.dom() =~= Set::new(|x: u32| candidates(f).contains(x) && x < 0));
        while more && (i as usize) < n
            invariant
                f == func@,
                n == f.types.len(),
                ins@.dom() == Set::new(|x: u32| candidates(f).contains(x) && (x < i || !more)),
                forall|x: u32| #[trigger] ins@.dom().contains(x) ==> ins@[x]@ == live_ins(f, ValueId(x)),
            decreases
                u32::MAX - i,
                (if more {
                    1int
                } else {
                    0int
                }),
        {
            let v = ValueId(i);
            let ghost i0 = i;
            if func.ty(v).is_heap_word() && !is_barrier_token(func, v) {
                ins.insert(i, live_blocks(func, v));
            }
            if i == 0xffff_ffff {
                more = false;
            } else {
                i = i + 1;
            }
            assert(ins@.dom() =~= Set::new(|x: u32| candidates(f).contains(x) && (x < i || !more))) by {
                assert(ValueId(i0) == v);
            }
        }
        assert(ins@.dom() =~= candidates(f)) by {
            assert forall|x: u32| candidates(f).contains(x) implies x < f.types.len() by {
                assert(f.ty(ValueId(x)).heap_word());
            }
        }
        HeapLiveness { ins }
    }
}

fn values_list(m: &IdMap<bool>) -> (r: Vec<ValueId>)
    ensures
        r@ == as_values(ascending_ids(m@.dom())),
{
    let ks = m.keys();
    let mut r: Vec<ValueId> = Vec::new();
    let mut i: usize = 0;
    while i < ks.len()
        invariant
            i <= ks@.len(),
            r@ == as_values(ks@.take(i as int)),
        decreases ks@.len() - i,
    {
        r.push(ValueId(ks[i]));
        i = i + 1;
        assert(r@ =~= as_values(ks@.take(i as int)));
    }
    assert(ks@.take(i as int) =~= ks@);
    r
}

fn locals_list(m: &IdMap<bool>) -> (r: Vec<LocalId>)
    ensures
        r@ == as_locals(ascending_ids(m@.dom())),
{
    let ks = m.keys();
    let mut r: Vec<LocalId> = Vec::new();
    let mut i: usize = 0;
    while i < ks.len()
        invariant
            i <= ks@.len(),
            r@ == as_locals(ks@.take(i as int)),
        decreases ks@.len() - i,
    {
        r.push(LocalId(ks[i]));
        i = i + 1;
        assert(r@ =~= as_locals(ks@.take(i as int)));
    }
    assert(ks@.take(i as int) =~= ks@);
    r
}

/// Adds the heap words that the source locals of an edge hold.
fn add_env_roots(func: &MirFunc, env: &Vec<(LocalId, ValueId)>, ids: &mut IdMap<bool>)
    ensures
        final(ids)@.dom() == old(ids)@.dom().union(env_roots(func@, env@)),
{
    let ghost f = func@;
    let ghost d0 = ids@.dom();
    let mut k: usize = 0;
    assert(ids@.dom() =~= d0.union(env_roots(f, env@.take(0))));
    while k < env.len()
        invariant
            f == func@,
            k <= env@.len(),
            ids@.dom() == d0.union(env_roots(f, env@.take(k as int))),
        decreases env@.len() - k,
    {
        let v = env[k].1;
        if func.ty(v).is_heap_word() && is_defined(func, v) {
            ids.insert(v.0, true);
        }
        proof {
            let a = env@.take(k as int);
            let b = env@.take(k + 1);
            assert forall|x: u32|
                ids@.dom().contains(x) == d0.union(env_roots(f, b)).contains(x) by {
                if in_env(a, ValueId(x)) {
                    let j = choose|j: int| 0 <= j < a.len() && (#[trigger] a[j]).1 == ValueId(x);
                    assert(b[j].1 == ValueId(x));
                }
                if in_env(b, ValueId(x)) {
                    let j = choose|j: int| 0 <= j < b.len() && (#[trigger] b[j]).1 == ValueId(x);
                    if j < k {
                        assert(a[j].1 == ValueId(x));
                    }
                }
                assert(b[k as int].1 == v);
            }
            assert(ids@.dom() =~= d0.union(env_roots(f, b)));
        }
        k = k + 1;
    }
    assert(env@.take(k as int) =~= env@);
}

fn slots_of(env: &Vec<(LocalId, ValueId)>, ids: &IdMap<bool>) -> (r: Vec<LocalId>)
    ensures
        r@ == as_locals(ascending_ids(root_slots(env@, ids@.dom()))),
{
    let mut m: IdMap<bool> = IdMap::new();
    let mut k: usize = 0;
    assert(m@.dom() =~= root_slots(env@.take(0), ids@.dom()));
    while k < env.len()
        invariant
            k <= env@.len(),
            m@.dom() == root_slots(env@.take(k as int), ids@.dom()),
        decreases env@.len() - k,
    {
        let (l, v) = env[k];
        let ghost before = m@.dom();
        let keep = ids.contains_key(&v.0);
        if keep {
            m.insert(l.0, true);
        }
        proof {
            let a = env@.take(k as int);
            let b = env@.take(k + 1);
            let roots = ids@.dom();
            assert forall|x: u32| m@.dom().contains(x) == root_slots(b, roots).contains(x) by {
                assert(b[k as int] == (l, v));
                if root_slots(a, roots).contains(x) {
                    let j = choose|j: int|
                        0 <= j < a.len() && (#[trigger] a[j]).0 == LocalId(x) && roots.contains(a[j].1.0);
                    assert(b[j] == a[j]);
                }
                if root_slots(b, roots).contains(x) {
                    let j = choose|j: int|
                        0 <= j < b.len() && (#[trigger] b[j]).0 == LocalId(x) && roots.contains(b[j].1.0);
                    if j < k {
                        assert(a[j] == b[j]);
                    }
                }
            }
            assert(m@.dom() =~= root_slots(b, roots));
        }
        k = k + 1;
    }
    assert(env@.take(k as int) =~= env@);
    locals_list(&m)
}

fn roots_at(func: &MirFunc, live: &HeapLiveness, b: usize, i: usize, at: ValueId, new: Option<ValueId>) -> (r:
    LiveRootSet)
    requires
        live.of(func@),
        b < func@.blocks.len(),
        i < func@.blocks[b as int].insts.len(),
    ensures
        r@ == root_set(func@, b as int, i as int, at, new),
{
    let ghost f = func@;
    let ghost alive = live_heap(f, b as int, i as int);
    let block = &func.blocks[b];
    let last = block.insts.len();
    let mut ids: IdMap<bool> = IdMap::new();
    let ks = live.ins.keys();
    let mut k: usize = 0;
    proof {
        listing_holds_the_members(candidates(f));
    }
    assert(ids@.dom() =~= Set::new(|x: u32| alive.contains(x) && ks@.take(0).contains(x)));
    while k < ks.len()
        invariant
            f == func@,
            live.of(f),
            alive == live_heap(f, b as int, i as int),
            ks@ == ascending_ids(candidates(f)),
            forall|x: u32| candidates(f).contains(x) <==> #[trigger] ks@.contains(x),
            b < f.blocks.len(),
            i < last,
            last == f.blocks[b as int].insts.len(),
            block@ == f.blocks[b as int],
            k <= ks@.len(),
            ids@.dom() == Set::new(|x: u32| alive.contains(x) && ks@.take(k as int).contains(x)),
        decreases ks@.len() - k,
    {
        let x = ks[k];
        let v = ValueId(x);
        assert(ks@.contains(x));
        if let Some(ins) = live.ins.get(&x) {
            let end = is_live_end(func, b, v, ins);
            if is_live_at(block, i + 1, v, end) {
                ids.insert(x, true);
            }
        }
        proof {
            let p = ks@.take(k as int);
            let q = ks@.take(k + 1);
            assert(q =~= p.push(x));
            assert forall|y: u32| ids@.dom().contains(y) == (alive.contains(y) && q.contains(y)) by {
                if p.contains(y) {
                    assert(q[p.index_of(y)] == y);
                }
                if q.contains(y) && y != x {
                    assert(p[q.index_of(y)] == y);
                }
                assert(q[k as int] == x);
            }
            assert(ids@.dom() =~= Set::new(|y: u32| alive.contains(y) && q.contains(y)));
        }
        k = k + 1;
    }
    assert(ks@.take(k as int) =~= ks@);
    assert(ids@.dom() =~= alive);
    if let Some(o) = new {
        ids.insert(o.0, true);
    }
    let empty: Vec<(LocalId, ValueId)> = Vec::new();
    let env = match func.slot_env.get(&at.0) {
        Some(e) => e,
        None => &empty,
    };
    assert(env@ =~= env_at(f, at));
    add_env_roots(func, env, &mut ids);
    assert(ids@.dom() =~= root_ids(f, b as int, i as int, at, new)) by {
        assert forall|x: u32| ids@.dom().contains(x) == root_ids(f, b as int, i as int, at, new).contains(x) by {
            assert(new is Some && (new->0).0 == x ==> new == Some(ValueId(x)));
        }
    }
    let values = values_list(&ids);
    let slots = slots_of(env, &ids);
    LiveRootSet { at, values, slots }
}

fn all_root_sets(func: &MirFunc) -> (r: Vec<LiveRootSet>)
    ensures
        roots_view(r@) == root_sets(func@, 0, 0, None),
{
    let ghost f = func@;
    let live = HeapLiveness::new(func);
    let mut sets: Vec<LiveRootSet> = Vec::new();
    let mut b: usize = 0;
    assert(roots_view(sets@) + root_sets(f, 0, 0, None) =~= root_sets(f, 0, 0, None));
    while b < func.blocks.len()
        invariant
            f == func@,
            live.of(f),
            b <= func.blocks@.len(),
            root_sets(f, 0, 0, None) == roots_view(sets@) + root_sets(f, b as nat, 0, None),
        decreases func.blocks@.len() - b,
    {
        let block = &func.blocks[b];
        let mut prev: Option<ValueId> = None;
        let mut i: usize = 0;
        while i < block.insts.len()
            invariant
                f == func@,
                live.of(f),
                b < func.blocks@.len(),
                block@ == f.blocks[b as int],
                i <= block.insts@.len(),
                root_sets(f, 0, 0, None) == roots_view(sets@) + root_sets(f, b as nat, i as nat, prev),
            decreases block.insts@.len() - i,
        {
            let inst = &block.insts[i];
            assert(block@.insts[i as int] == inst@);
            let ghost s0 = roots_view(sets@);
            match inst {
                MirInst::Alloc { dest, .. } | MirInst::ArrayPush { dest, .. } | MirInst::Format { dest, .. }
                | MirInst::Stringify { dest, .. } => {
                    let set = roots_at(func, &live, b, i, *dest, Some(*dest));
                    let ghost sv = set@;
                    sets.push(set);
                    prev = Some(*dest);
                    assert(roots_view(sets@) =~= s0.push(sv));
                    assert(s0 + (seq![sv] + root_sets(f, b as nat, (i + 1) as nat, prev)) =~= s0.push(sv) + root_sets(
                        f,
                        b as nat,
                        (i + 1) as nat,
                        prev,
                    ));
                },
                MirInst::GcBarrier { dest, .. } => {
                    let set = roots_at(func, &live, b, i, *dest, prev);
                    let ghost sv = set@;
                    sets.push(set);
                    prev = None;
                    assert(roots_view(sets@) =~= s0.push(sv));
                    assert(s0 + (seq![sv] + root_sets(f, b as nat, (i + 1) as nat, prev)) =~= s0.push(sv) + root_sets(
                        f,
                        b as nat,
                        (i + 1) as nat,
                        prev,
                    ));
                },
                _ => {
                    prev = None;
                },
            }
            i = i + 1;
        }
        b = b + 1;
    }
    assert(roots_view(sets@) + root_sets(f, b as nat, 0, None) =~= roots_view(sets@));
    sets
}

fn last_roots(sets: &Vec<LiveRootSet>, at: ValueId) -> (r: Option<Vec<ValueId>>)
    ensures
        match r {
            Some(v) => last_set(roots_view(sets@), at, sets@.len()) == Some(v@),
            None => last_set(roots_view(sets@), at, sets@.len()) is None,
        },
{
    let mut k: usize = sets.len();
    while k > 0
        invariant
            k <= sets@.len(),
            last_set(roots_view(sets@), at, sets@.len()) == last_set(roots_view(sets@), at, k as nat),
        decreases k,
    {
        assert(roots_view(sets@)[k - 1] == sets@[k - 1]@);
        if sets[k - 1].at == at {
            return Some(copy_ids(&sets[k - 1].values));
        }
        k = k - 1;
    }
    None
}

/// Records the roots of every collector edge in `gc_roots`, and in the edges
/// themselves.
pub fn fill_live_roots(func: &mut MirFunc)
    ensures
        final(func)@ == with_live_roots(old(func)@),
{
    let ghost f = func@;
    if !func.has_gc_edge() {
        func.gc_roots = Vec::new();
        assert(func@ =~= (FuncV { gc_roots: Seq::empty(), ..f }));
        return;
    }
    let sets = all_root_sets(func);
    let ghost sv = roots_view(sets@);
    let mut blocks: Vec<MirBlock> = Vec::new();
    std::mem::swap(&mut blocks, &mut func.blocks);
    let ghost b0 = blocks@;
    let mut b: usize = 0;
    while b < blocks.len()
        invariant
            b <= blocks@.len(),
            sv == roots_view(sets@),
            blocks@.len() == b0.len(),
            forall|x: int| 0 <= x < b ==> (#[trigger] blocks@[x])@ == block_with_roots(b0[x]@, sv),
            forall|x: int| b <= x < b0.len() ==> #[trigger] blocks@[x] == b0[x],
        decreases blocks@.len() - b,
    {
        let mut insts: Vec<MirInst> = Vec::new();
        std::mem::swap(&mut insts, &mut blocks[b].insts);
        let ghost i0 = insts@;
        let mut i: usize = 0;
        while i < insts.len()
            invariant
                i <= insts@.len(),
                sv == roots_view(sets@),
                insts@.len() == i0.len(),
                forall|x: int| 0 <= x < i ==> (#[trigger] insts@[x])@ == with_roots(i0[x]@, sv),
                forall|x: int| i <= x < i0.len() ==> #[trigger] insts@[x] == i0[x],
            decreases insts@.len() - i,
        {
            let mut filled: Option<MirInst> = None;
            if let MirInst::GcBarrier { dest, kind, .. } = &insts[i] {
                if let Some(roots) = last_roots(&sets, *dest) {
                    filled = Some(MirInst::GcBarrier { dest: *dest, kind: *kind, roots });
                }
            }
            if let Some(x) = filled {
                insts.set(i, x);
            }
            i = i + 1;
        }
        assert(insts_view(insts@) =~= insts_view(i0).map_values(|x: InstV| with_roots(x, sv)));
        std::mem::swap(&mut insts, &mut blocks[b].insts);
        b = b + 1;
    }
    assert(blocks_view(blocks@) =~= f.blocks.map_values(|x: BlockV| block_with_roots(x, sv)));
    func.blocks = blocks;
    func.gc_roots = sets;
    assert(func@ =~= with_live_roots(f));
}

} // verus!

//! Frame slots of SSA values.
use super::func::{FuncV, MirFunc};
use super::index::reads;
use super::inst::{BlockId, InstV, MirInst, TermV, Terminator, ValueId};
use super::lower::{refused, LowerErrV, LowerError};
use vstd::prelude::*;

verus! {

/// Parameter `i` and those behind it in slots of their position.
pub open spec fn param_regs(f: FuncV, regs: Seq<u8>, i: nat) -> Result<Seq<u8>, Seq<char>>
    decreases f.params.len() - i,
{
    if i >= f.params.len() {
        Ok(regs)
    } else if i > 254 {
        Err("too many params"@)
    } else {
        param_regs(f, regs.update(f.params[i as int].0 as int, i as u8), i + 1)
    }
}

/// The values from `i` on that need a slot, in the slots from `next` on.
pub open spec fn slot_regs(
    f: FuncV,
    need: Seq<bool>,
    regs: Seq<u8>,
    next: nat,
    i: nat,
    full: Seq<char>,
) -> Result<(Seq<u8>, u8), Seq<char>>
    decreases f.types.len() - i,
{
    if i >= f.types.len() {
        Ok((regs, next as u8))
    } else if !need[i as int] || f.param(i as int) {
        slot_regs(f, need, regs, next, i + 1, full)
    } else if next > 254 {
        Err(full)
    } else {
        slot_regs(f, need, regs.update(i as int, next as u8), next + 1, i + 1, full)
    }
}

/// Slot of every value, and the first free slot.
pub open spec fn assigned(f: FuncV, need: Seq<bool>, full: Seq<char>) -> Result<(Seq<u8>, u8), Seq<char>> {
    match param_regs(f, Seq::new(f.types.len(), |i: int| 0u8), 0) {
        Err(e) => Err(e),
        Ok(regs) => slot_regs(f, need, regs, f.params.len(), 0, full),
    }
}

/// Parameters take the first slots, then every value that needs one takes the
/// next.
pub fn assign_regs(func: &MirFunc, need: &Vec<bool>, full: &str) -> (r: Result<(Vec<u8>, u8), LowerError>)
    requires
        func@.indexed(),
        need@.len() == func@.types.len(),
    ensures
        match assigned(func@, need@, full@) {
            Ok(a) => r matches Ok(x) && x.0@ == a.0 && x.1 == a.1 && a.0.len() == func@.types.len(),
            Err(e) => r matches Err(x) && x@ == LowerErrV::Refused(e),
        },
{
    let n = func.types.len();
    let ghost f = func@;
    let mut regs: Vec<u8> = Vec::new();
    let mut k: usize = 0;
    while k < n
        invariant
            k <= n,
            regs@ == Seq::new(k as nat, |i: int| 0u8),
        decreases n - k,
    {
        regs.push(0);
        k = k + 1;
        assert(regs@ =~= Seq::new(k as nat, |i: int| 0u8));
    }
    let ghost zero = regs@;
    let mut i: usize = 0;
    while i < func.params.len()
        invariant
            f == func@,
            f.indexed(),
            n == f.types.len(),
            zero == Seq::new(f.types.len(), |i: int| 0u8),
            need@.len() == n,
            regs@.len() == n,
            i <= func.params@.len(),
            i <= 255,
            param_regs(f, zero, 0) == param_regs(f, regs@, i as nat),
        decreases func.params@.len() - i,
    {
        if i > 254 {
            return Err(refused("too many params"));
        }
        assert(f.params[i as int].0 < n);
        regs.set(func.params[i].index(), i as u8);
        i = i + 1;
    }
    let ghost seeded = regs@;
    let mut next: usize = func.params.len();
    let mut j: usize = 0;
    while j < n
        invariant
            f == func@,
            n == f.types.len(),
            need@.len() == n,
            regs@.len() == n,
            j <= n,
            next <= 255,
            assigned(f, need@, full@) == slot_regs(f, need@, regs@, next as nat, j as nat, full@),
        decreases n - j,
    {
        if need[j] && !func.is_param(j) {
            if next > 254 {
                return Err(refused(full));
            }
            regs.set(j, next as u8);
            next = next + 1;
        }
        j = j + 1;
    }
    Ok((regs, next as u8))
}

/// Position of `from` or a block behind it that is not the entry.
pub open spec fn next_block(f: FuncV, i: nat) -> Option<BlockId>
    decreases f.blocks.len() - i,
{
    if i >= f.blocks.len() {
        None
    } else if f.blocks[i as int].id != f.entry {
        Some(f.blocks[i as int].id)
    } else {
        next_block(f, i + 1)
    }
}

/// Block that is laid out behind `from`. The entry comes first, the others
/// follow in order.
pub open spec fn laid_out_after(f: FuncV, from: BlockId) -> Option<BlockId> {
    if from == f.entry {
        next_block(f, 0)
    } else {
        next_block(f, (from.0 + 1) as nat)
    }
}

pub fn next_emitted(func: &MirFunc, from: BlockId) -> (r: Option<BlockId>)
    requires
        from.0 < func@.blocks.len(),
    ensures
        r == laid_out_after(func@, from),
{
    let n = func.blocks.len();
    let mut i: usize = 0;
    if from != func.entry {
        i = from.index() + 1;
    }
    while i < func.blocks.len()
        invariant
            i <= func.blocks@.len(),
            laid_out_after(func@, from) == next_block(func@, i as nat),
        decreases func.blocks@.len() - i,
    {
        assert(func@.blocks[i as int] == func.blocks@[i as int]@);
        if func.blocks[i].id != func.entry {
            return Some(func.blocks[i].id);
        }
        i = i + 1;
    }
    None
}

pub open spec fn falls_through(f: FuncV, from: BlockId, to: BlockId) -> bool {
    laid_out_after(f, from) == Some(to)
}

pub fn is_fallthrough(func: &MirFunc, from: BlockId, to: BlockId) -> (r: bool)
    requires
        from.0 < func@.blocks.len(),
    ensures
        r == falls_through(func@, from, to),
{
    match next_emitted(func, from) {
        Some(b) => b == to,
        None => false,
    }
}

/// First phi argument from `i` on that comes from a later block.
pub open spec fn latch_arg(args: Seq<(BlockId, ValueId)>, b: BlockId, i: nat) -> Option<nat>
    decreases args.len() - i,
{
    if i >= args.len() {
        None
    } else if args[i as int].0.0 > b.0 {
        Some(i)
    } else {
        latch_arg(args, b, i + 1)
    }
}

/// From instruction `i` on, nothing behind the definition of `val` reads `dest`,
/// and `val` is defined.
pub open spec fn overwrite_ok_from(insts: Seq<InstV>, dest: ValueId, val: ValueId, i: nat, seen: bool) -> bool
    decreases insts.len() - i,
{
    if i >= insts.len() {
        seen
    } else if insts[i as int].dest() == val {
        overwrite_ok_from(insts, dest, val, i + 1, true)
    } else if seen && insts[i as int].uses().contains(dest) {
        false
    } else {
        overwrite_ok_from(insts, dest, val, i + 1, seen)
    }
}

/// The latch may compute `val` into the slot of the phi `dest`.
pub open spec fn overwrite_ok(f: FuncV, latch: BlockId, dest: ValueId, val: ValueId) -> bool {
    let block = f.blocks[latch.0 as int];
    overwrite_ok_from(block.insts, dest, val, 0, false) && match block.term {
        Some(TermV::Br { cond, .. }) => cond != dest,
        _ => true,
    }
}

/// Slots after one instruction was looked at.
pub open spec fn coalesce_inst(f: FuncV, regs: Seq<u8>, b: BlockId, inst: InstV) -> Seq<u8> {
    match inst {
        InstV::Phi { dest, args, .. } => match latch_arg(args, b, 0) {
            Some(k) => if overwrite_ok(f, args[k as int].0, dest, args[k as int].1) {
                regs.update(dest.0 as int, regs[args[k as int].1.0 as int])
            } else {
                regs
            },
            None => regs,
        },
        _ => regs,
    }
}

pub open spec fn coalesce_from(f: FuncV, regs: Seq<u8>, b: nat, i: nat) -> Seq<u8>
    decreases f.blocks.len() - b, (if b < f.blocks.len() {
        f.blocks[b as int].insts.len() - i
    } else {
        0
    }),
{
    if b >= f.blocks.len() {
        regs
    } else if i >= f.blocks[b as int].insts.len() {
        coalesce_from(f, regs, b + 1, 0)
    } else {
        coalesce_from(
            f,
            coalesce_inst(f, regs, f.blocks[b as int].id, f.blocks[b as int].insts[i as int]),
            b,
            i + 1,
        )
    }
}

/// Slots with loop phis merged into their latch values.
pub open spec fn coalesced(f: FuncV, regs: Seq<u8>) -> Seq<u8> {
    coalesce_from(f, regs, 0, 0)
}

/// Phi arguments come from blocks that exist.
pub open spec fn phis_indexed(f: FuncV) -> bool {
    forall|b: int, i: int, k: int|
        0 <= b < f.blocks.len() && 0 <= i < f.blocks[b].insts.len() && (#[trigger] f.blocks[b].insts[i]) is Phi && 0
            <= k < f.blocks[b].insts[i]->Phi_args.len() ==> (
        #[trigger] f.blocks[b].insts[i]->Phi_args[k]).0.0 < f.blocks.len()
}

fn latch_overwrite_ok(func: &MirFunc, latch: BlockId, dest: ValueId, val: ValueId) -> (r: bool)
    requires
        latch.0 < func@.blocks.len(),
    ensures
        r == overwrite_ok(func@, latch, dest, val),
{
    let block = func.block(latch);
    let mut seen = false;
    let mut i: usize = 0;
    while i < block.insts.len()
        invariant
            i <= block.insts@.len(),
            block@ == func@.blocks[latch.0 as int],
            overwrite_ok_from(block@.insts, dest, val, 0, false) == overwrite_ok_from(
                block@.insts,
                dest,
                val,
                i as nat,
                seen,
            ),
        decreases block.insts@.len() - i,
    {
        assert(block@.insts[i as int] == block.insts@[i as int]@);
        if block.insts[i].dest() == val {
            seen = true;
        } else if seen && reads(&block.insts[i], dest) {
            return false;
        }
        i = i + 1;
    }
    if !seen {
        return false;
    }
    match &block.term {
        Some(Terminator::Br { cond, .. }) => *cond != dest,
        _ => true,
    }
}

fn find_latch(args: &Vec<(BlockId, ValueId)>, b: BlockId) -> (r: Option<usize>)
    ensures
        match r {
            Some(k) => k < args@.len() && latch_arg(args@, b, 0) == Some(k as nat),
            None => latch_arg(args@, b, 0) is None,
        },
{
    let mut i: usize = 0;
    while i < args.len()
        invariant
            i <= args@.len(),
            latch_arg(args@, b, 0) == latch_arg(args@, b, i as nat),
        decreases args@.len() - i,
    {
        if args[i].0.0 > b.0 {
            return Some(i);
        }
        i = i + 1;
    }
    None
}

/// Gives a loop phi the slot of its latch value when the phi is dead behind
/// that value's definition.
pub fn coalesce_safe_latch_phis(func: &MirFunc, regs: Vec<u8>) -> (r: Vec<u8>)
    requires
        func@.indexed(),
        phis_indexed(func@),
        regs@.len() == func@.types.len(),
    ensures
        r@ == coalesced(func@, regs@),
        r@.len() == func@.types.len(),
{
    let ghost f = func@;
    let ghost r0 = regs@;
    let mut regs = regs;
    let mut b: usize = 0;
    while b < func.blocks.len()
        invariant
            f == func@,
            f.indexed(),
            phis_indexed(f),
            b <= func.blocks@.len(),
            regs@.len() == f.types.len(),
            coalesced(f, r0) == coalesce_from(f, regs@, b as nat, 0),
        decreases func.blocks@.len() - b,
    {
        let block = &func.blocks[b];
        let mut i: usize = 0;
        while i < block.insts.len()
            invariant
                f == func@,
                f.indexed(),
                phis_indexed(f),
                b < func.blocks@.len(),
                block@ == f.blocks[b as int],
                i <= block.insts@.len(),
                regs@.len() == f.types.len(),
                coalesced(f, r0) == coalesce_from(f, regs@, b as nat, i as nat),
            decreases block.insts@.len() - i,
        {
            assert(f.blocks[b as int].insts[i as int] == block.insts@[i as int]@);
            if let MirInst::Phi { dest, args, .. } = &block.insts[i] {
                if let Some(k) = find_latch(args, block.id) {
                    let (pred, val) = args[k];
                    proof {
                        assert(f.blocks[b as int].insts[i as int]->Phi_args[k as int].0.0 < f.blocks.len());
                        assert(f.block_indexed(f.blocks[b as int], b as int));
                        assert(f.inst_indexed(f.blocks[b as int].insts[i as int]));
                        assert(f.blocks[b as int].insts[i as int].uses()[k as int] == val);
                    }
                    if latch_overwrite_ok(func, pred, *dest, val) {
                        let x = regs[val.index()];
                        regs.set(dest.index(), x);
                    }
                }
            }
            i = i + 1;
        }
        b = b + 1;
    }
    regs
}

proof fn param_regs_fixed(f: FuncV, regs: Seq<u8>, i: nat, out: Seq<u8>)
    requires
        f.indexed(),
        regs.len() == f.types.len(),
        i <= f.params.len(),
        i <= 255,
        forall|a: int, b: int| 0 <= a < b < f.params.len() ==> f.params[a] != f.params[b],
        forall|a: int| 0 <= a < i ==> regs[(#[trigger] f.params[a]).0 as int] == a,
        param_regs(f, regs, i) == Ok::<Seq<u8>, Seq<char>>(out),
    ensures
        out.len() == f.types.len(),
        f.params.len() <= 255,
        forall|a: int| 0 <= a < f.params.len() ==> out[(#[trigger] f.params[a]).0 as int] == a,
    decreases f.params.len() - i,
{
    if i < f.params.len() {
        let p = f.params[i as int];
        let r2 = regs.update(p.0 as int, i as u8);
        assert forall|a: int| 0 <= a < i + 1 implies r2[(#[trigger] f.params[a]).0 as int] == a by {
            if a < i {
                assert(f.params[a] != f.params[i as int]);
                assert(f.params[a].0 != p.0);
            }
        }
        param_regs_fixed(f, r2, i + 1, out);
    }
}

proof fn slot_regs_fixed(
    f: FuncV,
    need: Seq<bool>,
    regs: Seq<u8>,
    next: nat,
    i: nat,
    full: Seq<char>,
    out: Seq<u8>,
    free: u8,
)
    requires
        regs.len() == f.types.len(),
        need.len() == f.types.len(),
        next <= 255,
        i <= f.types.len(),
        slot_regs(f, need, regs, next, i, full) == Ok::<(Seq<u8>, u8), Seq<char>>((out, free)),
        forall|a: int| 0 <= a < i && #[trigger] need[a] && !f.param(a) ==> regs[a] < next,
        forall|a: int, b: int|
            0 <= a < b < i && #[trigger] need[a] && #[trigger] need[b] && !f.param(a) && !f.param(b) ==> regs[a]
                != regs[b],
    ensures
        out.len() == f.types.len(),
        next <= free,
        forall|a: int| 0 <= a < f.types.len() && f.param(a) ==> #[trigger] out[a] == regs[a],
        forall|a: int| 0 <= a < i ==> #[trigger] out[a] == regs[a],
        forall|a: int| i <= a < f.types.len() && #[trigger] need[a] && !f.param(a) ==> next <= out[a],
        forall|a: int| 0 <= a < f.types.len() && #[trigger] need[a] && !f.param(a) ==> out[a] < free,
        forall|a: int, b: int|
            0 <= a < b < f.types.len() && #[trigger] need[a] && #[trigger] need[b] && !f.param(a) && !f.param(b)
                ==> out[a] != out[b],
    decreases f.types.len() - i,
{
    if i < f.types.len() {
        if !need[i as int] || f.param(i as int) {
            slot_regs_fixed(f, need, regs, next, i + 1, full, out, free);
        } else {
            slot_regs_fixed(f, need, regs.update(i as int, next as u8), next + 1, i + 1, full, out, free);
        }
    }
}

/// Two values that need a slot, or are parameters, never share one, and the
/// free slot lies behind them all.
pub proof fn assigned_slots_are_distinct(f: FuncV, need: Seq<bool>, full: Seq<char>, x: int, y: int)
    requires
        f.indexed(),
        need.len() == f.types.len(),
        forall|a: int, b: int| 0 <= a < b < f.params.len() ==> f.params[a] != f.params[b],
        assigned(f, need, full) is Ok,
        0 <= x < f.types.len(),
        0 <= y < f.types.len(),
        x != y,
        need[x] || f.param(x),
        need[y] || f.param(y),
    ensures
        ({
            let a = assigned(f, need, full)->Ok_0;
            a.0[x] != a.0[y] && a.0[x] < a.1 && a.0[y] < a.1
        }),
{
    let zero = Seq::new(f.types.len(), |i: int| 0u8);
    let seeded = param_regs(f, zero, 0)->Ok_0;
    let a = assigned(f, need, full)->Ok_0;
    param_regs_fixed(f, zero, 0, seeded);
    slot_regs_fixed(f, need, seeded, f.params.len(), 0, full, a.0, a.1);
    if f.param(x) {
        let k = choose|k: int| 0 <= k < f.params.len() && (#[trigger] f.params[k]).0 == x;
        assert(seeded[f.params[k].0 as int] == k);
        if f.param(y) {
            let m = choose|m: int| 0 <= m < f.params.len() && (#[trigger] f.params[m]).0 == y;
            assert(seeded[f.params[m].0 as int] == m);
        }
    } else if f.param(y) {
        let m = choose|m: int| 0 <= m < f.params.len() && (#[trigger] f.params[m]).0 == y;
        assert(seeded[f.params[m].0 as int] == m);
    } else if x < y {
        assert(need[x] && need[y]);
    } else {
        assert(need[y] && need[x]);
    }
}

} // verus!

//! What sealing a block does to the phis that wait for it.
use super::builder::{chase, fill_phi, phi_end, without, BuildV};
use super::cse::entries_are_counted;
use super::func::{arg_blocks, BlockV, FuncV};
use super::index::first_in;
use super::inst::{BlockId, InstV, LocalId, TermV, ValueId};
use super::ty::MirTy;
use crate::ids::ascending_ids;
use crate::order::{arg_key, block_key, place, sort_orders_and_permutes, sorted_args, sorted_blocks};
use vstd::prelude::*;

verus! {

/// First instruction from `i` on whose first result is `d`.
pub open spec fn found(insts: Seq<InstV>, d: ValueId, i: int) -> Option<InstV>
    decreases insts.len() - i,
{
    if i >= insts.len() {
        None
    } else if insts[i].dest() == d {
        Some(insts[i])
    } else {
        found(insts, d, i + 1)
    }
}

proof fn found_is_first(insts: Seq<InstV>, d: ValueId, i: nat)
    ensures
        match first_in(insts, d, i) {
            Some(k) => i <= k < insts.len() && found(insts, d, i as int) == Some(insts[k as int])
                && insts[k as int].dest() == d,
            None => found(insts, d, i as int) is None,
        },
    decreases insts.len() - i,
{
    if i < insts.len() && insts[i as int].dest() != d {
        found_is_first(insts, d, i + 1);
    }
}

proof fn found_past_insert(insts: Seq<InstV>, d: ValueId, k: int, x: InstV, i: int)
    requires
        0 <= k <= insts.len(),
        0 <= i,
        x.dest() != d,
    ensures
        i <= k ==> found(insts.insert(k, x), d, i) == found(insts, d, i),
        i > k ==> found(insts.insert(k, x), d, i) == found(insts, d, i - 1),
    decreases insts.len() + 1 - i,
{
    let t = insts.insert(k, x);
    if i < t.len() {
        found_past_insert(insts, d, k, x, i + 1);
    }
}

proof fn found_past_update(insts: Seq<InstV>, d: ValueId, k: int, x: InstV, i: int)
    requires
        0 <= k < insts.len(),
        0 <= i,
        x.dest() == insts[k].dest(),
        x.dest() != d,
    ensures
        found(insts.update(k, x), d, i) == found(insts, d, i),
    decreases insts.len() - i,
{
    if i < insts.len() {
        found_past_update(insts, d, k, x, i + 1);
    }
}

proof fn found_past_push(insts: Seq<InstV>, d: ValueId, x: InstV, i: int)
    requires
        0 <= i <= insts.len(),
    ensures
        found(insts.push(x), d, i) == (match found(insts, d, i) {
            Some(y) => Some(y),
            None => if x.dest() == d {
                Some(x)
            } else {
                None
            },
        }),
    decreases insts.len() - i,
{
    if i < insts.len() {
        found_past_push(insts, d, x, i + 1);
    } else {
        assert(found(insts.push(x), d, i + 1) is None);
    }
}

proof fn found_past_removal(insts: Seq<InstV>, d: ValueId, gone: ValueId, k: nat)
    requires
        k <= insts.len(),
    ensures
        found(without(insts, gone, k), d, 0) == (if d == gone {
            None
        } else {
            found(insts.take(k as int), d, 0)
        }),
    decreases k,
{
    if k > 0 {
        found_past_removal(insts, d, gone, (k - 1) as nat);
        let x = insts[k - 1];
        assert(insts.take(k as int) =~= insts.take(k - 1).push(x));
        found_past_push(insts.take(k - 1), d, x, 0);
        found_past_push(without(insts, gone, (k - 1) as nat), d, x, 0);
    }
}

proof fn found_past_fill(insts: Seq<InstV>, d: ValueId, phi: ValueId, args: Seq<(BlockId, ValueId)>)
    ensures
        d != phi ==> found(fill_phi(insts, phi, args), d, 0) == found(insts, d, 0),
        found(fill_phi(insts, phi, args), phi, 0) == (match found(insts, phi, 0) {
            Some(InstV::Phi { dest, ty, .. }) => Some(InstV::Phi { dest, ty, args }),
            other => other,
        }),
{
    found_is_first(insts, phi, 0);
    if let Some(k) = first_in(insts, phi, 0) {
        if let InstV::Phi { dest, ty, .. } = insts[k as int] {
            let x = InstV::Phi { dest, ty, args };
            if d != phi {
                found_past_update(insts, d, k as int, x, 0);
            }
            first_stays_first(insts, phi, k, x, 0);
        }
    }
}

proof fn first_stays_first(insts: Seq<InstV>, d: ValueId, k: nat, x: InstV, i: nat)
    requires
        i <= k < insts.len(),
        first_in(insts, d, i) == Some(k),
        x.dest() == d,
    ensures
        found(insts.update(k as int, x), d, i as int) == Some(x),
    decreases k - i,
{
    if i < k {
        assert(insts[i as int].dest() != d);
        first_stays_first(insts, d, k, x, i + 1);
    }
}

/// The phi end lies within the instructions.
proof fn phi_end_in_range(insts: Seq<InstV>, i: nat)
    requires
        i <= insts.len(),
    ensures
        phi_end(insts, i) <= insts.len(),
    decreases insts.len() - i,
{
    if i < insts.len() && insts[i as int].phi() {
        phi_end_in_range(insts, i + 1);
    }
}

/// The instruction of block `b` that gives `d`.
pub open spec fn phi_of(s: BuildV, b: BlockId, d: ValueId) -> Option<InstV> {
    found(s.insts(b), d, 0)
}

/// Values are numbered within their range.
pub open spec fn numbered(s: BuildV) -> bool {
    s.f.types.len() <= 0x1_0000_0000
}

/// From `s` to `t` only new values were made: what gives `d` in block `b` stayed.
spec fn extends(s: BuildV, t: BuildV, b: BlockId, d: ValueId) -> bool {
    &&& s.wf() ==> t.wf()
    &&& t.f.blocks.len() == s.f.blocks.len()
    &&& t.sealed == s.sealed
    &&& t.preds == s.preds
    &&& t.f.types.len() >= s.f.types.len()
    &&& numbered(t) && d.0 < s.f.types.len() ==> phi_of(t, b, d) == phi_of(s, b, d)
}

proof fn making_a_phi_extends(s: BuildV, c: BlockId, ty: MirTy, b: BlockId, d: ValueId)
    requires
        s.wf(),
        c.0 < s.f.blocks.len(),
        b.0 < s.f.blocks.len(),
    ensures
        extends(s, s.make_phi(c, ty), b, d),
        s.make_phi(c, ty).f.types.len() == s.f.types.len() + 1,
{
    let t = s.make_phi(c, ty);
    let x = InstV::Phi { dest: s.next(), ty, args: Seq::empty() };
    phi_end_in_range(s.insts(c), 0);
    if numbered(t) && d.0 < s.f.types.len() {
        assert(s.next().0 == s.f.types.len());
        if b.0 == c.0 {
            found_past_insert(s.insts(c), d, phi_end(s.insts(c), 0) as int, x, 0);
        }
    }
}

proof fn closing_a_phi_extends(
    s: BuildV,
    c: BlockId,
    phi: ValueId,
    args: Seq<(BlockId, ValueId)>,
    b: BlockId,
    d: ValueId,
)
    requires
        s.wf(),
        c.0 < s.f.blocks.len(),
        b.0 < s.f.blocks.len(),
    ensures
        d != phi ==> extends(s, s.close_phi(c, phi, args), b, d),
        s.close_phi(c, phi, args).wf(),
        s.close_phi(c, phi, args).f.types == s.f.types,
        s.close_phi(c, phi, args).f.blocks.len() == s.f.blocks.len(),
        s.close_phi(c, phi, args).sealed == s.sealed,
        s.close_phi(c, phi, args).preds == s.preds,
{
    let filled = s.with_insts(c, fill_phi(s.insts(c), phi, sorted_args(args)));
    let t = s.close_phi(c, phi, args);
    if d != phi && b.0 == c.0 {
        found_past_fill(s.insts(c), d, phi, sorted_args(args));
        let now = filled.insts(c);
        found_past_removal(now, d, phi, now.len());
        assert(now.take(now.len() as int) =~= now);
    }
}

proof fn reading_extends(
    s: BuildV,
    local: LocalId,
    ty: MirTy,
    c: BlockId,
    joins: nat,
    chain: nat,
    n: nat,
    b: BlockId,
    d: ValueId,
)
    requires
        s.wf(),
        c.0 < s.f.blocks.len(),
        b.0 < s.f.blocks.len(),
    ensures
        s.read(local, ty, c, joins, chain, n).0.wf(),
        extends(s, s.read(local, ty, c, joins, chain, n).0, b, d),
    decreases joins, chain, 0nat,
{
    let ps = s.preds[c.0 as int];
    let v = s.next();
    assert forall|k: int| 0 <= k < ps.len() implies (#[trigger] ps[k]).0 < s.f.blocks.len() by {
        assert(s.preds[c.0 as int][k].0 < s.f.blocks.len());
    }
    if s.defs[c.0 as int].dom().contains(local.0) {
    } else if !s.sealed[c.0 as int] {
        making_a_phi_extends(s, c, ty, b, d);
    } else if ps.len() == 1 && chain > 0 {
        reading_extends(s, local, ty, ps[0], joins, (chain - 1) as nat, n, b, d);
    } else if ps.len() > 1 && joins > 0 {
        making_a_phi_extends(s, c, ty, b, d);
        let t = s.make_phi(c, ty).write(local, c, v);
        assert(t.wf());
        assert(arg_blocks(Seq::empty()) =~= ps.take(0));
        operands_extend(t, local, t.f.ty(v), ps, 0, Seq::empty(), (joins - 1) as nat, n, b, d);
        let r = t.operands(local, t.f.ty(v), ps, 0, Seq::empty(), (joins - 1) as nat, n);
        closing_a_phi_extends(r.0, c, v, r.1, b, d);
    } else {
    }
}

proof fn operands_extend(
    s: BuildV,
    local: LocalId,
    ty: MirTy,
    ps: Seq<BlockId>,
    i: nat,
    args: Seq<(BlockId, ValueId)>,
    joins: nat,
    n: nat,
    b: BlockId,
    d: ValueId,
)
    requires
        s.wf(),
        b.0 < s.f.blocks.len(),
        i <= ps.len(),
        forall|k: int| 0 <= k < ps.len() ==> (#[trigger] ps[k]).0 < s.f.blocks.len(),
        args.len() == i,
        arg_blocks(args) == ps.take(i as int),
    ensures
        s.operands(local, ty, ps, i, args, joins, n).0.wf(),
        extends(s, s.operands(local, ty, ps, i, args, joins, n).0, b, d),
        arg_blocks(s.operands(local, ty, ps, i, args, joins, n).1) == ps,
    decreases joins, n + 1, ps.len() - i,
{
    if i < ps.len() {
        reading_extends(s, local, ty, ps[i as int], joins, n, n, b, d);
        let r = s.read(local, ty, ps[i as int], joins, n, n);
        let more = args.push((ps[i as int], r.0.resolve(r.1)));
        assert(arg_blocks(more) =~= ps.take(i as int + 1));
        operands_extend(r.0, local, ty, ps, i + 1, more, joins, n, b, d);
    } else {
        assert(ps.take(i as int) =~= ps);
    }
}

proof fn placing_places_blocks(s: Seq<(BlockId, ValueId)>, x: (BlockId, ValueId))
    ensures
        arg_blocks(place(arg_key(), s, x)) == place(block_key(), arg_blocks(s), x.0),
    decreases s.len(),
{
    if s.len() == 0 || arg_key()(s.last()) <= arg_key()(x) {
        assert(arg_blocks(s.push(x)) =~= arg_blocks(s).push(x.0));
    } else {
        placing_places_blocks(s.drop_last(), x);
        assert(arg_blocks(s.drop_last()) =~= arg_blocks(s).drop_last());
        let rest = place(arg_key(), s.drop_last(), x);
        assert(arg_blocks(rest.push(s.last())) =~= arg_blocks(rest).push(s.last().0));
    }
}

/// Sorting arguments sorts their blocks.
proof fn sorting_sorts_blocks(s: Seq<(BlockId, ValueId)>)
    ensures
        arg_blocks(sorted_args(s)) == sorted_blocks(arg_blocks(s)),
    decreases s.len(),
{
    if s.len() > 0 {
        sorting_sorts_blocks(s.drop_last());
        placing_places_blocks(sorted_args(s.drop_last()), s.last());
        assert(arg_blocks(s.drop_last()) =~= arg_blocks(s).drop_last());
    } else {
        assert(arg_blocks(sorted_args(s)) =~= sorted_blocks(arg_blocks(s)));
    }
}

/// The arguments name `v` or the phi itself, and `v` at least once.
pub open spec fn all_one(s: BuildV, args: Seq<(BlockId, ValueId)>, phi: ValueId, v: ValueId) -> bool {
    &&& v != phi
    &&& exists|k: int| 0 <= k < args.len() && s.resolve((#[trigger] args[k]).1) == v
    &&& forall|k: int|
        0 <= k < args.len() ==> s.resolve((#[trigger] args[k]).1) == v || s.resolve(args[k].1) == phi
}

proof fn agreement_is_all_one(
    s: BuildV,
    args: Seq<(BlockId, ValueId)>,
    phi: ValueId,
    i: nat,
    same: Option<ValueId>,
)
    requires
        i <= args.len(),
        same != Some(phi),
    ensures
        match s.agreed(args, phi, i, same) {
            Some(v) => {
                &&& v != phi
                &&& same is Some ==> same == Some(v)
                &&& same == Some(v) || exists|k: int|
                    i <= k < args.len() && s.resolve((#[trigger] args[k]).1) == v
                &&& forall|k: int|
                    i <= k < args.len() ==> s.resolve((#[trigger] args[k]).1) == v || s.resolve(args[k].1)
                        == phi
            },
            None => {
                ||| (exists|k: int, l: int|
                    #![trigger args[k], args[l]]
                    i <= k < args.len() && i <= l < args.len() && s.resolve(args[k].1) != phi && s.resolve(
                        args[l].1,
                    ) != phi && s.resolve(args[k].1) != s.resolve(args[l].1))
                ||| (exists|k: int|
                    i <= k < args.len() && s.resolve((#[trigger] args[k]).1) != phi && same is Some && same
                        != Some(s.resolve(args[k].1)))
                ||| (same is None && forall|k: int|
                    i <= k < args.len() ==> s.resolve((#[trigger] args[k]).1) == phi)
            },
        },
    decreases args.len() - i,
{
    if i < args.len() {
        let v = s.resolve(args[i as int].1);
        if v == phi {
            agreement_is_all_one(s, args, phi, i + 1, same);
        } else if same is Some && same != Some(v) {
            assert(s.resolve(args[i as int].1) != phi);
        } else {
            agreement_is_all_one(s, args, phi, i + 1, Some(v));
            if s.agreed(args, phi, i + 1, Some(v)) is None {
                if exists|k: int|
                    i + 1 <= k < args.len() && s.resolve((#[trigger] args[k]).1) != phi && Some(v) != Some(
                        s.resolve(args[k].1),
                    ) {
                    let k = choose|k: int|
                        i + 1 <= k < args.len() && s.resolve((#[trigger] args[k]).1) != phi && Some(v) != Some(
                            s.resolve(args[k].1),
                        );
                    assert(s.resolve(args[k].1) != s.resolve(args[i as int].1));
                }
            }
        }
    }
}

/// A waiting phi of block `b` gets the values of its local at the ends of the predecessors. Where
/// these, apart from the phi itself, are one value, the phi goes and the value stands for it.
/// Otherwise it stays, with one argument for each predecessor in block order.
pub proof fn completing_fills_or_removes(s: BuildV, b: BlockId, local: LocalId, phi: ValueId)
    requires
        s.wf(),
        b.0 < s.f.blocks.len(),
        phi.0 < s.f.types.len(),
        numbered(s.complete(b, local, phi)),
        phi_of(s, b, phi) matches Some(x) && x.phi(),
    ensures
        ({
            let n = s.f.blocks.len();
            let (r, raw) = s.operands(local, s.f.ty(phi), s.preds[b.0 as int], 0, Seq::empty(), n, n);
            let args = sorted_args(raw);
            let t = s.complete(b, local, phi);
            &&& arg_blocks(args) == sorted_blocks(s.preds[b.0 as int])
            &&& forall|v: ValueId| #[trigger]
                all_one(r, args, phi, v) ==> phi_of(t, b, phi) is None && t.subst == r.subst.insert(phi.0, v)
            &&& (forall|v: ValueId| !#[trigger] all_one(r, args, phi, v)) ==> phi_of(t, b, phi) == Some(
                InstV::Phi { dest: phi, ty: phi_of(s, b, phi)->0->Phi_ty, args },
            ) && t.subst == r.subst
        }),
{
    let n = s.f.blocks.len();
    let ps = s.preds[b.0 as int];
    let ty = s.f.ty(phi);
    assert forall|k: int| 0 <= k < ps.len() implies (#[trigger] ps[k]).0 < s.f.blocks.len() by {
        assert(s.preds[b.0 as int][k].0 < s.f.blocks.len());
    }
    assert(arg_blocks(Seq::empty()) =~= ps.take(0));
    operands_extend(s, local, ty, ps, 0, Seq::empty(), n, n, b, phi);
    let (r, raw) = s.operands(local, ty, ps, 0, Seq::empty(), n, n);
    let args = sorted_args(raw);
    sorting_sorts_blocks(raw);
    closing_a_phi_extends(r, b, phi, raw, b, phi);
    let insts = r.insts(b);
    found_past_fill(insts, phi, phi, args);
    let filled = r.with_insts(b, fill_phi(insts, phi, args));
    let now = filled.insts(b);
    found_is_first(now, phi, 0);
    found_is_first(insts, phi, 0);
    found_past_removal(now, phi, phi, now.len());
    assert(filled.subst == r.subst);
    agreement_is_all_one(filled, args, phi, 0, None);
    assert forall|v: ValueId| filled.resolve(v) == r.resolve(v) by {}
    match filled.agreed(args, phi, 0, None) {
        Some(w) => {
            assert(all_one(r, args, phi, w)) by {
                let k = choose|k: int|
                    0 <= k < args.len() && filled.resolve((#[trigger] args[k]).1) == w;
                assert(r.resolve(args[k].1) == w);
            }
            assert forall|v: ValueId| #[trigger] all_one(r, args, phi, v) implies v == w by {
                let k = choose|k: int| 0 <= k < args.len() && r.resolve((#[trigger] args[k]).1) == v;
                assert(filled.resolve(args[k].1) == v);
            }
        },
        None => {
            assert forall|v: ValueId| !#[trigger] all_one(r, args, phi, v) by {
                if all_one(r, args, phi, v) {
                    let k = choose|k: int| 0 <= k < args.len() && r.resolve((#[trigger] args[k]).1) == v;
                    assert(filled.resolve(args[k].1) != phi);
                }
            }
        },
    }
}

/// What gives `phi` in block `b` is no phi, or a phi with one argument for each predecessor of the
/// block, in block order.
pub open spec fn completed(s: BuildV, b: BlockId, phi: ValueId) -> bool {
    match phi_of(s, b, phi) {
        Some(InstV::Phi { args, .. }) => arg_blocks(args) == sorted_blocks(s.preds[b.0 as int]),
        _ => true,
    }
}

proof fn completing_completes(s: BuildV, b: BlockId, local: LocalId, phi: ValueId, d: ValueId)
    requires
        s.wf(),
        b.0 < s.f.blocks.len(),
        d.0 < s.f.types.len(),
    ensures
        ({
            let t = s.complete(b, local, phi);
            &&& t.wf()
            &&& t.f.blocks.len() == s.f.blocks.len()
            &&& t.sealed == s.sealed
            &&& t.preds == s.preds
            &&& t.f.types.len() >= s.f.types.len()
            &&& numbered(t) && (d == phi || completed(s, b, d)) ==> completed(t, b, d)
        }),
{
    let n = s.f.blocks.len();
    let ps = s.preds[b.0 as int];
    let ty = s.f.ty(phi);
    assert forall|k: int| 0 <= k < ps.len() implies (#[trigger] ps[k]).0 < s.f.blocks.len() by {
        assert(s.preds[b.0 as int][k].0 < s.f.blocks.len());
    }
    assert(arg_blocks(Seq::empty()) =~= ps.take(0));
    operands_extend(s, local, ty, ps, 0, Seq::empty(), n, n, b, d);
    let (r, raw) = s.operands(local, ty, ps, 0, Seq::empty(), n, n);
    sorting_sorts_blocks(raw);
    closing_a_phi_extends(r, b, phi, raw, b, d);
    if d == phi {
        found_past_fill(r.insts(b), phi, phi, sorted_args(raw));
        let now = fill_phi(r.insts(b), phi, sorted_args(raw));
        found_past_removal(now, phi, phi, now.len());
    }
}

proof fn completing_all_completes(
    s: BuildV,
    b: BlockId,
    pending: Seq<(LocalId, ValueId)>,
    i: nat,
    k: int,
)
    requires
        s.wf(),
        b.0 < s.f.blocks.len(),
        i <= pending.len(),
        0 <= k < pending.len(),
        pending[k].1.0 < s.f.types.len(),
        k < i ==> completed(s, b, pending[k].1),
    ensures
        ({
            let t = s.complete_all(b, pending, i);
            &&& t.wf()
            &&& t.f.blocks.len() == s.f.blocks.len()
            &&& t.sealed == s.sealed
            &&& t.preds == s.preds
            &&& t.f.types.len() >= s.f.types.len()
            &&& numbered(t) ==> completed(t, b, pending[k].1)
        }),
    decreases pending.len() - i,
{
    if i < pending.len() {
        completing_completes(s, b, pending[i as int].0, pending[i as int].1, pending[k].1);
        let t = s.complete(b, pending[i as int].0, pending[i as int].1);
        if numbered(s.complete_all(b, pending, i)) {
            frame_of_the_rest(t, b, pending, i + 1);
            completing_all_completes(t, b, pending, i + 1, k);
        } else {
            frame_of_the_rest(t, b, pending, i + 1);
        }
    }
}

proof fn frame_of_the_rest(s: BuildV, b: BlockId, pending: Seq<(LocalId, ValueId)>, i: nat)
    requires
        s.wf(),
        b.0 < s.f.blocks.len(),
        i <= pending.len(),
    ensures
        ({
            let t = s.complete_all(b, pending, i);
            &&& t.wf()
            &&& t.f.blocks.len() == s.f.blocks.len()
            &&& t.sealed == s.sealed
            &&& t.preds == s.preds
            &&& t.f.types.len() >= s.f.types.len()
        }),
    decreases pending.len() - i,
{
    if i < pending.len() {
        let n = s.f.blocks.len();
        let (local, phi) = pending[i as int];
        let ps = s.preds[b.0 as int];
        let ty = s.f.ty(phi);
        assert forall|k: int| 0 <= k < ps.len() implies (#[trigger] ps[k]).0 < s.f.blocks.len() by {
            assert(s.preds[b.0 as int][k].0 < s.f.blocks.len());
        }
        assert(arg_blocks(Seq::empty()) =~= ps.take(0));
        operands_extend(s, local, ty, ps, 0, Seq::empty(), n, n, b, phi);
        let (r, raw) = s.operands(local, ty, ps, 0, Seq::empty(), n, n);
        closing_a_phi_extends(r, b, phi, raw, b, phi);
        frame_of_the_rest(s.complete(b, local, phi), b, pending, i + 1);
    }
}

/// After sealing a block each phi that waited for it is gone, or has one argument for each
/// predecessor of the block, in block order.
pub proof fn sealing_completes_waiting_phis(s: BuildV, b: BlockId, k: int)
    requires
        s.wf(),
        b.0 < s.f.blocks.len(),
        !s.sealed[b.0 as int],
        0 <= k < s.incomplete[b.0 as int].len(),
        s.incomplete[b.0 as int][k].1.0 < s.f.types.len(),
        numbered(s.seal(b)),
    ensures
        completed(s.seal(b), b, s.incomplete[b.0 as int][k].1),
        s.seal(b).preds == s.preds,
{
    let t = BuildV {
        sealed: s.sealed.update(b.0 as int, true),
        incomplete: s.incomplete.update(b.0 as int, Seq::empty()),
        ..s
    };
    assert(t.wf());
    completing_all_completes(t, b, s.incomplete[b.0 as int], 0, k);
}

/// Sealing a block again changes nothing.
pub proof fn sealing_again_changes_nothing(s: BuildV, b: BlockId)
    requires
        s.wf(),
        b.0 < s.f.blocks.len(),
    ensures
        s.seal(b).seal(b) == s.seal(b),
{
    if !s.sealed[b.0 as int] {
        let t = BuildV {
            sealed: s.sealed.update(b.0 as int, true),
            incomplete: s.incomplete.update(b.0 as int, Seq::empty()),
            ..s
        };
        assert(t.wf());
        frame_of_the_rest(t, b, s.incomplete[b.0 as int], 0);
    }
}

// The values that waiting phis get.

/// What a value stands for is not itself replaced.
pub open spec fn settled(s: BuildV) -> bool {
    forall|v: ValueId| !s.subst.dom().contains((#[trigger] s.resolve(v)).0)
}

/// `p` is a phi of block `b` that nothing stands for.
pub open spec fn stands(s: BuildV, b: int, p: ValueId) -> bool {
    &&& p.0 < s.f.types.len()
    &&& !s.subst.dom().contains(p.0)
    &&& found(s.f.blocks[b].insts, p, 0) matches Some(x) && x is Phi
}

/// Replacements end, and concern values that were made. Waiting phis are phis of their block that
/// nothing stands for, and each waits once.
pub open spec fn sound(s: BuildV) -> bool {
    &&& settled(s)
    &&& forall|k: u32| #[trigger] s.subst.dom().contains(k) ==> k < s.f.types.len()
    &&& forall|b: int, k: int|
        0 <= b < s.incomplete.len() && 0 <= k < s.incomplete[b].len() ==> stands(
            s,
            b,
            (#[trigger] s.incomplete[b][k]).1,
        )
    &&& forall|b: int, k: int, c: int, l: int|
        0 <= b < s.incomplete.len() && 0 <= k < s.incomplete[b].len() && 0 <= c < s.incomplete.len() && 0 <= l
            < s.incomplete[c].len() && !(b == c && k == l) ==> (#[trigger] s.incomplete[b][k]).1 != (
        #[trigger] s.incomplete[c][l]).1
}

/// The builder knows the value of the local at the end of block `q`.
pub open spec fn known(s: BuildV, q: BlockId, local: LocalId) -> bool {
    s.defs[q.0 as int].dom().contains(local.0)
}

/// Value of the local at the end of block `q`.
pub open spec fn value_at(s: BuildV, q: BlockId, local: LocalId) -> ValueId {
    s.resolve(s.defs[q.0 as int][local.0])
}

proof fn chasing_past_insert(m: Map<u32, ValueId>, phi: ValueId, v: ValueId, x: ValueId, n: nat)
    requires
        !m.dom().contains(phi.0),
        !m.dom().contains(v.0),
        v != phi,
        !m.dom().contains(chase(m, x, n).0),
    ensures
        chase(m.insert(phi.0, v), x, n + 1) == (if chase(m, x, n) == phi {
            v
        } else {
            chase(m, x, n)
        }),
    decreases n,
{
    let t = m.insert(phi.0, v);
    assert(chase(t, v, n) == v);
    if m.dom().contains(x.0) && n > 0 {
        chasing_past_insert(m, phi, v, m[x.0], (n - 1) as nat);
    }
}

/// A value that is itself not replaced comes to stand for `phi`.
proof fn replacing_settles(s: BuildV, t: BuildV, phi: ValueId, v: ValueId)
    requires
        settled(s),
        !s.subst.dom().contains(phi.0),
        !s.subst.dom().contains(v.0),
        v != phi,
        t.subst == s.subst.insert(phi.0, v),
    ensures
        settled(t),
        forall|x: ValueId| #[trigger]
            t.resolve(x) == (if s.resolve(x) == phi {
                v
            } else {
                s.resolve(x)
            }),
{
    entries_are_counted(s.subst);
    entries_are_counted(t.subst);
    assert(t.subst.dom() =~= s.subst.dom().insert(phi.0));
    assert forall|x: ValueId| #[trigger]
        t.resolve(x) == (if s.resolve(x) == phi {
            v
        } else {
            s.resolve(x)
        }) && !t.subst.dom().contains(t.resolve(x).0) by {
        let n = ascending_ids(s.subst.dom()).len();
        assert(!s.subst.dom().contains(s.resolve(x).0));
        chasing_past_insert(s.subst, phi, v, x, n);
        if s.resolve(x) != phi && s.resolve(x).0 == phi.0 {
            assert(s.resolve(x) == phi);
        }
    }
}

proof fn unreplaced_values_stand(s: BuildV, v: ValueId)
    requires
        !s.subst.dom().contains(v.0),
    ensures
        s.resolve(v) == v,
{
}

/// From `s` to `t` values were made and phis removed: what stood for a value is what stands for it
/// now or is replaced in turn, and known values of locals stay.
pub open spec fn leads(s: BuildV, t: BuildV) -> bool {
    &&& t.f.types.len() >= s.f.types.len()
    &&& t.defs.len() == s.defs.len()
    &&& forall|x: ValueId| #![trigger t.resolve(x), s.resolve(x)] t.resolve(x) == t.resolve(s.resolve(x))
    &&& forall|q: int, l: u32|
        0 <= q < s.defs.len() && #[trigger] s.defs[q].dom().contains(l) ==> t.defs[q].dom().contains(l)
            && t.defs[q][l] == s.defs[q][l]
}

proof fn leading_on(s: BuildV, t: BuildV, u: BuildV)
    requires
        leads(s, t),
        leads(t, u),
    ensures
        leads(s, u),
{
    assert forall|x: ValueId| #![trigger u.resolve(x), s.resolve(x)] u.resolve(x) == u.resolve(s.resolve(x)) by {
        assert(u.resolve(x) == u.resolve(t.resolve(x)));
        assert(t.resolve(x) == t.resolve(s.resolve(x)));
        assert(u.resolve(s.resolve(x)) == u.resolve(t.resolve(s.resolve(x))));
    }
    assert forall|q: int, l: u32|
        0 <= q < s.defs.len() && #[trigger] s.defs[q].dom().contains(l) implies u.defs[q].dom().contains(l)
        && u.defs[q][l] == s.defs[q][l] by {
        assert(t.defs[q].dom().contains(l));
    }
}

/// Only values made since `s` were replaced or began to wait.
spec fn spares(s: BuildV, t: BuildV) -> bool {
    &&& forall|k: u32| k < s.f.types.len() ==> #[trigger] t.subst.dom().contains(k) == s.subst.dom().contains(k)
    &&& t.incomplete.len() == s.incomplete.len()
    &&& forall|b: int|
        0 <= b < s.incomplete.len() ==> (#[trigger] t.incomplete[b]).len() >= s.incomplete[b].len()
    &&& forall|b: int, k: int|
        0 <= b < s.incomplete.len() && 0 <= k < s.incomplete[b].len() ==> #[trigger] t.incomplete[b][k]
            == s.incomplete[b][k]
    &&& forall|b: int, k: int|
        0 <= b < s.incomplete.len() && s.incomplete[b].len() <= k < t.incomplete[b].len() ==> (
        #[trigger] t.incomplete[b][k]).1.0 >= s.f.types.len()
}

proof fn sparing_on(s: BuildV, t: BuildV, u: BuildV)
    requires
        spares(s, t),
        spares(t, u),
        t.f.types.len() >= s.f.types.len(),
    ensures
        spares(s, u),
{
    assert forall|k: u32| k < s.f.types.len() implies #[trigger] u.subst.dom().contains(k)
        == s.subst.dom().contains(k) by {
        assert(t.subst.dom().contains(k) == s.subst.dom().contains(k));
    }
    assert forall|b: int| 0 <= b < s.incomplete.len() implies (#[trigger] u.incomplete[b]).len()
        >= s.incomplete[b].len() by {
        assert(t.incomplete[b].len() >= s.incomplete[b].len());
    }
    assert forall|b: int, k: int|
        0 <= b < s.incomplete.len() && 0 <= k < s.incomplete[b].len() implies #[trigger] u.incomplete[b][k]
        == s.incomplete[b][k] by {
        assert(t.incomplete[b].len() >= s.incomplete[b].len());
        assert(t.incomplete[b][k] == s.incomplete[b][k]);
    }
    assert forall|b: int, k: int|
        0 <= b < s.incomplete.len() && s.incomplete[b].len() <= k < u.incomplete[b].len() implies (
    #[trigger] u.incomplete[b][k]).1.0 >= s.f.types.len() by {
        if k < t.incomplete[b].len() {
            assert(u.incomplete[b][k] == t.incomplete[b][k]);
        }
    }
}

/// What is found behind an inserted phi is a phi.
proof fn inserted_phi_is_found(insts: Seq<InstV>, x: InstV, i: nat)
    requires
        x is Phi,
        i <= insts.len(),
    ensures
        found(insts.insert(phi_end(insts, i) as int, x), x.dest(), i as int) matches Some(y) && y is Phi,
    decreases insts.len() - i,
{
    phi_end_in_range(insts, i);
    phi_end_comes_later(insts, i);
    if i < insts.len() && insts[i as int].phi() {
        inserted_phi_is_found(insts, x, i + 1);
        phi_end_comes_later(insts, i + 1);
    }
}

proof fn phi_end_comes_later(insts: Seq<InstV>, i: nat)
    ensures
        phi_end(insts, i) >= i,
    decreases insts.len() - i,
{
    if i < insts.len() && insts[i as int].phi() {
        phi_end_comes_later(insts, i + 1);
    }
}

/// Values that wait in `s` still do where nothing was replaced and they are found as before.
proof fn waiting_phis_stand(s: BuildV, t: BuildV)
    requires
        s.wf(),
        sound(s),
        numbered(t),
        t.f.types.len() >= s.f.types.len(),
        t.f.blocks.len() == s.f.blocks.len(),
        forall|k: u32| k < s.f.types.len() ==> #[trigger] t.subst.dom().contains(k) == s.subst.dom().contains(k),
        forall|b: BlockId, d: ValueId|
            b.0 < s.f.blocks.len() && d.0 < s.f.types.len() ==> #[trigger] phi_of(t, b, d) == phi_of(s, b, d),
    ensures
        forall|b: int, k: int|
            0 <= b < s.incomplete.len() && 0 <= k < s.incomplete[b].len() ==> stands(
                t,
                b,
                (#[trigger] s.incomplete[b][k]).1,
            ),
{
    assert forall|b: int, k: int| 0 <= b < s.incomplete.len() && 0 <= k < s.incomplete[b].len() implies stands(
        t,
        b,
        (#[trigger] s.incomplete[b][k]).1,
    ) by {
        let p = s.incomplete[b][k].1;
        assert(stands(s, b, p));
        assert(phi_of(t, BlockId(b as u32), p) == phi_of(s, BlockId(b as u32), p));
    }
}

proof fn making_a_phi_leads(s: BuildV, c: BlockId, ty: MirTy)
    requires
        s.wf(),
        sound(s),
        c.0 < s.f.blocks.len(),
        numbered(s.make_phi(c, ty)),
    ensures
        sound(s.make_phi(c, ty)),
        leads(s, s.make_phi(c, ty)),
        spares(s, s.make_phi(c, ty)),
        s.next().0 == s.f.types.len(),
        stands(s.make_phi(c, ty), c.0 as int, s.next()),
{
    let t = s.make_phi(c, ty);
    assert forall|b: BlockId, d: ValueId|
        b.0 < s.f.blocks.len() && d.0 < s.f.types.len() implies #[trigger] phi_of(t, b, d) == phi_of(s, b, d) by {
        making_a_phi_extends(s, c, ty, b, d);
    }
    assert(t.f.types.len() == s.f.types.len() + 1);
    waiting_phis_stand(s, t);
    assert forall|x: ValueId| #[trigger] t.resolve(x) == s.resolve(x) by {}
    assert(settled(t)) by {
        assert forall|v: ValueId| !t.subst.dom().contains((#[trigger] t.resolve(v)).0) by {
            assert(t.resolve(v) == s.resolve(v));
        }
    }
    assert(leads(s, t)) by {
        assert forall|x: ValueId| #![trigger t.resolve(x), s.resolve(x)] t.resolve(x) == t.resolve(s.resolve(x)) by {
            unreplaced_values_stand(s, s.resolve(x));
        }
    }
    assert(stands(t, c.0 as int, s.next())) by {
        inserted_phi_is_found(s.insts(c), InstV::Phi { dest: s.next(), ty, args: Seq::empty() }, 0);
        if s.subst.dom().contains(s.next().0) {
            assert(s.next().0 < s.f.types.len());
        }
    }
}

#[verifier::spinoff_prover]
proof fn closing_leads(s: BuildV, c: BlockId, phi: ValueId, args: Seq<(BlockId, ValueId)>)
    requires
        s.wf(),
        sound(s),
        numbered(s),
        c.0 < s.f.blocks.len(),
        phi.0 < s.f.types.len(),
        !s.subst.dom().contains(phi.0),
        forall|b: int, k: int|
            0 <= b < s.incomplete.len() && 0 <= k < s.incomplete[b].len() ==> (#[trigger] s.incomplete[b][k]).1
                != phi,
    ensures
        sound(s.close_phi(c, phi, args)),
        leads(s, s.close_phi(c, phi, args)),
        s.close_phi(c, phi, args).incomplete == s.incomplete,
        s.close_phi(c, phi, args).defs == s.defs,
        forall|k: u32|
            k != phi.0 ==> #[trigger] s.close_phi(c, phi, args).subst.dom().contains(k) == s.subst.dom().contains(
                k,
            ),
{
    let filled = s.with_insts(c, fill_phi(s.insts(c), phi, sorted_args(args)));
    let t = s.close_phi(c, phi, args);
    assert forall|x: ValueId| #[trigger] filled.resolve(x) == s.resolve(x) by {}
    match filled.trivial(c, phi) {
        Some(v) => {
            let i = first_in(filled.insts(c), phi, 0)->0;
            let now = filled.insts(c)[i as int]->Phi_args;
            agreement_is_all_one(filled, now, phi, 0, None);
            let k = choose|k: int| 0 <= k < now.len() && filled.resolve((#[trigger] now[k]).1) == v;
            assert(v == s.resolve(now[k].1));
            assert(!s.subst.dom().contains(v.0));
            replacing_settles(s, t, phi, v);
            assert forall|x: ValueId| #![trigger t.resolve(x), s.resolve(x)] t.resolve(x) == t.resolve(s.resolve(x)) by {
                unreplaced_values_stand(s, s.resolve(x));
            }
        },
        None => {
            assert(t.subst == s.subst);
            assert forall|x: ValueId| #[trigger] t.resolve(x) == s.resolve(x) by {}
            assert(settled(t)) by {
                assert forall|v: ValueId| !t.subst.dom().contains((#[trigger] t.resolve(v)).0) by {
                    assert(t.resolve(v) == s.resolve(v));
                }
            }
            assert forall|x: ValueId| #![trigger t.resolve(x), s.resolve(x)] t.resolve(x) == t.resolve(s.resolve(x)) by {
                unreplaced_values_stand(s, s.resolve(x));
            }
        },
    }
    assert forall|b: int, k: int| 0 <= b < t.incomplete.len() && 0 <= k < t.incomplete[b].len() implies stands(
        t,
        b,
        (#[trigger] t.incomplete[b][k]).1,
    ) by {
        let p = s.incomplete[b][k].1;
        assert(stands(s, b, p));
        closing_a_phi_extends(s, c, phi, args, BlockId(b as u32), p);
        assert(phi_of(t, BlockId(b as u32), p) == phi_of(s, BlockId(b as u32), p));
    }
}

/// Each argument is the value of the local at the end of its block.
spec fn looked_up(s: BuildV, local: LocalId, ps: Seq<BlockId>, args: Seq<(BlockId, ValueId)>) -> bool {
    &&& args.len() <= ps.len()
    &&& forall|j: int|
        0 <= j < args.len() ==> (#[trigger] args[j]).0 == ps[j] && known(s, ps[j], local) && s.resolve(args[j].1)
            == value_at(s, ps[j], local)
}

proof fn looked_up_stays(s: BuildV, t: BuildV, local: LocalId, ps: Seq<BlockId>, args: Seq<(BlockId, ValueId)>)
    requires
        leads(s, t),
        forall|k: int| 0 <= k < ps.len() ==> (#[trigger] ps[k]).0 < s.defs.len(),
        looked_up(s, local, ps, args),
    ensures
        looked_up(t, local, ps, args),
{
    assert forall|j: int| 0 <= j < args.len() implies (#[trigger] args[j]).0 == ps[j] && known(t, ps[j], local)
        && t.resolve(args[j].1) == value_at(t, ps[j], local) by {
        let q = ps[j].0 as int;
        assert(args[j].0 == ps[j]);
        assert(s.defs[q].dom().contains(local.0));
        assert(t.resolve(args[j].1) == t.resolve(s.resolve(args[j].1)));
        assert(t.resolve(s.defs[q][local.0]) == t.resolve(s.resolve(s.defs[q][local.0])));
    }
}

proof fn waiting_leads(s: BuildV, local: LocalId, ty: MirTy, c: BlockId)
    requires
        s.wf(),
        sound(s),
        c.0 < s.f.blocks.len(),
        !known(s, c, local),
        !s.sealed[c.0 as int],
        numbered(s.read(local, ty, c, 0, 0, 0).0),
    ensures
        ({
            let t = s.read(local, ty, c, 0, 0, 0).0;
            &&& sound(t)
            &&& leads(s, t)
            &&& spares(s, t)
        }),
{
    let v = s.next();
    let m = s.make_phi(c, ty);
    let t = s.read(local, ty, c, 0, 0, 0).0;
    assert(m.f.types == t.f.types);
    making_a_phi_leads(s, c, ty);
    assert forall|x: ValueId| #[trigger] t.resolve(x) == m.resolve(x) by {}
    assert(settled(t)) by {
        assert forall|x: ValueId| !t.subst.dom().contains((#[trigger] t.resolve(x)).0) by {
            assert(t.resolve(x) == m.resolve(x));
        }
    }
    assert(leads(s, t)) by {
        assert forall|x: ValueId| #![trigger t.resolve(x), s.resolve(x)] t.resolve(x) == t.resolve(s.resolve(x)) by {
            assert(m.resolve(x) == m.resolve(s.resolve(x)));
        }
    }
    assert(spares(s, t));
    assert forall|b: int, k: int| 0 <= b < t.incomplete.len() && 0 <= k < t.incomplete[b].len() implies stands(
        t,
        b,
        (#[trigger] t.incomplete[b][k]).1,
    ) by {
        if b == c.0 && k == s.incomplete[b].len() {
            assert(stands(m, b, v));
        } else {
            assert(m.incomplete[b][k] == t.incomplete[b][k]);
            assert(stands(m, b, m.incomplete[b][k].1));
        }
    }
    assert forall|b: int, k: int, d: int, l: int|
        0 <= b < t.incomplete.len() && 0 <= k < t.incomplete[b].len() && 0 <= d < t.incomplete.len() && 0 <= l
            < t.incomplete[d].len() && !(b == d && k == l) implies (#[trigger] t.incomplete[b][k]).1 != (
    #[trigger] t.incomplete[d][l]).1 by {
        let new1 = b == c.0 && k == s.incomplete[b].len();
        let new2 = d == c.0 && l == s.incomplete[d].len();
        if !new1 {
            assert(t.incomplete[b][k] == s.incomplete[b][k]);
            assert(stands(s, b, s.incomplete[b][k].1));
        }
        if !new2 {
            assert(t.incomplete[d][l] == s.incomplete[d][l]);
            assert(stands(s, d, s.incomplete[d][l].1));
        }
    }
}

/// Writing a local whose value is not known at the end of the block leads on.
proof fn writing_leads(s: BuildV, t: BuildV, local: LocalId, c: BlockId, v: ValueId)
    requires
        c.0 < t.defs.len(),
        leads(s, t),
        spares(s, t),
        sound(t),
        !known(s, c, local),
    ensures
        leads(s, t.write(local, c, v)),
        spares(s, t.write(local, c, v)),
        sound(t.write(local, c, v)),
{
    let w = t.write(local, c, v);
    assert forall|x: ValueId| #[trigger] w.resolve(x) == t.resolve(x) by {}
    assert forall|x: ValueId| #![trigger w.resolve(x), s.resolve(x)] w.resolve(x) == w.resolve(s.resolve(x)) by {
        assert(t.resolve(x) == t.resolve(s.resolve(x)));
    }
    assert forall|x: ValueId| !w.subst.dom().contains((#[trigger] w.resolve(x)).0) by {
        assert(w.resolve(x) == t.resolve(x));
    }
    assert forall|b: int, k: int| 0 <= b < w.incomplete.len() && 0 <= k < w.incomplete[b].len() implies stands(
        w,
        b,
        (#[trigger] w.incomplete[b][k]).1,
    ) by {
        assert(stands(t, b, t.incomplete[b][k].1));
    }
}

proof fn living_in_leads(s: BuildV, local: LocalId, ty: MirTy, c: BlockId)
    requires
        s.wf(),
        sound(s),
        c.0 < s.f.blocks.len(),
        !known(s, c, local),
        numbered(s.live_in(local, ty, c)),
    ensures
        sound(s.live_in(local, ty, c)),
        leads(s, s.live_in(local, ty, c)),
        spares(s, s.live_in(local, ty, c)),
{
    let t = s.live_in(local, ty, c);
    assert forall|x: ValueId| #[trigger] t.resolve(x) == s.resolve(x) by {}
    assert forall|x: ValueId| #![trigger t.resolve(x), s.resolve(x)] t.resolve(x) == t.resolve(s.resolve(x)) by {
        unreplaced_values_stand(s, s.resolve(x));
    }
    assert forall|x: ValueId| !t.subst.dom().contains((#[trigger] t.resolve(x)).0) by {
        assert(t.resolve(x) == s.resolve(x));
    }
    assert forall|b: int, k: int| 0 <= b < t.incomplete.len() && 0 <= k < t.incomplete[b].len() implies stands(
        t,
        b,
        (#[trigger] t.incomplete[b][k]).1,
    ) by {
        assert(stands(s, b, s.incomplete[b][k].1));
    }
}

proof fn staying_leads(s: BuildV)
    requires
        settled(s),
    ensures
        leads(s, s),
        spares(s, s),
{
    assert forall|x: ValueId| #![trigger s.resolve(x), s.resolve(x)] s.resolve(x) == s.resolve(s.resolve(x)) by {
        unreplaced_values_stand(s, s.resolve(x));
    }
}

#[verifier::spinoff_prover]
proof fn reading_leads(s: BuildV, local: LocalId, ty: MirTy, c: BlockId, joins: nat, chain: nat, n: nat)
    requires
        s.wf(),
        sound(s),
        c.0 < s.f.blocks.len(),
        numbered(s.read(local, ty, c, joins, chain, n).0),
    ensures
        ({
            let (t, v) = s.read(local, ty, c, joins, chain, n);
            &&& sound(t)
            &&& leads(s, t)
            &&& spares(s, t)
            &&& known(t, c, local)
            &&& t.resolve(v) == value_at(t, c, local)
        }),
    decreases joins, chain, 0nat,
{
    let ps = s.preds[c.0 as int];
    let v = s.next();
    assert forall|k: int| 0 <= k < ps.len() implies (#[trigger] ps[k]).0 < s.f.blocks.len() by {
        assert(s.preds[c.0 as int][k].0 < s.f.blocks.len());
    }
    let t = s.read(local, ty, c, joins, chain, n).0;
    if known(s, c, local) {
        staying_leads(s);
        unreplaced_values_stand(s, value_at(s, c, local));
    } else if !s.sealed[c.0 as int] {
        assert(t == s.read(local, ty, c, 0, 0, 0).0);
        waiting_leads(s, local, ty, c);
    } else if ps.len() == 1 && chain > 0 {
        let r = s.read(local, ty, ps[0], joins, (chain - 1) as nat, n);
        assert(r.0.f.types == t.f.types);
        reading_leads(s, local, ty, ps[0], joins, (chain - 1) as nat, n);
        writing_leads(s, r.0, local, c, r.1);
    } else if ps.len() > 1 && joins > 0 {
        let m = s.make_phi(c, ty);
        let w = m.write(local, c, v);
        let (r, args) = w.operands(local, w.f.ty(v), ps, 0, Seq::empty(), (joins - 1) as nat, n);
        making_a_phi_extends(s, c, ty, c, v);
        assert(arg_blocks(Seq::empty()) =~= ps.take(0));
        operands_extend(w, local, w.f.ty(v), ps, 0, Seq::empty(), (joins - 1) as nat, n, c, v);
        closing_a_phi_extends(r, c, v, args, c, v);
        assert(numbered(r) && numbered(m));
        making_a_phi_leads(s, c, ty);
        writing_leads(s, m, local, c, v);
        operands_lead(w, local, w.f.ty(v), ps, 0, Seq::empty(), (joins - 1) as nat, n);
        assert(!w.subst.dom().contains(v.0));
        assert(v.0 < w.f.types.len());
        assert forall|b: int, k: int|
            0 <= b < r.incomplete.len() && 0 <= k < r.incomplete[b].len() implies (
        #[trigger] r.incomplete[b][k]).1 != v by {
            if k < w.incomplete[b].len() {
                assert(r.incomplete[b][k] == w.incomplete[b][k]);
                assert(s.incomplete[b][k] == w.incomplete[b][k]);
                assert(stands(s, b, s.incomplete[b][k].1));
            }
        }
        closing_leads(r, c, v, args);
        leading_on(s, w, r);
        leading_on(s, r, t);
        sparing_on(s, w, r);
        assert(spares(s, t)) by {
            assert forall|k: u32| k < s.f.types.len() implies #[trigger] t.subst.dom().contains(k)
                == s.subst.dom().contains(k) by {
                assert(r.subst.dom().contains(k) == s.subst.dom().contains(k));
            }
            assert forall|b: int, k: int|
                0 <= b < s.incomplete.len() && 0 <= k < s.incomplete[b].len() implies #[trigger] t.incomplete[b][k]
                == s.incomplete[b][k] by {
                assert(r.incomplete[b][k] == s.incomplete[b][k]);
            }
            assert forall|b: int, k: int|
                0 <= b < s.incomplete.len() && s.incomplete[b].len() <= k < t.incomplete[b].len() implies (
            #[trigger] t.incomplete[b][k]).1.0 >= s.f.types.len() by {
                assert(r.incomplete[b][k].1.0 >= s.f.types.len());
            }
        }
        assert(w.defs[c.0 as int].dom().contains(local.0));
        assert(t.defs[c.0 as int][local.0] == v);
        unreplaced_values_stand(t, t.resolve(v));
    } else {
        living_in_leads(s, local, ty, c);
    }
}

#[verifier::spinoff_prover]
proof fn operands_lead(
    s: BuildV,
    local: LocalId,
    ty: MirTy,
    ps: Seq<BlockId>,
    i: nat,
    args: Seq<(BlockId, ValueId)>,
    joins: nat,
    n: nat,
)
    requires
        s.wf(),
        sound(s),
        i <= ps.len(),
        forall|k: int| 0 <= k < ps.len() ==> (#[trigger] ps[k]).0 < s.f.blocks.len(),
        args.len() == i,
        looked_up(s, local, ps, args),
        numbered(s.operands(local, ty, ps, i, args, joins, n).0),
    ensures
        ({
            let (t, all) = s.operands(local, ty, ps, i, args, joins, n);
            &&& sound(t)
            &&& leads(s, t)
            &&& spares(s, t)
            &&& all.len() == ps.len()
            &&& looked_up(t, local, ps, all)
        }),
    decreases joins, n + 1, ps.len() - i,
{
    if i < ps.len() {
        let q = ps[i as int];
        let r = s.read(local, ty, q, joins, n, n);
        let more = args.push((q, r.0.resolve(r.1)));
        let t = s.operands(local, ty, ps, i, args, joins, n).0;
        reading_extends(s, local, ty, q, joins, n, n, q, r.1);
        assert(arg_blocks(args) =~= ps.take(i as int)) by {
            assert forall|j: int| 0 <= j < i implies #[trigger] arg_blocks(args)[j] == ps[j] by {
                assert(args[j].0 == ps[j]);
            }
        }
        assert(arg_blocks(more) =~= ps.take(i as int + 1));
        operands_extend(r.0, local, ty, ps, i + 1, more, joins, n, q, r.1);
        reading_leads(s, local, ty, q, joins, n, n);
        looked_up_stays(s, r.0, local, ps, args);
        unreplaced_values_stand(r.0, r.0.resolve(r.1));
        assert(looked_up(r.0, local, ps, more)) by {
            assert forall|j: int| 0 <= j < more.len() implies (#[trigger] more[j]).0 == ps[j] && known(
                r.0,
                ps[j],
                local,
            ) && r.0.resolve(more[j].1) == value_at(r.0, ps[j], local) by {
                if j < i {
                    assert(more[j] == args[j]);
                    assert(args[j].0 == ps[j]);
                } else {
                    assert(ps[j] == q && more[j].1 == r.0.resolve(r.1));
                }
            }
        }
        operands_lead(r.0, local, ty, ps, i + 1, more, joins, n);
        leading_on(s, r.0, t);
        sparing_on(s, r.0, t);
    } else {
        staying_leads(s);
    }
}

/// The phis from `i` on stand in block `b`, each once, and wait for no other block.
spec fn waiting(s: BuildV, b: BlockId, pending: Seq<(LocalId, ValueId)>, i: nat) -> bool {
    &&& forall|k: int| i <= k < pending.len() ==> stands(s, b.0 as int, (#[trigger] pending[k]).1)
    &&& forall|j: int, k: int|
        0 <= j < pending.len() && 0 <= k < pending.len() && j != k ==> (#[trigger] pending[j]).1 != (
        #[trigger] pending[k]).1
    &&& forall|c: int, l: int, k: int|
        0 <= c < s.incomplete.len() && 0 <= l < s.incomplete[c].len() && i <= k < pending.len() ==> (
        #[trigger] s.incomplete[c][l]).1 != (#[trigger] pending[k]).1
}

/// The values of the local at the ends of the blocks `ps` are `v`, apart from the phi itself.
pub open spec fn one_value(s: BuildV, ps: Seq<BlockId>, local: LocalId, phi: ValueId, v: ValueId) -> bool {
    &&& v != phi
    &&& exists|k: int| 0 <= k < ps.len() && value_at(s, #[trigger] ps[k], local) == v
    &&& forall|k: int|
        0 <= k < ps.len() ==> value_at(s, #[trigger] ps[k], local) == v || value_at(s, ps[k], local) == phi
}

/// Sorting arguments neither drops nor adds one.
proof fn sorting_keeps_args(s: Seq<(BlockId, ValueId)>)
    ensures
        sorted_args(s).len() == s.len(),
        forall|x: (BlockId, ValueId)| #[trigger] sorted_args(s).contains(x) == s.contains(x),
{
    broadcast use vstd::seq_lib::group_to_multiset_ensures;

    sort_orders_and_permutes(arg_key(), s);
    assert forall|x: (BlockId, ValueId)| #[trigger] sorted_args(s).contains(x) == s.contains(x) by {
        assert(sorted_args(s).contains(x) == (sorted_args(s).to_multiset().count(x) > 0));
        assert(s.contains(x) == (s.to_multiset().count(x) > 0));
    }
}

/// Arguments that were looked up name one value where the local has one value.
#[verifier::spinoff_prover]
proof fn one_value_is_all_one(
    s: BuildV,
    ps: Seq<BlockId>,
    local: LocalId,
    phi: ValueId,
    v: ValueId,
    raw: Seq<(BlockId, ValueId)>,
)
    requires
        looked_up(s, local, ps, raw),
        raw.len() == ps.len(),
    ensures
        one_value(s, ps, local, phi, v) == all_one(s, sorted_args(raw), phi, v),
{
    let args = sorted_args(raw);
    sorting_keeps_args(raw);
    assert forall|j: int| 0 <= j < args.len() implies raw.contains(#[trigger] args[j]) by {
        assert(args.contains(args[j]));
    }
    assert forall|k: int| 0 <= k < raw.len() implies args.contains(#[trigger] raw[k]) by {
        assert(raw.contains(raw[k]));
    }
    if one_value(s, ps, local, phi, v) {
        let k = choose|k: int| 0 <= k < ps.len() && value_at(s, #[trigger] ps[k], local) == v;
        assert(raw[k].0 == ps[k]);
        let j = choose|j: int| 0 <= j < args.len() && args[j] == raw[k];
        assert(s.resolve(args[j].1) == v);
        assert forall|j: int| 0 <= j < args.len() implies s.resolve((#[trigger] args[j]).1) == v || s.resolve(
            args[j].1,
        ) == phi by {
            let k = choose|k: int| 0 <= k < raw.len() && raw[k] == args[j];
            assert(raw[k].0 == ps[k]);
            assert(value_at(s, ps[k], local) == v || value_at(s, ps[k], local) == phi);
        }
    }
    if all_one(s, args, phi, v) {
        let j = choose|j: int| 0 <= j < args.len() && s.resolve((#[trigger] args[j]).1) == v;
        let k = choose|k: int| 0 <= k < raw.len() && raw[k] == args[j];
        assert(raw[k].0 == ps[k]);
        assert(value_at(s, ps[k], local) == v);
        assert forall|k: int| 0 <= k < ps.len() implies value_at(s, #[trigger] ps[k], local) == v || value_at(
            s,
            ps[k],
            local,
        ) == phi by {
            assert(raw[k].0 == ps[k]);
            let j = choose|j: int| 0 <= j < args.len() && args[j] == raw[k];
            assert(s.resolve(args[j].1) == v || s.resolve(args[j].1) == phi);
        }
    }
}

/// Completing one waiting phi, with `d` a value that is not it.
#[verifier::spinoff_prover]
proof fn completing_leads(s: BuildV, b: BlockId, pending: Seq<(LocalId, ValueId)>, i: nat, d: ValueId)
    requires
        s.wf(),
        sound(s),
        b.0 < s.f.blocks.len(),
        i < pending.len(),
        waiting(s, b, pending, i),
        d.0 < s.f.types.len(),
        numbered(s.complete(b, pending[i as int].0, pending[i as int].1)),
    ensures
        ({
            let (local, phi) = pending[i as int];
            let n = s.f.blocks.len();
            let ps = s.preds[b.0 as int];
            let (r, raw) = s.operands(local, s.f.ty(phi), ps, 0, Seq::empty(), n, n);
            let t = s.complete(b, local, phi);
            &&& t.wf()
            &&& t.f.blocks.len() == n
            &&& t.preds == s.preds
            &&& sound(r)
            &&& sound(t)
            &&& leads(s, r)
            &&& leads(r, t)
            &&& leads(s, t)
            &&& waiting(t, b, pending, i + 1)
            &&& raw.len() == ps.len()
            &&& looked_up(r, local, ps, raw)
            &&& stands(r, b.0 as int, phi)
            &&& d != phi ==> phi_of(t, b, d) == phi_of(s, b, d) && t.subst.dom().contains(d.0)
                == s.subst.dom().contains(d.0)
        }),
{
    let (local, phi) = pending[i as int];
    let n = s.f.blocks.len();
    let ps = s.preds[b.0 as int];
    let ty = s.f.ty(phi);
    assert forall|k: int| 0 <= k < ps.len() implies (#[trigger] ps[k]).0 < s.f.blocks.len() by {
        assert(s.preds[b.0 as int][k].0 < s.f.blocks.len());
    }
    let (r, raw) = s.operands(local, ty, ps, 0, Seq::empty(), n, n);
    let t = s.complete(b, local, phi);
    assert(arg_blocks(Seq::empty()) =~= ps.take(0));
    operands_extend(s, local, ty, ps, 0, Seq::empty(), n, n, b, d);
    operands_extend(s, local, ty, ps, 0, Seq::empty(), n, n, b, phi);
    closing_a_phi_extends(r, b, phi, raw, b, d);
    assert(numbered(r));
    operands_lead(s, local, ty, ps, 0, Seq::empty(), n, n);
    assert(stands(s, b.0 as int, pending[i as int].1));
    assert(phi_of(r, b, phi) == phi_of(s, b, phi));
    assert forall|c: int, l: int, k: int|
        0 <= c < r.incomplete.len() && 0 <= l < r.incomplete[c].len() && i <= k < pending.len() implies (
    #[trigger] r.incomplete[c][l]).1 != (#[trigger] pending[k]).1 by {
        assert(stands(s, b.0 as int, pending[k].1));
        if l < s.incomplete[c].len() {
            assert(r.incomplete[c][l] == s.incomplete[c][l]);
        }
    }
    assert forall|c: int, l: int| 0 <= c < r.incomplete.len() && 0 <= l < r.incomplete[c].len() implies (
    #[trigger] r.incomplete[c][l]).1 != phi by {
        assert(r.incomplete[c][l].1 != pending[i as int].1);
    }
    closing_leads(r, b, phi, raw);
    leading_on(s, r, t);
    assert(waiting(t, b, pending, i + 1)) by {
        assert forall|k: int| i + 1 <= k < pending.len() implies stands(t, b.0 as int, (#[trigger] pending[k]).1) by {
            let p = pending[k].1;
            assert(stands(s, b.0 as int, p));
            assert(pending[i as int].1 != pending[k].1);
            operands_extend(s, local, ty, ps, 0, Seq::empty(), n, n, b, p);
            closing_a_phi_extends(r, b, phi, raw, b, p);
            assert(phi_of(t, b, p) == phi_of(s, b, p));
            assert(r.subst.dom().contains(p.0) == s.subst.dom().contains(p.0));
            assert(t.subst.dom().contains(p.0) == r.subst.dom().contains(p.0));
        }
    }
    if d != phi {
        assert(r.subst.dom().contains(d.0) == s.subst.dom().contains(d.0));
        assert(t.subst.dom().contains(d.0) == r.subst.dom().contains(d.0));
    }
}

/// Completing the waiting phis from `i` on, with `d` none of them.
#[verifier::spinoff_prover]
proof fn completing_all_leads(s: BuildV, b: BlockId, pending: Seq<(LocalId, ValueId)>, i: nat, d: ValueId)
    requires
        s.wf(),
        sound(s),
        b.0 < s.f.blocks.len(),
        i <= pending.len(),
        waiting(s, b, pending, i),
        d.0 < s.f.types.len(),
        forall|k: int| i <= k < pending.len() ==> (#[trigger] pending[k]).1 != d,
        numbered(s.complete_all(b, pending, i)),
    ensures
        ({
            let t = s.complete_all(b, pending, i);
            &&& sound(t)
            &&& leads(s, t)
            &&& phi_of(t, b, d) == phi_of(s, b, d)
            &&& t.subst.dom().contains(d.0) == s.subst.dom().contains(d.0)
        }),
    decreases pending.len() - i,
{
    if i < pending.len() {
        let c = s.complete(b, pending[i as int].0, pending[i as int].1);
        completing_completes(s, b, pending[i as int].0, pending[i as int].1, d);
        frame_of_the_rest(c, b, pending, i + 1);
        completing_leads(s, b, pending, i, d);
        assert(pending[i as int].1 != d);
        completing_all_leads(c, b, pending, i + 1, d);
        leading_on(s, c, s.complete_all(b, pending, i));
    } else {
        staying_leads(s);
    }
}

/// Block `b` counts as sealed, and none of its phis has been completed.
pub open spec fn opened(s: BuildV, b: BlockId) -> BuildV {
    BuildV {
        sealed: s.sealed.update(b.0 as int, true),
        incomplete: s.incomplete.update(b.0 as int, Seq::empty()),
        ..s
    }
}

/// The builder when the first `k` waiting phis of block `b` have been completed.
pub open spec fn at_turn(s: BuildV, b: BlockId, k: nat) -> BuildV
    decreases k,
{
    if k == 0 {
        opened(s, b)
    } else {
        let (local, phi) = s.incomplete[b.0 as int][k - 1];
        at_turn(s, b, (k - 1) as nat).complete(b, local, phi)
    }
}

/// The builder when the values of the local of the waiting phi at place `k` have been looked up at
/// the ends of the predecessors, and these values.
pub open spec fn looking_up(s: BuildV, b: BlockId, k: nat) -> (BuildV, Seq<(BlockId, ValueId)>) {
    let (local, phi) = s.incomplete[b.0 as int][k as int];
    let t = at_turn(s, b, k);
    let n = t.f.blocks.len();
    t.operands(local, t.f.ty(phi), t.preds[b.0 as int], 0, Seq::empty(), n, n)
}

proof fn turns_add_up(s: BuildV, b: BlockId, k: nat)
    requires
        !s.sealed[b.0 as int],
        k <= s.incomplete[b.0 as int].len(),
    ensures
        s.seal(b) == at_turn(s, b, k).complete_all(b, s.incomplete[b.0 as int], k),
    decreases k,
{
    if k > 0 {
        turns_add_up(s, b, (k - 1) as nat);
    }
}

#[verifier::spinoff_prover]
proof fn opening_keeps_soundness(s: BuildV, b: BlockId)
    requires
        s.wf(),
        sound(s),
        b.0 < s.f.blocks.len(),
    ensures
        opened(s, b).wf(),
        sound(opened(s, b)),
        leads(s, opened(s, b)),
        waiting(opened(s, b), b, s.incomplete[b.0 as int], 0),
{
    let t = opened(s, b);
    let pending = s.incomplete[b.0 as int];
    staying_leads(s);
    assert forall|x: ValueId| #[trigger] t.resolve(x) == s.resolve(x) by {}
    assert forall|x: ValueId| #![trigger t.resolve(x), s.resolve(x)] t.resolve(x) == t.resolve(s.resolve(x)) by {
        assert(s.resolve(x) == s.resolve(s.resolve(x)));
    }
    assert forall|x: ValueId| !t.subst.dom().contains((#[trigger] t.resolve(x)).0) by {
        assert(t.resolve(x) == s.resolve(x));
    }
    assert forall|c: int, k: int| 0 <= c < t.incomplete.len() && 0 <= k < t.incomplete[c].len() implies stands(
        t,
        c,
        (#[trigger] t.incomplete[c][k]).1,
    ) by {
        assert(stands(s, c, s.incomplete[c][k].1));
    }
    assert forall|c: int, k: int, d: int, l: int|
        0 <= c < t.incomplete.len() && 0 <= k < t.incomplete[c].len() && 0 <= d < t.incomplete.len() && 0 <= l
            < t.incomplete[d].len() && !(c == d && k == l) implies (#[trigger] t.incomplete[c][k]).1 != (
    #[trigger] t.incomplete[d][l]).1 by {
        assert(s.incomplete[c][k].1 != s.incomplete[d][l].1);
    }
    assert forall|k: int| 0 <= k < pending.len() implies stands(t, b.0 as int, (#[trigger] pending[k]).1) by {
        assert(stands(s, b.0 as int, s.incomplete[b.0 as int][k].1));
    }
    assert forall|j: int, k: int| 0 <= j < pending.len() && 0 <= k < pending.len() && j != k implies (
    #[trigger] pending[j]).1 != (#[trigger] pending[k]).1 by {
        assert(s.incomplete[b.0 as int][j].1 != s.incomplete[b.0 as int][k].1);
    }
    assert forall|c: int, l: int, k: int|
        0 <= c < t.incomplete.len() && 0 <= l < t.incomplete[c].len() && 0 <= k < pending.len() implies (
    #[trigger] t.incomplete[c][l]).1 != (#[trigger] pending[k]).1 by {
        assert(s.incomplete[c][l].1 != s.incomplete[b.0 as int][k].1);
    }
}

#[verifier::spinoff_prover]
proof fn turns_lead(s: BuildV, b: BlockId, k: nat)
    requires
        s.wf(),
        sound(s),
        b.0 < s.f.blocks.len(),
        !s.sealed[b.0 as int],
        k <= s.incomplete[b.0 as int].len(),
        numbered(s.seal(b)),
    ensures
        ({
            let t = at_turn(s, b, k);
            &&& t.wf()
            &&& t.f.blocks.len() == s.f.blocks.len()
            &&& t.preds == s.preds
            &&& t.f.types.len() >= s.f.types.len()
            &&& numbered(t)
            &&& sound(t)
            &&& leads(s, t)
            &&& waiting(t, b, s.incomplete[b.0 as int], k)
        }),
    decreases k,
{
    let pending = s.incomplete[b.0 as int];
    if k == 0 {
        opening_keeps_soundness(s, b);
        frame_of_the_rest(opened(s, b), b, pending, 0);
    } else {
        let before = at_turn(s, b, (k - 1) as nat);
        let (local, phi) = pending[k - 1];
        turns_lead(s, b, (k - 1) as nat);
        turns_add_up(s, b, k);
        assert(stands(before, b.0 as int, pending[k - 1].1));
        completing_completes(before, b, local, phi, phi);
        let t = at_turn(s, b, k);
        frame_of_the_rest(t, b, pending, k);
        completing_leads(before, b, pending, (k - 1) as nat, phi);
        leading_on(s, before, t);
    }
}

/// A phi that waited for block `b` after the block is sealed. Where the values of its local at the
/// ends of the predecessors, apart from the phi itself, were one value when they were looked up, the
/// phi is gone and that value stands for it. Otherwise it is a phi of the block with one argument
/// for each predecessor, in block order, each the predecessor's value of the local. Either way a
/// read of the local in the block gives what stands for the phi, as long as the local was not bound
/// to something else there.
#[verifier::spinoff_prover]
pub proof fn sealing_gives_waiting_phis_their_values(
    s: BuildV,
    b: BlockId,
    k: nat,
    ty: MirTy,
    joins: nat,
    chain: nat,
    n: nat,
)
    requires
        s.wf(),
        sound(s),
        b.0 < s.f.blocks.len(),
        !s.sealed[b.0 as int],
        k < s.incomplete[b.0 as int].len(),
        numbered(s.seal(b)),
    ensures
        ({
            let (local, phi) = s.incomplete[b.0 as int][k as int];
            let ps = s.preds[b.0 as int];
            let (r, raw) = looking_up(s, b, k);
            let t = s.seal(b);
            &&& forall|j: int| 0 <= j < ps.len() ==> known(r, #[trigger] ps[j], local) && known(t, ps[j], local)
            &&& forall|v: ValueId| #[trigger]
                one_value(r, ps, local, phi, v) ==> {
                    &&& phi_of(t, b, phi) is None
                    &&& t.resolve(phi) == t.resolve(v)
                    &&& forall|j: int|
                        0 <= j < ps.len() ==> value_at(t, #[trigger] ps[j], local) == t.resolve(v)
                }
            &&& (forall|v: ValueId| !#[trigger] one_value(r, ps, local, phi, v)) ==> {
                &&& t.resolve(phi) == phi
                &&& phi_of(t, b, phi) matches Some(InstV::Phi { dest, args, .. }) && {
                    &&& dest == phi
                    &&& arg_blocks(args) == sorted_blocks(ps)
                    &&& forall|j: int|
                        0 <= j < args.len() ==> ps.contains((#[trigger] args[j]).0) && r.resolve(args[j].1)
                            == value_at(r, args[j].0, local) && t.resolve(args[j].1) == value_at(
                            t,
                            args[j].0,
                            local,
                        )
                }
            }
            &&& known(s, b, local) && s.defs[b.0 as int][local.0] == phi ==> t.read(
                local,
                ty,
                b,
                joins,
                chain,
                n,
            ) == (t, t.resolve(phi))
        }),
{
    let pending = s.incomplete[b.0 as int];
    let (local, phi) = pending[k as int];
    let ps = s.preds[b.0 as int];
    assert forall|j: int| 0 <= j < ps.len() implies (#[trigger] ps[j]).0 < s.f.blocks.len() by {
        assert(s.preds[b.0 as int][j].0 < s.f.blocks.len());
    }
    let before = at_turn(s, b, k);
    let (r, raw) = looking_up(s, b, k);
    let args = sorted_args(raw);
    let after = before.complete(b, local, phi);
    let t = s.seal(b);
    turns_lead(s, b, k);
    turns_lead(s, b, k + 1);
    turns_add_up(s, b, k + 1);
    assert(after == at_turn(s, b, k + 1));
    assert(stands(before, b.0 as int, pending[k as int].1));
    completing_leads(before, b, pending, k, phi);
    completing_fills_or_removes(before, b, local, phi);
    assert forall|j: int| k + 1 <= j < pending.len() implies (#[trigger] pending[j]).1 != phi by {
        assert(pending[j].1 != pending[k as int].1);
    }
    completing_all_leads(after, b, pending, k + 1, phi);
    leading_on(r, after, t);
    leading_on(s, after, t);
    looked_up_stays(r, t, local, ps, raw);
    assert forall|j: int| 0 <= j < ps.len() implies known(r, #[trigger] ps[j], local) && known(t, ps[j], local) by {
        assert(raw[j].0 == ps[j]);
    }
    assert forall|v: ValueId| #[trigger] one_value(r, ps, local, phi, v) implies {
        &&& phi_of(t, b, phi) is None
        &&& t.resolve(phi) == t.resolve(v)
        &&& forall|j: int| 0 <= j < ps.len() ==> value_at(t, #[trigger] ps[j], local) == t.resolve(v)
    } by {
        one_value_is_all_one(r, ps, local, phi, v, raw);
        assert(all_one(r, args, phi, v));
        let i = choose|i: int| 0 <= i < ps.len() && value_at(r, #[trigger] ps[i], local) == v;
        assert(!r.subst.dom().contains(v.0));
        replacing_settles(r, after, phi, v);
        unreplaced_values_stand(r, phi);
        unreplaced_values_stand(r, v);
        assert(after.resolve(phi) == v && after.resolve(v) == v);
        assert(t.resolve(phi) == t.resolve(after.resolve(phi)));
        assert forall|j: int| 0 <= j < ps.len() implies value_at(t, #[trigger] ps[j], local) == t.resolve(v) by {
            let q = ps[j].0 as int;
            assert(known(r, ps[j], local));
            assert(r.defs[q].dom().contains(local.0));
            assert(value_at(t, ps[j], local) == t.resolve(r.resolve(r.defs[q][local.0])));
            assert(value_at(r, ps[j], local) == v || value_at(r, ps[j], local) == phi);
        }
    }
    if forall|v: ValueId| !#[trigger] one_value(r, ps, local, phi, v) {
        assert forall|v: ValueId| !#[trigger] all_one(r, args, phi, v) by {
            one_value_is_all_one(r, ps, local, phi, v, raw);
        }
        assert(after.subst == r.subst);
        assert(!t.subst.dom().contains(phi.0));
        unreplaced_values_stand(t, phi);
        sorting_keeps_args(raw);
        assert forall|j: int| 0 <= j < args.len() implies ps.contains((#[trigger] args[j]).0) && r.resolve(args[j].1)
            == value_at(r, args[j].0, local) && t.resolve(args[j].1) == value_at(t, args[j].0, local) by {
            assert(args.contains(args[j]));
            assert(raw.contains(args[j]));
            let i = choose|i: int| 0 <= i < raw.len() && raw[i] == args[j];
            assert(raw[i].0 == ps[i]);
        }
    }
    if known(s, b, local) && s.defs[b.0 as int][local.0] == phi {
        assert(s.defs[b.0 as int].dom().contains(local.0));
    }
}

/// The values of the local of the waiting phi at place `k` are one value when the block is sealed,
/// but were not when they were looked up: a phi that was completed later went.
pub open spec fn came_to_one_late(s: BuildV, b: BlockId, k: nat) -> bool {
    let (local, phi) = s.incomplete[b.0 as int][k as int];
    let ps = s.preds[b.0 as int];
    &&& exists|v: ValueId| #[trigger] one_value(s.seal(b), ps, local, phi, v)
    &&& forall|v: ValueId| !#[trigger] one_value(looking_up(s, b, k).0, ps, local, phi, v)
}

/// Where a read in an open block made a phi, sealing the block decides by the values of the local
/// at the ends of the predecessors. If these, apart from the phi itself, are all `v`, the phi is
/// gone and a read of the local in the block gives `v`. Otherwise the phi stands in the block with
/// one argument for each predecessor, that predecessor's value of the local, in block order, and a
/// read gives the phi. This leaves out phis whose values came to be one late.
#[verifier::spinoff_prover]
pub proof fn sealing_decides_by_the_values_at_the_ends(
    s: BuildV,
    b: BlockId,
    k: nat,
    ty: MirTy,
    joins: nat,
    chain: nat,
    n: nat,
)
    requires
        s.wf(),
        sound(s),
        b.0 < s.f.blocks.len(),
        !s.sealed[b.0 as int],
        k < s.incomplete[b.0 as int].len(),
        numbered(s.seal(b)),
        known(s, b, s.incomplete[b.0 as int][k as int].0),
        s.defs[b.0 as int][s.incomplete[b.0 as int][k as int].0.0] == s.incomplete[b.0 as int][k as int].1,
        k + 1 < s.incomplete[b.0 as int].len() ==> !came_to_one_late(s, b, k),
    ensures
        ({
            let (local, phi) = s.incomplete[b.0 as int][k as int];
            let ps = s.preds[b.0 as int];
            let t = s.seal(b);
            &&& forall|j: int| 0 <= j < ps.len() ==> known(t, #[trigger] ps[j], local)
            &&& forall|v: ValueId| #[trigger]
                one_value(t, ps, local, phi, v) ==> phi_of(t, b, phi) is None && t.read(
                    local,
                    ty,
                    b,
                    joins,
                    chain,
                    n,
                ) == (t, v)
            &&& (forall|v: ValueId| !#[trigger] one_value(t, ps, local, phi, v)) ==> {
                &&& t.read(local, ty, b, joins, chain, n) == (t, phi)
                &&& phi_of(t, b, phi) matches Some(InstV::Phi { dest, args, .. }) && {
                    &&& dest == phi
                    &&& arg_blocks(args) == sorted_blocks(ps)
                    &&& forall|j: int|
                        0 <= j < args.len() ==> t.resolve((#[trigger] args[j]).1) == value_at(t, args[j].0, local)
                }
            }
        }),
{
    let pending = s.incomplete[b.0 as int];
    let (local, phi) = pending[k as int];
    let ps = s.preds[b.0 as int];
    let r = looking_up(s, b, k).0;
    let t = s.seal(b);
    sealing_gives_waiting_phis_their_values(s, b, k, ty, joins, chain, n);
    sealing_keeps_soundness(s, b);
    if exists|v: ValueId| #[trigger] one_value(r, ps, local, phi, v) {
        let w = choose|w: ValueId| #[trigger] one_value(r, ps, local, phi, w);
        let j = choose|j: int| 0 <= j < ps.len() && value_at(r, #[trigger] ps[j], local) == w;
        assert(value_at(t, ps[j], local) == t.resolve(w));
        replaced_phis_are_not_named(s, b, k, w);
        assert(one_value(t, ps, local, phi, t.resolve(w)));
        assert forall|v: ValueId| #[trigger] one_value(t, ps, local, phi, v) implies v == t.resolve(w) by {
            let i = choose|i: int| 0 <= i < ps.len() && value_at(t, #[trigger] ps[i], local) == v;
            assert(value_at(t, ps[i], local) == t.resolve(w));
        }
    } else {
        assert forall|v: ValueId| !#[trigger] one_value(t, ps, local, phi, v) by {
            if one_value(t, ps, local, phi, v) && k + 1 == pending.len() {
                last_values_stay(s, b, k, v);
            }
        }
    }
}

/// A phi that one value stands for is none of the values at the ends.
#[verifier::spinoff_prover]
proof fn replaced_phis_are_not_named(s: BuildV, b: BlockId, k: nat, v: ValueId)
    requires
        s.wf(),
        sound(s),
        b.0 < s.f.blocks.len(),
        !s.sealed[b.0 as int],
        k < s.incomplete[b.0 as int].len(),
        numbered(s.seal(b)),
        ({
            let (local, phi) = s.incomplete[b.0 as int][k as int];
            one_value(looking_up(s, b, k).0, s.preds[b.0 as int], local, phi, v)
        }),
    ensures
        s.seal(b).resolve(v) != s.incomplete[b.0 as int][k as int].1,
{
    let pending = s.incomplete[b.0 as int];
    let (local, phi) = pending[k as int];
    let ps = s.preds[b.0 as int];
    let before = at_turn(s, b, k);
    let (r, raw) = looking_up(s, b, k);
    let after = before.complete(b, local, phi);
    let t = s.seal(b);
    turns_lead(s, b, k);
    turns_lead(s, b, k + 1);
    turns_add_up(s, b, k + 1);
    assert(stands(before, b.0 as int, pending[k as int].1));
    completing_leads(before, b, pending, k, phi);
    completing_fills_or_removes(before, b, local, phi);
    assert forall|j: int| k + 1 <= j < pending.len() implies (#[trigger] pending[j]).1 != phi by {
        assert(pending[j].1 != pending[k as int].1);
    }
    completing_all_leads(after, b, pending, k + 1, phi);
    one_value_is_all_one(r, ps, local, phi, v, raw);
    assert(all_one(r, sorted_args(raw), phi, v));
    assert(after.subst == r.subst.insert(phi.0, v));
    assert(t.subst.dom().contains(phi.0));
    assert(!t.subst.dom().contains(t.resolve(v).0));
}

/// Behind the last waiting phi nothing changes the values at the ends, unless the phi goes.
#[verifier::spinoff_prover]
proof fn last_values_stay(s: BuildV, b: BlockId, k: nat, v: ValueId)
    requires
        s.wf(),
        sound(s),
        b.0 < s.f.blocks.len(),
        !s.sealed[b.0 as int],
        k + 1 == s.incomplete[b.0 as int].len(),
        numbered(s.seal(b)),
        ({
            let (local, phi) = s.incomplete[b.0 as int][k as int];
            one_value(s.seal(b), s.preds[b.0 as int], local, phi, v)
        }),
    ensures
        ({
            let (local, phi) = s.incomplete[b.0 as int][k as int];
            exists|w: ValueId| #[trigger] one_value(looking_up(s, b, k).0, s.preds[b.0 as int], local, phi, w)
        }),
{
    let pending = s.incomplete[b.0 as int];
    let (local, phi) = pending[k as int];
    let ps = s.preds[b.0 as int];
    let before = at_turn(s, b, k);
    let (r, raw) = looking_up(s, b, k);
    let t = s.seal(b);
    turns_lead(s, b, k);
    turns_add_up(s, b, k + 1);
    assert(t == before.complete(b, local, phi));
    assert(stands(before, b.0 as int, pending[k as int].1));
    completing_leads(before, b, pending, k, phi);
    completing_fills_or_removes(before, b, local, phi);
    if forall|w: ValueId| !#[trigger] one_value(r, ps, local, phi, w) {
        assert forall|w: ValueId| !#[trigger] all_one(r, sorted_args(raw), phi, w) by {
            one_value_is_all_one(r, ps, local, phi, w, raw);
        }
        assert(t.subst == r.subst);
        assert forall|j: int| 0 <= j < ps.len() implies value_at(r, #[trigger] ps[j], local) == value_at(
            t,
            ps[j],
            local,
        ) by {
            assert(raw[j].0 == ps[j]);
            assert(s.preds[b.0 as int][j].0 < s.f.blocks.len());
            assert(r.defs[ps[j].0 as int].dom().contains(local.0));
        }
        assert(one_value(r, ps, local, phi, v)) by {
            let i = choose|i: int| 0 <= i < ps.len() && value_at(t, #[trigger] ps[i], local) == v;
            assert(value_at(r, ps[i], local) == v);
        }
    }
}

/// A read in a block that is not sealed, where the local has no value yet, makes a phi that waits.
pub proof fn reading_an_open_block_waits(s: BuildV, local: LocalId, ty: MirTy, b: BlockId, joins: nat, chain: nat, n: nat)
    requires
        s.wf(),
        b.0 < s.f.blocks.len(),
        !s.sealed[b.0 as int],
        !known(s, b, local),
    ensures
        ({
            let (t, phi) = s.read(local, ty, b, joins, chain, n);
            &&& phi == s.next()
            &&& t.incomplete[b.0 as int] == s.incomplete[b.0 as int].push((local, phi))
            &&& known(t, b, local)
            &&& t.defs[b.0 as int][local.0] == phi
        }),
{
}

// Soundness of builders.

/// A builder that has replaced nothing and where nothing waits is sound.
pub proof fn new_builders_are_sound(s: BuildV)
    requires
        s.subst == Map::<u32, ValueId>::empty(),
        forall|b: int| 0 <= b < s.incomplete.len() ==> (#[trigger] s.incomplete[b]).len() == 0,
    ensures
        sound(s),
{
}

/// Reading a local keeps builders sound.
pub proof fn reading_keeps_soundness(s: BuildV, local: LocalId, ty: MirTy, b: BlockId, joins: nat, chain: nat, n: nat)
    requires
        s.wf(),
        sound(s),
        b.0 < s.f.blocks.len(),
        numbered(s.read(local, ty, b, joins, chain, n).0),
    ensures
        sound(s.read(local, ty, b, joins, chain, n).0),
{
    reading_leads(s, local, ty, b, joins, chain, n);
}

/// Sealing a block keeps builders sound.
pub proof fn sealing_keeps_soundness(s: BuildV, b: BlockId)
    requires
        s.wf(),
        sound(s),
        b.0 < s.f.blocks.len(),
        numbered(s.seal(b)),
    ensures
        sound(s.seal(b)),
{
    if !s.sealed[b.0 as int] {
        let all = s.incomplete[b.0 as int].len();
        turns_lead(s, b, all);
        turns_add_up(s, b, all);
    }
}

proof fn nothing_new_keeps_soundness(s: BuildV, t: BuildV)
    requires
        sound(s),
        t.subst == s.subst,
        t.f.types.len() >= s.f.types.len(),
        t.incomplete.len() >= s.incomplete.len(),
        forall|b: int| 0 <= b < s.incomplete.len() ==> #[trigger] t.incomplete[b] == s.incomplete[b],
        forall|b: int| s.incomplete.len() <= b < t.incomplete.len() ==> (#[trigger] t.incomplete[b]).len() == 0,
        forall|b: int, d: ValueId|
            0 <= b < s.incomplete.len() && d.0 < s.f.types.len() ==> #[trigger] found(t.f.blocks[b].insts, d, 0)
                == found(s.f.blocks[b].insts, d, 0),
    ensures
        sound(t),
{
    assert forall|x: ValueId| !t.subst.dom().contains((#[trigger] t.resolve(x)).0) by {
        assert(t.resolve(x) == s.resolve(x));
    }
    assert forall|b: int, k: int| 0 <= b < t.incomplete.len() && 0 <= k < t.incomplete[b].len() implies stands(
        t,
        b,
        (#[trigger] t.incomplete[b][k]).1,
    ) by {
        let p = s.incomplete[b][k].1;
        assert(t.incomplete[b] == s.incomplete[b]);
        assert(stands(s, b, p));
        assert(found(t.f.blocks[b].insts, p, 0) == found(s.f.blocks[b].insts, p, 0));
    }
    assert forall|c: int, k: int, d: int, l: int|
        0 <= c < t.incomplete.len() && 0 <= k < t.incomplete[c].len() && 0 <= d < t.incomplete.len() && 0 <= l
            < t.incomplete[d].len() && !(c == d && k == l) implies (#[trigger] t.incomplete[c][k]).1 != (
    #[trigger] t.incomplete[d][l]).1 by {
        assert(t.incomplete[c] == s.incomplete[c] && t.incomplete[d] == s.incomplete[d]);
        assert(s.incomplete[c][k].1 != s.incomplete[d][l].1);
    }
}

/// Binding a local, ending a block, recording an edge and adding a block keep builders sound.
pub proof fn shaping_keeps_soundness(s: BuildV, local: LocalId, v: ValueId, b: BlockId, term: TermV, block: BlockV)
    requires
        s.wf(),
        sound(s),
        b.0 < s.f.blocks.len(),
    ensures
        sound(s.write(local, b, v)),
        sound(s.set_term(term).0),
        sound(s.add_edge(b)),
        sound(
            (BuildV {
                f: FuncV { blocks: s.f.blocks.push(block), ..s.f },
                defs: s.defs.push(Map::empty()),
                sealed: s.sealed.push(false),
                preds: s.preds.push(Seq::empty()),
                incomplete: s.incomplete.push(Seq::empty()),
                ..s
            }),
        ),
{
    nothing_new_keeps_soundness(s, s.write(local, b, v));
    nothing_new_keeps_soundness(s, s.set_term(term).0);
    nothing_new_keeps_soundness(s, s.add_edge(b));
    nothing_new_keeps_soundness(
        s,
        BuildV {
            f: FuncV { blocks: s.f.blocks.push(block), ..s.f },
            defs: s.defs.push(Map::empty()),
            sealed: s.sealed.push(false),
            preds: s.preds.push(Seq::empty()),
            incomplete: s.incomplete.push(Seq::empty()),
            ..s
        },
    );
}

/// Adding the instruction that gives the next value keeps builders sound.
pub proof fn placing_keeps_soundness(s: BuildV, ty: MirTy, inst: InstV)
    requires
        s.wf(),
        sound(s),
        inst.dest() == s.next(),
        numbered(s.place(ty, inst).0),
    ensures
        sound(s.place(ty, inst).0),
{
    let t = s.place(ty, inst).0;
    assert(t.f.types.len() == s.f.types.len() + 1);
    assert forall|b: int, d: ValueId|
        0 <= b < s.incomplete.len() && d.0 < s.f.types.len() implies #[trigger] found(t.f.blocks[b].insts, d, 0)
        == found(s.f.blocks[b].insts, d, 0) by {
        if s.grow(ty).closed() is None && b == s.cur().0 {
            let insts = s.insts(s.cur());
            phi_end_in_range(insts, 0);
            found_past_insert(insts, d, phi_end(insts, 0) as int, inst, 0);
            found_past_push(insts, d, inst, 0);
        }
    }
    nothing_new_keeps_soundness(s, t);
}

} // verus!

//! Forwarding phis whose arguments agree.
//!
//! A phi all of whose arguments are one value, or the phi itself, gives way to that value.
//! Disagreeing arguments, another type and phis of themselves only stay.
use super::count::{gives, joins, phis, pruning_counts, removing_counts, renaming_keeps_count};
use super::cse::{entries, entries_are_counted};
use super::func::{FuncV, MirFunc};
use super::inst::{map_args, map_value, value_under, BlockId, InstV, MirInst, ValueId};
use super::instcombine::{capped, redirect, redirected};
use super::rewrite::{
    dce, has_inst, map_in_range, pruned, pruning_keeps_index, remove_renamed, removed,
    removing_keeps_index, rename_all, renamed, renaming_keeps_index, renaming_renames_uses,
};
use super::ty::MirTy;
use super::valid::{
    block_valid, defined_at, defined_before, inst_valid, kept_place, place, place_holds,
    place_is_found, pruned_place, renaming_by_nothing,
    pruning_keeps_validity, same_types, sieved, substituting_keeps_validity, valid,
    values_are_defined_once, verification_finds_the_valid_functions, without_is_sieved,
};
use crate::idmap::IdMap;
use vstd::prelude::*;

verus! {

/// The one value of type `ty`, besides `dest` itself, that the arguments from `i` on are under
/// `m`; `same` is the one so far.
pub open spec fn source_from(
    f: FuncV,
    dest: ValueId,
    ty: MirTy,
    args: Seq<(BlockId, ValueId)>,
    m: Map<u32, ValueId>,
    i: int,
    same: Option<ValueId>,
) -> Option<ValueId>
    decreases args.len() - i,
{
    if i >= args.len() {
        same
    } else {
        let v = map_value(m, args[i].1);
        if v == dest {
            source_from(f, dest, ty, args, m, i + 1, same)
        } else if f.ty(v) != ty || (same is Some && same != Some(v)) {
            None
        } else {
            source_from(f, dest, ty, args, m, i + 1, Some(v))
        }
    }
}

/// The value that a phi gives way to under `m`.
pub open spec fn source_of(f: FuncV, inst: InstV, m: Map<u32, ValueId>) -> Option<ValueId> {
    match inst {
        InstV::Phi { dest, ty, args } => if m.dom().contains(dest.0) {
            None
        } else {
            source_from(f, dest, ty, args, m, 0, None)
        },
        _ => None,
    }
}

/// `m` with what the phis from `i` on give way to, and whether there is any.
pub open spec fn swept_in(
    f: FuncV,
    insts: Seq<InstV>,
    i: int,
    m: Map<u32, ValueId>,
    found: bool,
) -> (Map<u32, ValueId>, bool)
    decreases insts.len() - i,
{
    if i >= insts.len() {
        (m, found)
    } else {
        match source_of(f, insts[i], m) {
            Some(keep) => swept_in(f, insts, i + 1, redirected(m, insts[i].dest(), keep), true),
            None => swept_in(f, insts, i + 1, m, found),
        }
    }
}

/// `m` with what the phis of the blocks from `b` on give way to.
pub open spec fn swept_from(f: FuncV, b: int, m: Map<u32, ValueId>, found: bool) -> (
    Map<u32, ValueId>,
    bool,
)
    decreases f.blocks.len() - b,
{
    if b >= f.blocks.len() {
        (m, found)
    } else {
        let (n, more) = swept_in(f, f.blocks[b].insts, 0, m, found);
        swept_from(f, b + 1, n, more)
    }
}

/// Sweeps until one finds nothing, at most `k`. Each that finds something settles a value, so one
/// more than there are values is enough.
pub open spec fn settled(f: FuncV, m: Map<u32, ValueId>, k: nat) -> Map<u32, ValueId>
    decreases k,
{
    if k == 0 {
        m
    } else {
        let (n, found) = swept_from(f, 0, m, false);
        if found {
            settled(f, n, (k - 1) as nat)
        } else {
            n
        }
    }
}

/// What every phi gives way to.
pub open spec fn forwards(f: FuncV) -> Map<u32, ValueId> {
    settled(f, Map::empty(), (f.types.len() + 1) as nat)
}

/// One round: the function with phis forwarded, and how many there were.
pub open spec fn forwarded_once(f: FuncV) -> (FuncV, nat) {
    let m = forwards(f);
    if m == Map::<u32, ValueId>::empty() {
        (f, 0)
    } else {
        (removed(renamed(f, m), m.dom()), entries(m))
    }
}

/// Up to `k` rounds, until one forwards nothing.
pub open spec fn forward_rounds(f: FuncV, k: nat, n: nat) -> (FuncV, nat)
    decreases k,
{
    if k == 0 {
        (f, n)
    } else {
        let (g, m) = forwarded_once(f);
        if m == 0 {
            (g, n)
        } else {
            forward_rounds(g, (k - 1) as nat, n + m)
        }
    }
}

/// The function after up to eight rounds, without the code that nothing needs, and how many phis
/// were forwarded.
pub open spec fn forwarded(f: FuncV) -> (FuncV, nat) {
    let (g, n) = forward_rounds(f, 8, 0);
    if n > 0 {
        (pruned(g), n)
    } else {
        (g, n)
    }
}

fn trivial_src(
    func: &MirFunc,
    dest: ValueId,
    ty: MirTy,
    args: &Vec<(BlockId, ValueId)>,
    subst: &IdMap<ValueId>,
) -> (r: Option<ValueId>)
    requires
        map_in_range(func@, subst@),
        forall|k: int| 0 <= k < args@.len() ==> (#[trigger] args@[k]).1.0 < func@.types.len(),
    ensures
        r == source_from(func@, dest, ty, args@, subst@, 0, None),
        r matches Some(v) ==> v.0 < func@.types.len() && v != dest,
{
    let ghost f = func@;
    let mut same: Option<ValueId> = None;
    let mut i: usize = 0;
    while i < args.len()
        invariant
            i <= args@.len(),
            f == func@,
            map_in_range(f, subst@),
            forall|k: int| 0 <= k < args@.len() ==> (#[trigger] args@[k]).1.0 < f.types.len(),
            same matches Some(v) ==> v.0 < f.types.len() && v != dest,
            source_from(f, dest, ty, args@, subst@, 0, None) == source_from(
                f,
                dest,
                ty,
                args@,
                subst@,
                i as int,
                same,
            ),
        decreases args@.len() - i,
    {
        assert(args@[i as int].1.0 < f.types.len());
        let v = value_under(subst, args[i].1);
        if v != dest {
            if func.ty(v) != ty {
                return None;
            }
            if let Some(s) = same {
                if s != v {
                    return None;
                }
            }
            same = Some(v);
        }
        i += 1;
    }
    same
}

fn sweep_block(func: &MirFunc, b: usize, subst: &mut IdMap<ValueId>, found: bool) -> (r: bool)
    requires
        func@.indexed(),
        b < func@.blocks.len(),
        map_in_range(func@, old(subst)@),
    ensures
        (final(subst)@, r) == swept_in(func@, func@.blocks[b as int].insts, 0, old(subst)@, found),
        map_in_range(func@, final(subst)@),
{
    let ghost f = func@;
    let ghost m0 = subst@;
    let block = &func.blocks[b];
    assert(f.blocks[b as int] == block@);
    assert(f.block_indexed(f.blocks[b as int], b as int));
    let ghost iv = block@.insts;
    let mut r = found;
    let mut i: usize = 0;
    while i < block.insts.len()
        invariant
            i <= block.insts@.len(),
            f == func@,
            iv == block@.insts,
            forall|k: int| 0 <= k < iv.len() ==> f.inst_indexed(#[trigger] iv[k]),
            map_in_range(f, subst@),
            swept_in(f, iv, 0, m0, found) == swept_in(f, iv, i as int, subst@, r),
        decreases block.insts@.len() - i,
    {
        assert(iv[i as int] == block.insts@[i as int]@);
        assert(f.inst_indexed(iv[i as int]));
        if let MirInst::Phi { dest, ty, args } = &block.insts[i] {
            proof {
                assert forall|k: int| 0 <= k < args@.len() implies (#[trigger] args@[k]).1.0
                    < f.types.len() by {
                    assert(iv[i as int].uses()[k] == args@[k].1);
                }
            }
            if !subst.contains_key(&dest.0) {
                if let Some(keep) = trivial_src(func, *dest, *ty, args, subst) {
                    redirect(subst, *dest, keep);
                    r = true;
                }
            }
        }
        i += 1;
    }
    r
}

fn find_forwards(func: &MirFunc) -> (r: IdMap<ValueId>)
    requires
        func@.indexed(),
    ensures
        r@ == forwards(func@),
        map_in_range(func@, r@),
{
    let ghost f = func@;
    let mut subst: IdMap<ValueId> = IdMap::new();
    let mut k: u64 = func.types.len() as u64 + 1;
    let mut going = true;
    while k > 0 && going
        invariant
            f == func@,
            f.indexed(),
            map_in_range(f, subst@),
            going ==> forwards(f) == settled(f, subst@, k as nat),
            !going ==> forwards(f) == subst@,
        decreases k,
    {
        let ghost m0 = subst@;
        let mut found = false;
        let mut b: usize = 0;
        while b < func.blocks.len()
            invariant
                b <= func.blocks@.len(),
                f == func@,
                f.indexed(),
                map_in_range(f, subst@),
                swept_from(f, 0, m0, false) == swept_from(f, b as int, subst@, found),
            decreases func.blocks@.len() - b,
        {
            found = sweep_block(func, b, &mut subst, found);
            b += 1;
        }
        going = found;
        k -= 1;
    }
    subst
}

fn destprop_once(func: &mut MirFunc) -> (r: usize)
    requires
        old(func)@.indexed(),
    ensures
        (final(func)@, r as nat) == forwarded_once(old(func)@),
        final(func)@.indexed(),
{
    let subst = find_forwards(func);
    if subst.is_empty() {
        return 0;
    }
    proof {
        renaming_keeps_index(func@, subst@);
        removing_keeps_index(renamed(func@, subst@), subst@.dom());
    }
    rename_all(func, &subst);
    remove_renamed(func, &subst);
    subst.len()
}

/// Forwards phis whose arguments agree. Returns how many were forwarded.
pub fn destprop(func: &mut MirFunc) -> (r: usize)
    requires
        old(func)@.indexed(),
    ensures
        final(func)@ == forwarded(old(func)@).0,
        r == capped(forwarded(old(func)@).1),
        final(func)@.indexed(),
{
    let ghost want = forward_rounds(func@, 8, 0);
    let ghost mut n: nat = 0;
    let mut total: usize = 0;
    let mut k: u64 = 8;
    let mut going = true;
    while k > 0 && going
        invariant
            func@.indexed(),
            total == capped(n),
            going ==> want == forward_rounds(func@, k as nat, n),
            !going ==> want == (func@, n),
        decreases k,
    {
        let m = destprop_once(func);
        if m == 0 {
            going = false;
        } else {
            total = total.saturating_add(m);
            proof {
                n = n + m as nat;
            }
        }
        k -= 1;
    }
    if total > 0 {
        proof {
            pruning_keeps_index(func@);
        }
        dce(func);
    }
    total
}

/// A phi gives way only to a value of its type that is not itself, and every argument is that
/// value or the phi.
pub proof fn forwarded_phis_agree(
    f: FuncV,
    dest: ValueId,
    ty: MirTy,
    args: Seq<(BlockId, ValueId)>,
    m: Map<u32, ValueId>,
    k: int,
)
    requires
        source_from(f, dest, ty, args, m, 0, None) is Some,
        0 <= k < args.len(),
    ensures
        ({
            let keep = source_from(f, dest, ty, args, m, 0, None)->0;
            &&& keep != dest
            &&& f.ty(keep) == ty
            &&& map_value(m, args[k].1) == keep || map_value(m, args[k].1) == dest
        }),
{
    agreement_from(f, dest, ty, args, m, 0, None, k);
}

proof fn agreement_from(
    f: FuncV,
    dest: ValueId,
    ty: MirTy,
    args: Seq<(BlockId, ValueId)>,
    m: Map<u32, ValueId>,
    i: int,
    same: Option<ValueId>,
    k: int,
)
    requires
        source_from(f, dest, ty, args, m, i, same) is Some,
        same matches Some(v) ==> v != dest && f.ty(v) == ty,
        0 <= i,
        k < args.len(),
    ensures
        ({
            let keep = source_from(f, dest, ty, args, m, i, same)->0;
            &&& keep != dest
            &&& f.ty(keep) == ty
            &&& same is Some ==> same == Some(keep)
            &&& k >= i ==> map_value(m, args[k].1) == keep || map_value(m, args[k].1) == dest
        }),
    decreases args.len() - i,
{
    if i < args.len() {
        let v = map_value(m, args[i].1);
        if v == dest {
            agreement_from(f, dest, ty, args, m, i + 1, same, k);
        } else {
            agreement_from(f, dest, ty, args, m, i + 1, Some(v), k);
        }
    }
}

// Forwarding keeps functions valid, and once is enough.

/// The instruction at `p, j` is a phi whose result is `k`.
spec fn phi_at(f: FuncV, p: int, j: int, k: u32) -> bool {
    has_inst(f, p, j) && f.blocks[p].insts[j].phi() && f.blocks[p].insts[j].dest().0 == k
}

/// `m` puts values of the same type that are not replaced in the place of phis.
spec fn replaces_phis(f: FuncV, m: Map<u32, ValueId>) -> bool {
    &&& same_types(f, m)
    &&& m.dom().finite()
    &&& forall|k: u32| #[trigger] m.dom().contains(k) ==> !m.dom().contains(m[k].0)
    &&& forall|k: u32| #[trigger]
        m.dom().contains(k) ==> exists|p: int, j: int| #[trigger] phi_at(f, p, j, k)
}

proof fn redirecting_replaces_phis(f: FuncV, m: Map<u32, ValueId>, b: int, i: int)
    requires
        valid(f),
        replaces_phis(f, m),
        has_inst(f, b, i),
        source_of(f, f.blocks[b].insts[i], m) is Some,
    ensures
        ({
            let inst = f.blocks[b].insts[i];
            let n = redirected(m, inst.dest(), source_of(f, inst, m)->0);
            &&& replaces_phis(f, n)
            &&& n.dom() == m.dom().insert(inst.dest().0)
            &&& !m.dom().contains(inst.dest().0)
        }),
{
    let inst = f.blocks[b].insts[i];
    if let InstV::Phi { dest, ty, args } = inst {
        let keep = source_of(f, inst, m)->0;
        let n = redirected(m, dest, keep);
        assert(block_valid(f, b));
        assert(inst_valid(f, b, i));
        assert(f.ty(dest) == ty);
        assert(ValueId(dest.0) == dest);
        source_is_free(f, dest, ty, args, m, 0, None);
        assert(n.dom() =~= m.dom().insert(dest.0));
        assert forall|k: u32| #[trigger] n.dom().contains(k) implies f.ty(n[k]) == f.ty(ValueId(k)) by {
            if k != dest.0 {
                assert(m.dom().contains(k));
            }
        }
        assert forall|k: u32| #[trigger] n.dom().contains(k) implies !n.dom().contains(n[k].0) by {
            if k != dest.0 {
                assert(m.dom().contains(k));
                assert(ValueId(m[k].0) == m[k]);
            }
        }
        assert forall|k: u32| #[trigger] n.dom().contains(k) implies exists|p: int, j: int| #[trigger]
            phi_at(f, p, j, k) by {
            if k == dest.0 {
                assert(phi_at(f, b, i, k));
            } else {
                assert(m.dom().contains(k));
            }
        }
    }
}

/// What a phi gives way to has the phi's type, is not the phi and is not replaced.
proof fn source_is_free(
    f: FuncV,
    dest: ValueId,
    ty: MirTy,
    args: Seq<(BlockId, ValueId)>,
    m: Map<u32, ValueId>,
    i: int,
    same: Option<ValueId>,
)
    requires
        0 <= i,
        forall|k: u32| #[trigger] m.dom().contains(k) ==> !m.dom().contains(m[k].0),
        same matches Some(v) ==> f.ty(v) == ty && v != dest && !m.dom().contains(v.0),
    ensures
        source_from(f, dest, ty, args, m, i, same) matches Some(v) ==> f.ty(v) == ty && v != dest
            && !m.dom().contains(v.0),
    decreases args.len() - i,
{
    if i < args.len() {
        let v = map_value(m, args[i].1);
        if v == dest {
            source_is_free(f, dest, ty, args, m, i + 1, same);
        } else if f.ty(v) != ty || (same is Some && same != Some(v)) {
        } else {
            source_is_free(f, dest, ty, args, m, i + 1, Some(v));
        }
    }
}

/// A sweep over a block replaces phis; where it found none, nothing changed and no phi of the
/// block gives way, and where it did there are more of them.
proof fn sweep_in_replaces(f: FuncV, b: int, i: int, m: Map<u32, ValueId>, found: bool)
    requires
        valid(f),
        0 <= b < f.blocks.len(),
        0 <= i,
        replaces_phis(f, m),
    ensures
        ({
            let (n, more) = swept_in(f, f.blocks[b].insts, i, m, found);
            &&& replaces_phis(f, n)
            &&& found ==> more
            &&& n.dom().len() >= m.dom().len()
            &&& more && !found ==> n.dom().len() > m.dom().len()
            &&& !more ==> n == m && forall|k: int|
                i <= k < f.blocks[b].insts.len() ==> source_of(f, #[trigger] f.blocks[b].insts[k], m) is None
        }),
    decreases f.blocks[b].insts.len() - i,
{
    let insts = f.blocks[b].insts;
    if i < insts.len() {
        assert(has_inst(f, b, i));
        match source_of(f, insts[i], m) {
            Some(keep) => {
                redirecting_replaces_phis(f, m, b, i);
                sweep_in_replaces(f, b, i + 1, redirected(m, insts[i].dest(), keep), true);
            },
            None => {
                sweep_in_replaces(f, b, i + 1, m, found);
            },
        }
    }
}

proof fn sweep_replaces(f: FuncV, b: int, m: Map<u32, ValueId>, found: bool)
    requires
        valid(f),
        0 <= b,
        replaces_phis(f, m),
    ensures
        ({
            let (n, more) = swept_from(f, b, m, found);
            &&& replaces_phis(f, n)
            &&& found ==> more
            &&& n.dom().len() >= m.dom().len()
            &&& more && !found ==> n.dom().len() > m.dom().len()
            &&& !more ==> n == m && forall|p: int, k: int|
                b <= p && #[trigger] has_inst(f, p, k) ==> source_of(f, f.blocks[p].insts[k], m) is None
        }),
    decreases f.blocks.len() - b,
{
    if b < f.blocks.len() {
        sweep_in_replaces(f, b, 0, m, found);
        let (n, more) = swept_in(f, f.blocks[b].insts, 0, m, found);
        sweep_replaces(f, b + 1, n, more);
    }
}

/// There are no more numbers below `n` than `n`.
proof fn numbers_below(n: nat) -> (u: Set<u32>)
    requires
        n <= u32::MAX,
    ensures
        u.finite(),
        u.len() <= n,
        forall|k: u32| #[trigger] u.contains(k) <==> k < n,
    decreases n,
{
    if n == 0 {
        Set::empty()
    } else {
        let rest = numbers_below((n - 1) as nat);
        rest.insert((n - 1) as u32)
    }
}

proof fn few_phis(f: FuncV, m: Map<u32, ValueId>)
    requires
        valid(f),
        f.indexed(),
        replaces_phis(f, m),
    ensures
        m.dom().len() <= f.types.len(),
{
    let u = numbers_below(f.types.len());
    assert forall|k: u32| #[trigger] m.dom().contains(k) implies u.contains(k) by {
        let (p, j) = choose|p: int, j: int| #[trigger] phi_at(f, p, j, k);
        assert(f.block_indexed(f.blocks[p], p));
        assert(f.inst_indexed(f.blocks[p].insts[j]));
    }
    vstd::set_lib::lemma_len_subset(m.dom(), u);
}

proof fn settling_replaces(f: FuncV, m: Map<u32, ValueId>, k: nat)
    requires
        valid(f),
        f.indexed(),
        replaces_phis(f, m),
        k + m.dom().len() > f.types.len(),
    ensures
        replaces_phis(f, settled(f, m, k)),
        forall|p: int, i: int| #[trigger]
            has_inst(f, p, i) && 0 <= p ==> source_of(f, f.blocks[p].insts[i], settled(f, m, k)) is None,
    decreases k,
{
    few_phis(f, m);
    let (n, found) = swept_from(f, 0, m, false);
    sweep_replaces(f, 0, m, false);
    if found {
        settling_replaces(f, n, (k - 1) as nat);
    }
}

/// After forwarding no phi is left whose arguments agree.
pub proof fn nothing_is_left_to_forward(f: FuncV)
    requires
        f.fault() is None,
        f.indexed(),
    ensures
        forwarded_once(forwarded_once(f).0) == (forwarded_once(f).0, 0nat),
{
    verification_finds_the_valid_functions(f);
    let none = Map::<u32, ValueId>::empty();
    let m = forwards(f);
    assert(replaces_phis(f, none));
    settling_replaces(f, none, (f.types.len() + 1) as nat);
    let g = forwarded_once(f).0;
    if m == none {
        listing_is_empty();
        assert(forwarded_once(f) == (f, 0nat));
    } else {
        let h = renamed(f, m);
        assert(g == removed(h, m.dom()));
        assert forall|p: int, k: int| 0 <= p && #[trigger] has_inst(g, p, k) implies source_of(
            g,
            g.blocks[p].insts[k],
            none,
        ) is None by {
            without_keeps_phis(f, m, p, k);
        }
        nothing_swept(g, 0, none);
    }
}

proof fn listing_is_empty()
    ensures
        entries(Map::<u32, ValueId>::empty()) == 0,
{
    let d = Map::<u32, ValueId>::empty().dom();
    crate::ids::listing_holds_the_members(d);
    let q = crate::ids::ascending_ids(d);
    if q.len() > 0 {
        assert(q.contains(q[0]));
    }
}

/// Instructions of the function after forwarding are those that stayed, renamed.
proof fn without_keeps_phis(f: FuncV, m: Map<u32, ValueId>, p: int, k: int)
    requires
        0 <= p,
        has_inst(removed(renamed(f, m), m.dom()), p, k),
        forall|k: u32| #[trigger] m.dom().contains(k) ==> !m.dom().contains(m[k].0),
        forall|q: int, i: int| #[trigger]
            has_inst(f, q, i) && 0 <= q ==> source_of(f, f.blocks[q].insts[i], m) is None,
    ensures
        ({
            let g = removed(renamed(f, m), m.dom());
            source_of(g, g.blocks[p].insts[k], Map::empty()) is None
        }),
{
    let h = renamed(f, m);
    let g = removed(h, m.dom());
    let gone = m.dom();
    let pr = |x: InstV| !gone.contains(x.dest().0);
    without_is_sieved(h.blocks[p].insts, gone, 0);
    assert(g.blocks[p].insts == sieved(h.blocks[p].insts, pr, 0));
    place_holds(h.blocks[p].insts, pr, 0, k);
    let i = place(h.blocks[p].insts, pr, 0, k);
    assert(has_inst(f, p, i));
    let inst = f.blocks[p].insts[i];
    renaming_renames_uses(inst, m);
    if let InstV::Phi { dest, ty, args } = inst {
        same_source(f, g, dest, ty, args, m, 0, None);
    }
}

proof fn same_source(
    f: FuncV,
    g: FuncV,
    dest: ValueId,
    ty: MirTy,
    args: Seq<(BlockId, ValueId)>,
    m: Map<u32, ValueId>,
    i: int,
    same: Option<ValueId>,
)
    requires
        g.types == f.types,
        0 <= i,
    ensures
        source_from(g, dest, ty, map_args(m, args), Map::empty(), i, same) == source_from(
            f,
            dest,
            ty,
            args,
            m,
            i,
            same,
        ),
    decreases args.len() - i,
{
    if i < args.len() {
        let v = map_value(m, args[i].1);
        assert(map_args(m, args)[i].1 == v);
        same_source(f, g, dest, ty, args, m, i + 1, same);
        same_source(f, g, dest, ty, args, m, i + 1, Some(v));
    }
}

proof fn nothing_swept_in(f: FuncV, insts: Seq<InstV>, i: int, m: Map<u32, ValueId>)
    requires
        0 <= i,
        forall|k: int| 0 <= k < insts.len() ==> source_of(f, #[trigger] insts[k], m) is None,
    ensures
        swept_in(f, insts, i, m, false) == (m, false),
    decreases insts.len() - i,
{
    if i < insts.len() {
        nothing_swept_in(f, insts, i + 1, m);
    }
}

proof fn nothing_swept(f: FuncV, b: int, m: Map<u32, ValueId>)
    requires
        0 <= b,
        forall|p: int, k: int|
            0 <= p && #[trigger] has_inst(f, p, k) ==> source_of(f, f.blocks[p].insts[k], m) is None,
    ensures
        swept_from(f, b, m, false) == (m, false),
    decreases f.blocks.len() - b,
{
    if b < f.blocks.len() {
        assert forall|k: int| 0 <= k < f.blocks[b].insts.len() implies source_of(
            f,
            #[trigger] f.blocks[b].insts[k],
            m,
        ) is None by {
            assert(has_inst(f, b, k));
        }
        nothing_swept_in(f, f.blocks[b].insts, 0, m);
        nothing_swept(f, b + 1, m);
    }
}

/// Each phi that gives way is defined behind what it gives way to.
pub open spec fn sources_come_first(f: FuncV) -> bool {
    forall|k: u32, b: int, i: int|
        #![trigger forwards(f).dom().contains(k), has_inst(f, b, i)]
        forwards(f).dom().contains(k) && defined_at(f, b, i, ValueId(k)) ==> defined_before(
            f,
            b,
            i,
            forwards(f)[k],
        )
}

/// Forwarding keeps a function valid, where what a phi gives way to comes before it in the code.
pub proof fn forwarding_keeps_validity(f: FuncV)
    requires
        f.fault() is None,
        f.indexed(),
        sources_come_first(f),
    ensures
        forwarded(f).0.fault() is None,
{
    verification_finds_the_valid_functions(f);
    let none = Map::<u32, ValueId>::empty();
    let m = forwards(f);
    assert(replaces_phis(f, none));
    settling_replaces(f, none, (f.types.len() + 1) as nat);
    assert forall|k: u32| #[trigger] m.dom().contains(k) implies !f.params.contains(ValueId(k))
        && !m.dom().contains(m[k].0) by {
        let (p, j) = choose|p: int, j: int| #[trigger] phi_at(f, p, j, k);
        assert(f.blocks[p].insts[j].dests()[0] == ValueId(k));
        values_are_defined_once(f, p, j, p, j, ValueId(k));
    }
    assert forall|k: u32, b: int, i: int|
        #![trigger m.dom().contains(k), has_inst(f, b, i)]
        m.dom().contains(k) && defined_at(f, b, i, ValueId(k)) implies f.blocks[b].insts[i].dests().len()
        == 1 && defined_before(f, b, i, m[k]) by {
        let (p, j) = choose|p: int, j: int| #[trigger] phi_at(f, p, j, k);
        assert(f.blocks[p].insts[j].dests()[0] == ValueId(k));
        values_are_defined_once(f, p, j, b, i, ValueId(k));
    }
    let (g, n) = forwarded_once(f);
    reveal_with_fuel(forward_rounds, 3);
    if m != none {
        nothing_is_left_to_forward(f);
        substituting_keeps_validity(f, m);
        pruning_keeps_validity(g);
        verification_finds_the_valid_functions(g);
        verification_finds_the_valid_functions(pruned(g));
    }
}

// What forwarding removes, and what it leaves.

/// The instruction is a phi whose arguments, apart from itself, are all the one value `v` of its
/// type.
pub open spec fn agrees_on(f: FuncV, inst: InstV, v: ValueId) -> bool {
    match inst {
        InstV::Phi { dest, ty, args } => {
            &&& v != dest
            &&& f.ty(v) == ty
            &&& exists|k: int| 0 <= k < args.len() && (#[trigger] args[k]).1 == v
            &&& forall|k: int| 0 <= k < args.len() ==> (#[trigger] args[k]).1 == v || args[k].1 == dest
        },
        _ => false,
    }
}

proof fn agreement_is_found(
    f: FuncV,
    dest: ValueId,
    ty: MirTy,
    args: Seq<(BlockId, ValueId)>,
    v: ValueId,
    i: int,
    same: Option<ValueId>,
)
    requires
        0 <= i <= args.len(),
        v != dest,
        f.ty(v) == ty,
        forall|k: int| 0 <= k < args.len() ==> (#[trigger] args[k]).1 == v || args[k].1 == dest,
        same is None || same == Some(v),
        same is None ==> exists|k: int| i <= k < args.len() && (#[trigger] args[k]).1 == v,
    ensures
        source_from(f, dest, ty, args, Map::empty(), i, same) == Some(v),
    decreases args.len() - i,
{
    if i < args.len() {
        assert(map_value(Map::empty(), args[i].1) == args[i].1);
        if args[i].1 == dest {
            agreement_is_found(f, dest, ty, args, v, i + 1, same);
        } else {
            agreement_is_found(f, dest, ty, args, v, i + 1, Some(v));
        }
    }
}

/// Whether no phi of the function gives way.
spec fn at_rest(f: FuncV) -> bool {
    forall|p: int, k: int|
        0 <= p && #[trigger] has_inst(f, p, k) ==> source_of(f, f.blocks[p].insts[k], Map::empty()) is None
}

proof fn resting_functions_stay(f: FuncV)
    requires
        at_rest(f),
    ensures
        forwards(f) == Map::<u32, ValueId>::empty(),
        forwarded_once(f) == (f, 0nat),
        forwarded(f) == (f, 0nat),
{
    nothing_swept(f, 0, Map::empty());
    assert(settled(f, Map::empty(), (f.types.len() + 1) as nat) == Map::<u32, ValueId>::empty());
    assert(forward_rounds(f, 8, 0) == (f, 0nat));
}

proof fn pruned_function_rests(f: FuncV)
    requires
        at_rest(f),
    ensures
        at_rest(pruned(f)),
{
    let g = pruned(f);
    assert forall|p: int, k: int| 0 <= p && #[trigger] has_inst(g, p, k) implies source_of(
        g,
        g.blocks[p].insts[k],
        Map::empty(),
    ) is None by {
        let i = pruned_place(f, p, k);
        assert(has_inst(f, p, i));
        if let InstV::Phi { dest, ty, args } = f.blocks[p].insts[i] {
            same_types_same_source(f, g, dest, ty, args, 0, None);
        }
    }
}

proof fn same_types_same_source(
    f: FuncV,
    g: FuncV,
    dest: ValueId,
    ty: MirTy,
    args: Seq<(BlockId, ValueId)>,
    i: int,
    same: Option<ValueId>,
)
    requires
        g.types == f.types,
        0 <= i,
    ensures
        source_from(g, dest, ty, args, Map::empty(), i, same) == source_from(
            f,
            dest,
            ty,
            args,
            Map::empty(),
            i,
            same,
        ),
    decreases args.len() - i,
{
    if i < args.len() {
        let v = map_value(Map::empty(), args[i].1);
        same_types_same_source(f, g, dest, ty, args, i + 1, same);
        same_types_same_source(f, g, dest, ty, args, i + 1, Some(v));
    }
}

/// What forwarding comes to: one round, then pruning.
proof fn forwarding_is_one_round(f: FuncV)
    requires
        f.fault() is None,
        f.indexed(),
    ensures
        ({
            let m = forwards(f);
            let g = removed(renamed(f, m), m.dom());
            &&& replaces_phis(f, m)
            &&& m == Map::<u32, ValueId>::empty() ==> forwarded(f) == (f, 0nat) && at_rest(f)
            &&& m != Map::<u32, ValueId>::empty() ==> forwarded(f) == (pruned(g), m.dom().len())
                && m.dom().len() > 0 && at_rest(g)
        }),
{
    verification_finds_the_valid_functions(f);
    let none = Map::<u32, ValueId>::empty();
    let m = forwards(f);
    assert(replaces_phis(f, none));
    settling_replaces(f, none, (f.types.len() + 1) as nat);
    entries_are_counted(m);
    reveal_with_fuel(forward_rounds, 3);
    if m != none {
        let g = removed(renamed(f, m), m.dom());
        if m.dom().len() == 0 {
            assert(m =~= none);
        }
        assert forall|p: int, k: int| 0 <= p && #[trigger] has_inst(g, p, k) implies source_of(
            g,
            g.blocks[p].insts[k],
            none,
        ) is None by {
            without_keeps_phis(f, m, p, k);
        }
        resting_functions_stay(g);
    }
}

/// Forwarding reports how many phis fewer there are.
pub proof fn forwarding_counts_phis(f: FuncV)
    requires
        f.fault() is None,
        f.indexed(),
    ensures
        phis(forwarded(f).0) + forwarded(f).1 == phis(f),
{
    forwarding_is_one_round(f);
    verification_finds_the_valid_functions(f);
    let m = forwards(f);
    if m != Map::<u32, ValueId>::empty() {
        let h = renamed(f, m);
        let g = removed(h, m.dom());
        renaming_keeps_count(f, m, joins(), 0);
        assert forall|k: u32| #[trigger] m.dom().contains(k) implies exists|b: int, i: int| #[trigger] gives(
            h,
            joins(),
            b,
            i,
            k,
        ) by {
            let (b, i) = choose|b: int, i: int| #[trigger] phi_at(f, b, i, k);
            assert(h.blocks[b].insts[i] == f.blocks[b].insts[i].renamed(m));
            assert(gives(h, joins(), b, i, k));
        }
        assert forall|b: int, i: int, c: int, j: int, k: u32| #[trigger]
            gives(h, joins(), b, i, k) && #[trigger] gives(h, joins(), c, j, k) implies b == c && i == j by {
            assert(h.blocks[b].insts[i] == f.blocks[b].insts[i].renamed(m));
            assert(h.blocks[c].insts[j] == f.blocks[c].insts[j].renamed(m));
            assert(f.blocks[b].insts[i].dests()[0] == ValueId(k));
            assert(f.blocks[c].insts[j].dests()[0] == ValueId(k));
            assert(defined_at(f, b, i, ValueId(k)) && defined_at(f, c, j, ValueId(k)));
            values_are_defined_once(f, b, i, c, j, ValueId(k));
        }
        removing_counts(h, m.dom(), joins());
        pruning_counts(g, joins(), 0);
    }
}

/// After forwarding no phi is left whose arguments, apart from itself, are all one value of its
/// type, and forwarding again reports nothing and changes nothing.
pub proof fn forwarding_leaves_no_agreement(f: FuncV)
    requires
        f.fault() is None,
        f.indexed(),
    ensures
        ({
            let g = forwarded(f).0;
            &&& forwarded(g) == (g, 0nat)
            &&& forall|b: int, i: int, v: ValueId|
                has_inst(g, b, i) ==> !#[trigger] agrees_on(g, g.blocks[b].insts[i], v)
        }),
{
    forwarding_is_one_round(f);
    let m = forwards(f);
    let g = forwarded(f).0;
    if m != Map::<u32, ValueId>::empty() {
        pruned_function_rests(removed(renamed(f, m), m.dom()));
    }
    resting_functions_stay(g);
    assert forall|b: int, i: int, v: ValueId| has_inst(g, b, i) implies !#[trigger] agrees_on(
        g,
        g.blocks[b].insts[i],
        v,
    ) by {
        if let InstV::Phi { dest, ty, args } = g.blocks[b].insts[i] {
            if agrees_on(g, g.blocks[b].insts[i], v) {
                agreement_is_found(g, dest, ty, args, v, 0, None);
                assert(source_of(g, g.blocks[b].insts[i], Map::empty()) is None);
            }
        }
    }
}

/// Argument `x` of the phi at `p, j`.
spec fn arg_of(f: FuncV, p: int, j: int, x: int) -> ValueId {
    match f.blocks[p].insts[j] {
        InstV::Phi { args, .. } => args[x].1,
        other => other.dest(),
    }
}

/// Number of arguments of the phi at `p, j`.
spec fn arity(f: FuncV, p: int, j: int) -> nat {
    match f.blocks[p].insts[j] {
        InstV::Phi { args, .. } => args.len(),
        _ => 0,
    }
}

/// Under `m` every argument of a phi that gives way is what the phi gives way to.
spec fn unites(f: FuncV, m: Map<u32, ValueId>) -> bool {
    forall|k: u32, p: int, j: int, x: int|
        m.dom().contains(k) && phi_at(f, p, j, k) && 0 <= x < arity(f, p, j) ==> map_value(
            m,
            #[trigger] arg_of(f, p, j, x),
        ) == #[trigger] m[k]
}

proof fn redirecting_unites(f: FuncV, m: Map<u32, ValueId>, b: int, i: int)
    requires
        valid(f),
        replaces_phis(f, m),
        unites(f, m),
        has_inst(f, b, i),
        source_of(f, f.blocks[b].insts[i], m) is Some,
    ensures
        unites(
            f,
            redirected(m, f.blocks[b].insts[i].dest(), source_of(f, f.blocks[b].insts[i], m)->0),
        ),
{
    let inst = f.blocks[b].insts[i];
    if let InstV::Phi { dest, ty, args } = inst {
        let keep = source_of(f, inst, m)->0;
        let n = redirected(m, dest, keep);
        source_is_free(f, dest, ty, args, m, 0, None);
        assert(ValueId(dest.0) == dest && ValueId(keep.0) == keep);
        assert forall|k: u32, p: int, j: int, x: int|
            n.dom().contains(k) && phi_at(f, p, j, k) && 0 <= x < arity(f, p, j) implies map_value(
            n,
            #[trigger] arg_of(f, p, j, x),
        ) == #[trigger] n[k] by {
            let a = arg_of(f, p, j, x);
            assert(ValueId(a.0) == a);
            if k == dest.0 {
                assert(f.blocks[b].insts[i].dests()[0] == ValueId(k));
                assert(f.blocks[p].insts[j].dests()[0] == ValueId(k));
                assert(defined_at(f, b, i, ValueId(k)) && defined_at(f, p, j, ValueId(k)));
                values_are_defined_once(f, b, i, p, j, ValueId(k));
                assert(a == args[x].1);
                agreement_from(f, dest, ty, args, m, 0, None, x);
            } else {
                assert(m.dom().contains(k));
                assert(map_value(m, a) == m[k]);
            }
        }
    }
}

proof fn sweep_in_unites(f: FuncV, b: int, i: int, m: Map<u32, ValueId>, found: bool)
    requires
        valid(f),
        0 <= b < f.blocks.len(),
        0 <= i,
        replaces_phis(f, m),
        unites(f, m),
    ensures
        unites(f, swept_in(f, f.blocks[b].insts, i, m, found).0),
    decreases f.blocks[b].insts.len() - i,
{
    let insts = f.blocks[b].insts;
    if i < insts.len() {
        assert(has_inst(f, b, i));
        match source_of(f, insts[i], m) {
            Some(keep) => {
                redirecting_replaces_phis(f, m, b, i);
                redirecting_unites(f, m, b, i);
                sweep_in_unites(f, b, i + 1, redirected(m, insts[i].dest(), keep), true);
            },
            None => {
                sweep_in_unites(f, b, i + 1, m, found);
            },
        }
    }
}

proof fn sweep_unites(f: FuncV, b: int, m: Map<u32, ValueId>, found: bool)
    requires
        valid(f),
        0 <= b,
        replaces_phis(f, m),
        unites(f, m),
    ensures
        unites(f, swept_from(f, b, m, found).0),
    decreases f.blocks.len() - b,
{
    if b < f.blocks.len() {
        sweep_in_replaces(f, b, 0, m, found);
        sweep_in_unites(f, b, 0, m, found);
        let (n, more) = swept_in(f, f.blocks[b].insts, 0, m, found);
        sweep_unites(f, b + 1, n, more);
    }
}

proof fn settling_unites(f: FuncV, m: Map<u32, ValueId>, k: nat)
    requires
        valid(f),
        replaces_phis(f, m),
        unites(f, m),
    ensures
        unites(f, settled(f, m, k)),
    decreases k,
{
    if k > 0 {
        let (n, found) = swept_from(f, 0, m, false);
        sweep_replaces(f, 0, m, false);
        sweep_unites(f, 0, m, false);
        if found {
            settling_unites(f, n, (k - 1) as nat);
        }
    }
}

/// A phi two of whose arguments differ, once what gives way has given way, stays: `k` is its place
/// in the block behind forwarding.
pub proof fn disagreeing_phis_stay(f: FuncV, b: int, i: int, x: int, y: int) -> (k: int)
    requires
        f.fault() is None,
        f.indexed(),
        has_inst(f, b, i),
        f.blocks[b].insts[i] matches InstV::Phi { args, .. } && 0 <= x < args.len() && 0 <= y < args.len()
            && map_value(forwards(f), args[x].1) != map_value(forwards(f), args[y].1),
    ensures
        has_inst(forwarded(f).0, b, k),
        forwarded(f).0.blocks[b].insts[k] == f.blocks[b].insts[i].renamed(forwards(f)),
{
    forwarding_is_one_round(f);
    verification_finds_the_valid_functions(f);
    let none = Map::<u32, ValueId>::empty();
    let m = forwards(f);
    let inst = f.blocks[b].insts[i];
    assert(replaces_phis(f, none));
    settling_unites(f, none, (f.types.len() + 1) as nat);
    if m.dom().contains(inst.dest().0) {
        assert(phi_at(f, b, i, inst.dest().0));
        assert(map_value(m, arg_of(f, b, i, x)) == m[inst.dest().0]);
        assert(map_value(m, arg_of(f, b, i, y)) == m[inst.dest().0]);
    }
    if m == none {
        renaming_by_nothing(inst);
        i
    } else {
        let h = renamed(f, m);
        let g = removed(h, m.dom());
        let gone = m.dom();
        let pr = |z: InstV| !gone.contains(z.dest().0);
        without_is_sieved(h.blocks[b].insts, gone, 0);
        assert(h.blocks[b].insts[i] == inst.renamed(m));
        let j = place_is_found(h.blocks[b].insts, pr, 0, i);
        place_holds(h.blocks[b].insts, pr, 0, j);
        assert(g.blocks[b].insts[j] == inst.renamed(m));
        kept_place(g, b, j)
    }
}

} // verus!

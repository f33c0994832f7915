//! What a valid function is, without reference to how it is checked, and which rewrites keep it.
use super::func::{arg_blocks, first_loose, first_misphi, first_mistyped, first_non_heap, BlockV, FuncV};
use super::host_allow::edge;
use super::inst::{map_args, map_value, map_values, BlockId, InstV, TermV, ValueId};
use super::rewrite::{
    has_inst, kept_code_keeps_its_operands, pruned, removed, renamed, renaming_renames_term,
    renaming_renames_uses, stays, staying, without,
};
use super::ty::MirTy;
use vstd::prelude::*;

verus! {

/// Instruction `i` of block `b` defines `v`.
pub open spec fn defined_at(f: FuncV, b: int, i: int, v: ValueId) -> bool {
    has_inst(f, b, i) && f.blocks[b].insts[i].dests().contains(v)
}

/// Whether position `p, j` comes before position `b, i` in code order.
pub open spec fn before(p: int, j: int, b: int, i: int) -> bool {
    p < b || (p == b && j < i)
}

/// `v` is a parameter or defined before position `b, i`.
pub open spec fn defined_before(f: FuncV, b: int, i: int, v: ValueId) -> bool {
    f.params.contains(v) || exists|p: int, j: int| #[trigger] defined_at(f, p, j, v) && before(p, j, b, i)
}

/// The instruction defines values of the function that nothing before it defines, each once.
pub open spec fn defines_fresh(f: FuncV, b: int, i: int) -> bool {
    let ds = f.blocks[b].insts[i].dests();
    &&& forall|k: int|
        0 <= k < ds.len() ==> (#[trigger] ds[k]).0 < f.types.len() && !defined_before(f, b, i, ds[k])
    &&& forall|k: int, l: int| 0 <= k < l < ds.len() ==> #[trigger] ds[k] != #[trigger] ds[l]
}

/// The instruction reads only what is defined before it, or by it.
pub open spec fn reads_defined(f: FuncV, b: int, i: int) -> bool {
    let inst = f.blocks[b].insts[i];
    forall|k: int|
        0 <= k < inst.uses().len() ==> (#[trigger] inst.uses()[k]).0 < f.types.len() && (defined_before(
            f,
            b,
            i,
            inst.uses()[k],
        ) || inst.dests().contains(inst.uses()[k]))
}

/// An instruction in order: phis come first, definitions are fresh and come before uses, and the
/// types fit. What a phi reads may be defined behind it.
pub open spec fn inst_valid(f: FuncV, b: int, i: int) -> bool {
    let inst = f.blocks[b].insts[i];
    &&& inst.phi() ==> forall|k: int| 0 <= k < i ==> (#[trigger] f.blocks[b].insts[k]).phi()
    &&& defines_fresh(f, b, i)
    &&& f.inst_fault(inst, f.preds(b as nat)) is None
    &&& !inst.phi() ==> reads_defined(f, b, i)
}

/// A block in order: its number is its place, and it ends in a terminator that fits.
pub open spec fn block_valid(f: FuncV, b: int) -> bool {
    let block = f.blocks[b];
    &&& block.id.0 == b
    &&& block.term is Some
    &&& f.term_fault(block.term->0) is None
    &&& forall|k: int|
        0 <= k < block.term->0.targets().len() ==> (#[trigger] block.term->0.targets()[k]).0
            < f.blocks.len()
    &&& forall|i: int| 0 <= i < block.insts.len() ==> inst_valid(f, b, i)
}

/// A function in SSA form that respects the type rules.
pub open spec fn valid(f: FuncV) -> bool {
    &&& f.blocks.len() > 0
    &&& f.entry.0 < f.blocks.len()
    &&& forall|k: int|
        0 <= k < f.params.len() ==> (#[trigger] f.params[k]).0 < f.types.len() && f.ty(
            f.params[k],
        ).specialized()
    &&& forall|b: int| 0 <= b < f.blocks.len() ==> block_valid(f, b)
}

// Verification finds exactly the functions that are not valid.

/// `seen` marks what is defined before position `b, i`.
spec fn marks(f: FuncV, seen: Seq<bool>, b: int, i: int) -> bool {
    &&& seen.len() == f.types.len()
    &&& forall|v: ValueId|
        v.0 < f.types.len() ==> #[trigger] seen[v.0 as int] == defined_before(f, b, i, v)
}

proof fn define_is_fresh(f: FuncV, seen: Seq<bool>, ds: Seq<ValueId>, i: nat)
    requires
        seen.len() == f.types.len(),
        i <= ds.len(),
    ensures
        f.define(seen, ds, i) is Ok <==> (forall|k: int|
            i <= k < ds.len() ==> (#[trigger] ds[k]).0 < f.types.len() && !seen[ds[k].0 as int]) && (
        forall|k: int, l: int| i <= k < l < ds.len() ==> #[trigger] ds[k] != #[trigger] ds[l]),
        f.define(seen, ds, i) matches Ok(s) ==> s.len() == seen.len() && forall|v: ValueId|
            v.0 < f.types.len() ==> #[trigger] s[v.0 as int] == (seen[v.0 as int] || exists|k: int|
                i <= k < ds.len() && #[trigger] ds[k] == v),
    decreases ds.len() - i,
{
    if i < ds.len() {
        let d = ds[i as int];
        if d.0 < f.types.len() && !seen[d.0 as int] {
            let s1 = seen.update(d.0 as int, true);
            define_is_fresh(f, s1, ds, i + 1);
            if f.define(seen, ds, i) is Ok {
                assert forall|k: int| i <= k < ds.len() implies (#[trigger] ds[k]).0 < f.types.len()
                    && !seen[ds[k].0 as int] by {
                    if k > i {
                        assert(!s1[ds[k].0 as int]);
                    }
                }
                assert forall|k: int, l: int| i <= k < l < ds.len() implies #[trigger] ds[k]
                    != #[trigger] ds[l] by {
                    if k == i {
                        assert(!s1[ds[l].0 as int]);
                    }
                }
                let s = f.define(seen, ds, i)->Ok_0;
                assert forall|v: ValueId| v.0 < f.types.len() implies #[trigger] s[v.0 as int] == (
                seen[v.0 as int] || exists|k: int| i <= k < ds.len() && #[trigger] ds[k] == v) by {
                    assert(s[v.0 as int] == (s1[v.0 as int] || exists|k: int|
                        i + 1 <= k < ds.len() && #[trigger] ds[k] == v));
                    if v == d {
                        assert(ds[i as int] == v);
                    }
                    if exists|k: int| i <= k < ds.len() && #[trigger] ds[k] == v {
                        let k = choose|k: int| i <= k < ds.len() && #[trigger] ds[k] == v;
                        if k == i {
                            assert(v == d);
                        }
                    }
                }
            } else if (forall|k: int|
                i <= k < ds.len() ==> (#[trigger] ds[k]).0 < f.types.len() && !seen[ds[k].0 as int])
                && (forall|k: int, l: int|
                i <= k < l < ds.len() ==> #[trigger] ds[k] != #[trigger] ds[l]) {
                assert forall|k: int| i + 1 <= k < ds.len() implies (#[trigger] ds[k]).0 < f.types.len()
                    && !s1[ds[k].0 as int] by {
                    assert(ds[i as int] != ds[k]);
                }
            }
        } else {
            assert(ds[i as int] == d);
        }
    }
}

proof fn undefined_is_unseen(f: FuncV, seen: Seq<bool>, us: Seq<ValueId>, i: nat)
    ensures
        f.first_undefined(seen, us, i) is None <==> forall|k: int|
            i <= k < us.len() ==> (#[trigger] us[k]).0 < f.types.len() && seen[us[k].0 as int],
    decreases us.len() - i,
{
    if i < us.len() {
        undefined_is_unseen(f, seen, us, i + 1);
        if f.first_undefined(seen, us, i) is None {
            assert forall|k: int| i <= k < us.len() implies (#[trigger] us[k]).0 < f.types.len()
                && seen[us[k].0 as int] by {
                if k > i {
                    assert(i + 1 <= k);
                }
            }
        }
    }
}

proof fn missing_is_out_of_range(f: FuncV, ts: Seq<BlockId>, i: nat)
    ensures
        f.first_missing(ts, i) is None <==> forall|k: int|
            i <= k < ts.len() ==> (#[trigger] ts[k]).0 < f.blocks.len(),
    decreases ts.len() - i,
{
    if i < ts.len() {
        missing_is_out_of_range(f, ts, i + 1);
        if f.first_missing(ts, i) is None {
            assert forall|k: int| i <= k < ts.len() implies (#[trigger] ts[k]).0 < f.blocks.len() by {
                if k > i {
                    assert(i + 1 <= k);
                }
            }
        }
    }
}

/// What is defined before the next instruction is what is defined before this one or by it.
proof fn step_defines(f: FuncV, b: int, i: int, v: ValueId)
    requires
        has_inst(f, b, i),
    ensures
        defined_before(f, b, i + 1, v) == (defined_before(f, b, i, v)
            || f.blocks[b].insts[i].dests().contains(v)),
{
    if f.blocks[b].insts[i].dests().contains(v) {
        assert(defined_at(f, b, i, v));
    }
    if defined_before(f, b, i + 1, v) && !f.params.contains(v) {
        let (p, j) = choose|p: int, j: int|
            #[trigger] defined_at(f, p, j, v) && before(p, j, b, i + 1);
        if before(p, j, b, i) {
        } else {
            assert(p == b && j == i);
        }
    }
    if defined_before(f, b, i, v) && !f.params.contains(v) {
        let (p, j) = choose|p: int, j: int| #[trigger] defined_at(f, p, j, v) && before(p, j, b, i);
        assert(before(p, j, b, i + 1));
    }
}

/// What is defined before the next block is what is defined before the end of this one.
pub proof fn block_end_defines(f: FuncV, b: int, v: ValueId)
    requires
        0 <= b < f.blocks.len(),
    ensures
        defined_before(f, b + 1, 0, v) == defined_before(f, b, f.blocks[b].insts.len() as int, v),
{
    let n = f.blocks[b].insts.len() as int;
    if defined_before(f, b + 1, 0, v) && !f.params.contains(v) {
        let (p, j) = choose|p: int, j: int|
            #[trigger] defined_at(f, p, j, v) && before(p, j, b + 1, 0);
        assert(before(p, j, b, n));
    }
    if defined_before(f, b, n, v) && !f.params.contains(v) {
        let (p, j) = choose|p: int, j: int| #[trigger] defined_at(f, p, j, v) && before(p, j, b, n);
        assert(before(p, j, b + 1, 0));
    }
}

proof fn insts_check_is_valid(f: FuncV, b: nat, i: nat, non_phi: bool, seen: Seq<bool>)
    requires
        b < f.blocks.len(),
        i <= f.blocks[b as int].insts.len(),
        marks(f, seen, b as int, i as int),
        non_phi == exists|k: int| 0 <= k < i && !(#[trigger] f.blocks[b as int].insts[k]).phi(),
    ensures
        f.insts_check(b, i, non_phi, seen) is Ok <==> forall|k: int|
            i <= k < f.blocks[b as int].insts.len() ==> inst_valid(f, b as int, k),
        f.insts_check(b, i, non_phi, seen) matches Ok(s) ==> marks(
            f,
            s,
            b as int,
            f.blocks[b as int].insts.len() as int,
        ),
    decreases f.blocks[b as int].insts.len() - i,
{
    let block = f.blocks[b as int];
    if i < block.insts.len() {
        let inst = block.insts[i as int];
        let bi = b as int;
        let ii = i as int;
        let ds = inst.dests();
        assert(has_inst(f, bi, ii));
        define_is_fresh(f, seen, ds, 0);
        assert(f.define(seen, ds, 0) is Ok <==> defines_fresh(f, bi, ii)) by {
            if f.define(seen, ds, 0) is Ok {
                assert forall|k: int| 0 <= k < ds.len() implies (#[trigger] ds[k]).0 < f.types.len()
                    && !defined_before(f, bi, ii, ds[k]) by {
                    assert(seen[ds[k].0 as int] == defined_before(f, bi, ii, ds[k]));
                }
            }
            if defines_fresh(f, bi, ii) {
                assert forall|k: int| 0 <= k < ds.len() implies (#[trigger] ds[k]).0 < f.types.len()
                    && !seen[ds[k].0 as int] by {
                    assert(seen[ds[k].0 as int] == defined_before(f, bi, ii, ds[k]));
                }
            }
        }
        assert(inst.phi() && non_phi <==> inst.phi() && !(forall|k: int|
            0 <= k < i ==> (#[trigger] block.insts[k]).phi()));
        if !(inst.phi() && non_phi) && f.define(seen, ds, 0) is Ok {
            let s2 = f.define(seen, ds, 0)->Ok_0;
            assert(marks(f, s2, bi, ii + 1)) by {
                assert forall|v: ValueId| v.0 < f.types.len() implies #[trigger] s2[v.0 as int]
                    == defined_before(f, bi, ii + 1, v) by {
                    step_defines(f, bi, ii, v);
                    assert(seen[v.0 as int] == defined_before(f, bi, ii, v));
                    assert(s2[v.0 as int] == (seen[v.0 as int] || exists|k: int|
                        0 <= k < ds.len() && #[trigger] ds[k] == v));
                    if ds.contains(v) {
                        let k = ds.index_of(v);
                        assert(ds[k] == v);
                    }
                }
            }
            undefined_is_unseen(f, s2, inst.uses(), 0);
            assert(f.first_undefined(s2, inst.uses(), 0) is None <==> reads_defined(f, bi, ii)) by {
                let us = inst.uses();
                if f.first_undefined(s2, us, 0) is None {
                    assert forall|k: int| 0 <= k < us.len() implies (#[trigger] us[k]).0 < f.types.len()
                        && (defined_before(f, bi, ii, us[k]) || ds.contains(us[k])) by {
                        assert(s2[us[k].0 as int] == defined_before(f, bi, ii + 1, us[k]));
                        step_defines(f, bi, ii, us[k]);
                    }
                }
                if reads_defined(f, bi, ii) {
                    assert forall|k: int| 0 <= k < us.len() implies (#[trigger] us[k]).0 < f.types.len()
                        && s2[us[k].0 as int] by {
                        assert(s2[us[k].0 as int] == defined_before(f, bi, ii + 1, us[k]));
                        step_defines(f, bi, ii, us[k]);
                    }
                }
            }
            let next = non_phi || !inst.phi();
            assert(next == exists|k: int| 0 <= k < i + 1 && !(#[trigger] block.insts[k]).phi()) by {
                if !inst.phi() {
                    assert(!block.insts[ii].phi());
                }
                if non_phi {
                    let k = choose|k: int| 0 <= k < i && !(#[trigger] block.insts[k]).phi();
                    assert(!block.insts[k].phi());
                }
            }
            insts_check_is_valid(f, b, i + 1, next, s2);
        }
        let rest = forall|k: int| i + 1 <= k < block.insts.len() ==> inst_valid(f, bi, k);
        let all = forall|k: int| i <= k < block.insts.len() ==> inst_valid(f, bi, k);
        assert(all == (inst_valid(f, bi, ii) && rest)) by {
            if inst_valid(f, bi, ii) && rest {
                assert forall|k: int| i <= k < block.insts.len() implies inst_valid(f, bi, k) by {
                    if k > i {
                        assert(i + 1 <= k);
                    }
                }
            }
        }
    }
}

proof fn blocks_check_is_valid(f: FuncV, b: nat, seen: Seq<bool>)
    requires
        b <= f.blocks.len(),
        marks(f, seen, b as int, 0),
    ensures
        f.blocks_check(b, seen) is None <==> forall|k: int|
            b <= k < f.blocks.len() ==> block_valid(f, k),
    decreases f.blocks.len() - b,
{
    if b < f.blocks.len() {
        let block = f.blocks[b as int];
        insts_check_is_valid(f, b, 0, false, seen);
        if let Some(t) = block.term {
            missing_is_out_of_range(f, t.targets(), 0);
        }
        if f.insts_check(b, 0, false, seen) is Ok {
            let s = f.insts_check(b, 0, false, seen)->Ok_0;
            assert(marks(f, s, b as int + 1, 0)) by {
                assert forall|v: ValueId| v.0 < f.types.len() implies #[trigger] s[v.0 as int]
                    == defined_before(f, b as int + 1, 0, v) by {
                    block_end_defines(f, b as int, v);
                }
            }
            blocks_check_is_valid(f, b + 1, s);
        }
        let rest = forall|k: int| b + 1 <= k < f.blocks.len() ==> block_valid(f, k);
        let all = forall|k: int| b <= k < f.blocks.len() ==> block_valid(f, k);
        assert(all == (block_valid(f, b as int) && rest)) by {
            if block_valid(f, b as int) && rest {
                assert forall|k: int| b <= k < f.blocks.len() implies block_valid(f, k) by {
                    if k > b {
                        assert(b + 1 <= k);
                    }
                }
            }
        }
    }
}

proof fn params_check_is_valid(f: FuncV, seen: Seq<bool>, i: nat)
    requires
        seen.len() == f.types.len(),
        i <= f.params.len(),
    ensures
        f.params_check(seen, i) is Ok <==> forall|k: int|
            i <= k < f.params.len() ==> (#[trigger] f.params[k]).0 < f.types.len() && f.ty(
                f.params[k],
            ).specialized(),
        f.params_check(seen, i) matches Ok(s) ==> s.len() == seen.len() && forall|v: ValueId|
            v.0 < f.types.len() ==> #[trigger] s[v.0 as int] == (seen[v.0 as int] || exists|k: int|
                i <= k < f.params.len() && #[trigger] f.params[k] == v),
    decreases f.params.len() - i,
{
    if i < f.params.len() {
        let p = f.params[i as int];
        if p.0 < f.types.len() && f.ty(p).specialized() {
            let s1 = seen.update(p.0 as int, true);
            params_check_is_valid(f, s1, i + 1);
            if f.params_check(seen, i) is Ok {
                let s = f.params_check(seen, i)->Ok_0;
                assert forall|k: int| i <= k < f.params.len() implies (#[trigger] f.params[k]).0
                    < f.types.len() && f.ty(f.params[k]).specialized() by {
                    if k > i {
                        assert(i + 1 <= k);
                    }
                }
                assert forall|v: ValueId| v.0 < f.types.len() implies #[trigger] s[v.0 as int] == (
                seen[v.0 as int] || exists|k: int|
                    i <= k < f.params.len() && #[trigger] f.params[k] == v) by {
                    assert(s[v.0 as int] == (s1[v.0 as int] || exists|k: int|
                        i + 1 <= k < f.params.len() && #[trigger] f.params[k] == v));
                    if v == p {
                        assert(f.params[i as int] == v);
                    }
                    if exists|k: int| i <= k < f.params.len() && #[trigger] f.params[k] == v {
                        let k = choose|k: int| i <= k < f.params.len() && #[trigger] f.params[k] == v;
                        if k == i {
                            assert(v == p);
                        }
                    }
                }
            }
        } else {
            assert(f.params[i as int] == p);
        }
    }
}

/// Verification succeeds on the valid functions and on no others.
pub proof fn verification_finds_the_valid_functions(f: FuncV)
    ensures
        f.fault() is None <==> valid(f),
{
    let none = Seq::new(f.types.len(), |i: int| false);
    params_check_is_valid(f, none, 0);
    if f.params_check(none, 0) is Ok {
        let s = f.params_check(none, 0)->Ok_0;
        assert(marks(f, s, 0, 0)) by {
            assert forall|v: ValueId| v.0 < f.types.len() implies #[trigger] s[v.0 as int]
                == defined_before(f, 0, 0, v) by {
                if f.params.contains(v) {
                    let k = f.params.index_of(v);
                    assert(f.params[k] == v);
                }
                if defined_before(f, 0, 0, v) && !f.params.contains(v) {
                    let (p, j) = choose|p: int, j: int|
                        #[trigger] defined_at(f, p, j, v) && before(p, j, 0, 0);
                    assert(false);
                }
            }
        }
        blocks_check_is_valid(f, 0, s);
    }
}

// Rewrites that keep functions valid.

/// `m` renames values to values of their type.
pub open spec fn same_types(f: FuncV, m: Map<u32, ValueId>) -> bool {
    forall|k: u32| #[trigger] m.dom().contains(k) ==> f.ty(m[k]) == f.ty(ValueId(k))
}

/// What the type rules look at besides the code.
pub open spec fn same_frame(f: FuncV, g: FuncV) -> bool {
    &&& g.types == f.types
    &&& g.params == f.params
    &&& g.entry == f.entry
    &&& g.ret_ty == f.ret_ty
    &&& g.ret_hi_ty == f.ret_hi_ty
    &&& g.ret_layout == f.ret_layout
    &&& g.hosts == f.hosts
}

proof fn renamed_value_type(f: FuncV, m: Map<u32, ValueId>, v: ValueId)
    requires
        same_types(f, m),
    ensures
        f.ty(map_value(m, v)) == f.ty(v),
{
    assert(ValueId(v.0) == v);
}

proof fn renamed_lists(f: FuncV, g: FuncV, m: Map<u32, ValueId>, s: Seq<ValueId>, i: nat)
    requires
        same_frame(f, g),
        same_types(f, m),
    ensures
        first_loose(f, s, i) is None ==> first_loose(g, map_values(m, s), i) is None,
        first_non_heap(f, s, i) is None ==> first_non_heap(g, map_values(m, s), i) is None,
    decreases s.len() - i,
{
    if i < s.len() {
        renamed_value_type(f, m, s[i as int]);
        assert(map_values(m, s)[i as int] == map_value(m, s[i as int]));
        renamed_lists(f, g, m, s, i + 1);
    }
}

proof fn renamed_args(
    f: FuncV,
    g: FuncV,
    m: Map<u32, ValueId>,
    s: Seq<ValueId>,
    tys: Seq<super::ty::MirTy>,
    i: nat,
)
    requires
        same_frame(f, g),
        same_types(f, m),
    ensures
        first_mistyped(f, s, tys, i) is None ==> first_mistyped(g, map_values(m, s), tys, i) is None,
    decreases s.len() - i,
{
    if i < s.len() {
        renamed_value_type(f, m, s[i as int]);
        assert(map_values(m, s)[i as int] == map_value(m, s[i as int]));
        renamed_args(f, g, m, s, tys, i + 1);
    }
}

proof fn renamed_phi_args(
    f: FuncV,
    g: FuncV,
    m: Map<u32, ValueId>,
    s: Seq<(BlockId, ValueId)>,
    ty: super::ty::MirTy,
    i: nat,
)
    requires
        same_frame(f, g),
        same_types(f, m),
    ensures
        first_misphi(f, s, ty, i) is None ==> first_misphi(g, map_args(m, s), ty, i) is None,
    decreases s.len() - i,
{
    if i < s.len() {
        renamed_value_type(f, m, s[i as int].1);
        assert(map_args(m, s)[i as int] == (s[i as int].0, map_value(m, s[i as int].1)));
        renamed_phi_args(f, g, m, s, ty, i + 1);
    }
}

/// An instruction that respects the type rules does so under values of the same types.
pub proof fn renaming_keeps_types(
    f: FuncV,
    g: FuncV,
    m: Map<u32, ValueId>,
    inst: InstV,
    preds: Seq<BlockId>,
)
    requires
        same_frame(f, g),
        same_types(f, m),
        f.inst_fault(inst, preds) is None,
    ensures
        g.inst_fault(inst.renamed(m), preds) is None,
{
    assert forall|v: ValueId| #[trigger] g.ty(v) == f.ty(v) by {}
    assert forall|v: ValueId| f.ty(#[trigger] map_value(m, v)) == f.ty(v) by {
        renamed_value_type(f, m, v);
    }
    match inst {
        InstV::Phi { dest, ty, args } => {
            assert(arg_blocks(map_args(m, args)) =~= arg_blocks(args));
            renamed_phi_args(f, g, m, args, ty, 0);
        },
        InstV::HostInvoke { dest, native_id, args, .. } => {
            if let Some(spec) = edge(f.hosts, native_id) {
                renamed_args(f, g, m, args, spec.args, 0);
            }
        },
        InstV::Call { args, .. } => renamed_lists(f, g, m, args, 0),
        InstV::Alloc { elems, .. } => renamed_lists(f, g, m, elems, 0),
        InstV::GcBarrier { roots, .. } => renamed_lists(f, g, m, roots, 0),
        InstV::Format { args, .. } => renamed_lists(f, g, m, args, 0),
        _ => {},
    }
}

proof fn renaming_keeps_term_types(f: FuncV, g: FuncV, m: Map<u32, ValueId>, t: TermV)
    requires
        same_frame(f, g),
        same_types(f, m),
        f.term_fault(t) is None,
    ensures
        g.term_fault(t.renamed(m)) is None,
{
    assert forall|v: ValueId| #[trigger] g.ty(v) == f.ty(v) by {}
    assert forall|v: ValueId| f.ty(#[trigger] map_value(m, v)) == f.ty(v) by {
        renamed_value_type(f, m, v);
    }
    if let TermV::JumpIfMatch { payloads, .. } = t {
        renamed_lists(f, g, m, payloads, 0);
    }
}

/// The terminator of a block, renamed.
pub open spec fn term_renamed(t: Option<TermV>, m: Map<u32, ValueId>) -> Option<TermV> {
    match t {
        Some(t) => Some(t.renamed(m)),
        None => None,
    }
}

/// `g` has the blocks of `f`, each with some of its instructions in their order, renamed by `m`.
/// `src` is where an instruction of `g` comes from.
pub open spec fn thinned(f: FuncV, g: FuncV, m: Map<u32, ValueId>, src: spec_fn(int, int) -> int) -> bool {
    &&& same_frame(f, g)
    &&& g.blocks.len() == f.blocks.len()
    &&& forall|b: int|
        0 <= b < f.blocks.len() ==> (#[trigger] g.blocks[b]).id == f.blocks[b].id && g.blocks[b].term
            == term_renamed(f.blocks[b].term, m)
    &&& forall|b: int, k: int| #[trigger]
        has_inst(g, b, k) ==> has_inst(f, b, src(b, k)) && g.blocks[b].insts[k]
            == f.blocks[b].insts[src(b, k)].renamed(m)
    &&& forall|b: int, k: int, l: int|
        #![trigger has_inst(g, b, k), has_inst(g, b, l)]
        has_inst(g, b, k) && has_inst(g, b, l) && k < l ==> src(b, k) < src(b, l)
}

proof fn thinning_keeps_edges(
    f: FuncV,
    g: FuncV,
    m: Map<u32, ValueId>,
    src: spec_fn(int, int) -> int,
    k: nat,
    b: nat,
)
    requires
        thinned(f, g, m, src),
        k <= f.blocks.len(),
    ensures
        super::func::preds_upto(g.blocks, k, b) == super::func::preds_upto(f.blocks, k, b),
    decreases k,
{
    if k > 0 {
        thinning_keeps_edges(f, g, m, src, (k - 1) as nat, b);
        let x = f.blocks[k - 1];
        let y = g.blocks[k - 1];
        assert(y.id == x.id);
        if let Some(t) = x.term {
            renaming_renames_term(t, m);
        }
        assert(super::func::edges_to(y, b) == super::func::edges_to(x, b));
    }
}

/// A value that `g` defines before a position is one that `f` defines before where that comes
/// from.
proof fn thinning_defines_no_earlier(
    f: FuncV,
    g: FuncV,
    m: Map<u32, ValueId>,
    src: spec_fn(int, int) -> int,
    b: int,
    k: int,
    v: ValueId,
)
    requires
        thinned(f, g, m, src),
        has_inst(g, b, k),
        defined_before(g, b, k, v),
    ensures
        defined_before(f, b, src(b, k), v),
{
    if !g.params.contains(v) {
        let (p, q) = choose|p: int, q: int| #[trigger] defined_at(g, p, q, v) && before(p, q, b, k);
        assert(has_inst(g, p, q));
        renaming_renames_uses(f.blocks[p].insts[src(p, q)], m);
        assert(defined_at(f, p, src(p, q), v));
        assert(before(p, src(p, q), b, src(b, k)));
    }
}

/// Leaving out instructions and renaming values within their types keeps a function valid, where
/// what is left still reads only what is defined before it.
pub proof fn thinning_keeps_validity(
    f: FuncV,
    g: FuncV,
    m: Map<u32, ValueId>,
    src: spec_fn(int, int) -> int,
)
    requires
        valid(f),
        same_types(f, m),
        thinned(f, g, m, src),
        forall|b: int, k: int| #[trigger]
            has_inst(g, b, k) && !g.blocks[b].insts[k].phi() ==> reads_defined(g, b, k),
    ensures
        valid(g),
{
    assert forall|b: int| 0 <= b < g.blocks.len() implies block_valid(g, b) by {
        assert(block_valid(f, b));
        let fb = f.blocks[b];
        let gb = g.blocks[b];
        assert(gb.id == fb.id);
        renaming_keeps_term_types(f, g, m, fb.term->0);
        renaming_renames_term(fb.term->0, m);
        thinning_keeps_edges(f, g, m, src, f.blocks.len(), b as nat);
        assert forall|k: int| 0 <= k < gb.insts.len() implies inst_valid(g, b, k) by {
            assert(has_inst(g, b, k));
            let i = src(b, k);
            assert(inst_valid(f, b, i));
            let inst = fb.insts[i];
            renaming_renames_uses(inst, m);
            renaming_keeps_types(f, g, m, inst, f.preds(b as nat));
            if gb.insts[k].phi() {
                assert forall|l: int| 0 <= l < k implies (#[trigger] gb.insts[l]).phi() by {
                    assert(has_inst(g, b, l));
                    assert(src(b, l) < i);
                    assert(fb.insts[src(b, l)].phi());
                    renaming_renames_uses(fb.insts[src(b, l)], m);
                }
            }
            let ds = inst.dests();
            assert(gb.insts[k].dests() == ds);
            assert forall|x: int| 0 <= x < ds.len() implies (#[trigger] ds[x]).0 < g.types.len()
                && !defined_before(g, b, k, ds[x]) by {
                if defined_before(g, b, k, ds[x]) {
                    thinning_defines_no_earlier(f, g, m, src, b, k, ds[x]);
                }
            }
            assert(defines_fresh(g, b, k));
        }
    }
}

// The instructions that satisfy a predicate.

/// The instructions from `i` on that satisfy `p`.
pub open spec fn sieved(insts: Seq<InstV>, p: spec_fn(InstV) -> bool, i: int) -> Seq<InstV>
    decreases insts.len() - i,
{
    if i >= insts.len() {
        Seq::empty()
    } else {
        (if p(insts[i]) {
            seq![insts[i]]
        } else {
            Seq::empty()
        }) + sieved(insts, p, i + 1)
    }
}

/// Where the instruction that comes `k`-th of those from `i` on that satisfy `p` stands.
pub open spec fn place(insts: Seq<InstV>, p: spec_fn(InstV) -> bool, i: int, k: int) -> int
    decreases insts.len() - i,
{
    if i >= insts.len() {
        i
    } else if !p(insts[i]) {
        place(insts, p, i + 1, k)
    } else if k <= 0 {
        i
    } else {
        place(insts, p, i + 1, k - 1)
    }
}

/// The instruction at a place is the one that comes there.
pub proof fn place_holds(insts: Seq<InstV>, p: spec_fn(InstV) -> bool, i: int, k: int)
    requires
        0 <= i,
        0 <= k < sieved(insts, p, i).len(),
    ensures
        i <= place(insts, p, i, k) < insts.len(),
        sieved(insts, p, i)[k] == insts[place(insts, p, i, k)],
        p(insts[place(insts, p, i, k)]),
    decreases insts.len() - i,
{
    if i < insts.len() {
        let rest = sieved(insts, p, i + 1);
        if !p(insts[i]) {
            assert(sieved(insts, p, i) =~= rest);
            place_holds(insts, p, i + 1, k);
        } else if k > 0 {
            assert(sieved(insts, p, i)[k] == rest[k - 1]);
            place_holds(insts, p, i + 1, k - 1);
        }
    }
}

/// Places rise.
pub proof fn places_rise(insts: Seq<InstV>, p: spec_fn(InstV) -> bool, i: int, k: int, l: int)
    requires
        0 <= i,
        0 <= k < l < sieved(insts, p, i).len(),
    ensures
        place(insts, p, i, k) < place(insts, p, i, l),
    decreases insts.len() - i,
{
    if i < insts.len() {
        let rest = sieved(insts, p, i + 1);
        if !p(insts[i]) {
            assert(sieved(insts, p, i) =~= rest);
            places_rise(insts, p, i + 1, k, l);
        } else if k > 0 {
            assert(sieved(insts, p, i).len() == rest.len() + 1);
            places_rise(insts, p, i + 1, k - 1, l - 1);
        } else {
            assert(sieved(insts, p, i).len() == rest.len() + 1);
            place_holds(insts, p, i + 1, l - 1);
        }
    }
}

/// What satisfies `p` has a place.
pub proof fn place_is_found(insts: Seq<InstV>, p: spec_fn(InstV) -> bool, i: int, x: int) -> (k: int)
    requires
        0 <= i <= x < insts.len(),
        p(insts[x]),
    ensures
        0 <= k < sieved(insts, p, i).len(),
        place(insts, p, i, k) == x,
    decreases insts.len() - i,
{
    let rest = sieved(insts, p, i + 1);
    if i == x {
        assert(sieved(insts, p, i).len() == rest.len() + 1);
        0
    } else {
        let k = place_is_found(insts, p, i + 1, x);
        if p(insts[i]) {
            assert(sieved(insts, p, i).len() == rest.len() + 1);
            k + 1
        } else {
            assert(sieved(insts, p, i) =~= rest);
            k
        }
    }
}

/// Leaving out results is keeping the others.
pub proof fn without_is_sieved(insts: Seq<InstV>, gone: Set<u32>, i: int)
    ensures
        without(insts, gone, i) == sieved(insts, |x: InstV| !gone.contains(x.dest().0), i),
    decreases insts.len() - i,
{
    if i < insts.len() {
        without_is_sieved(insts, gone, i + 1);
    }
}

proof fn staying_is_sieved(f: FuncV, insts: Seq<InstV>, i: int)
    ensures
        staying(f, insts, i) == sieved(insts, |x: InstV| stays(f, x), i),
    decreases insts.len() - i,
{
    if i < insts.len() {
        staying_is_sieved(f, insts, i + 1);
    }
}

proof fn thinning_keeps_order(
    f: FuncV,
    g: FuncV,
    m: Map<u32, ValueId>,
    src: spec_fn(int, int) -> int,
    p: int,
    q: int,
    b: int,
    k: int,
)
    requires
        thinned(f, g, m, src),
        has_inst(g, p, q),
        has_inst(g, b, k),
        before(p, src(p, q), b, src(b, k)),
    ensures
        before(p, q, b, k),
{
    if p == b && q > k {
        assert(src(b, k) < src(b, q));
    }
}

/// Renaming by an empty map changes nothing.
pub proof fn renaming_by_nothing(inst: InstV)
    ensures
        inst.renamed(Map::empty()) == inst,
{
    let m = Map::<u32, ValueId>::empty();
    match inst {
        InstV::Phi { args, .. } => assert(map_args(m, args) =~= args),
        InstV::HostInvoke { args, .. } => assert(map_values(m, args) =~= args),
        InstV::Call { args, .. } => assert(map_values(m, args) =~= args),
        InstV::Alloc { elems, .. } => assert(map_values(m, elems) =~= elems),
        InstV::GcBarrier { roots, .. } => assert(map_values(m, roots) =~= roots),
        InstV::Format { args, .. } => assert(map_values(m, args) =~= args),
        _ => {},
    }
}

proof fn renaming_term_by_nothing(t: TermV)
    ensures
        t.renamed(Map::empty()) == t,
{
    let m = Map::<u32, ValueId>::empty();
    if let TermV::JumpIfMatch { payloads, .. } = t {
        assert(map_values(m, payloads) =~= payloads);
    }
}

/// Where the instruction at `p, i` that stays stands in the function without unneeded code.
pub proof fn kept_place(f: FuncV, p: int, i: int) -> (k: int)
    requires
        has_inst(f, p, i),
        stays(f, f.blocks[p].insts[i]),
    ensures
        has_inst(pruned(f), p, k),
        pruned(f).blocks[p].insts[k] == f.blocks[p].insts[i],
{
    let s = |x: InstV| stays(f, x);
    staying_is_sieved(f, f.blocks[p].insts, 0);
    let k = place_is_found(f.blocks[p].insts, s, 0, i);
    place_holds(f.blocks[p].insts, s, 0, k);
    k
}

/// Where the instruction at `p, k` of the function without unneeded code stood.
pub proof fn pruned_place(f: FuncV, p: int, k: int) -> (i: int)
    requires
        has_inst(pruned(f), p, k),
    ensures
        has_inst(f, p, i),
        pruned(f).blocks[p].insts[k] == f.blocks[p].insts[i],
        stays(f, f.blocks[p].insts[i]),
{
    let s = |x: InstV| stays(f, x);
    staying_is_sieved(f, f.blocks[p].insts, 0);
    place_holds(f.blocks[p].insts, s, 0, k);
    place(f.blocks[p].insts, s, 0, k)
}

/// Leaving out the code that nothing needs keeps a function valid.
pub proof fn pruning_keeps_validity(f: FuncV)
    requires
        valid(f),
    ensures
        valid(pruned(f)),
{
    let g = pruned(f);
    let p = |x: InstV| stays(f, x);
    assert forall|b: int, i: int, c: int, j: int|
        #![trigger has_inst(f, b, i), has_inst(f, c, j)]
        has_inst(f, b, i) && has_inst(f, c, j) && p(f.blocks[b].insts[i]) && !f.blocks[b].insts[i].phi()
            && (exists|v: ValueId| #[trigger]
            f.blocks[b].insts[i].uses().contains(v) && f.blocks[c].insts[j].dests().contains(v)) implies p(
        f.blocks[c].insts[j],
    ) by {
        let user = f.blocks[b].insts[i];
        let maker = f.blocks[c].insts[j];
        let v = choose|v: ValueId| #[trigger] user.uses().contains(v) && maker.dests().contains(v);
        if v == maker.dest() {
            kept_code_keeps_its_operands(f, user, c, j);
        } else {
            assert(maker.effect_barrier(f.hosts));
        }
    }
    assert forall|b: int| 0 <= b < f.blocks.len() implies (#[trigger] g.blocks[b]) == (BlockV {
        insts: sieved(f.blocks[b].insts, p, 0),
        ..f.blocks[b]
    }) by {
        staying_is_sieved(f, f.blocks[b].insts, 0);
    }
    sieving_keeps_validity(f, g, p);
}

/// `m` renames results, each to a value that is not renamed and is defined before it. What it
/// renames is the one result of its instruction.
pub open spec fn in_order(f: FuncV, m: Map<u32, ValueId>) -> bool {
    &&& forall|k: u32| #[trigger]
        m.dom().contains(k) ==> !f.params.contains(ValueId(k)) && !m.dom().contains(m[k].0)
    &&& forall|k: u32, b: int, i: int|
        #![trigger m.dom().contains(k), has_inst(f, b, i)]
        m.dom().contains(k) && defined_at(f, b, i, ValueId(k)) ==> f.blocks[b].insts[i].dests().len()
            == 1 && defined_before(f, b, i, m[k])
}

/// What is defined before a position is defined before every later one.
pub proof fn earlier_is_before(f: FuncV, c: int, j: int, b: int, i: int, v: ValueId)
    requires
        defined_before(f, c, j, v),
        before(c, j, b, i),
    ensures
        defined_before(f, b, i, v),
{
    if !f.params.contains(v) {
        let (p, q) = choose|p: int, q: int| #[trigger] defined_at(f, p, q, v) && before(p, q, c, j);
        assert(before(p, q, b, i));
    }
}

/// A value that is defined before a position is in range.
pub proof fn defined_is_in_range(f: FuncV, b: int, i: int, v: ValueId)
    requires
        valid(f),
        defined_before(f, b, i, v),
    ensures
        v.0 < f.types.len(),
{
    if f.params.contains(v) {
        assert(f.params[f.params.index_of(v)].0 < f.types.len());
    } else {
        let (p, j) = choose|p: int, j: int| #[trigger] defined_at(f, p, j, v) && before(p, j, b, i);
        assert(block_valid(f, p));
        assert(inst_valid(f, p, j));
        let ds = f.blocks[p].insts[j].dests();
        assert(ds[ds.index_of(v)].0 < f.types.len());
    }
}

/// Putting values of the same type that are defined earlier in the place of results, and leaving
/// out the instructions of those, keeps a function valid.
pub proof fn substituting_keeps_validity(f: FuncV, m: Map<u32, ValueId>)
    requires
        valid(f),
        same_types(f, m),
        in_order(f, m),
    ensures
        valid(removed(renamed(f, m), m.dom())),
{
    let h = renamed(f, m);
    let gone = m.dom();
    let g = removed(h, gone);
    let p = |x: InstV| !gone.contains(x.dest().0);
    let src = |b: int, k: int| place(h.blocks[b].insts, p, 0, k);
    assert forall|b: int| 0 <= b < f.blocks.len() implies (#[trigger] g.blocks[b]).insts == sieved(
        h.blocks[b].insts,
        p,
        0,
    ) && g.blocks[b].term == term_renamed(f.blocks[b].term, m) by {
        without_is_sieved(h.blocks[b].insts, gone, 0);
    }
    assert forall|b: int, k: int| #[trigger] has_inst(g, b, k) implies has_inst(f, b, src(b, k))
        && g.blocks[b].insts[k] == f.blocks[b].insts[src(b, k)].renamed(m) && !gone.contains(
        f.blocks[b].insts[src(b, k)].dest().0,
    ) by {
        assert(g.blocks[b].insts == sieved(h.blocks[b].insts, p, 0));
        place_holds(h.blocks[b].insts, p, 0, k);
        renaming_renames_uses(f.blocks[b].insts[src(b, k)], m);
    }
    assert forall|b: int, k: int, l: int|
        #![trigger has_inst(g, b, k), has_inst(g, b, l)]
        has_inst(g, b, k) && has_inst(g, b, l) && k < l implies src(b, k) < src(b, l) by {
        assert(g.blocks[b].insts == sieved(h.blocks[b].insts, p, 0));
        places_rise(h.blocks[b].insts, p, 0, k, l);
    }
    assert(thinned(f, g, m, src));
    assert forall|b: int, k: int| #[trigger]
        has_inst(g, b, k) && !g.blocks[b].insts[k].phi() implies reads_defined(g, b, k) by {
        let i = src(b, k);
        let inst = f.blocks[b].insts[i];
        renaming_renames_uses(inst, m);
        assert(block_valid(f, b));
        assert(inst_valid(f, b, i));
        assert(has_inst(f, b, i));
        let us = inst.uses();
        let ws = g.blocks[b].insts[k].uses();
        assert forall|x: int| 0 <= x < ws.len() implies (#[trigger] ws[x]).0 < g.types.len() && (
        defined_before(g, b, k, ws[x]) || inst.dests().contains(ws[x])) by {
            let u = us[x];
            let w = ws[x];
            assert(w == map_value(m, u));
            assert(ValueId(u.0) == u);
            if gone.contains(u.0) {
                if inst.dests().contains(u) {
                    assert(defined_at(f, b, i, u));
                    assert(inst.dests()[0] == inst.dest());
                    assert(false);
                }
                let (c, j) = choose|c: int, j: int|
                    #[trigger] defined_at(f, c, j, u) && before(c, j, b, i);
                assert(has_inst(f, c, j));
                assert(defined_before(f, c, j, w));
                earlier_is_before(f, c, j, b, i, w);
                defined_is_in_range(f, b, i, w);
            }
            if !inst.dests().contains(w) && !f.params.contains(w) {
                let (c, j) = choose|c: int, j: int|
                    #[trigger] defined_at(f, c, j, w) && before(c, j, b, i);
                let maker = f.blocks[c].insts[j];
                let d = maker.dest();
                assert(maker.dests()[0] == d);
                assert(ValueId(d.0) == d);
                if gone.contains(d.0) {
                    assert(maker.dests().contains(d));
                    assert(defined_at(f, c, j, d));
                    assert(has_inst(f, c, j));
                    assert(maker.dests().len() == 1);
                    assert(w == d);
                    assert(false);
                }
                renaming_renames_uses(maker, m);
                assert(h.blocks[c].insts[j] == maker.renamed(m));
                assert(g.blocks[c].insts == sieved(h.blocks[c].insts, p, 0));
                let q = place_is_found(h.blocks[c].insts, p, 0, j);
                assert(has_inst(g, c, q));
                assert(defined_at(g, c, q, w));
                thinning_keeps_order(f, g, m, src, c, q, b, k);
            }
        }
        assert(g.blocks[b].insts[k].dests() == inst.dests());
    }
    thinning_keeps_validity(f, g, m, src);
}

/// In a valid function a value is defined at one place, and a parameter nowhere.
pub proof fn values_are_defined_once(f: FuncV, b: int, i: int, p: int, j: int, v: ValueId)
    requires
        valid(f),
        defined_at(f, b, i, v),
        defined_at(f, p, j, v),
    ensures
        b == p && i == j,
        !f.params.contains(v),
        v.0 < f.types.len(),
{
    assert(block_valid(f, b));
    assert(block_valid(f, p));
    assert(inst_valid(f, b, i));
    assert(inst_valid(f, p, j));
    let ds = f.blocks[b].insts[i].dests();
    let es = f.blocks[p].insts[j].dests();
    assert(ds[ds.index_of(v)] == v);
    assert(es[es.index_of(v)] == v);
    assert(!defined_before(f, b, i, v));
    assert(!defined_before(f, p, j, v));
    if before(p, j, b, i) {
        assert(defined_before(f, b, i, v));
    }
    if before(b, i, p, j) {
        assert(defined_before(f, p, j, v));
    }
}

/// `m` renames results, each to a value that is defined before it.
pub open spec fn names_earlier(f: FuncV, m: Map<u32, ValueId>) -> bool {
    &&& forall|k: u32| #[trigger] m.dom().contains(k) ==> !f.params.contains(ValueId(k))
    &&& forall|k: u32, b: int, i: int|
        #![trigger m.dom().contains(k), has_inst(f, b, i)]
        m.dom().contains(k) && defined_at(f, b, i, ValueId(k)) ==> defined_before(f, b, i, m[k])
}

/// Reading values of the same type that are defined earlier in the place of results keeps a
/// function valid.
pub proof fn renaming_keeps_validity(f: FuncV, m: Map<u32, ValueId>)
    requires
        valid(f),
        same_types(f, m),
        names_earlier(f, m),
    ensures
        valid(renamed(f, m)),
{
    let g = renamed(f, m);
    let src = |b: int, k: int| k;
    assert forall|b: int, k: int| #[trigger] has_inst(g, b, k) implies has_inst(f, b, src(b, k))
        && g.blocks[b].insts[k] == f.blocks[b].insts[src(b, k)].renamed(m) by {}
    assert(thinned(f, g, m, src));
    assert forall|b: int, k: int| #[trigger]
        has_inst(g, b, k) && !g.blocks[b].insts[k].phi() implies reads_defined(g, b, k) by {
        let inst = f.blocks[b].insts[k];
        renaming_renames_uses(inst, m);
        assert(block_valid(f, b));
        assert(inst_valid(f, b, k));
        let us = inst.uses();
        let ws = g.blocks[b].insts[k].uses();
        assert forall|x: int| 0 <= x < ws.len() implies (#[trigger] ws[x]).0 < g.types.len() && (
        defined_before(g, b, k, ws[x]) || inst.dests().contains(ws[x])) by {
            let u = us[x];
            let w = ws[x];
            assert(w == map_value(m, u));
            assert(ValueId(u.0) == u);
            if m.dom().contains(u.0) {
                if inst.dests().contains(u) {
                    assert(has_inst(f, b, k));
                    assert(defined_at(f, b, k, u));
                } else {
                    let (c, j) = choose|c: int, j: int|
                        #[trigger] defined_at(f, c, j, u) && before(c, j, b, k);
                    assert(has_inst(f, c, j));
                    earlier_is_before(f, c, j, b, k, w);
                }
                defined_is_in_range(f, b, k, w);
            }
            if !inst.dests().contains(w) && !f.params.contains(w) {
                let (c, j) = choose|c: int, j: int|
                    #[trigger] defined_at(f, c, j, w) && before(c, j, b, k);
                renaming_renames_uses(f.blocks[c].insts[j], m);
                assert(has_inst(g, c, j));
                assert(defined_at(g, c, j, w));
            }
        }
    }
    thinning_keeps_validity(f, g, m, src);
}

/// `p` keeps every instruction of `f` that another instruction which is no phi and is kept reads
/// a result of.
pub open spec fn keeps_makers(f: FuncV, p: spec_fn(InstV) -> bool) -> bool {
    forall|b: int, i: int, c: int, j: int|
        #![trigger has_inst(f, b, i), has_inst(f, c, j)]
        has_inst(f, b, i) && has_inst(f, c, j) && p(f.blocks[b].insts[i]) && !f.blocks[b].insts[i].phi()
            && (exists|v: ValueId| #[trigger]
            f.blocks[b].insts[i].uses().contains(v) && f.blocks[c].insts[j].dests().contains(v)) ==> p(
            f.blocks[c].insts[j],
        )
}

/// Leaving out instructions whose results nothing that is left reads keeps a function valid.
pub proof fn sieving_keeps_validity(f: FuncV, g: FuncV, p: spec_fn(InstV) -> bool)
    requires
        valid(f),
        keeps_makers(f, p),
        same_frame(f, g),
        g.blocks.len() == f.blocks.len(),
        forall|b: int|
            0 <= b < f.blocks.len() ==> (#[trigger] g.blocks[b]) == (BlockV {
                insts: sieved(f.blocks[b].insts, p, 0),
                ..f.blocks[b]
            }),
    ensures
        valid(g),
{
    let m = Map::<u32, ValueId>::empty();
    let src = |b: int, k: int| place(f.blocks[b].insts, p, 0, k);
    assert forall|b: int| 0 <= b < f.blocks.len() implies (#[trigger] g.blocks[b]).id == f.blocks[b].id
        && g.blocks[b].term == term_renamed(f.blocks[b].term, m) by {
        if let Some(t) = f.blocks[b].term {
            renaming_term_by_nothing(t);
        }
    }
    assert forall|b: int, k: int| #[trigger] has_inst(g, b, k) implies has_inst(f, b, src(b, k))
        && g.blocks[b].insts[k] == f.blocks[b].insts[src(b, k)].renamed(m) && p(
        f.blocks[b].insts[src(b, k)],
    ) by {
        place_holds(f.blocks[b].insts, p, 0, k);
        renaming_by_nothing(f.blocks[b].insts[src(b, k)]);
    }
    assert forall|b: int, k: int, l: int|
        #![trigger has_inst(g, b, k), has_inst(g, b, l)]
        has_inst(g, b, k) && has_inst(g, b, l) && k < l implies src(b, k) < src(b, l) by {
        places_rise(f.blocks[b].insts, p, 0, k, l);
    }
    assert(thinned(f, g, m, src));
    assert forall|b: int, k: int| #[trigger]
        has_inst(g, b, k) && !g.blocks[b].insts[k].phi() implies reads_defined(g, b, k) by {
        let i = src(b, k);
        let inst = f.blocks[b].insts[i];
        renaming_by_nothing(inst);
        assert(block_valid(f, b));
        assert(inst_valid(f, b, i));
        let us = inst.uses();
        assert forall|x: int| 0 <= x < us.len() implies (#[trigger] us[x]).0 < g.types.len() && (
        defined_before(g, b, k, us[x]) || inst.dests().contains(us[x])) by {
            let u = us[x];
            if !inst.dests().contains(u) && !f.params.contains(u) {
                let (c, j) = choose|c: int, j: int|
                    #[trigger] defined_at(f, c, j, u) && before(c, j, b, i);
                let maker = f.blocks[c].insts[j];
                assert(us.contains(u));
                assert(has_inst(f, b, i) && has_inst(f, c, j));
                let q = place_is_found(f.blocks[c].insts, p, 0, j);
                assert(has_inst(g, c, q));
                renaming_by_nothing(maker);
                assert(defined_at(g, c, q, u));
                thinning_keeps_order(f, g, m, src, c, q, b, k);
            }
        }
    }
    assert forall|k: u32| #[trigger] m.dom().contains(k) implies f.ty(m[k]) == f.ty(ValueId(k)) by {}
    thinning_keeps_validity(f, g, m, src);
}

/// `k` is the one result of the instruction at `p, j`, before position `b, i`, and what `m` puts
/// in its place is defined before it and not replaced.
pub open spec fn replaced_at(f: FuncV, m: Map<u32, ValueId>, k: u32, p: int, j: int, b: int, i: int) -> bool {
    &&& defined_at(f, p, j, ValueId(k))
    &&& before(p, j, b, i)
    &&& f.blocks[p].insts[j].dests().len() == 1
    &&& defined_before(f, p, j, m[k])
    &&& !m.dom().contains(m[k].0)
}

/// Every replacement is one of the code before position `b, i`.
pub open spec fn replaces_earlier(f: FuncV, m: Map<u32, ValueId>, b: int, i: int) -> bool {
    forall|k: u32| #[trigger]
        m.dom().contains(k) ==> exists|p: int, j: int| #[trigger] replaced_at(f, m, k, p, j, b, i)
}

/// Replacements of the code are in order.
pub proof fn replacing_earlier_is_in_order(f: FuncV, m: Map<u32, ValueId>)
    requires
        valid(f),
        replaces_earlier(f, m, f.blocks.len() as int, 0),
    ensures
        in_order(f, m),
{
    let n = f.blocks.len() as int;
    assert forall|k: u32| #[trigger] m.dom().contains(k) implies !f.params.contains(ValueId(k))
        && !m.dom().contains(m[k].0) by {
        let (p, j) = choose|p: int, j: int| #[trigger] replaced_at(f, m, k, p, j, n, 0);
        values_are_defined_once(f, p, j, p, j, ValueId(k));
    }
    assert forall|k: u32, b: int, i: int|
        #![trigger m.dom().contains(k), has_inst(f, b, i)]
        m.dom().contains(k) && defined_at(f, b, i, ValueId(k)) implies f.blocks[b].insts[i].dests().len()
        == 1 && defined_before(f, b, i, m[k]) by {
        let (p, j) = choose|p: int, j: int| #[trigger] replaced_at(f, m, k, p, j, n, 0);
        values_are_defined_once(f, p, j, b, i, ValueId(k));
    }
}

/// No instruction but a phi reads its own result.
pub open spec fn no_self_reads(f: FuncV) -> bool {
    forall|b: int, i: int, v: ValueId|
        #![trigger has_inst(f, b, i), f.blocks[b].insts[i].uses().contains(v)]
        has_inst(f, b, i) && !f.blocks[b].insts[i].phi() && f.blocks[b].insts[i].uses().contains(v)
            ==> !f.blocks[b].insts[i].dests().contains(v)
}

/// `x` may stand where instruction `i` of block `b` does: it defines the same and respects the
/// type rules and, unless it is a phi, reads only what is defined before.
pub open spec fn fits(f: FuncV, b: int, i: int, x: InstV) -> bool {
    let inst = f.blocks[b].insts[i];
    &&& x.dests() == inst.dests()
    &&& x.phi() == inst.phi()
    &&& f.inst_fault(x, f.preds(b as nat)) is None
    &&& !x.phi() ==> forall|k: int|
        0 <= k < x.uses().len() ==> (#[trigger] x.uses()[k]).0 < f.types.len() && defined_before(
            f,
            b,
            i,
            x.uses()[k],
        )
}

/// Fitting instructions in the place of others keep a function valid.
pub proof fn fitting_keeps_validity(f: FuncV, g: FuncV)
    requires
        valid(f),
        same_frame(f, g),
        g.blocks.len() == f.blocks.len(),
        forall|b: int|
            0 <= b < f.blocks.len() ==> (#[trigger] g.blocks[b]).id == f.blocks[b].id && g.blocks[b].term
                == f.blocks[b].term && g.blocks[b].insts.len() == f.blocks[b].insts.len(),
        forall|b: int, i: int| #[trigger] has_inst(g, b, i) ==> fits(f, b, i, g.blocks[b].insts[i]),
    ensures
        valid(g),
        no_self_reads(g),
        forall|b: int, i: int, v: ValueId| #[trigger] defined_at(g, b, i, v) == defined_at(f, b, i, v),
        forall|b: int, i: int, v: ValueId| #[trigger]
            defined_before(g, b, i, v) == defined_before(f, b, i, v),
{
    assert forall|b: int, i: int, v: ValueId| #[trigger]
        defined_at(g, b, i, v) == defined_at(f, b, i, v) by {
        if has_inst(f, b, i) {
            assert(g.blocks[b].insts.len() == f.blocks[b].insts.len());
            assert(has_inst(g, b, i));
        }
        if has_inst(g, b, i) {
            assert(g.blocks[b].insts.len() == f.blocks[b].insts.len());
            assert(has_inst(f, b, i));
        }
    }
    assert forall|b: int, i: int, v: ValueId| #[trigger]
        defined_before(g, b, i, v) == defined_before(f, b, i, v) by {
        if defined_before(f, b, i, v) && !f.params.contains(v) {
            let (p, j) = choose|p: int, j: int| #[trigger] defined_at(f, p, j, v) && before(p, j, b, i);
            assert(defined_at(g, p, j, v));
        }
        if defined_before(g, b, i, v) && !f.params.contains(v) {
            let (p, j) = choose|p: int, j: int| #[trigger] defined_at(g, p, j, v) && before(p, j, b, i);
            assert(defined_at(f, p, j, v));
        }
    }
    assert forall|b: int| 0 <= b < g.blocks.len() implies block_valid(g, b) by {
        assert(block_valid(f, b));
        assert(g.blocks[b].id == f.blocks[b].id);
        same_frame_same_term(f, g, f.blocks[b].term->0);
        same_edges(f, g, f.blocks.len(), b as nat);
        assert forall|i: int| 0 <= i < g.blocks[b].insts.len() implies inst_valid(g, b, i) by {
            assert(has_inst(g, b, i));
            assert(inst_valid(f, b, i));
            let x = g.blocks[b].insts[i];
            same_frame_same_fault(f, g, x, f.preds(b as nat));
            if x.phi() {
                assert forall|k: int| 0 <= k < i implies (#[trigger] g.blocks[b].insts[k]).phi() by {
                    assert(has_inst(g, b, k));
                    assert(f.blocks[b].insts[k].phi());
                }
            }
            assert forall|k: int| 0 <= k < x.dests().len() implies (#[trigger] x.dests()[k]).0
                < g.types.len() && !defined_before(g, b, i, x.dests()[k]) by {
                assert(!defined_before(f, b, i, f.blocks[b].insts[i].dests()[k]));
            }
            assert(defines_fresh(g, b, i));
            if !x.phi() {
                assert forall|k: int| 0 <= k < x.uses().len() implies (#[trigger] x.uses()[k]).0
                    < g.types.len() && (defined_before(g, b, i, x.uses()[k]) || x.dests().contains(
                    x.uses()[k],
                )) by {
                    assert(defined_before(f, b, i, x.uses()[k]));
                }
                assert(reads_defined(g, b, i));
            }
        }
    }
    assert forall|b: int, i: int, v: ValueId|
        #![trigger has_inst(g, b, i), g.blocks[b].insts[i].uses().contains(v)]
        has_inst(g, b, i) && !g.blocks[b].insts[i].phi() && g.blocks[b].insts[i].uses().contains(
            v,
        ) implies !g.blocks[b].insts[i].dests().contains(v) by {
        let x = g.blocks[b].insts[i];
        assert(block_valid(g, b));
        assert(inst_valid(g, b, i));
        assert(x.uses()[x.uses().index_of(v)] == v);
        assert(defined_before(f, b, i, v));
        if x.dests().contains(v) {
            assert(x.dests()[x.dests().index_of(v)] == v);
            assert(defined_before(g, b, i, v));
        }
    }
}

/// Blocks that end alike have the same predecessors.
pub proof fn same_edges(f: FuncV, g: FuncV, k: nat, b: nat)
    requires
        k <= f.blocks.len(),
        g.blocks.len() == f.blocks.len(),
        forall|x: int|
            0 <= x < f.blocks.len() ==> (#[trigger] g.blocks[x]).id == f.blocks[x].id && g.blocks[x].term
                == f.blocks[x].term,
    ensures
        super::func::preds_upto(g.blocks, k, b) == super::func::preds_upto(f.blocks, k, b),
    decreases k,
{
    if k > 0 {
        same_edges(f, g, (k - 1) as nat, b);
        assert(g.blocks[k - 1].id == f.blocks[k - 1].id);
    }
}

/// The type rules look at the frame and the predecessors only.
pub proof fn same_frame_same_fault(f: FuncV, g: FuncV, x: InstV, preds: Seq<BlockId>)
    requires
        same_frame(f, g),
        f.inst_fault(x, preds) is None,
    ensures
        g.inst_fault(x, preds) is None,
{
    let m = Map::<u32, ValueId>::empty();
    assert(same_types(f, m));
    renaming_keeps_types(f, g, m, x, preds);
    renaming_by_nothing(x);
}

/// The rules for terminators look at the frame only.
pub proof fn same_frame_same_term(f: FuncV, g: FuncV, t: TermV)
    requires
        same_frame(f, g),
        f.term_fault(t) is None,
    ensures
        g.term_fault(t) is None,
{
    let m = Map::<u32, ValueId>::empty();
    assert(same_types(f, m));
    renaming_keeps_term_types(f, g, m, t);
    renaming_term_by_nothing(t);
}

/// Replacements in order make no instruction read itself.
pub proof fn substituting_adds_no_self_reads(f: FuncV, m: Map<u32, ValueId>)
    requires
        valid(f),
        in_order(f, m),
        no_self_reads(f),
    ensures
        no_self_reads(removed(renamed(f, m), m.dom())),
{
    let h = renamed(f, m);
    let gone = m.dom();
    let g = removed(h, gone);
    let p = |x: InstV| !gone.contains(x.dest().0);
    assert forall|b: int, k: int, w: ValueId|
        #![trigger has_inst(g, b, k), g.blocks[b].insts[k].uses().contains(w)]
        has_inst(g, b, k) && !g.blocks[b].insts[k].phi() && g.blocks[b].insts[k].uses().contains(
            w,
        ) implies !g.blocks[b].insts[k].dests().contains(w) by {
        without_is_sieved(h.blocks[b].insts, gone, 0);
        assert(g.blocks[b].insts == sieved(h.blocks[b].insts, p, 0));
        place_holds(h.blocks[b].insts, p, 0, k);
        let i = place(h.blocks[b].insts, p, 0, k);
        let inst = f.blocks[b].insts[i];
        assert(has_inst(f, b, i));
        renaming_renames_uses(inst, m);
        assert(block_valid(f, b));
        assert(inst_valid(f, b, i));
        let x = g.blocks[b].insts[k];
        let z = x.uses().index_of(w);
        let u = inst.uses()[z];
        assert(x.uses()[z] == map_value(m, u));
        assert(inst.uses().contains(u));
        assert(ValueId(u.0) == u);
        assert(defined_before(f, b, i, u));
        if gone.contains(u.0) {
            let (c, j) = choose|c: int, j: int| #[trigger] defined_at(f, c, j, u) && before(c, j, b, i);
            assert(has_inst(f, c, j));
            earlier_is_before(f, c, j, b, i, w);
        }
        assert(defined_before(f, b, i, w));
        if inst.dests().contains(w) {
            assert(inst.dests()[inst.dests().index_of(w)] == w);
        }
    }
}

// Growth that keeps functions valid.

/// `g` has the values of `f`, perhaps more, and the same result.
pub open spec fn more_types(f: FuncV, g: FuncV) -> bool {
    &&& f.types.len() <= g.types.len()
    &&& forall|v: int| 0 <= v < f.types.len() ==> #[trigger] g.types[v] == f.types[v]
    &&& g.ret_ty == f.ret_ty
    &&& g.ret_hi_ty == f.ret_hi_ty
    &&& g.ret_layout == f.ret_layout
    &&& g.hosts == f.hosts
}

proof fn grown_lists(f: FuncV, g: FuncV, s: Seq<ValueId>, tys: Seq<MirTy>, i: nat)
    requires
        more_types(f, g),
        forall|k: int| 0 <= k < s.len() ==> (#[trigger] s[k]).0 < f.types.len(),
    ensures
        first_loose(f, s, i) is None ==> first_loose(g, s, i) is None,
        first_non_heap(f, s, i) is None ==> first_non_heap(g, s, i) is None,
        first_mistyped(f, s, tys, i) is None ==> first_mistyped(g, s, tys, i) is None,
    decreases s.len() - i,
{
    if i < s.len() {
        assert(s[i as int].0 < f.types.len());
        grown_lists(f, g, s, tys, i + 1);
    }
}

proof fn grown_phi_args(f: FuncV, g: FuncV, s: Seq<(BlockId, ValueId)>, ty: MirTy, i: nat)
    requires
        more_types(f, g),
        forall|k: int| 0 <= k < s.len() ==> (#[trigger] s[k]).1.0 < f.types.len(),
    ensures
        first_misphi(f, s, ty, i) is None ==> first_misphi(g, s, ty, i) is None,
    decreases s.len() - i,
{
    if i < s.len() {
        assert(s[i as int].1.0 < f.types.len());
        grown_phi_args(f, g, s, ty, i + 1);
    }
}

/// An instruction that respects the type rules does so among more values.
pub proof fn growing_keeps_types(f: FuncV, g: FuncV, inst: InstV, preds: Seq<BlockId>)
    requires
        more_types(f, g),
        f.inst_indexed(inst),
        f.inst_fault(inst, preds) is None,
    ensures
        g.inst_fault(inst, preds) is None,
{
    assert forall|v: ValueId| v.0 < f.types.len() implies #[trigger] g.ty(v) == f.ty(v) by {
        assert(g.types[v.0 as int] == f.types[v.0 as int]);
    }
    let us = inst.uses();
    let ds = inst.dests();
    assert(us.len() > 0 ==> us[0].0 < f.types.len());
    assert(us.len() > 1 ==> us[1].0 < f.types.len());
    assert(us.len() > 2 ==> us[2].0 < f.types.len());
    assert(ds.len() > 1 ==> ds[1].0 < f.types.len());
    assert(inst.dest().0 < f.types.len());
    match inst {
        InstV::Phi { dest, ty, args } => {
            assert forall|k: int| 0 <= k < args.len() implies (#[trigger] args[k]).1.0 < f.types.len() by {
                assert(us[k] == args[k].1);
            }
            grown_phi_args(f, g, args, ty, 0);
        },
        InstV::HostInvoke { native_id, args, .. } => {
            if let Some(spec) = edge(f.hosts, native_id) {
                grown_lists(f, g, args, spec.args, 0);
            }
        },
        InstV::Call { args, .. } => grown_lists(f, g, args, Seq::empty(), 0),
        InstV::Alloc { elems, .. } => grown_lists(f, g, elems, Seq::empty(), 0),
        InstV::GcBarrier { roots, .. } => grown_lists(f, g, roots, Seq::empty(), 0),
        InstV::Format { fmt, args, .. } => {
            assert forall|k: int| 0 <= k < args.len() implies (#[trigger] args[k]).0 < f.types.len() by {
                assert(us[k + 1] == args[k]);
            }
            grown_lists(f, g, args, Seq::empty(), 0);
        },
        _ => {},
    }
}

proof fn growing_keeps_term_types(f: FuncV, g: FuncV, t: TermV)
    requires
        more_types(f, g),
        f.term_indexed(t),
        f.term_fault(t) is None,
    ensures
        g.term_fault(t) is None,
{
    assert forall|v: ValueId| v.0 < f.types.len() implies #[trigger] g.ty(v) == f.ty(v) by {
        assert(g.types[v.0 as int] == f.types[v.0 as int]);
    }
    let us = t.uses();
    assert(us.len() > 0 ==> us[0].0 < f.types.len());
    assert(us.len() > 1 ==> us[1].0 < f.types.len());
    if let TermV::JumpIfMatch { payloads, .. } = t {
        assert forall|k: int| 0 <= k < payloads.len() implies (#[trigger] payloads[k]).0 < f.types.len() by {
            assert(us[k + 1] == payloads[k]);
        }
        grown_lists(f, g, payloads, Seq::empty(), 0);
    }
}

/// The function with a new value of type `ty`, which `x` defines at the end of block `b`.
pub open spec fn appended(f: FuncV, b: int, x: InstV, ty: MirTy) -> FuncV {
    FuncV {
        types: f.types.push(ty),
        blocks: f.blocks.update(b, BlockV { insts: f.blocks[b].insts.push(x), ..f.blocks[b] }),
        ..f
    }
}

/// An instruction that makes a new value from earlier ones may be added at the end of a block.
pub proof fn appending_keeps_validity(f: FuncV, b: int, x: InstV, ty: MirTy)
    requires
        valid(f),
        f.indexed(),
        f.types.len() < u32::MAX,
        0 <= b < f.blocks.len(),
        !x.phi(),
        x.dests() == seq![ValueId(f.types.len() as u32)],
        appended(f, b, x, ty).inst_fault(x, f.preds(b as nat)) is None,
        forall|k: int|
            0 <= k < x.uses().len() ==> (#[trigger] x.uses()[k]).0 < f.types.len() && defined_before(
                f,
                b,
                f.blocks[b].insts.len() as int,
                x.uses()[k],
            ),
    ensures
        valid(appended(f, b, x, ty)),
{
    let g = appended(f, b, x, ty);
    let new = ValueId(f.types.len() as u32);
    let end = f.blocks[b].insts.len() as int;
    assert(more_types(f, g));
    assert forall|c: int, i: int, v: ValueId| #[trigger] defined_at(g, c, i, v) implies (c == b && i == end
        && v == new) || (defined_at(f, c, i, v) && v != new) by {
        if has_inst(f, c, i) {
            assert(g.blocks[c].insts[i] == f.blocks[c].insts[i]);
            assert(f.block_indexed(f.blocks[c], c));
            assert(f.inst_indexed(f.blocks[c].insts[i]));
            let ds = f.blocks[c].insts[i].dests();
            let k = ds.index_of(v);
            assert(ds[k].0 < f.types.len());
        } else {
            assert(g.blocks[c].insts[i] == x);
            assert(x.dests()[0] == new);
        }
    }
    assert forall|c: int, i: int, v: ValueId| #[trigger] defined_at(f, c, i, v) implies defined_at(g, c, i, v) by {
        assert(g.blocks[c].insts[i] == f.blocks[c].insts[i]);
    }
    assert forall|c: int, i: int, v: ValueId| defined_before(f, c, i, v) implies #[trigger] defined_before(
        g,
        c,
        i,
        v,
    ) by {
        if !f.params.contains(v) {
            let (p, j) = choose|p: int, j: int| #[trigger] defined_at(f, p, j, v) && before(p, j, c, i);
            assert(defined_at(g, p, j, v));
        }
    }
    assert forall|c: int, i: int, v: ValueId|
        v != new && #[trigger] defined_before(g, c, i, v) implies defined_before(f, c, i, v) by {
        if !f.params.contains(v) {
            let (p, j) = choose|p: int, j: int| #[trigger] defined_at(g, p, j, v) && before(p, j, c, i);
            assert(defined_at(f, p, j, v));
        }
    }
    assert forall|k: int| 0 <= k < g.params.len() implies (#[trigger] g.params[k]).0 < g.types.len() && g.ty(
        g.params[k],
    ).specialized() by {
        assert(f.params[k].0 < f.types.len());
        assert(g.types[f.params[k].0 as int] == f.types[f.params[k].0 as int]);
    }
    assert forall|c: int| 0 <= c < g.blocks.len() implies block_valid(g, c) by {
        assert(block_valid(f, c));
        assert(f.block_indexed(f.blocks[c], c));
        growing_keeps_term_types(f, g, f.blocks[c].term->0);
        same_edges(f, g, f.blocks.len(), c as nat);
        assert forall|i: int| 0 <= i < g.blocks[c].insts.len() implies inst_valid(g, c, i) by {
            if has_inst(f, c, i) {
                let inst = f.blocks[c].insts[i];
                assert(g.blocks[c].insts[i] == inst);
                assert(inst_valid(f, c, i));
                assert(f.inst_indexed(inst));
                growing_keeps_types(f, g, inst, f.preds(c as nat));
                if inst.phi() {
                    assert forall|k: int| 0 <= k < i implies (#[trigger] g.blocks[c].insts[k]).phi() by {
                        assert(f.blocks[c].insts[k].phi());
                    }
                } else {
                    assert forall|k: int| 0 <= k < inst.uses().len() implies (#[trigger] inst.uses()[k]).0
                        < g.types.len() && (defined_before(g, c, i, inst.uses()[k]) || inst.dests().contains(
                        inst.uses()[k],
                    )) by {
                        assert(inst.uses()[k].0 < f.types.len());
                        if defined_before(f, c, i, inst.uses()[k]) {
                            assert(defined_before(g, c, i, inst.uses()[k]));
                        }
                    }
                }
                let ds = inst.dests();
                assert forall|k: int| 0 <= k < ds.len() implies (#[trigger] ds[k]).0 < g.types.len()
                    && !defined_before(g, c, i, ds[k]) by {
                    assert(!defined_before(f, c, i, ds[k]));
                    assert(ds[k] != new);
                }
            } else {
                assert(g.blocks[c].insts[i] == x);
                if defined_before(g, c, i, new) {
                    if f.params.contains(new) {
                        let k = f.params.index_of(new);
                        assert(f.params[k].0 < f.types.len());
                    } else {
                        let (p, j) = choose|p: int, j: int| #[trigger]
                            defined_at(g, p, j, new) && before(p, j, c, i);
                        assert(defined_at(g, p, j, new));
                    }
                }
                assert forall|k: int| 0 <= k < x.uses().len() implies (#[trigger] x.uses()[k]).0
                    < g.types.len() && defined_before(g, c, i, x.uses()[k]) by {
                    assert(defined_before(f, b, end, x.uses()[k]));
                }
            }
        }
    }
}

// Valid functions are indexed.

/// Every value that a block returns is one of the function.
pub open spec fn returns_allocated(f: FuncV) -> bool {
    forall|b: int, k: int|
        0 <= b < f.blocks.len() && f.blocks[b].term is Some && f.blocks[b].term->0 is Return && 0 <= k
            < f.blocks[b].term->0.uses().len() ==> (#[trigger] f.blocks[b].term->0.uses()[k]).0
            < f.types.len()
}

/// A function that passes verification, returns only values that it holds and has no more values
/// and blocks than their numbers can tell apart is indexed: every pass takes it.
pub proof fn verified_functions_are_indexed(f: FuncV)
    requires
        f.fault() is None,
        returns_allocated(f),
        f.types.len() <= u32::MAX,
        f.blocks.len() <= u32::MAX,
    ensures
        f.indexed(),
{
    verification_finds_the_valid_functions(f);
    assert forall|b: int| 0 <= b < f.blocks.len() implies f.block_indexed(#[trigger] f.blocks[b], b) by {
        assert(block_valid(f, b));
        let block = f.blocks[b];
        assert forall|i: int| 0 <= i < block.insts.len() implies f.inst_indexed(#[trigger] block.insts[i]) by {
            assert(inst_valid(f, b, i));
            let inst = block.insts[i];
            assert(inst.dests()[0] == inst.dest());
            match inst {
                InstV::Phi { ty, args, .. } => {
                    assert forall|k: int| 0 <= k < inst.uses().len() implies (#[trigger] inst.uses()[k]).0
                        < f.types.len() by {
                        phi_args_have_the_type(f, args, ty, 0, k);
                        assert(inst.uses()[k] == args[k].1);
                    }
                },
                _ => {},
            }
        }
        let t = block.term->0;
        assert forall|k: int| 0 <= k < t.uses().len() implies (#[trigger] t.uses()[k]).0 < f.types.len() by {
            match t {
                TermV::JumpIfMatch { scrutinee, payloads, .. } => {
                    if k > 0 {
                        assert(t.uses()[k] == payloads[k - 1]);
                        loose_finds_all(f, payloads, 0, k - 1);
                    }
                },
                TermV::Return { .. } => {
                    assert(f.blocks[b].term->0.uses()[k].0 < f.types.len());
                },
                _ => {},
            }
        }
    }
}

proof fn phi_args_have_the_type(f: FuncV, args: Seq<(BlockId, ValueId)>, ty: MirTy, i: nat, k: int)
    requires
        first_misphi(f, args, ty, i) is None,
        i <= k < args.len(),
    ensures
        f.ty(args[k].1) == ty,
    decreases args.len() - i,
{
    if i < k {
        phi_args_have_the_type(f, args, ty, i + 1, k);
    }
}

proof fn loose_finds_all(f: FuncV, s: Seq<ValueId>, i: nat, k: int)
    requires
        first_loose(f, s, i) is None,
        i <= k < s.len(),
    ensures
        f.ty(s[k]).specialized(),
    decreases s.len() - i,
{
    if i < k {
        loose_finds_all(f, s, i + 1, k);
    }
}

} // verus!

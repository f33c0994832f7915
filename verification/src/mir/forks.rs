//! Sharing at forks keeps functions valid.
use super::cse::{
    available, chosen_from, fork_shared, forks_shared, growing_keeps_index, grown, gvn_rounds, key_inst,
    key_of, key_result, key_uses, movable_from, moves_to, nearest, parent, shared,
    sharing_along_dominators_keeps_validity, successors, tree_subst, with_key, with_keys, ExprKey,
};
use super::dom::{dominates, flows, has_pred, path_starts, steps_around};
use super::func::FuncV;
use super::index::def_below_hit;
use super::inst::{BlockId, InstV, ValueId};
use super::rewrite::has_inst;
use super::valid::{
    appended, appending_keeps_validity, before, block_valid, defined_at, defined_before, inst_valid, more_types,
    valid, verification_finds_the_valid_functions,
};
use vstd::prelude::*;

verus! {

/// Every block comes behind those that dominate it.
pub open spec fn dominators_come_first(f: FuncV) -> bool {
    forall|d: int, b: int|
        0 <= d < f.blocks.len() && 0 <= b < f.blocks.len() && #[trigger] dominates(f, d, b) ==> d <= b
}

/// `v` is a parameter or defined somewhere.
spec fn known(f: FuncV, v: ValueId) -> bool {
    f.params.contains(v) || exists|p: int, j: int| #[trigger] defined_at(f, p, j, v)
}

/// Every operand of the instruction is a known value of `f`.
spec fn reads_known(f: FuncV, inst: InstV) -> bool {
    forall|k: int|
        0 <= k < inst.uses().len() ==> (#[trigger] inst.uses()[k]).0 < f.types.len() && known(
            f,
            inst.uses()[k],
        )
}

/// `g` is `f` with computations of its values added at the ends of blocks.
spec fn grows(f: FuncV, g: FuncV) -> bool {
    &&& valid(g)
    &&& grown(f, g)
    &&& more_types(f, g)
    &&& g.params == f.params
    &&& g.entry == f.entry
    &&& forall|b: int|
        0 <= b < f.blocks.len() ==> (#[trigger] f.blocks[b]).insts.len() <= g.blocks[b].insts.len()
    &&& forall|b: int, i: int| #[trigger] has_inst(f, b, i) ==> g.blocks[b].insts[i] == f.blocks[b].insts[i]
    &&& forall|b: int, i: int| #[trigger]
        has_inst(g, b, i) && !g.blocks[b].insts[i].phi() ==> reads_known(f, g.blocks[b].insts[i])
}

proof fn every_function_grows_from_itself(f: FuncV)
    requires
        valid(f),
        f.indexed(),
    ensures
        grows(f, f),
{
    assert forall|b: int, i: int| #[trigger] has_inst(f, b, i) && !f.blocks[b].insts[i].phi() implies reads_known(
        f,
        f.blocks[b].insts[i],
    ) by {
        let inst = f.blocks[b].insts[i];
        assert(block_valid(f, b));
        assert(inst_valid(f, b, i));
        assert forall|k: int| 0 <= k < inst.uses().len() implies (#[trigger] inst.uses()[k]).0 < f.types.len()
            && known(f, inst.uses()[k]) by {
            let v = inst.uses()[k];
            if defined_before(f, b, i, v) {
                if !f.params.contains(v) {
                    let (p, j) = choose|p: int, j: int| #[trigger] defined_at(f, p, j, v) && before(p, j, b, i);
                    assert(defined_at(f, p, j, v));
                }
            } else {
                assert(defined_at(f, b, i, v));
            }
        }
    }
}

/// What is there at a block is defined before its end.
proof fn available_values_are_defined(f: FuncV, v: ValueId, b: int)
    requires
        valid(f),
        dominators_come_first(f),
        0 <= b < f.blocks.len(),
        known(f, v),
        available(f, v, b),
    ensures
        defined_before(f, b, f.blocks[b].insts.len() as int, v),
{
    assert forall|x: int| 0 <= x < f.blocks.len() implies (#[trigger] f.blocks[x]).id.0 == x by {
        assert(block_valid(f, x));
    }
    def_below_hit(f, v, f.blocks.len());
    match f.def(v) {
        Some(p) => {
            let h = p.0.0 as int;
            let j = p.1 as int;
            assert(has_inst(f, h, j));
            assert(defined_at(f, h, j, v));
            assert(f.home(v) == Some(p.0));
            assert(h <= b);
            assert(before(h, j, b, f.blocks[b].insts.len() as int));
        },
        None => {
            if !f.params.contains(v) {
                let (p, j) = choose|p: int, j: int| #[trigger] defined_at(f, p, j, v);
                assert(f.blocks[p].insts[j].dests().contains(v));
            }
        },
    }
}

/// What is defined before the end of a block stays so when it grows.
proof fn growth_keeps_definitions(f: FuncV, g: FuncV, b: int, v: ValueId)
    requires
        grows(f, g),
        0 <= b < f.blocks.len(),
        defined_before(f, b, f.blocks[b].insts.len() as int, v),
    ensures
        defined_before(g, b, g.blocks[b].insts.len() as int, v),
{
    if !f.params.contains(v) {
        let (p, j) = choose|p: int, j: int| #[trigger]
            defined_at(f, p, j, v) && before(p, j, b, f.blocks[b].insts.len() as int);
        assert(has_inst(f, p, j));
        assert(f.blocks[p].insts.len() <= g.blocks[p].insts.len());
        assert(f.blocks[b].insts.len() <= g.blocks[b].insts.len());
        assert(defined_at(g, p, j, v));
        assert(before(p, j, b, g.blocks[b].insts.len() as int));
    }
}

/// The function with a value for `key` respects the type rules in computing it.
spec fn typed(f: FuncV, key: ExprKey) -> bool {
    let g = FuncV { types: f.types.push(key_result(f, key)), ..f };
    g.inst_fault(key_inst(key, ValueId(f.types.len() as u32)), Seq::empty()) is None
}

/// A computation of known values that are there at block `b`.
spec fn fits_at(f: FuncV, key: ExprKey, b: int) -> bool {
    &&& typed(f, key)
    &&& forall|k: int|
        0 <= k < key_uses(key).len() ==> (#[trigger] key_uses(key)[k]).0 < f.types.len() && known(
            f,
            key_uses(key)[k],
        ) && available(f, key_uses(key)[k], b)
}

/// The operands of a computation are those of its instruction.
proof fn keys_read_operands(f: FuncV, inst: InstV, key: ExprKey)
    requires
        key_of(inst) == Some(key),
        reads_known(f, inst),
    ensures
        forall|k: int|
            0 <= k < key_uses(key).len() ==> (#[trigger] key_uses(key)[k]).0 < f.types.len() && known(
                f,
                key_uses(key)[k],
            ),
{
    let us = inst.uses();
    assert(us.len() > 0 ==> us[0].0 < f.types.len() && known(f, us[0]));
    assert(us.len() > 1 ==> us[1].0 < f.types.len() && known(f, us[1]));
    assert forall|k: int| 0 <= k < key_uses(key).len() implies (#[trigger] key_uses(key)[k]).0 < f.types.len()
        && known(f, key_uses(key)[k]) by {
        assert(k == 0 || k == 1);
        match inst {
            InstV::Bin { lhs, rhs, .. } => {
                assert(us[0] == lhs && us[1] == rhs);
            },
            InstV::Cmp { lhs, rhs, .. } => {
                assert(us[0] == lhs && us[1] == rhs);
            },
            InstV::Unary { src, .. } => {
                assert(us[0] == src);
            },
            InstV::Cast { src, .. } => {
                assert(us[0] == src);
            },
            _ => {},
        }
    }
}

proof fn instructions_are_typed(f: FuncV, g: FuncV, inst: InstV, preds: Seq<BlockId>, key: ExprKey)
    requires
        more_types(f, g),
        f.types.len() <= u32::MAX,
        key_of(inst) == Some(key),
        reads_known(f, inst),
        g.inst_fault(inst, preds) is None,
    ensures
        typed(f, key),
{
    keys_read_operands(f, inst, key);
    let h = FuncV { types: f.types.push(key_result(f, key)), ..f };
    let new = ValueId(f.types.len() as u32);
    assert(h.ty(new) == key_result(f, key));
    assert forall|v: ValueId| v.0 < f.types.len() implies #[trigger] g.ty(v) == f.ty(v) && h.ty(v) == f.ty(v) by {
        assert(g.types[v.0 as int] == f.types[v.0 as int]);
    }
    let us = inst.uses();
    assert(us.len() > 0 ==> us[0].0 < f.types.len());
    assert(us.len() > 1 ==> us[1].0 < f.types.len());
    match inst {
        InstV::Bin { lhs, rhs, .. } => {
            assert(us[0] == lhs && us[1] == rhs);
            assert(g.ty(lhs) == f.ty(lhs) && g.ty(rhs) == f.ty(rhs));
        },
        InstV::Cmp { lhs, rhs, .. } => {
            assert(us[0] == lhs && us[1] == rhs);
            assert(g.ty(lhs) == f.ty(lhs) && g.ty(rhs) == f.ty(rhs));
        },
        InstV::Unary { src, .. } => {
            assert(us[0] == src);
            assert(g.ty(src) == f.ty(src));
        },
        InstV::Cast { src, .. } => {
            assert(us[0] == src);
            assert(g.ty(src) == f.ty(src));
        },
        _ => {},
    }
}

/// A typed computation is typed among more values.
proof fn typed_among_more(f: FuncV, g: FuncV, b: int, key: ExprKey)
    requires
        more_types(f, g),
        f.types.len() <= u32::MAX,
        g.types.len() < u32::MAX,
        typed(f, key),
        forall|k: int| 0 <= k < key_uses(key).len() ==> (#[trigger] key_uses(key)[k]).0 < f.types.len(),
    ensures
        with_key(g, b, key).inst_fault(
            key_inst(key, ValueId(g.types.len() as u32)),
            g.preds(b as nat),
        ) is None,
{
    let h = FuncV { types: f.types.push(key_result(f, key)), ..f };
    let w = with_key(g, b, key);
    let us = key_uses(key);
    assert(us.len() > 0 ==> us[0].0 < f.types.len());
    assert(us.len() > 1 ==> us[1].0 < f.types.len());
    assert forall|v: ValueId| v.0 < f.types.len() implies #[trigger] g.ty(v) == f.ty(v) && h.ty(v) == f.ty(v)
        && w.ty(v) == f.ty(v) by {
        assert(g.types[v.0 as int] == f.types[v.0 as int]);
    }
    match key {
        ExprKey::Bin { a, b, .. } => {
            assert(us[0] == a && us[1] == b);
            assert(g.ty(a) == f.ty(a) && g.ty(b) == f.ty(b));
        },
        ExprKey::Cmp { a, b, .. } => {
            assert(us[0] == a && us[1] == b);
            assert(g.ty(a) == f.ty(a) && g.ty(b) == f.ty(b));
        },
        ExprKey::Unary { src, .. } => {
            assert(us[0] == src);
            assert(g.ty(src) == f.ty(src));
        },
        ExprKey::Cast { src, .. } => {
            assert(us[0] == src);
            assert(g.ty(src) == f.ty(src));
        },
        _ => {},
    }
    assert(h.ty(ValueId(f.types.len() as u32)) == key_result(f, key));
    assert(key_result(g, key) == key_result(f, key));
    assert(w.ty(ValueId(g.types.len() as u32)) == key_result(f, key));
}

proof fn one_key_grows(f: FuncV, g: FuncV, b: int, key: ExprKey)
    requires
        valid(f),
        f.indexed(),
        dominators_come_first(f),
        grows(f, g),
        0 <= b < f.blocks.len(),
        g.types.len() < u32::MAX,
        fits_at(f, key, b),
    ensures
        grows(f, with_key(g, b, key)),
{
    let new = ValueId(g.types.len() as u32);
    let x = key_inst(key, new);
    let h = with_key(g, b, key);
    assert(h == appended(g, b, x, key_result(g, key)));
    assert(x.uses() =~= key_uses(key));
    assert(x.dests() =~= seq![new]);
    typed_among_more(f, g, b, key);
    assert forall|k: int| 0 <= k < x.uses().len() implies (#[trigger] x.uses()[k]).0 < g.types.len()
        && defined_before(g, b, g.blocks[b].insts.len() as int, x.uses()[k]) by {
        assert(key_uses(key)[k].0 < f.types.len());
        available_values_are_defined(f, key_uses(key)[k], b);
        growth_keeps_definitions(f, g, b, key_uses(key)[k]);
    }
    appending_keeps_validity(g, b, x, key_result(g, key));
    assert forall|k: int| 0 <= k < key_uses(key).len() implies (#[trigger] key_uses(key)[k]).0 < g.types.len() by {
        assert(key_uses(key)[k].0 < f.types.len());
    }
    growing_keeps_index(f, g, b, key);
    assert forall|c: int| 0 <= c < f.blocks.len() implies (#[trigger] f.blocks[c]).insts.len()
        <= h.blocks[c].insts.len() by {
        assert(f.blocks[c].insts.len() <= g.blocks[c].insts.len());
    }
    assert forall|c: int, i: int| #[trigger] has_inst(f, c, i) implies h.blocks[c].insts[i] == f.blocks[c].insts[i] by {
        assert(g.blocks[c].insts[i] == f.blocks[c].insts[i]);
        assert(f.blocks[c].insts.len() <= g.blocks[c].insts.len());
    }
    assert forall|c: int, i: int| #[trigger] has_inst(h, c, i) && !h.blocks[c].insts[i].phi() implies reads_known(
        f,
        h.blocks[c].insts[i],
    ) by {
        if has_inst(g, c, i) {
            assert(h.blocks[c].insts[i] == g.blocks[c].insts[i]);
        } else {
            assert(h.blocks[c].insts[i] == x);
            assert forall|k: int| 0 <= k < x.uses().len() implies (#[trigger] x.uses()[k]).0 < f.types.len() && known(
                f,
                x.uses()[k],
            ) by {
                assert(key_uses(key)[k].0 < f.types.len());
            }
        }
    }
}

proof fn keys_grow(f: FuncV, g: FuncV, b: int, keys: Seq<ExprKey>, i: int, n: nat)
    requires
        valid(f),
        f.indexed(),
        dominators_come_first(f),
        grows(f, g),
        0 <= b < f.blocks.len(),
        0 <= i,
        forall|k: int| 0 <= k < keys.len() ==> fits_at(f, #[trigger] keys[k], b),
    ensures
        grows(f, with_keys(g, b, keys, i, n).0),
    decreases keys.len() - i,
{
    if i < keys.len() && g.types.len() < u32::MAX {
        assert(fits_at(f, keys[i], b));
        one_key_grows(f, g, b, keys[i]);
        keys_grow(f, with_key(g, b, keys[i]), b, keys, i + 1, n + 1);
    }
}

/// Every listed computation fits at block `b`.
spec fn all_fit(f: FuncV, keys: Seq<ExprKey>, b: int) -> bool {
    forall|k: int| 0 <= k < keys.len() ==> fits_at(f, #[trigger] keys[k], b)
}

proof fn movable_keys_fit(f: FuncV, g: FuncV, s: int, b: int, i: int, acc: Seq<ExprKey>)
    requires
        f.indexed(),
        grows(f, g),
        0 <= s < g.blocks.len(),
        0 <= i,
        all_fit(f, acc, b),
    ensures
        all_fit(f, movable_from(f, g.blocks[s].insts, b, i, acc), b),
    decreases g.blocks[s].insts.len() - i,
{
    let insts = g.blocks[s].insts;
    if i < insts.len() {
        if moves_to(f, insts[i], b) && !acc.contains(key_of(insts[i])->0) {
            let key = key_of(insts[i])->0;
            assert(has_inst(g, s, i));
            assert(block_valid(g, s));
            assert(inst_valid(g, s, i));
            keys_read_operands(f, insts[i], key);
            instructions_are_typed(f, g, insts[i], g.preds(s as nat), key);
            assert(fits_at(f, key, b));
            movable_keys_fit(f, g, s, b, i + 1, acc.push(key));
        } else {
            movable_keys_fit(f, g, s, b, i + 1, acc);
        }
    }
}

proof fn chosen_keys_fit(
    f: FuncV,
    g: FuncV,
    targets: Seq<BlockId>,
    b: int,
    keys: Seq<ExprKey>,
    i: int,
)
    requires
        0 <= i,
        all_fit(f, keys, b),
    ensures
        all_fit(f, chosen_from(f, g, targets, b, keys, i), b),
    decreases keys.len() - i,
{
    if i < keys.len() {
        chosen_keys_fit(f, g, targets, b, keys, i + 1);
    }
}

proof fn forks_grow(f: FuncV, g: FuncV, b: int, n: nat)
    requires
        valid(f),
        f.indexed(),
        dominators_come_first(f),
        grows(f, g),
        0 <= b,
    ensures
        grows(f, forks_shared(f, g, b, n).0),
    decreases f.blocks.len() - b,
{
    if b < f.blocks.len() {
        assert(f.block_indexed(f.blocks[b], b));
        if let Some(t) = f.blocks[b].term {
            if t.targets().len() >= 2 {
                let s = t.targets()[0].0 as int;
                let keys = movable_from(f, g.blocks[s].insts, b, 0, Seq::empty());
                movable_keys_fit(f, g, s, b, 0, Seq::empty());
                chosen_keys_fit(f, g, t.targets(), b, keys, 0);
                keys_grow(f, g, b, chosen_from(f, g, t.targets(), b, keys, 0), 0, n);
            }
        }
        let (h, m) = fork_shared(f, g, b, n);
        forks_grow(f, h, b + 1, m);
    }
}

/// Sharing at forks keeps a function valid, where every block comes behind those that dominate it
/// in the code.
pub proof fn sharing_at_forks_keeps_validity(f: FuncV)
    requires
        f.fault() is None,
        f.indexed(),
        dominators_come_first(f),
    ensures
        forks_shared(f, f, 0, 0).0.fault() is None,
        forks_shared(f, f, 0, 0).0.indexed(),
{
    verification_finds_the_valid_functions(f);
    every_function_grows_from_itself(f);
    forks_grow(f, f, 0, 0);
    verification_finds_the_valid_functions(forks_shared(f, f, 0, 0).0);
}

/// Control goes the same ways in both functions.
spec fn same_flow(f: FuncV, g: FuncV) -> bool {
    &&& g.blocks.len() == f.blocks.len()
    &&& g.entry == f.entry
    &&& forall|b: int|
        0 <= b < f.blocks.len() ==> ((#[trigger] g.blocks[b]).term is Some <==> f.blocks[b].term is Some)
            && successors(g.blocks[b]) == successors(f.blocks[b])
}

proof fn same_flow_same_dominators(f: FuncV, g: FuncV)
    requires
        same_flow(f, g),
        dominators_come_first(f),
    ensures
        dominators_come_first(g),
{
    assert forall|p: int, b: int| #[trigger] flows(g, p, b) == flows(f, p, b) by {
        if 0 <= p < f.blocks.len() && f.blocks[p].term is Some {
            assert(successors(g.blocks[p]) == successors(f.blocks[p]));
            assert(g.blocks[p].term->0.targets() == f.blocks[p].term->0.targets());
        } else if 0 <= p < f.blocks.len() {
            assert(g.blocks[p].term is None);
        }
    }
    assert forall|b: int| #[trigger] has_pred(g, b) == has_pred(f, b) by {
        if has_pred(g, b) {
            let p = choose|p: int| #[trigger] flows(g, p, b);
            assert(flows(f, p, b));
        }
        if has_pred(f, b) {
            let p = choose|p: int| #[trigger] flows(f, p, b);
            assert(flows(g, p, b));
        }
    }
    assert forall|d: int, b: int|
        0 <= d < g.blocks.len() && 0 <= b < g.blocks.len() && #[trigger] dominates(g, d, b) implies d <= b by {
        assert(path_starts(g, d) =~= path_starts(f, d));
        assert(steps_around(g, d) =~= steps_around(f, d));
        assert(dominates(f, d, b));
    }
}

proof fn dominating_parents_come_first(f: FuncV, b: int, n: int)
    requires
        dominators_come_first(f),
        0 <= b < f.blocks.len(),
        n <= f.blocks.len(),
    ensures
        nearest(f, b, n) matches Some(p) ==> p < b,
    decreases n,
{
    if n > 0 {
        dominating_parents_come_first(f, b, n - 1);
        if dominates(f, n - 1, b) {
            assert(n - 1 <= b);
        }
    }
}

proof fn sharing_along_dominators_keeps_flow(f: FuncV)
    ensures
        same_flow(f, shared(f, tree_subst(f)).0),
{
    let m = tree_subst(f);
    let g = shared(f, m).0;
    assert forall|b: int| 0 <= b < f.blocks.len() implies ((#[trigger] g.blocks[b]).term is Some
        <==> f.blocks[b].term is Some) && successors(g.blocks[b]) == successors(f.blocks[b]) by {
        if let Some(t) = f.blocks[b].term {
            assert(t.renamed(m).targets() == t.targets());
        }
    }
}

/// Sharing along dominators and at forks keeps a function valid, where every block comes behind
/// those that dominate it in the code.
pub proof fn sharing_keeps_validity(f: FuncV, k: nat, n: nat)
    requires
        f.fault() is None,
        f.indexed(),
        dominators_come_first(f),
    ensures
        gvn_rounds(f, k, n).0.fault() is None,
    decreases k,
{
    assert forall|b: int| 0 <= b < f.blocks.len() implies (#[trigger] parent(f, b) matches Some(p) ==> p < b) by {
        dominating_parents_come_first(f, b, f.blocks.len() as int);
    }
    sharing_along_dominators_keeps_validity(f);
    sharing_along_dominators_keeps_flow(f);
    if k > 0 {
        let (g, m) = shared(f, tree_subst(f));
        same_flow_same_dominators(f, g);
        sharing_at_forks_keeps_validity(g);
        let (h, inserted) = forks_shared(g, g, 0, 0);
        verification_finds_the_valid_functions(g);
        every_function_grows_from_itself(g);
        forks_grow(g, g, 0, 0);
        assert(same_flow(g, h)) by {
            assert forall|b: int| 0 <= b < g.blocks.len() implies ((#[trigger] h.blocks[b]).term is Some
                <==> g.blocks[b].term is Some) && successors(h.blocks[b]) == successors(g.blocks[b]) by {
                assert(h.blocks[b].term == g.blocks[b].term);
            }
        }
        same_flow_same_dominators(g, h);
        if inserted == 0 {
            assert forall|b: int| 0 <= b < h.blocks.len() implies (#[trigger] parent(h, b) matches Some(p) ==> p
                < b) by {
                dominating_parents_come_first(h, b, h.blocks.len() as int);
            }
            sharing_along_dominators_keeps_validity(h);
        } else {
            sharing_keeps_validity(h, (k - 1) as nat, n + m);
        }
    }
}

} // verus!

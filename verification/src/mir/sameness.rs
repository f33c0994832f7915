//! Rewritten functions do what they did.
//!
//! Wherever an assignment of words agrees with a function, it agrees with the function after
//! sharing or combining, and every block goes the same way and returns the same words.
use super::cse::{
    anticipated, chosen_from, depth, empty_tree, fork_shared, forks_shared, growing_keeps_index, grown, gvn_rounds, held, held_in_range,
    key_inst, key_of,
    key_uses, keys_of_insts_in_range, movable_from, moves_to, nearest_is_a_block, numbered_from, on_every_side, outs_in_range, parent,
    shared, substituted, tree_subst, with_key, with_keys, ExprKey, NumberV, TreeV,
};
use super::eval::{
    agrees, agrees_with, computes, equal_keys_compute_the_same, has_keys, inst_value, renaming_keeps_values, result_ty,
    sharing_substitutes_equal_words, stands_for, typed,
};
use super::func::FuncV;
use super::heap::divides_integers;
use super::inst::{map_value, BlockId, InstV, TermV, ValueId};
use super::rewrite::{
    block_renamed, has_inst, map_in_range, pruned, pruning_keeps_index, removed, removing_keeps_index, renamed,
    renaming_keeps_index, staying, stays, without,
};
use super::ty::MirTy;
use crate::words::Machine;
use vstd::prelude::*;

verus! {

/// Where control goes at the end of a block.
pub ghost enum Way {
    To(BlockId),
    Back(Option<int>, Option<int>),
    Nowhere,
}

/// The word of an optional value.
pub open spec fn word_of(o: Option<ValueId>, env: Map<u32, int>) -> Option<int> {
    match o {
        Some(v) => Some(env[v.0]),
        None => None,
    }
}

/// The way that a terminator goes; `tags` gives the tag of a word that is matched.
pub open spec fn way(term: Option<TermV>, tags: spec_fn(int) -> int, env: Map<u32, int>) -> Way {
    match term {
        Some(TermV::Jump { dest }) => Way::To(dest),
        Some(TermV::Br { cond, taken, not_taken }) => Way::To(
            if env[cond.0] != 0 {
                taken
            } else {
                not_taken
            },
        ),
        Some(TermV::JumpIfMatch { scrutinee, tag, taken, not_taken, .. }) => Way::To(
            if tags(env[scrutinee.0]) == tag {
                taken
            } else {
                not_taken
            },
        ),
        Some(TermV::Return { lo, hi }) => Way::Back(word_of(lo, env), word_of(hi, env)),
        _ => Way::Nowhere,
    }
}

/// The assignment agrees with all blocks.
pub open spec fn agrees_everywhere(m: Machine, f: FuncV, env: Map<u32, int>) -> bool {
    forall|b: int| 0 <= b < f.blocks.len() ==> agrees_with(m, f.types, (#[trigger] f.blocks[b]).insts, env)
}

/// Results have the types that the instructions give them, in all blocks.
pub open spec fn typed_everywhere(f: FuncV) -> bool {
    forall|b: int| 0 <= b < f.blocks.len() ==> typed(f.types, (#[trigger] f.blocks[b]).insts)
}

/// The functions go the same way from every block, with each its own assignment.
pub open spec fn same_ways(
    f: FuncV,
    env: Map<u32, int>,
    g: FuncV,
    other: Map<u32, int>,
) -> bool {
    &&& g.blocks.len() == f.blocks.len()
    &&& forall|b: int, tags: spec_fn(int) -> int|
        0 <= b < f.blocks.len() ==> way(g.blocks[b].term, tags, other) == #[trigger] way(f.blocks[b].term, tags, env)
}

/// What is left of a list is part of it.
pub proof fn without_is_part(insts: Seq<InstV>, gone: Set<u32>, i: int, k: int) -> (j: int)
    requires
        0 <= i,
        0 <= k < without(insts, gone, i).len(),
    ensures
        i <= j < insts.len(),
        without(insts, gone, i)[k] == insts[j],
    decreases insts.len() - i,
{
    let rest = without(insts, gone, i + 1);
    if gone.contains(insts[i].dest().0) {
        assert(without(insts, gone, i) =~= rest);
        without_is_part(insts, gone, i + 1, k)
    } else if k == 0 {
        i
    } else {
        assert(without(insts, gone, i)[k] == rest[k - 1]);
        without_is_part(insts, gone, i + 1, k - 1)
    }
}

proof fn staying_is_part(f: FuncV, insts: Seq<InstV>, i: int, k: int) -> (j: int)
    requires
        0 <= i,
        0 <= k < staying(f, insts, i).len(),
    ensures
        i <= j < insts.len(),
        staying(f, insts, i)[k] == insts[j],
    decreases insts.len() - i,
{
    let rest = staying(f, insts, i + 1);
    if !stays(f, insts[i]) {
        assert(staying(f, insts, i) =~= rest);
        staying_is_part(f, insts, i + 1, k)
    } else if k == 0 {
        i
    } else {
        assert(staying(f, insts, i)[k] == rest[k - 1]);
        staying_is_part(f, insts, i + 1, k - 1)
    }
}

/// Renaming values to others with their words, and dropping instructions, keeps the function.
pub proof fn renaming_and_removing_keep_the_function(
    m: Machine,
    f: FuncV,
    subst: Map<u32, ValueId>,
    gone: Set<u32>,
    env: Map<u32, int>,
)
    requires
        agrees_everywhere(m, f, env),
        typed_everywhere(f),
        stands_for(f.types, subst, env),
    ensures
        agrees_everywhere(m, removed(renamed(f, subst), gone), env),
        typed_everywhere(removed(renamed(f, subst), gone)),
        same_ways(f, env, removed(renamed(f, subst), gone), env),
{
    let g = renamed(f, subst);
    let h = removed(g, gone);
    assert forall|v: ValueId| env[(#[trigger] map_value(subst, v)).0] == env[v.0] by {}
    assert forall|b: int| 0 <= b < h.blocks.len() implies agrees_with(m, h.types, (#[trigger] h.blocks[b]).insts, env)
        && typed(h.types, h.blocks[b].insts) by {
        let insts = h.blocks[b].insts;
        assert(agrees_with(m, f.types, f.blocks[b].insts, env));
        assert(typed(f.types, f.blocks[b].insts));
        assert forall|k: int| 0 <= k < insts.len() implies agrees(m, h.types, #[trigger] insts[k], env) && (
        computes(insts[k]) ==> h.types[insts[k].dest().0 as int] == result_ty(
            h.types,
            insts[k],
        )) by {
            let j = without_is_part(g.blocks[b].insts, gone, 0, k);
            let inst = f.blocks[b].insts[j];
            assert(insts[k] == inst.renamed(subst));
            assert(agrees(m, f.types, inst, env));
            renaming_keeps_values(m, f.types, inst, subst, env);
            if let InstV::Unary { src, .. } = inst {
                assert(subst.dom().contains(src.0) ==> f.types[src.0 as int] == f.types[subst[src.0].0 as int]);
            }
        }
    }
    assert forall|b: int, tags: spec_fn(int) -> int| 0 <= b < f.blocks.len() implies way(h.blocks[b].term, tags, env)
        == #[trigger] way(f.blocks[b].term, tags, env) by {
        assert(h.blocks[b].term == block_renamed(f.blocks[b], subst).term);
    }
}

/// Dropping code that nothing needs keeps the function.
pub proof fn pruning_keeps_the_function(m: Machine, f: FuncV, env: Map<u32, int>)
    requires
        agrees_everywhere(m, f, env),
        typed_everywhere(f),
    ensures
        agrees_everywhere(m, pruned(f), env),
        typed_everywhere(pruned(f)),
        same_ways(f, env, pruned(f), env),
{
    let h = pruned(f);
    assert forall|b: int| 0 <= b < h.blocks.len() implies agrees_with(m, h.types, (#[trigger] h.blocks[b]).insts, env)
        && typed(h.types, h.blocks[b].insts) by {
        let insts = h.blocks[b].insts;
        assert(agrees_with(m, f.types, f.blocks[b].insts, env));
        assert(typed(f.types, f.blocks[b].insts));
        assert forall|k: int| 0 <= k < insts.len() implies agrees(m, h.types, #[trigger] insts[k], env) && (
        computes(insts[k]) ==> h.types[insts[k].dest().0 as int] == result_ty(
            h.types,
            insts[k],
        )) by {
            let j = staying_is_part(f, f.blocks[b].insts, 0, k);
            assert(agrees(m, f.types, f.blocks[b].insts[j], env));
        }
    }
    assert forall|b: int, tags: spec_fn(int) -> int| 0 <= b < f.blocks.len() implies way(h.blocks[b].term, tags, env)
        == #[trigger] way(f.blocks[b].term, tags, env) by {
        assert(h.blocks[b].term == f.blocks[b].term);
    }
}

/// Sharing with values that stand for equal words keeps the function.
pub proof fn sharing_keeps_the_function(m: Machine, f: FuncV, subst: Map<u32, ValueId>, env: Map<u32, int>)
    requires
        agrees_everywhere(m, f, env),
        typed_everywhere(f),
        stands_for(f.types, subst, env),
    ensures
        agrees_everywhere(m, shared(f, subst).0, env),
        typed_everywhere(shared(f, subst).0),
        same_ways(f, env, shared(f, subst).0, env),
{
    let h = removed(renamed(f, subst), subst.dom());
    renaming_and_removing_keep_the_function(m, f, subst, subst.dom(), env);
    pruning_keeps_the_function(m, h, env);
    let g = substituted(f, subst);
    assert forall|b: int, tags: spec_fn(int) -> int| 0 <= b < f.blocks.len() implies way(g.blocks[b].term, tags, env)
        == #[trigger] way(f.blocks[b].term, tags, env) by {
        assert(way(h.blocks[b].term, tags, env) == way(f.blocks[b].term, tags, env));
    }
}

// Sharing inside blocks.

proof fn block_numbers_stand_for_words(m: Machine, f: FuncV, subst: Map<u32, ValueId>, b: int, env: Map<u32, int>)
    requires
        m.commutes(),
        0 <= b,
        agrees_everywhere(m, f, env),
        typed_everywhere(f),
        stands_for(f.types, subst, env),
    ensures
        stands_for(f.types, numbered_from(f, subst, b), env),
    decreases f.blocks.len() - b,
{
    if b < f.blocks.len() {
        let n = NumberV { subst, avail: Seq::empty() };
        assert(agrees_with(m, f.types, f.blocks[b].insts, env));
        assert(typed(f.types, f.blocks[b].insts));
        sharing_substitutes_equal_words(m, f.types, n, f.blocks[b].insts, None, 0, env);
        block_numbers_stand_for_words(m, f, n.seen_from(f.blocks[b].insts, None, 0).subst, b + 1, env);
    }
}

/// Sharing computations inside blocks keeps the function: it goes the same ways and returns the
/// same words.
pub proof fn sharing_in_blocks_keeps_the_function(m: Machine, f: FuncV, env: Map<u32, int>)
    requires
        m.commutes(),
        agrees_everywhere(m, f, env),
        typed_everywhere(f),
    ensures
        agrees_everywhere(m, shared(f, numbered_from(f, Map::empty(), 0)).0, env),
        same_ways(f, env, shared(f, numbered_from(f, Map::empty(), 0)).0, env),
{
    block_numbers_stand_for_words(m, f, Map::empty(), 0, env);
    sharing_keeps_the_function(m, f, numbered_from(f, Map::empty(), 0), env);
}

// Sharing along dominators.

/// What holds at the end of each block has its word.
pub open spec fn tree_right(m: Machine, f: FuncV, t: TreeV, env: Map<u32, int>) -> bool {
    &&& t.outs.len() == f.blocks.len()
    &&& stands_for(f.types, t.subst, env)
    &&& forall|b: int| 0 <= b < t.outs.len() ==> has_keys(m, f.types, #[trigger] t.outs[b], env)
}

proof fn tree_numbers_stand_for_words(m: Machine, f: FuncV, t: TreeV, d: int, b: int, env: Map<u32, int>)
    requires
        m.commutes(),
        0 <= b,
        agrees_everywhere(m, f, env),
        typed_everywhere(f),
        tree_right(m, f, t, env),
    ensures
        stands_for(f.types, t.seen_from(f, d, b).subst, env),
    decreases f.blocks.len() + 1 - d, f.blocks.len() + 1 - b,
{
    if d > f.blocks.len() {
    } else if b >= f.blocks.len() {
        tree_numbers_stand_for_words(m, f, t, d + 1, 0, env);
    } else if depth(f, b) == d {
        let avail = match parent(f, b) {
            Some(p) => t.outs[p],
            None => Seq::empty(),
        };
        let n = NumberV { subst: t.subst, avail };
        let home = Some((f, BlockId(b as u32)));
        assert(agrees_with(m, f.types, f.blocks[b].insts, env));
        assert(typed(f.types, f.blocks[b].insts));
        if parent(f, b) is Some {
            nearest_is_a_block(f, b, f.blocks.len() as int);
            assert(has_keys(m, f.types, t.outs[parent(f, b)->0], env));
        }
        sharing_substitutes_equal_words(m, f.types, n, f.blocks[b].insts, home, 0, env);
        let u = t.block_seen(f, b);
        assert forall|x: int| 0 <= x < u.outs.len() implies has_keys(m, f.types, #[trigger] u.outs[x], env) by {
            if x != b {
                assert(u.outs[x] == t.outs[x]);
            }
        }
        tree_numbers_stand_for_words(m, f, u, d, b + 1, env);
    } else {
        tree_numbers_stand_for_words(m, f, t, d, b + 1, env);
    }
}

/// Sharing computations along dominators keeps the function.
pub proof fn sharing_along_dominators_keeps_the_function(m: Machine, f: FuncV, env: Map<u32, int>)
    requires
        m.commutes(),
        agrees_everywhere(m, f, env),
        typed_everywhere(f),
    ensures
        agrees_everywhere(m, shared(f, tree_subst(f)).0, env),
        typed_everywhere(shared(f, tree_subst(f)).0),
        same_ways(f, env, shared(f, tree_subst(f)).0, env),
{
    let t = empty_tree(f);
    assert forall|b: int| 0 <= b < t.outs.len() implies has_keys(m, f.types, #[trigger] t.outs[b], env) by {
        assert(t.outs[b] =~= Seq::<(ExprKey, ValueId)>::empty());
    }
    tree_numbers_stand_for_words(m, f, t, 0, 0, env);
    sharing_keeps_the_function(m, f, tree_subst(f), env);
}

// Sharing at forks.

/// Some instruction computes the key.
pub open spec fn present(g: FuncV, key: ExprKey) -> bool {
    exists|p: int, i: int| has_inst(g, p, i) && #[trigger] key_of(g.blocks[p].insts[i]) == Some(key)
}

pub open spec fn all_present(g: FuncV, keys: Seq<ExprKey>) -> bool {
    forall|k: int| 0 <= k < keys.len() ==> present(g, #[trigger] keys[k])
}

/// The same instruction has the same value among more types and words.
proof fn more_words_same_value(
    m: Machine,
    g: FuncV,
    inst: InstV,
    ty: MirTy,
    env: Map<u32, int>,
    v: u32,
    x: int,
)
    requires
        g.inst_indexed(inst),
        v == g.types.len(),
    ensures
        inst_value(m, g.types.push(ty), inst, env.insert(v, x)) == inst_value(m, g.types, inst, env),
        result_ty(g.types.push(ty), inst) == result_ty(g.types, inst),
        env.insert(v, x)[inst.dest().0] == env[inst.dest().0],
        g.types.push(ty)[inst.dest().0 as int] == g.types[inst.dest().0 as int],
{
    let us = inst.uses();
    match inst {
        InstV::Bin { lhs, rhs, .. } => {
            assert(us[0] == lhs && us[1] == rhs);
        },
        InstV::Cmp { lhs, rhs, .. } => {
            assert(us[0] == lhs && us[1] == rhs);
        },
        InstV::Unary { src, .. } => {
            assert(us[0] == src);
        },
        InstV::Cast { src, .. } => {
            assert(us[0] == src);
        },
        _ => {},
    }
}

/// The terminator reads the same words among more.
proof fn more_words_same_way(g: FuncV, t: TermV, tags: spec_fn(int) -> int, env: Map<u32, int>, v: u32, x: int)
    requires
        g.term_indexed(t),
        v == g.types.len(),
    ensures
        way(Some(t), tags, env.insert(v, x)) == way(Some(t), tags, env),
{
    let us = t.uses();
    match t {
        TermV::Br { cond, .. } => {
            assert(us[0] == cond);
        },
        TermV::JumpIfMatch { scrutinee, .. } => {
            assert(us[0] == scrutinee);
        },
        TermV::Return { lo, hi } => {
            if lo is Some {
                assert(us[0] == lo->0);
            }
            if hi is Some {
                assert(us[us.len() - 1] == hi->0);
            }
        },
        _ => {},
    }
}

/// A computation that the code makes anyway, made at the end of another block too.
proof fn one_more_computation(m: Machine, f: FuncV, g: FuncV, b: int, key: ExprKey, env: Map<u32, int>) -> (other: Map<
    u32,
    int,
>)
    requires
        m.commutes(),
        grown(f, g),
        0 <= b < g.blocks.len(),
        g.types.len() < u32::MAX,
        agrees_everywhere(m, g, env),
        typed_everywhere(g),
        present(g, key),
    ensures
        grown(f, with_key(g, b, key)),
        agrees_everywhere(m, with_key(g, b, key), other),
        typed_everywhere(with_key(g, b, key)),
        same_ways(g, env, with_key(g, b, key), other),
        forall|k: ExprKey| present(g, k) ==> present(with_key(g, b, key), k),
{
    let h = with_key(g, b, key);
    let v = g.types.len() as u32;
    let new = key_inst(key, ValueId(v));
    let (p, i) = choose|p: int, i: int| has_inst(g, p, i) && #[trigger] key_of(g.blocks[p].insts[i]) == Some(key);
    let inst = g.blocks[p].insts[i];
    assert(g.block_indexed(g.blocks[p], p));
    assert(g.inst_indexed(inst));
    keys_of_insts_in_range(g, inst);
    assert(key_of(inst)->0 == key);
    assert forall|k: int| 0 <= k < key_uses(key).len() implies (#[trigger] key_uses(key)[k]).0 < g.types.len() by {
        assert(key_uses(key_of(inst)->0)[k].0 < g.types.len());
    }
    growing_keeps_index(f, g, b, key);
    let ty = h.types[v as int];
    assert(h.types =~= g.types.push(ty));
    assert(key_of(new) == Some(key));
    equal_keys_compute_the_same(m, g.types, inst, new, env);
    assert(agrees_with(m, g.types, g.blocks[p].insts, env));
    assert(agrees(m, g.types, inst, env));
    let x = env[inst.dest().0];
    let other = env.insert(v, x);
    assert(new.uses() =~= key_uses(key));
    assert(inst_value(m, h.types, new, other) == inst_value(m, g.types, new, env) && result_ty(h.types, new) == ty) by {
        let us = new.uses();
        assert forall|k: int| 0 <= k < us.len() implies (#[trigger] us[k]).0 < g.types.len() by {
            assert(key_uses(key)[k].0 < g.types.len());
        }
        match new {
            InstV::Bin { lhs, rhs, .. } => {
                assert(us[0] == lhs && us[1] == rhs);
            },
            InstV::Cmp { lhs, rhs, .. } => {
                assert(us[0] == lhs && us[1] == rhs);
            },
            InstV::Unary { src, .. } => {
                assert(us[0] == src);
            },
            InstV::Cast { src, .. } => {
                assert(us[0] == src);
            },
            _ => {},
        }
    }
    assert forall|c: int| 0 <= c < h.blocks.len() implies agrees_with(m, h.types, (#[trigger] h.blocks[c]).insts, other)
        && typed(h.types, h.blocks[c].insts) by {
        let insts = h.blocks[c].insts;
        assert(agrees_with(m, g.types, g.blocks[c].insts, env));
        assert(typed(g.types, g.blocks[c].insts));
        assert(g.block_indexed(g.blocks[c], c));
        assert forall|k: int| 0 <= k < insts.len() implies agrees(m, h.types, #[trigger] insts[k], other) && (computes(
            insts[k],
        ) ==> h.types[insts[k].dest().0 as int] == result_ty(h.types, insts[k])) by {
            if k < g.blocks[c].insts.len() {
                let old_inst = g.blocks[c].insts[k];
                assert(insts[k] == old_inst);
                assert(agrees(m, g.types, old_inst, env));
                assert(g.inst_indexed(old_inst));
                more_words_same_value(m, g, old_inst, ty, env, v, x);
            } else {
                assert(insts[k] == new);
            }
        }
    }
    assert forall|c: int, tags: spec_fn(int) -> int| 0 <= c < g.blocks.len() implies way(h.blocks[c].term, tags, other)
        == #[trigger] way(g.blocks[c].term, tags, env) by {
        assert(g.block_indexed(g.blocks[c], c));
        if let Some(t) = g.blocks[c].term {
            more_words_same_way(g, t, tags, env, v, x);
        }
    }
    assert forall|k: ExprKey| present(g, k) implies present(h, k) by {
        let (q, j) = choose|q: int, j: int| has_inst(g, q, j) && #[trigger] key_of(g.blocks[q].insts[j]) == Some(k);
        assert(h.blocks[q].insts[j] == g.blocks[q].insts[j]);
        assert(has_inst(h, q, j));
    }
    other
}

/// Going the same ways twice is going the same ways.
pub proof fn same_ways_are_joined(
    f: FuncV,
    a: Map<u32, int>,
    g: FuncV,
    b: Map<u32, int>,
    h: FuncV,
    c: Map<u32, int>,
)
    requires
        same_ways(f, a, g, b),
        same_ways(g, b, h, c),
    ensures
        same_ways(f, a, h, c),
{
    assert forall|x: int, tags: spec_fn(int) -> int| 0 <= x < f.blocks.len() implies way(h.blocks[x].term, tags, c)
        == #[trigger] way(f.blocks[x].term, tags, a) by {
        assert(way(g.blocks[x].term, tags, b) == way(f.blocks[x].term, tags, a));
        assert(way(h.blocks[x].term, tags, c) == way(g.blocks[x].term, tags, b));
    }
}

proof fn more_computations(
    m: Machine,
    f: FuncV,
    g: FuncV,
    b: int,
    keys: Seq<ExprKey>,
    i: int,
    n: nat,
    env: Map<u32, int>,
) -> (other: Map<u32, int>)
    requires
        m.commutes(),
        grown(f, g),
        0 <= b < g.blocks.len(),
        0 <= i,
        agrees_everywhere(m, g, env),
        typed_everywhere(g),
        all_present(g, keys),
    ensures
        grown(f, with_keys(g, b, keys, i, n).0),
        agrees_everywhere(m, with_keys(g, b, keys, i, n).0, other),
        typed_everywhere(with_keys(g, b, keys, i, n).0),
        same_ways(g, env, with_keys(g, b, keys, i, n).0, other),
    decreases keys.len() - i,
{
    if i >= keys.len() || g.types.len() >= u32::MAX {
        env
    } else {
        assert(present(g, keys[i]));
        let e = one_more_computation(m, f, g, b, keys[i], env);
        let h = with_key(g, b, keys[i]);
        assert forall|k: int| 0 <= k < keys.len() implies present(h, #[trigger] keys[k]) by {
            assert(present(g, keys[k]));
        }
        let other = more_computations(m, f, h, b, keys, i + 1, n + 1, e);
        same_ways_are_joined(g, env, h, e, with_keys(h, b, keys, i + 1, n + 1).0, other);
        other
    }
}

proof fn movable_keys_are_present(f: FuncV, g: FuncV, s: int, b: int, i: int, acc: Seq<ExprKey>)
    requires
        0 <= s < g.blocks.len(),
        0 <= i,
        all_present(g, acc),
        forall|k: int, x: InstV| #![trigger acc[k], divides_integers(x)]
            0 <= k < acc.len() && key_of(x) == Some(acc[k]) ==> !divides_integers(x),
    ensures
        all_present(g, movable_from(f, g.blocks[s].insts, b, i, acc)),
        forall|k: int, x: InstV| #![trigger movable_from(f, g.blocks[s].insts, b, i, acc)[k], divides_integers(x)]
            0 <= k < movable_from(f, g.blocks[s].insts, b, i, acc).len() && key_of(x) == Some(
                movable_from(f, g.blocks[s].insts, b, i, acc)[k],
            ) ==> !divides_integers(x),
    decreases g.blocks[s].insts.len() - i,
{
    let insts = g.blocks[s].insts;
    if i < insts.len() {
        if moves_to(f, insts[i], b) && !acc.contains(key_of(insts[i])->0) {
            let key = key_of(insts[i])->0;
            assert(has_inst(g, s, i) && key_of(g.blocks[s].insts[i]) == Some(key));
            let more = acc.push(key);
            assert forall|k: int| 0 <= k < more.len() implies present(g, #[trigger] more[k]) by {
                if k < acc.len() {
                    assert(present(g, acc[k]));
                }
            }
            assert forall|k: int, x: InstV| #![trigger more[k], divides_integers(x)]
                0 <= k < more.len() && key_of(x) == Some(more[k]) implies !divides_integers(x) by {
                if k < acc.len() {
                    assert(more[k] == acc[k]);
                }
            }
            movable_keys_are_present(f, g, s, b, i + 1, more);
        } else {
            movable_keys_are_present(f, g, s, b, i + 1, acc);
        }
    }
}

proof fn chosen_keys_are_keys(f: FuncV, g: FuncV, targets: Seq<BlockId>, b: int, keys: Seq<ExprKey>, i: int, k: int) -> (j:
    int)
    requires
        0 <= i,
        0 <= k < chosen_from(f, g, targets, b, keys, i).len(),
    ensures
        i <= j < keys.len(),
        chosen_from(f, g, targets, b, keys, i)[k] == keys[j],
        on_every_side(f, g, targets, b, keys[j], 0),
    decreases keys.len() - i,
{
    let all = chosen_from(f, g, targets, b, keys, i);
    let rest = chosen_from(f, g, targets, b, keys, i + 1);
    if all.len() == rest.len() {
        assert(all =~= rest);
        chosen_keys_are_keys(f, g, targets, b, keys, i + 1, k)
    } else if k == 0 {
        i
    } else {
        assert(all[k] == rest[k - 1]);
        chosen_keys_are_keys(f, g, targets, b, keys, i + 1, k - 1)
    }
}

/// A fork takes over what every block that it leads to computes, and nothing that may trap.
pub proof fn forks_take_what_every_side_computes(f: FuncV, g: FuncV, targets: Seq<BlockId>, b: int, k: int, t: int)
    requires
        targets.len() > 0,
        targets[0].0 < g.blocks.len(),
        0 <= t < targets.len(),
        ({
            let keys = movable_from(f, g.blocks[targets[0].0 as int].insts, b, 0, Seq::empty());
            0 <= k < chosen_from(f, g, targets, b, keys, 0).len()
        }),
    ensures
        ({
            let keys = movable_from(f, g.blocks[targets[0].0 as int].insts, b, 0, Seq::empty());
            let key = chosen_from(f, g, targets, b, keys, 0)[k];
            let insts = g.blocks[targets[t].0 as int].insts;
            &&& exists|i: int| 0 <= i < insts.len() && key_of(#[trigger] insts[i]) == Some(key)
            &&& forall|x: InstV| key_of(x) == Some(key) ==> !#[trigger] divides_integers(x)
        }),
{
    let s = targets[0].0 as int;
    let keys = movable_from(f, g.blocks[s].insts, b, 0, Seq::empty());
    let j = chosen_keys_are_keys(f, g, targets, b, keys, 0, k);
    movable_keys_are_present(f, g, s, b, 0, Seq::empty());
    assert(anticipated(f, g, targets[t].0 as int, b, keys[j]));
}

proof fn forks_keep_the_function(
    m: Machine,
    f: FuncV,
    g: FuncV,
    b: int,
    n: nat,
    env: Map<u32, int>,
) -> (other: Map<u32, int>)
    requires
        m.commutes(),
        f.indexed(),
        grown(f, g),
        0 <= b,
        agrees_everywhere(m, g, env),
        typed_everywhere(g),
    ensures
        grown(f, forks_shared(f, g, b, n).0),
        agrees_everywhere(m, forks_shared(f, g, b, n).0, other),
        typed_everywhere(forks_shared(f, g, b, n).0),
        same_ways(g, env, forks_shared(f, g, b, n).0, other),
    decreases f.blocks.len() - b,
{
    if b >= f.blocks.len() {
        env
    } else {
        let (h, k) = fork_shared(f, g, b, n);
        let mut e = env;
        if let Some(t) = f.blocks[b].term {
            if t.targets().len() >= 2 {
                assert(f.block_indexed(f.blocks[b], b));
                let s = t.targets()[0].0 as int;
                let keys = movable_from(f, g.blocks[s].insts, b, 0, Seq::empty());
                movable_keys_are_present(f, g, s, b, 0, Seq::empty());
                let chosen = chosen_from(f, g, t.targets(), b, keys, 0);
                assert forall|x: int| 0 <= x < chosen.len() implies present(g, #[trigger] chosen[x]) by {
                    let j = chosen_keys_are_keys(f, g, t.targets(), b, keys, 0, x);
                    assert(present(g, keys[j]));
                }
                e = more_computations(m, f, g, b, chosen, 0, n, env);
            }
        }
        assert(same_ways(g, env, h, e));
        let other = forks_keep_the_function(m, f, h, b + 1, k, e);
        same_ways_are_joined(g, env, h, e, forks_shared(f, h, b + 1, k).0, other);
        other
    }
}

proof fn seeing_keeps_range(f: FuncV, n: NumberV, insts: Seq<InstV>, home: Option<(FuncV, BlockId)>, i: int)
    requires
        0 <= i,
        n.in_range(f),
        forall|k: int| 0 <= k < insts.len() ==> f.inst_indexed(#[trigger] insts[k]),
    ensures
        n.seen_from(insts, home, i).in_range(f),
    decreases insts.len() - i,
{
    if i < insts.len() {
        let here = insts[i].renamed(n.subst);
        assert(f.inst_indexed(insts[i]));
        if !here.phi() && key_of(here) is Some {
            let key = key_of(here)->0;
            if held(n.avail, key, n.avail.len() as int) is Some {
                held_in_range(n.avail, key, n.avail.len() as int, f);
            }
        }
        seeing_keeps_range(f, n.seen(insts[i], home), insts, home, i + 1);
    }
}

proof fn tree_keeps_range(f: FuncV, t: TreeV, d: int, b: int)
    requires
        f.indexed(),
        0 <= b,
        t.outs.len() == f.blocks.len(),
        map_in_range(f, t.subst),
        outs_in_range(f, t.outs),
    ensures
        map_in_range(f, t.seen_from(f, d, b).subst),
    decreases f.blocks.len() + 1 - d, f.blocks.len() + 1 - b,
{
    if d > f.blocks.len() {
    } else if b >= f.blocks.len() {
        tree_keeps_range(f, t, d + 1, 0);
    } else if depth(f, b) == d {
        let avail = match parent(f, b) {
            Some(p) => t.outs[p],
            None => Seq::empty(),
        };
        let n = NumberV { subst: t.subst, avail };
        let home = Some((f, BlockId(b as u32)));
        nearest_is_a_block(f, b, f.blocks.len() as int);
        assert forall|i: int| 0 <= i < avail.len() implies (#[trigger] avail[i]).1.0 < f.types.len() by {
            let p = parent(f, b)->0;
            assert(t.outs[p][i] == avail[i]);
        }
        assert(f.block_indexed(f.blocks[b], b));
        seeing_keeps_range(f, n, f.blocks[b].insts, home, 0);
        let after = n.seen_from(f.blocks[b].insts, home, 0);
        let u = t.block_seen(f, b);
        assert forall|x: int, i: int| 0 <= x < u.outs.len() && 0 <= i < u.outs[x].len() implies (
        #[trigger] u.outs[x][i]).1.0 < f.types.len() by {
            if x != b {
                assert(u.outs[x][i] == t.outs[x][i]);
            } else {
                assert(u.outs[x][i] == after.avail[i]);
            }
        }
        tree_keeps_range(f, u, d, b + 1);
    } else {
        tree_keeps_range(f, t, d, b + 1);
    }
}

/// Sharing along dominators keeps a function indexed.
proof fn sharing_keeps_index(f: FuncV)
    requires
        f.indexed(),
    ensures
        shared(f, tree_subst(f)).0.indexed(),
{
    let subst = tree_subst(f);
    tree_keeps_range(f, empty_tree(f), 0, 0);
    renaming_keeps_index(f, subst);
    removing_keeps_index(renamed(f, subst), subst.dom());
    pruning_keeps_index(removed(renamed(f, subst), subst.dom()));
}

/// Sharing computations along dominators and at forks, round by round, keeps the function: with the
/// words of the values that forks add, an assignment that agreed with the code agrees with what
/// comes out, and every block goes the same way and returns the same words.
pub proof fn sharing_rounds_keep_the_function(m: Machine, f: FuncV, k: nat, n: nat, env: Map<u32, int>) -> (other: Map<
    u32,
    int,
>)
    requires
        m.commutes(),
        f.indexed(),
        agrees_everywhere(m, f, env),
        typed_everywhere(f),
    ensures
        agrees_everywhere(m, gvn_rounds(f, k, n).0, other),
        same_ways(f, env, gvn_rounds(f, k, n).0, other),
    decreases k,
{
    let g = shared(f, tree_subst(f)).0;
    sharing_along_dominators_keeps_the_function(m, f, env);
    if k == 0 {
        env
    } else {
        sharing_keeps_index(f);
        let (h, inserted) = forks_shared(g, g, 0, 0);
        let e = forks_keep_the_function(m, g, g, 0, 0, env);
        same_ways_are_joined(f, env, g, env, h, e);
        if inserted == 0 {
            sharing_along_dominators_keeps_the_function(m, h, e);
            same_ways_are_joined(f, env, h, e, shared(h, tree_subst(h)).0, e);
            e
        } else {
            let m2 = shared(f, tree_subst(f)).1;
            let other = sharing_rounds_keep_the_function(m, h, (k - 1) as nat, n + m2, e);
            same_ways_are_joined(f, env, h, e, gvn_rounds(h, (k - 1) as nat, n + m2).0, other);
            other
        }
    }
}

} // verus!

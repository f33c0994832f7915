//! Forwarding phis keeps functions.
//!
//! A phi has the word of one of its arguments: of the one on the edge that control took. That
//! argument had its word before the phi had it; ages of values say so.
use super::destprop::{forward_rounds, forwarded_once, forwards, settled, source_from, source_of, swept_from, swept_in};
use super::eval::stands_for;
use super::func::FuncV;
use super::inst::{map_value, BlockId, InstV, ValueId};
use super::instcombine::redirected;
use super::rewrite::{has_inst, removed, renamed};
use super::sameness::{
    agrees_everywhere, renaming_and_removing_keep_the_function, same_ways, same_ways_are_joined, typed_everywhere,
    without_is_part,
};
use super::ty::MirTy;
use crate::words::Machine;
use vstd::prelude::*;

verus! {

/// Argument `j` of the phi gave it its word, and had it first.
pub open spec fn came_by(inst: InstV, j: int, env: Map<u32, int>, age: Map<u32, int>) -> bool {
    let args = inst->Phi_args;
    &&& 0 <= j < args.len()
    &&& env[inst.dest().0] == env[args[j].1.0]
    &&& age[args[j].1.0] < age[inst.dest().0]
}

/// A phi has the word of an argument, and the type of its result.
pub open spec fn phi_right(f: FuncV, inst: InstV, env: Map<u32, int>, age: Map<u32, int>) -> bool {
    inst is Phi ==> {
        &&& exists|j: int| #[trigger] came_by(inst, j, env, age)
        &&& inst.dest().0 < f.types.len()
        &&& f.types[inst.dest().0 as int] == inst->Phi_ty
        &&& forall|j: int| 0 <= j < inst->Phi_args.len() ==> (#[trigger] inst->Phi_args[j]).1.0 < f.types.len()
    }
}

pub open spec fn phis_right(f: FuncV, env: Map<u32, int>, age: Map<u32, int>) -> bool {
    forall|b: int, i: int| has_inst(f, b, i) ==> phi_right(f, #[trigger] f.blocks[b].insts[i], env, age)
}

/// Values stand for others with their words and types that had them first.
pub open spec fn older(f: FuncV, m: Map<u32, ValueId>, env: Map<u32, int>, age: Map<u32, int>) -> bool {
    &&& stands_for(f.types, m, env)
    &&& forall|k: u32| #[trigger] m.dom().contains(k) ==> age[m[k].0] < age[k] && m[k].0 < f.types.len()
}

/// All arguments from `i` on are the one source or the phi itself.
proof fn sources_are_common(
    f: FuncV,
    dest: ValueId,
    ty: MirTy,
    args: Seq<(BlockId, ValueId)>,
    m: Map<u32, ValueId>,
    i: int,
    same: Option<ValueId>,
)
    requires
        0 <= i,
        source_from(f, dest, ty, args, m, i, same) is Some,
        same matches Some(v) ==> f.ty(v) == ty,
    ensures
        ({
            let v = source_from(f, dest, ty, args, m, i, same)->0;
            &&& f.ty(v) == ty
            &&& same is Some ==> same == Some(v)
            &&& forall|j: int|
                i <= j < args.len() ==> map_value(m, (#[trigger] args[j]).1) == v || map_value(m, args[j].1) == dest
        }),
    decreases args.len() - i,
{
    if i < args.len() {
        let v = map_value(m, args[i].1);
        if v == dest {
            sources_are_common(f, dest, ty, args, m, i + 1, same);
        } else {
            sources_are_common(f, dest, ty, args, m, i + 1, Some(v));
        }
    }
}

/// What a phi gives way to has its word.
proof fn sources_have_the_word(
    f: FuncV,
    inst: InstV,
    m: Map<u32, ValueId>,
    env: Map<u32, int>,
    age: Map<u32, int>,
)
    requires
        phi_right(f, inst, env, age),
        older(f, m, env, age),
        source_of(f, inst, m) is Some,
    ensures
        ({
            let v = source_of(f, inst, m)->0;
            &&& env[v.0] == env[inst.dest().0]
            &&& age[v.0] < age[inst.dest().0]
            &&& v.0 < f.types.len()
            &&& f.types[v.0 as int] == f.types[inst.dest().0 as int]
        }),
{
    let v = source_of(f, inst, m)->0;
    let args = inst->Phi_args;
    let dest = inst.dest();
    sources_are_common(f, dest, inst->Phi_ty, args, m, 0, None);
    let j = choose|j: int| #[trigger] came_by(inst, j, env, age);
    let a = args[j].1;
    assert(a.0 < f.types.len());
    if m.dom().contains(a.0) {
        assert(age[m[a.0].0] < age[a.0]);
    }
    assert(map_value(m, a) == v);
}

/// Giving way keeps words and ages.
proof fn redirecting_keeps_ages(
    f: FuncV,
    m: Map<u32, ValueId>,
    d: ValueId,
    keep: ValueId,
    env: Map<u32, int>,
    age: Map<u32, int>,
)
    requires
        older(f, m, env, age),
        env[keep.0] == env[d.0],
        age[keep.0] < age[d.0],
        keep.0 < f.types.len(),
        f.types[keep.0 as int] == f.types[d.0 as int],
    ensures
        older(f, redirected(m, d, keep), env, age),
{
    let n = redirected(m, d, keep);
    assert forall|k: u32| #[trigger] n.dom().contains(k) implies env[k] == env[n[k].0] && f.types[k as int]
        == f.types[n[k].0 as int] && age[n[k].0] < age[k] && n[k].0 < f.types.len() by {
        if k != d.0 {
            assert(m.dom().contains(k));
        }
    }
}

proof fn sweeping_keeps_ages(
    f: FuncV,
    b: int,
    i: int,
    m: Map<u32, ValueId>,
    found: bool,
    env: Map<u32, int>,
    age: Map<u32, int>,
)
    requires
        phis_right(f, env, age),
        0 <= b < f.blocks.len(),
        0 <= i,
        older(f, m, env, age),
    ensures
        older(f, swept_in(f, f.blocks[b].insts, i, m, found).0, env, age),
    decreases f.blocks[b].insts.len() - i,
{
    let insts = f.blocks[b].insts;
    if i < insts.len() {
        assert(has_inst(f, b, i));
        match source_of(f, insts[i], m) {
            Some(keep) => {
                sources_have_the_word(f, insts[i], m, env, age);
                redirecting_keeps_ages(f, m, insts[i].dest(), keep, env, age);
                sweeping_keeps_ages(f, b, i + 1, redirected(m, insts[i].dest(), keep), true, env, age);
            },
            None => sweeping_keeps_ages(f, b, i + 1, m, found, env, age),
        }
    }
}

proof fn sweeping_all_keeps_ages(
    f: FuncV,
    b: int,
    m: Map<u32, ValueId>,
    found: bool,
    env: Map<u32, int>,
    age: Map<u32, int>,
)
    requires
        phis_right(f, env, age),
        0 <= b,
        older(f, m, env, age),
    ensures
        older(f, swept_from(f, b, m, found).0, env, age),
    decreases f.blocks.len() - b,
{
    if b < f.blocks.len() {
        sweeping_keeps_ages(f, b, 0, m, found, env, age);
        let (n, more) = swept_in(f, f.blocks[b].insts, 0, m, found);
        sweeping_all_keeps_ages(f, b + 1, n, more, env, age);
    }
}

proof fn settling_keeps_ages(f: FuncV, m: Map<u32, ValueId>, k: nat, env: Map<u32, int>, age: Map<u32, int>)
    requires
        phis_right(f, env, age),
        older(f, m, env, age),
    ensures
        older(f, settled(f, m, k), env, age),
    decreases k,
{
    if k > 0 {
        sweeping_all_keeps_ages(f, 0, m, false, env, age);
        let (n, found) = swept_from(f, 0, m, false);
        if found {
            settling_keeps_ages(f, n, (k - 1) as nat, env, age);
        }
    }
}

/// Every value that a phi gives way to has the phi's word.
pub proof fn forwarded_phis_have_the_word(f: FuncV, env: Map<u32, int>, age: Map<u32, int>)
    requires
        phis_right(f, env, age),
    ensures
        older(f, forwards(f), env, age),
{
    settling_keeps_ages(f, Map::empty(), (f.types.len() + 1) as nat, env, age);
}

proof fn one_round_keeps_the_function(m: Machine, f: FuncV, env: Map<u32, int>, age: Map<u32, int>)
    requires
        agrees_everywhere(m, f, env),
        typed_everywhere(f),
        phis_right(f, env, age),
    ensures
        agrees_everywhere(m, forwarded_once(f).0, env),
        typed_everywhere(forwarded_once(f).0),
        phis_right(forwarded_once(f).0, env, age),
        same_ways(f, env, forwarded_once(f).0, env),
{
    let map = forwards(f);
    forwarded_phis_have_the_word(f, env, age);
    renaming_and_removing_keep_the_function(m, f, map, map.dom(), env);
    let g = renamed(f, map);
    let h = removed(g, map.dom());
    assert forall|b: int, i: int| has_inst(h, b, i) implies phi_right(h, #[trigger] h.blocks[b].insts[i], env, age) by {
        let k = without_is_part(g.blocks[b].insts, map.dom(), 0, i);
        let inst = f.blocks[b].insts[k];
        let new = h.blocks[b].insts[i];
        assert(new == inst.renamed(map));
        assert(has_inst(f, b, k));
        assert(phi_right(f, inst, env, age));
        if inst is Phi {
            let j = choose|j: int| #[trigger] came_by(inst, j, env, age);
            let a = inst->Phi_args[j].1;
            assert(new->Phi_args[j].1 == map_value(map, a));
            if map.dom().contains(a.0) {
                assert(age[map[a.0].0] < age[a.0]);
            }
            assert(came_by(new, j, env, age));
            assert forall|x: int| 0 <= x < new->Phi_args.len() implies (#[trigger] new->Phi_args[x]).1.0
                < h.types.len() by {
                let y = inst->Phi_args[x].1;
                assert(new->Phi_args[x].1 == map_value(map, y));
                if map.dom().contains(y.0) {
                    assert(map[y.0].0 < f.types.len());
                }
            }
        }
    }
}

/// Forwarding phis, round by round, keeps the function: an assignment in which every phi has the
/// word of an argument agrees with what comes out, and every block goes the same way and returns
/// the same words.
pub proof fn forwarding_keeps_the_function(
    m: Machine,
    f: FuncV,
    k: nat,
    n: nat,
    env: Map<u32, int>,
    age: Map<u32, int>,
)
    requires
        agrees_everywhere(m, f, env),
        typed_everywhere(f),
        phis_right(f, env, age),
    ensures
        agrees_everywhere(m, forward_rounds(f, k, n).0, env),
        typed_everywhere(forward_rounds(f, k, n).0),
        phis_right(forward_rounds(f, k, n).0, env, age),
        same_ways(f, env, forward_rounds(f, k, n).0, env),
    decreases k,
{
    if k > 0 {
        let (g, r) = forwarded_once(f);
        one_round_keeps_the_function(m, f, env, age);
        if r != 0 {
            forwarding_keeps_the_function(m, g, (k - 1) as nat, n + r, env, age);
            same_ways_are_joined(f, env, g, env, forward_rounds(g, (k - 1) as nat, n + r).0, env);
        }
    }
}

} // verus!

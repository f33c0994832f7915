//! What the heap holds while code runs, and that code that leaves a loop computes the same in front
//! of it.
//!
//! A state holds the words of values, the cells of arrays and objects, the lengths of arrays, and
//! the output.
//! Which state follows an instruction is a relation: calls may do anything.
use super::eval::{computes, inst_value};
use super::func::FuncV;
use super::hoisting::{in_loop, leavers_come_from_the_loop};
use super::host_allow::{row_in, HostNative, NativeV};
use super::inst::{InstV, ValueId};
use super::licm::{calm, changes_heap, defines, movers, movers_are_invariant, outside};
use super::rewrite::{has_inst, needed, stays};
use super::ty::MirTy;
use crate::words::Machine;
use vstd::prelude::*;

verus! {

/// Words of values, cells by array and position, lengths of arrays, and what was put out.
#[verifier::ext_equal]
pub ghost struct State {
    pub words: Map<u32, int>,
    pub cells: Map<(int, int), int>,
    pub lens: Map<int, int>,
    pub output: Seq<int>,
}

impl State {
    pub open spec fn word(self, v: ValueId) -> int {
        self.words[v.0]
    }

    pub open spec fn list(self, s: Seq<ValueId>) -> Seq<int> {
        Seq::new(s.len(), |i: int| self.words[s[i].0])
    }

    /// Array `a` has a position `j`.
    pub open spec fn has(self, a: int, j: int) -> bool {
        self.lens.dom().contains(a) && 0 <= j < self.lens[a]
    }

    pub open spec fn same_heap(self, t: State) -> bool {
        self.cells == t.cells && self.lens == t.lens
    }

    /// Whatever arrays hold here they hold in `t`.
    pub open spec fn kept_in(self, t: State) -> bool {
        forall|a: int, j: int| #[trigger]
            self.has(a, j) ==> t.has(a, j) && t.cells[(a, j)] == self.cells[(a, j)]
    }

    /// Arrays have the same lengths in `t`.
    pub open spec fn lens_kept_in(self, t: State) -> bool {
        forall|a: int| #[trigger] self.lens.dom().contains(a) ==> t.lens.dom().contains(a) && t.lens[a] == self.lens[a]
    }
}

/// What instructions do that is not in the code: float arithmetic, what natives give that only
/// compute, and the words of texts.
pub ghost struct World {
    pub m: Machine,
    pub types: Seq<MirTy>,
    pub hosts: Seq<HostNative>,
    pub gives: spec_fn(u16, Seq<int>) -> int,
    pub texts: spec_fn(u32) -> int,
}

/// A native that computes its result of its arguments: it has no effect, and it is no packed
/// native, for those read arrays.
pub open spec fn scalar(row: Option<NativeV>) -> bool {
    match row {
        Some(n) => n.effect is Pure && !(exists|rest: Seq<char>| n.name == #[trigger] ("packed_"@ + rest)),
        None => false,
    }
}

/// An array position is stored to.
pub open spec fn stored_cell(s: State, t: State, a: int, j: int, x: int) -> bool {
    t.cells == s.cells.insert((a, j), x) && t.lens == s.lens
}

/// A native that has no effect.
pub open spec fn effect_free(row: Option<NativeV>) -> bool {
    match row {
        Some(n) => n.effect is Pure,
        None => false,
    }
}

/// The output behind an instruction that puts nothing out is the output before it.
pub open spec fn output_follows(w: World, inst: InstV, s: State, t: State) -> bool {
    match inst {
        InstV::Call { .. } => true,
        InstV::HostInvoke { native_id, .. } => effect_free(row_in(w.hosts, native_id)) ==> t.output == s.output,
        InstV::Print { src, .. } => t.output == s.output.push(s.word(src)),
        _ => t.output == s.output,
    }
}

/// `t` may follow `s` by an instruction.
pub open spec fn may_follow(w: World, inst: InstV, s: State, t: State) -> bool {
    &&& forall|k: u32| !inst.dests().contains(ValueId(k)) ==> #[trigger] t.words[k] == s.words[k]
    &&& output_follows(w, inst, s, t)
    &&& match inst {
        InstV::Const { .. } | InstV::Bin { .. } | InstV::Cmp { .. } | InstV::Unary { .. } | InstV::Cast { .. } => {
            &&& inst_value(w.m, w.types, inst, s.words) == Some(t.word(inst.dest()))
            &&& s.same_heap(t)
        },
        InstV::HostInvoke { dest, native_id, args, .. } => {
            &&& s.same_heap(t)
            &&& scalar(row_in(w.hosts, native_id)) ==> t.word(dest) == (w.gives)(native_id, s.list(args))
        },
        InstV::Call { .. } => true,
        InstV::Index { dest, array, index, .. } => {
            &&& s.has(s.word(array), s.word(index))
            &&& t.word(dest) == s.cells[(s.word(array), s.word(index))]
            &&& s.same_heap(t)
        },
        InstV::StoreIndex { dest, array, index, value, .. } => {
            &&& s.has(s.word(array), s.word(index))
            &&& t.word(dest) == s.word(value)
            &&& stored_cell(s, t, s.word(array), s.word(index), s.word(value))
        },
        InstV::ArrayLen { dest, array } => {
            &&& s.lens.dom().contains(s.word(array))
            &&& t.word(dest) == s.lens[s.word(array)]
            &&& s.same_heap(t)
        },
        InstV::ArrayPush { array, value, .. } => {
            let a = s.word(array);
            &&& s.lens.dom().contains(a)
            &&& t.cells == s.cells.insert((a, s.lens[a]), s.word(value))
            &&& t.lens == s.lens.insert(a, s.lens[a] + 1)
        },
        InstV::FieldStore { src, index, .. } => exists|o: int| #[trigger]
            stored_cell(s, t, o, index as int, s.word(src)),
        InstV::HeapFieldStore { object, value, .. } => exists|j: int| #[trigger]
            stored_cell(s, t, s.word(object), j, s.word(value)),
        InstV::Alloc { .. } | InstV::GcBarrier { .. } | InstV::Format { .. } | InstV::Stringify { .. } => {
            &&& s.kept_in(t)
            &&& s.lens_kept_in(t)
        },
        InstV::String { dest, idx } => {
            &&& t.word(dest) == (w.texts)(idx)
            &&& s.same_heap(t)
        },
        InstV::Deopt { .. } => false,
        InstV::Phi { .. } | InstV::MatchPayload { .. } | InstV::FieldLoad { .. } | InstV::HeapFieldLoad { .. }
        | InstV::Print { .. } => s.same_heap(t),
    }
}

/// The instruction traps on some operands.
pub open spec fn divides_integers(inst: InstV) -> bool {
    match inst {
        InstV::Bin { op, ty, .. } => !ty.float() && (op is Div || op is Rem),
        _ => false,
    }
}

/// The loop has the instruction.
pub open spec fn of_loop(f: FuncV, mask: Seq<bool>, inst: InstV) -> bool {
    exists|b: int, i: int| #[trigger] in_loop(f, mask, b, i, inst)
}

/// Instruction `i` of the walk follows from the loop: what it reads of what the loop defines was
/// defined on the way.
pub open spec fn walks(w: World, f: FuncV, mask: Seq<bool>, path: Seq<InstV>, states: Seq<State>, i: int) -> bool {
    &&& of_loop(f, mask, path[i])
    &&& may_follow(w, path[i], states[i], states[i + 1])
    &&& forall|u: int|
        0 <= u < path[i].uses().len() && defines(f, mask, (#[trigger] path[i].uses()[u]).0 as int) ==> exists|e: int|
            0 <= e < i && (#[trigger] path[e]).dests().contains(path[i].uses()[u])
}

/// A walk through instructions of the loop, with the states before and behind each.
pub open spec fn walk(w: World, f: FuncV, mask: Seq<bool>, path: Seq<InstV>, states: Seq<State>) -> bool {
    &&& states.len() == path.len() + 1
    &&& forall|i: int| 0 <= i < path.len() ==> #[trigger] walks(w, f, mask, path, states, i)
}

/// The code, one instruction after the other.
pub open spec fn straight(w: World, code: Seq<InstV>, states: Seq<State>) -> bool {
    &&& states.len() == code.len() + 1
    &&& forall|k: int|
        0 <= k < code.len() ==> may_follow(w, #[trigger] code[k], states[k], states[k + 1])
}

/// Values of the loop have one definition in it.
pub open spec fn defined_once(f: FuncV, mask: Seq<bool>) -> bool {
    forall|x: InstV, y: InstV|
        #![trigger of_loop(f, mask, x), of_loop(f, mask, y)]
        of_loop(f, mask, x) && of_loop(f, mask, y) && y.dests().contains(x.dest()) ==> x == y
}

/// Whatever leaves the loop allocates nothing, and no array that it measures grows in the loop.
pub open spec fn plain_movers(f: FuncV, mask: Seq<bool>) -> bool {
    &&& forall|k: int|
        0 <= k < movers(f, mask).len() ==> !((#[trigger] movers(f, mask)[k]) is Alloc) && !(movers(f, mask)[k] is GcBarrier)
    &&& (exists|k: int| 0 <= k < movers(f, mask).len() && (#[trigger] movers(f, mask)[k]) is ArrayLen)
        ==> forall|x: InstV| #[trigger] of_loop(f, mask, x) ==> !(x is ArrayPush) && !(x is Call)
}

/// Results depend on the words that are read only.
proof fn same_reads_same_value(w: World, inst: InstV, a: Map<u32, int>, b: Map<u32, int>)
    requires
        forall|u: int| 0 <= u < inst.uses().len() ==> a[(#[trigger] inst.uses()[u]).0] == b[inst.uses()[u].0],
    ensures
        inst_value(w.m, w.types, inst, a) == inst_value(w.m, w.types, inst, b),
{
    match inst {
        InstV::Bin { lhs, rhs, .. } => {
            assert(inst.uses()[0] == lhs && inst.uses()[1] == rhs);
        },
        InstV::Cmp { lhs, rhs, .. } => {
            assert(inst.uses()[0] == lhs && inst.uses()[1] == rhs);
        },
        InstV::Unary { src, .. } => {
            assert(inst.uses()[0] == src);
        },
        InstV::Cast { src, .. } => {
            assert(inst.uses()[0] == src);
        },
        _ => {},
    }
}

/// What may leave: instructions that compute, reads of arrays out of calm loops, lengths, natives
/// that only compute, and texts.
proof fn kinds_that_leave(f: FuncV, mask: Seq<bool>, k: int)
    requires
        f.indexed(),
        plain_movers(f, mask),
        0 <= k < movers(f, mask).len(),
    ensures
        ({
            let x = movers(f, mask)[k];
            &&& of_loop(f, mask, x)
            &&& x.dests() == seq![x.dest()]
            &&& x.dest().0 < f.types.len()
            &&& computes(x) || x is ArrayLen || x is String || (x is Index && calm(f, mask)) || (x is HostInvoke
                && scalar(row_in(f.hosts, x->HostInvoke_native_id)))
            &&& !divides_integers(x)
            &&& forall|e: int|
                0 <= e < k ==> (#[trigger] movers(f, mask)[e]).dest() != x.dest()
        }),
{
    let x = movers(f, mask)[k];
    let p = leavers_come_from_the_loop(f, mask, outside(f, mask), calm(f, mask), f.types.len(), k);
    assert(in_loop(f, mask, p.0, p.1, x));
    if let InstV::HostInvoke { native_id, .. } = x {
        if let Some(n) = row_in(f.hosts, native_id) {
            if exists|rest: Seq<char>| n.name == #[trigger] ("packed_"@ + rest) {
                let rest = choose|rest: Seq<char>| n.name == #[trigger] ("packed_"@ + rest);
                assert(n.name.subrange(0, "packed_"@.len() as int) =~= "packed_"@);
            }
        }
    }
}

/// No instruction of a calm loop changes what an array holds.
proof fn calm_steps_keep_arrays(w: World, inst: InstV, s: State, t: State)
    requires
        may_follow(w, inst, s, t),
        !changes_heap(inst),
    ensures
        s.kept_in(t),
{
}

/// Integer division stays in the loop, so what leaves never traps where the loop does not run.
pub proof fn divisions_stay(f: FuncV, mask: Seq<bool>, k: int)
    requires
        f.indexed(),
        0 <= k < movers(f, mask).len(),
    ensures
        !divides_integers(movers(f, mask)[k]),
{
    let p = leavers_come_from_the_loop(f, mask, outside(f, mask), calm(f, mask), f.types.len(), k);
}

/// The code that left, run in front of the loop, changes no array, and changes no value but its
/// results, each of which it sets once.
proof fn front_only_computes(w: World, f: FuncV, mask: Seq<bool>, front: Seq<State>, j: int, n: int)
    requires
        f.indexed(),
        w.hosts == f.hosts,
        plain_movers(f, mask),
        straight(w, movers(f, mask), front),
        0 <= j <= n < front.len(),
    ensures
        front[0].same_heap(front[j]),
        forall|v: u32| !defines(f, mask, v as int) ==> #[trigger] front[j].words[v] == front[0].words[v],
        forall|e: int|
            0 <= e < j ==> front[n].word((#[trigger] movers(f, mask)[e]).dest()) == front[j].word(
                movers(f, mask)[e].dest(),
            ),
    decreases n,
{
    let code = movers(f, mask);
    if j < n {
        front_only_computes(w, f, mask, front, j, n - 1);
        kinds_that_leave(f, mask, n - 1);
        assert(may_follow(w, code[n - 1], front[n - 1], front[n]));
        assert forall|e: int| 0 <= e < j implies front[n].word((#[trigger] code[e]).dest()) == front[j].word(
            code[e].dest(),
        ) by {
            assert(code[e].dest() != code[n - 1].dest());
            assert(!code[n - 1].dests().contains(ValueId(code[e].dest().0)));
        }
    } else if j > 0 {
        front_only_computes(w, f, mask, front, j - 1, n - 1);
        kinds_that_leave(f, mask, j - 1);
        assert(may_follow(w, code[j - 1], front[j - 1], front[j]));
        let x = code[j - 1];
        let (b, i) = choose|b: int, i: int| #[trigger] in_loop(f, mask, b, i, x);
        assert(f.blocks[b].insts[i].dests().contains(x.dest())) by {
            assert(x.dests()[0] == x.dest());
        }
        assert(defines(f, mask, x.dest().0 as int));
        assert forall|v: u32| !defines(f, mask, v as int) implies #[trigger] front[j].words[v] == front[0].words[v] by {
            assert(front[j - 1].words[v] == front[0].words[v]);
            assert(x.dests() == seq![x.dest()]);
            assert(!x.dests().contains(ValueId(v)));
        }
    }
}

/// What holds on the way through the loop.
spec fn undisturbed(
    f: FuncV,
    mask: Seq<bool>,
    path: Seq<InstV>,
    states: Seq<State>,
    front: Seq<State>,
    i: int,
) -> bool {
    &&& forall|v: u32| !defines(f, mask, v as int) ==> #[trigger] states[i].words[v] == states[0].words[v]
    &&& forall|k: int, e: int|
        #![trigger movers(f, mask)[k], path[e]]
        0 <= k < movers(f, mask).len() && 0 <= e < i && path[e].dests().contains(movers(f, mask)[k].dest())
            ==> states[i].word(movers(f, mask)[k].dest()) == front.last().word(movers(f, mask)[k].dest())
    &&& calm(f, mask) ==> states[0].kept_in(states[i])
    &&& (exists|k: int| 0 <= k < movers(f, mask).len() && (#[trigger] movers(f, mask)[k]) is ArrayLen)
        ==> states[0].lens_kept_in(states[i])
}

/// What the mover reads in the loop it reads in front of the loop.
proof fn reads_are_undisturbed(
    w: World,
    f: FuncV,
    mask: Seq<bool>,
    path: Seq<InstV>,
    states: Seq<State>,
    front: Seq<State>,
    i: int,
    k: int,
    u: int,
)
    requires
        f.indexed(),
        w.hosts == f.hosts,
        plain_movers(f, mask),
        walk(w, f, mask, path, states),
        straight(w, movers(f, mask), front),
        states[0] == front[0],
        0 <= i < path.len(),
        undisturbed(f, mask, path, states, front, i),
        0 <= k < movers(f, mask).len(),
        path[i] == movers(f, mask)[k],
        0 <= u < path[i].uses().len(),
    ensures
        states[i].words[path[i].uses()[u].0] == front[k].words[path[i].uses()[u].0],
{
    let code = movers(f, mask);
    let v = path[i].uses()[u];
    movers_are_invariant(f, mask, k, u);
    assert(walks(w, f, mask, path, states, i));
    front_only_computes(w, f, mask, front, k, front.len() - 1);
    if !defines(f, mask, v.0 as int) {
        assert(states[i].words[v.0] == states[0].words[v.0]);
        assert(front[k].words[v.0] == front[0].words[v.0]);
    } else {
        let e = choose|e: int| 0 <= e < k && (#[trigger] code[e]).dest() == v;
        let d = choose|d: int| 0 <= d < i && (#[trigger] path[d]).dests().contains(v);
        assert(path[d].dests().contains(code[e].dest()));
        assert(states[i].word(code[e].dest()) == front.last().word(code[e].dest()));
        assert(front[front.len() - 1].word(code[e].dest()) == front[k].word(code[e].dest()));
    }
}

proof fn the_result_is_the_same(
    w: World,
    f: FuncV,
    mask: Seq<bool>,
    path: Seq<InstV>,
    states: Seq<State>,
    front: Seq<State>,
    i: int,
    k: int,
)
    requires
        f.indexed(),
        w.hosts == f.hosts,
        plain_movers(f, mask),
        walk(w, f, mask, path, states),
        straight(w, movers(f, mask), front),
        states[0] == front[0],
        0 <= i < path.len(),
        undisturbed(f, mask, path, states, front, i),
        0 <= k < movers(f, mask).len(),
        path[i] == movers(f, mask)[k],
    ensures
        states[i + 1].word(path[i].dest()) == front.last().word(path[i].dest()),
{
    let code = movers(f, mask);
    let x = path[i];
    assert(walks(w, f, mask, path, states, i));
    assert(may_follow(w, code[k], front[k], front[k + 1]));
    front_only_computes(w, f, mask, front, k, front.len() - 1);
    front_only_computes(w, f, mask, front, k + 1, front.len() - 1);
    assert(front[front.len() - 1].word(code[k].dest()) == front[k + 1].word(code[k].dest()));
    kinds_that_leave(f, mask, k);
    assert forall|u: int| 0 <= u < x.uses().len() implies states[i].words[(#[trigger] x.uses()[u]).0]
        == front[k].words[x.uses()[u].0] by {
        reads_are_undisturbed(w, f, mask, path, states, front, i, k, u);
    }
    same_reads_same_value(w, x, states[i].words, front[k].words);
    match x {
        InstV::Index { array, index, .. } => {
            assert(x.uses()[0] == array && x.uses()[1] == index);
            assert(states[0].has(states[i].word(array), states[i].word(index)));
        },
        InstV::ArrayLen { array, .. } => {
            assert(x.uses()[0] == array);
        },
        InstV::HostInvoke { args, .. } => {
            assert(states[i].list(args) =~= front[k].list(args)) by {
                assert forall|u: int| 0 <= u < args.len() implies states[i].words[(#[trigger] args[u]).0]
                    == front[k].words[args[u].0] by {
                    assert(x.uses()[u] == args[u]);
                }
            }
        },
        _ => {},
    }
}

proof fn the_loop_is_undisturbed(
    w: World,
    f: FuncV,
    mask: Seq<bool>,
    path: Seq<InstV>,
    states: Seq<State>,
    front: Seq<State>,
    i: int,
)
    requires
        f.indexed(),
        w.hosts == f.hosts,
        defined_once(f, mask),
        plain_movers(f, mask),
        walk(w, f, mask, path, states),
        straight(w, movers(f, mask), front),
        states[0] == front[0],
        0 <= i <= path.len(),
    ensures
        undisturbed(f, mask, path, states, front, i),
    decreases i,
{
    if i > 0 {
        the_loop_is_undisturbed(w, f, mask, path, states, front, i - 1);
        let code = movers(f, mask);
        let x = path[i - 1];
        let s = states[i - 1];
        let t = states[i];
        assert(walks(w, f, mask, path, states, i - 1));
        let (b, n) = choose|b: int, n: int| #[trigger] in_loop(f, mask, b, n, x);
        assert(has_inst(f, b, n) && mask[b]);
        assert forall|v: u32| !defines(f, mask, v as int) implies #[trigger] t.words[v] == states[0].words[v] by {
            assert(s.words[v] == states[0].words[v]);
            if x.dests().contains(ValueId(v)) {
                assert(f.blocks[b].insts[n].dests().contains(ValueId(v)));
            }
        }
        assert forall|k: int, e: int|
            #![trigger code[k], path[e]]
            0 <= k < code.len() && 0 <= e < i && path[e].dests().contains(code[k].dest()) implies t.word(code[k].dest())
            == front.last().word(code[k].dest()) by {
            kinds_that_leave(f, mask, k);
            if x.dests().contains(code[k].dest()) {
                assert(of_loop(f, mask, code[k]) && of_loop(f, mask, x));
                assert(x == code[k]);
                the_result_is_the_same(w, f, mask, path, states, front, i - 1, k);
            } else {
                assert(!x.dests().contains(ValueId(code[k].dest().0)));
                assert(e < i - 1);
                assert(s.word(code[k].dest()) == front.last().word(code[k].dest()));
            }
        }
        if calm(f, mask) {
            assert(!changes_heap(f.blocks[b].insts[n]));
            calm_steps_keep_arrays(w, x, s, t);
            assert forall|a: int, j: int| #[trigger] states[0].has(a, j) implies t.has(a, j) && t.cells[(a, j)]
                == states[0].cells[(a, j)] by {
                assert(s.has(a, j));
            }
        }
        if exists|k: int| 0 <= k < code.len() && (#[trigger] code[k]) is ArrayLen {
            assert(of_loop(f, mask, x));
        }
    }
}

/// Code that leaves a loop computes in front of the loop what it computed inside: on every way
/// through the loop, in every order, the word that such an instruction gives is the word that it
/// gives in front of the loop. No instruction on the way changes a cell that it reads. The code in
/// front changes no array.
pub proof fn hoisted_code_computes_the_same(
    w: World,
    f: FuncV,
    mask: Seq<bool>,
    path: Seq<InstV>,
    states: Seq<State>,
    front: Seq<State>,
    i: int,
    k: int,
)
    requires
        f.indexed(),
        w.hosts == f.hosts,
        defined_once(f, mask),
        plain_movers(f, mask),
        walk(w, f, mask, path, states),
        straight(w, movers(f, mask), front),
        states[0] == front[0],
        0 <= i < path.len(),
        0 <= k < movers(f, mask).len(),
        path[i] == movers(f, mask)[k],
    ensures
        states[i + 1].word(path[i].dest()) == front.last().word(path[i].dest()),
        path[i] matches InstV::Index { array, index, .. } ==> states[i].cells[(
            states[i].word(array),
            states[i].word(index),
        )] == states[0].cells[(states[i].word(array), states[i].word(index))],
        front[0].same_heap(front.last()),
{
    the_loop_is_undisturbed(w, f, mask, path, states, front, i);
    the_result_is_the_same(w, f, mask, path, states, front, i, k);
    front_only_computes(w, f, mask, front, front.len() - 1, front.len() - 1);
    front_only_computes(w, f, mask, front, k, front.len() - 1);
    kinds_that_leave(f, mask, k);
    assert(may_follow(w, movers(f, mask)[k], front[k], front[k + 1]));
    if let InstV::Index { array, index, .. } = path[i] {
        assert(path[i].uses()[0] == array && path[i].uses()[1] == index);
        reads_are_undisturbed(w, f, mask, path, states, front, i, k, 0);
        reads_are_undisturbed(w, f, mask, path, states, front, i, k, 1);
        assert(states[0].has(states[i].word(array), states[i].word(index)));
    }
}

/// Code that nothing needs and that is dropped changes no array and puts nothing out, and goes on
/// to the next instruction: it only sets its result.
pub proof fn dropped_code_changes_nothing(w: World, f: FuncV, inst: InstV, s: State, t: State)
    requires
        w.hosts == f.hosts,
        !stays(f, inst),
        may_follow(w, inst, s, t),
    ensures
        s.same_heap(t),
        t.output == s.output,
        !(inst is Deopt) && !(inst is Call),
        forall|k: u32| k != inst.dest().0 ==> #[trigger] t.words[k] == s.words[k],
        !needed(f, inst.dest().0 as int),
{
    assert(inst.dests() == seq![inst.dest()]);
    assert forall|k: u32| k != inst.dest().0 implies #[trigger] t.words[k] == s.words[k] by {
        assert(!inst.dests().contains(ValueId(k)));
    }
}

} // verus!

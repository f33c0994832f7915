//! What holds of recorded roots.
use super::func::FuncV;
use super::gc::{
    as_values, barrier_token, block_with_roots, defined, env_at, in_env, is_root, last_set, leading_phi, live_after,
    live_at, live_edge, live_end, live_ins, live_start, live_within, liveness_is_least_solution,
    makes_object, phi_takes, reaches_read, root_ids, root_set, root_sets, term_data_read, with_live_roots, with_roots, RootsV,
};
use super::inst::{BlockId, InstV, TermV, ValueId};
use super::rewrite::has_inst;
use super::valid::{
    block_valid, defined_at, inst_valid, valid, values_are_defined_once, verification_finds_the_valid_functions,
};
use crate::ids::{ascending_ids, listing_holds_the_members};
use vstd::prelude::*;

verus! {

/// The object that the instruction before `i` of block `b` made.
pub open spec fn object_before(f: FuncV, b: int, i: int) -> Option<ValueId> {
    if i > 0 && makes_object(f.blocks[b].insts[i - 1]) {
        Some(f.blocks[b].insts[i - 1].dest())
    } else {
        None
    }
}

/// Instruction `i` of block `b` has a row.
pub open spec fn has_row(f: FuncV, b: int, i: int) -> bool {
    has_inst(f, b, i) && (makes_object(f.blocks[b].insts[i]) || f.blocks[b].insts[i] is GcBarrier)
}

/// The row of instruction `i` of block `b`.
pub open spec fn row(f: FuncV, b: int, i: int) -> RootsV {
    let inst = f.blocks[b].insts[i];
    root_set(
        f,
        b,
        i,
        inst.dest(),
        if makes_object(inst) {
            Some(inst.dest())
        } else {
            object_before(f, b, i)
        },
    )
}

/// Whether position `b, i` is not behind position `c, j`.
spec fn not_behind(b: int, i: int, c: int, j: int) -> bool {
    b < c || (b == c && i <= j)
}

/// Row `k` is that of instruction `j` of block `c`.
spec fn row_at(f: FuncV, sets: Seq<RootsV>, k: int, c: int, j: int) -> bool {
    0 <= k < sets.len() && has_row(f, c, j) && sets[k] == row(f, c, j)
}

/// Row `k` is that of an instruction at or behind `b, i`.
spec fn placed(f: FuncV, sets: Seq<RootsV>, k: int, b: int, i: int) -> bool {
    exists|c: int, j: int| #[trigger] row_at(f, sets, k, c, j) && not_behind(b, i, c, j)
}

/// Every row is that of an instruction at or behind `b, i`, and every such instruction has one.
proof fn rows_from(f: FuncV, b: nat, i: nat, prev: Option<ValueId>)
    requires
        b < f.blocks.len() ==> i <= f.blocks[b as int].insts.len(),
        b < f.blocks.len() ==> prev == object_before(f, b as int, i as int),
    ensures
        ({
            let sets = root_sets(f, b, i, prev);
            &&& forall|k: int|
                0 <= k < sets.len() ==> #[trigger] placed(f, sets, k, b as int, i as int)
            &&& forall|c: int, j: int| #[trigger]
                has_row(f, c, j) && not_behind(b as int, i as int, c, j) ==> exists|k: int| #[trigger]
                    row_at(f, sets, k, c, j)
        }),
    decreases f.blocks.len() - b, (if b < f.blocks.len() {
        f.blocks[b as int].insts.len() - i
    } else {
        0
    }),
{
    let sets = root_sets(f, b, i, prev);
    if b >= f.blocks.len() {
    } else if i >= f.blocks[b as int].insts.len() {
        rows_from(f, b + 1, 0, None);
        assert(sets == root_sets(f, b + 1, 0, None));
        assert forall|k: int| 0 <= k < sets.len() implies #[trigger] placed(f, sets, k, b as int, i as int) by {
            assert(placed(f, sets, k, (b + 1) as int, 0));
            let (c, j) = choose|c: int, j: int| #[trigger]
                row_at(f, sets, k, c, j) && not_behind(b as int + 1, 0, c, j);
            assert(row_at(f, sets, k, c, j) && not_behind(b as int, i as int, c, j));
        }
        assert forall|c: int, j: int| #[trigger]
            has_row(f, c, j) && not_behind(b as int, i as int, c, j) implies exists|k: int| #[trigger]
            row_at(f, sets, k, c, j) by {
            assert(not_behind(b as int + 1, 0, c, j));
        }
    } else {
        let inst = f.blocks[b as int].insts[i as int];
        let here = has_row(f, b as int, i as int);
        let next = if makes_object(inst) {
            Some(inst.dest())
        } else {
            None
        };
        assert(has_inst(f, b as int, i as int));
        assert(next == object_before(f, b as int, i as int + 1));
        rows_from(f, b, i + 1, next);
        let rest = root_sets(f, b, i + 1, next);
        let off: int = if here {
            1
        } else {
            0
        };
        assert(here ==> sets == seq![row(f, b as int, i as int)] + rest);
        assert(!here ==> sets == rest);
        assert forall|k: int| 0 <= k < sets.len() implies #[trigger] placed(f, sets, k, b as int, i as int) by {
            if here && k == 0 {
                assert(row_at(f, sets, k, b as int, i as int));
            } else {
                assert(sets[k] == rest[k - off]);
                assert(placed(f, rest, k - off, b as int, i as int + 1));
                let (c, j) = choose|c: int, j: int| #[trigger]
                    row_at(f, rest, k - off, c, j) && not_behind(b as int, i as int + 1, c, j);
                assert(row_at(f, sets, k, c, j) && not_behind(b as int, i as int, c, j));
            }
        }
        assert forall|c: int, j: int| #[trigger]
            has_row(f, c, j) && not_behind(b as int, i as int, c, j) implies exists|k: int| #[trigger]
            row_at(f, sets, k, c, j) by {
            if c == b && j == i {
                assert(row_at(f, sets, 0, c, j));
            } else {
                assert(not_behind(b as int, i as int + 1, c, j));
                let k = choose|k: int| #[trigger] row_at(f, rest, k, c, j);
                assert(row_at(f, rest, k, c, j));
                assert(sets[k + off] == rest[k]);
                assert(row_at(f, sets, k + off, c, j));
            }
        }
    }
}

/// No two rows belong to one value.
pub open spec fn rows_differ(sets: Seq<RootsV>) -> bool {
    forall|k: int, l: int| 0 <= k < l < sets.len() ==> (#[trigger] sets[k]).at != (#[trigger] sets[l]).at
}

proof fn rows_from_differ(f: FuncV, b: nat, i: nat, prev: Option<ValueId>)
    requires
        valid(f),
        b < f.blocks.len() ==> i <= f.blocks[b as int].insts.len(),
        b < f.blocks.len() ==> prev == object_before(f, b as int, i as int),
    ensures
        rows_differ(root_sets(f, b, i, prev)),
    decreases f.blocks.len() - b, (if b < f.blocks.len() {
        f.blocks[b as int].insts.len() - i
    } else {
        0
    }),
{
    let sets = root_sets(f, b, i, prev);
    if b >= f.blocks.len() {
    } else if i >= f.blocks[b as int].insts.len() {
        rows_from_differ(f, b + 1, 0, None);
    } else {
        let inst = f.blocks[b as int].insts[i as int];
        let next = if makes_object(inst) {
            Some(inst.dest())
        } else {
            None
        };
        assert(has_inst(f, b as int, i as int));
        assert(next == object_before(f, b as int, i as int + 1));
        rows_from_differ(f, b, i + 1, next);
        rows_from(f, b, i + 1, next);
        let rest = root_sets(f, b, i + 1, next);
        if has_row(f, b as int, i as int) {
            assert(sets == seq![row(f, b as int, i as int)] + rest);
            assert forall|k: int, l: int| 0 <= k < l < sets.len() implies (#[trigger] sets[k]).at != (
            #[trigger] sets[l]).at by {
                assert(sets[l] == rest[l - 1]);
                if k > 0 {
                    assert(sets[k] == rest[k - 1]);
                } else {
                    assert(placed(f, rest, l - 1, b as int, i as int + 1));
                    let (c, j) = choose|c: int, j: int| #[trigger]
                        row_at(f, rest, l - 1, c, j) && not_behind(b as int, i as int + 1, c, j);
                    assert(row_at(f, rest, l - 1, c, j));
                    if sets[l].at == sets[k].at {
                        result_is_defined(f, b as int, i as int);
                        result_is_defined(f, c, j);
                        values_are_defined_once(f, b as int, i as int, c, j, inst.dest());
                    }
                }
            }
        } else {
            assert(sets == rest);
        }
    }
}

/// An instruction defines its first result.
proof fn result_is_defined(f: FuncV, b: int, i: int)
    requires
        has_inst(f, b, i),
    ensures
        defined_at(f, b, i, f.blocks[b].insts[i].dest()),
{
    assert(f.blocks[b].insts[i].dests()[0] == f.blocks[b].insts[i].dest());
}

/// No source local in scope at an edge holds the token of one.
pub open spec fn locals_hold_no_tokens(f: FuncV) -> bool {
    forall|at: ValueId, v: ValueId| #[trigger] in_env(env_at(f, at), v) ==> !barrier_token(f, v)
}

/// Values in strictly ascending order.
pub open spec fn ascending(s: Seq<ValueId>) -> bool {
    forall|i: int, j: int| 0 <= i < j < s.len() ==> (#[trigger] s[i]).0 < (#[trigger] s[j]).0
}

/// Row `k` belongs to `at`.
pub open spec fn row_of(sets: Seq<RootsV>, k: int, at: ValueId) -> bool {
    0 <= k < sets.len() && sets[k].at == at
}

proof fn row_lists_roots(f: FuncV, b: int, i: int)
    ensures
        ascending(row(f, b, i).values),
        ({
            let inst = f.blocks[b].insts[i];
            let new = if makes_object(inst) {
                Some(inst.dest())
            } else {
                object_before(f, b, i)
            };
            forall|v: ValueId| #[trigger]
                row(f, b, i).values.contains(v) <==> is_root(f, b, i, inst.dest(), new, v)
        }),
{
    let inst = f.blocks[b].insts[i];
    let new = if makes_object(inst) {
        Some(inst.dest())
    } else {
        object_before(f, b, i)
    };
    let ids = root_ids(f, b, i, inst.dest(), new);
    let q = ascending_ids(ids);
    listing_holds_the_members(ids);
    let vs = row(f, b, i).values;
    assert(vs == as_values(q));
    assert forall|v: ValueId| #[trigger] vs.contains(v) <==> is_root(f, b, i, inst.dest(), new, v) by {
        assert(ValueId(v.0) == v);
        if vs.contains(v) {
            let k = choose|k: int| 0 <= k < vs.len() && vs[k] == v;
            assert(q[k] == v.0);
            assert(q.contains(v.0));
            assert(ids.contains(v.0));
        }
        if is_root(f, b, i, inst.dest(), new, v) {
            assert(ids.contains(v.0));
            assert(q.contains(v.0));
            let k = choose|k: int| 0 <= k < q.len() && q[k] == v.0;
            assert(vs[k] == v);
        }
    }
}

proof fn objects_are_heap_words(f: FuncV, b: int, i: int)
    requires
        valid(f),
        has_inst(f, b, i),
        makes_object(f.blocks[b].insts[i]),
    ensures
        f.ty(f.blocks[b].insts[i].dest()).heap_word(),
        !barrier_token(f, f.blocks[b].insts[i].dest()),
{
    assert(block_valid(f, b));
    assert(inst_valid(f, b, i));
    let v = f.blocks[b].insts[i].dest();
    if barrier_token(f, v) {
        let (c, j) = choose|c: int, j: int|
            0 <= c < f.blocks.len() && 0 <= j < f.blocks[c].insts.len() && (
            #[trigger] f.blocks[c].insts[j]) is GcBarrier && f.blocks[c].insts[j].dest() == v;
        result_is_defined(f, b, i);
        result_is_defined(f, c, j);
        values_are_defined_once(f, b, i, c, j, v);
    }
}

/// Each allocation and each collector edge of a valid function has exactly one row. A row lists
/// heap words, ascending, and no token of an edge. The row of an allocation holds the new object,
/// and so does the row of an edge directly behind one.
pub proof fn rows_list_heap_words(f: FuncV)
    requires
        f.fault() is None,
        locals_hold_no_tokens(f),
    ensures
        ({
            let rows = with_live_roots(f).gc_roots;
            &&& rows_differ(rows)
            &&& forall|b: int, i: int| #[trigger]
                has_inst(f, b, i) && f.blocks[b].insts[i].gc_edge() ==> exists|k: int| #[trigger]
                    row_of(rows, k, f.blocks[b].insts[i].dest())
            &&& forall|k: int| 0 <= k < rows.len() ==> ascending(#[trigger] rows[k].values)
            &&& forall|k: int, v: ValueId|
                0 <= k < rows.len() && #[trigger] rows[k].values.contains(v) ==> f.ty(v).heap_word()
                    && !barrier_token(f, v)
            &&& forall|k: int, b: int, i: int| #[trigger]
                has_inst(f, b, i) && f.blocks[b].insts[i] is Alloc && #[trigger] row_of(
                    rows,
                    k,
                    f.blocks[b].insts[i].dest(),
                ) ==> rows[k].values.contains(f.blocks[b].insts[i].dest())
            &&& forall|k: int, b: int, i: int|
                has_inst(f, b, i - 1) && #[trigger] has_inst(f, b, i) && f.blocks[b].insts[i] is GcBarrier
                    && f.blocks[b].insts[i - 1] is Alloc && #[trigger] row_of(
                    rows,
                    k,
                    f.blocks[b].insts[i].dest(),
                ) ==> rows[k].values.contains(f.blocks[b].insts[i - 1].dest())
        }),
{
    verification_finds_the_valid_functions(f);
    let rows = with_live_roots(f).gc_roots;
    if f.gc_edge() {
        assert(rows == root_sets(f, 0, 0, None));
        assert(object_before(f, 0, 0) is None);
        rows_from(f, 0, 0, None);
        rows_from_differ(f, 0, 0, None);
        assert forall|b: int, i: int| #[trigger]
            has_inst(f, b, i) && f.blocks[b].insts[i].gc_edge() implies exists|k: int| #[trigger]
            row_of(rows, k, f.blocks[b].insts[i].dest()) by {
            assert(has_row(f, b, i) && not_behind(0, 0, b, i));
            let k = choose|k: int| #[trigger] row_at(f, rows, k, b, i);
            assert(row_at(f, rows, k, b, i));
            assert(row_of(rows, k, f.blocks[b].insts[i].dest()));
        }
        assert forall|k: int| 0 <= k < rows.len() implies ascending(#[trigger] rows[k].values) by {
            assert(placed(f, rows, k, 0, 0));
            let (c, j) = choose|c: int, j: int| #[trigger]
                row_at(f, rows, k, c, j) && not_behind(0, 0, c, j);
            assert(row_at(f, rows, k, c, j));
            row_lists_roots(f, c, j);
        }
        assert forall|k: int, v: ValueId|
            0 <= k < rows.len() && #[trigger] rows[k].values.contains(v) implies f.ty(v).heap_word()
            && !barrier_token(f, v) by {
            assert(placed(f, rows, k, 0, 0));
            let (c, j) = choose|c: int, j: int| #[trigger]
                row_at(f, rows, k, c, j) && not_behind(0, 0, c, j);
            assert(row_at(f, rows, k, c, j));
            row_lists_roots(f, c, j);
            if makes_object(f.blocks[c].insts[j]) {
                objects_are_heap_words(f, c, j);
            } else if object_before(f, c, j) is Some {
                assert(has_inst(f, c, j - 1));
                objects_are_heap_words(f, c, j - 1);
            }
        }
        assert forall|k: int, b: int, i: int| #[trigger]
            has_inst(f, b, i) && f.blocks[b].insts[i].gc_edge() && #[trigger] row_of(
                rows,
                k,
                f.blocks[b].insts[i].dest(),
            ) implies rows[k] == row(f, b, i) by {
            row_is_its_own(f, rows, k, b, i);
        }
        assert forall|k: int, b: int, i: int| #[trigger]
            has_inst(f, b, i) && f.blocks[b].insts[i] is Alloc && #[trigger] row_of(
                rows,
                k,
                f.blocks[b].insts[i].dest(),
            ) implies rows[k].values.contains(f.blocks[b].insts[i].dest()) by {
            row_lists_roots(f, b, i);
        }
        assert forall|k: int, b: int, i: int|
            has_inst(f, b, i - 1) && #[trigger] has_inst(f, b, i) && f.blocks[b].insts[i] is GcBarrier
                && f.blocks[b].insts[i - 1] is Alloc && #[trigger] row_of(
                rows,
                k,
                f.blocks[b].insts[i].dest(),
            ) implies rows[k].values.contains(f.blocks[b].insts[i - 1].dest()) by {
            row_lists_roots(f, b, i);
        }
    } else {
        assert forall|b: int, i: int| #[trigger] has_inst(f, b, i) && f.blocks[b].insts[i].gc_edge() implies false by {
            assert(f.blocks[b].insts[i].gc_edge());
        }
    }
}

proof fn row_is_its_own(f: FuncV, rows: Seq<RootsV>, k: int, b: int, i: int)
    requires
        valid(f),
        rows == root_sets(f, 0, 0, None),
        has_row(f, b, i),
        row_of(rows, k, f.blocks[b].insts[i].dest()),
    ensures
        rows[k] == row(f, b, i),
{
    assert(object_before(f, 0, 0) is None);
    rows_from(f, 0, 0, None);
    assert(placed(f, rows, k, 0, 0));
    let (c, j) = choose|c: int, j: int| #[trigger] row_at(f, rows, k, c, j) && not_behind(0, 0, c, j);
    assert(row_at(f, rows, k, c, j));
    result_is_defined(f, b, i);
    result_is_defined(f, c, j);
    values_are_defined_once(f, b, i, c, j, f.blocks[b].insts[i].dest());
}

proof fn last_set_is_the_row(sets: Seq<RootsV>, at: ValueId, n: nat, k: int)
    requires
        rows_differ(sets),
        0 <= k < n <= sets.len(),
        sets[k].at == at,
    ensures
        last_set(sets, at, n) == Some(sets[k].values),
    decreases n,
{
    if n - 1 > k {
        last_set_is_the_row(sets, at, (n - 1) as nat, k);
    }
}

/// Each collector edge of a valid function lists the values of its row.
pub proof fn edges_list_their_rows(f: FuncV, b: int, i: int, k: int)
    requires
        f.fault() is None,
        has_inst(f, b, i),
        f.blocks[b].insts[i] is GcBarrier,
        row_of(with_live_roots(f).gc_roots, k, f.blocks[b].insts[i].dest()),
    ensures
        with_live_roots(f).blocks[b].insts[i] == (InstV::GcBarrier {
            dest: f.blocks[b].insts[i].dest(),
            kind: f.blocks[b].insts[i]->GcBarrier_kind,
            roots: with_live_roots(f).gc_roots[k].values,
        }),
{
    verification_finds_the_valid_functions(f);
    assert(f.blocks[b].insts[i].gc_edge());
    assert(f.gc_edge());
    assert(object_before(f, 0, 0) is None);
    rows_from_differ(f, 0, 0, None);
    let sets = root_sets(f, 0, 0, None);
    last_set_is_the_row(sets, f.blocks[b].insts[i].dest(), sets.len(), k);
}

// What the code still reads is listed.

/// None of the instructions from `i` up to `j` puts anything in `v`.
pub open spec fn untouched(insts: Seq<InstV>, i: int, j: int, v: ValueId) -> bool {
    forall|k: int| i <= k < j ==> (#[trigger] insts[k]).dest() != v
}

/// Phi `k` stands among the first of the instructions, and takes `v` where control comes from `from`.
pub open spec fn taken_by_phi(insts: Seq<InstV>, k: int, from: BlockId, v: ValueId) -> bool {
    &&& 0 <= k < insts.len()
    &&& forall|m: int| 0 <= m <= k ==> (#[trigger] insts[m]) is Phi
    &&& insts[k]->Phi_args.contains((from, v))
}

/// The end of block `b` needs `v`: to decide, to return it, or to hand it to a phi.
pub open spec fn needed_at_the_end(f: FuncV, b: BlockId, v: ValueId) -> bool {
    match f.blocks[b.0 as int].term {
        Some(TermV::Jump { dest }) => handed_to(f, b, dest, v),
        Some(TermV::Br { cond, taken, not_taken, .. }) => cond == v || handed_to(f, b, taken, v) || handed_to(
            f,
            b,
            not_taken,
            v,
        ),
        Some(TermV::JumpIfMatch { scrutinee, taken, not_taken, .. }) => scrutinee == v || handed_to(f, b, taken, v)
            || handed_to(f, b, not_taken, v),
        Some(TermV::Return { lo, hi }) => lo == Some(v) || hi == Some(v),
        _ => false,
    }
}

/// A phi of `to` takes `v` from `b`.
pub open spec fn handed_to(f: FuncV, b: BlockId, to: BlockId, v: ValueId) -> bool {
    to.0 < f.blocks.len() && exists|k: int| #[trigger] taken_by_phi(f.blocks[to.0 as int].insts, k, b, v)
}

/// The code behind position `j` of block `b` needs `v` at once.
pub open spec fn needed_at(f: FuncV, b: BlockId, j: int, v: ValueId) -> bool {
    let insts = f.blocks[b.0 as int].insts;
    if j < insts.len() {
        !insts[j].phi() && !(insts[j] is GcBarrier) && insts[j].uses().contains(v)
    } else {
        needed_at_the_end(f, b, v)
    }
}

/// Control goes from `b` to `to`.
pub open spec fn goes_to(f: FuncV, b: BlockId, to: BlockId) -> bool {
    match f.blocks[b.0 as int].term {
        Some(TermV::Jump { dest }) => dest == to,
        Some(TermV::Br { taken, not_taken, .. }) => taken == to || not_taken == to,
        Some(TermV::JumpIfMatch { taken, not_taken, .. }) => taken == to || not_taken == to,
        _ => false,
    }
}

/// Along the blocks of the path, from position `i` of the first to position `j` of the last, nothing
/// is put in `v`, and there it is needed.
pub open spec fn needed_along(f: FuncV, path: Seq<BlockId>, i: int, j: int, v: ValueId) -> bool
    decreases path.len(),
{
    if path.len() == 0 || path[0].0 >= f.blocks.len() {
        false
    } else {
        let insts = f.blocks[path[0].0 as int].insts;
        if path.len() == 1 {
            i <= j <= insts.len() && untouched(insts, i, j, v) && needed_at(f, path[0], j, v)
        } else {
            untouched(insts, i, insts.len() as int, v) && goes_to(f, path[0], path[1]) && needed_along(
                f,
                path.drop_first(),
                0,
                j,
                v,
            )
        }
    }
}

proof fn live_from(insts: Seq<InstV>, i: int, j: int, v: ValueId, end: bool)
    requires
        0 <= i <= j <= insts.len(),
        untouched(insts, i, j, v),
        live_at(insts, j as nat, v, end),
    ensures
        live_at(insts, i as nat, v, end),
    decreases j - i,
{
    if i < j {
        live_from(insts, i + 1, j, v, end);
        assert(insts[i].dest() != v);
    }
}

proof fn no_leading_phi(insts: Seq<InstV>, i: int, j: int, v: ValueId)
    requires
        0 <= i,
        j <= insts.len(),
        untouched(insts, 0, j, v),
        j < insts.len() ==> !insts[j].phi(),
        i <= j,
    ensures
        !leading_phi(insts, v, i as nat),
    decreases j - i,
{
    if i < j {
        no_leading_phi(insts, i + 1, j, v);
    }
}

proof fn phis_take(insts: Seq<InstV>, i: int, k: int, from: BlockId, v: ValueId)
    requires
        taken_by_phi(insts, k, from, v),
        0 <= i <= k,
    ensures
        phi_takes(insts, from, v, i as nat),
    decreases k - i,
{
    assert(insts[i] is Phi);
    if i < k {
        phis_take(insts, i + 1, k, from, v);
    }
}

proof fn handed_is_live(f: FuncV, b: BlockId, to: BlockId, v: ValueId, ins: Seq<bool>)
    requires
        handed_to(f, b, to, v),
    ensures
        live_edge(f, b.0 as int, to, v, ins),
{
    let k = choose|k: int| #[trigger] taken_by_phi(f.blocks[to.0 as int].insts, k, b, v);
    phis_take(f.blocks[to.0 as int].insts, 0, k, b, v);
    assert(BlockId(b.0) == b);
}

proof fn edge_is_live(f: FuncV, b: BlockId, to: BlockId, v: ValueId, ins: Seq<bool>)
    requires
        goes_to(f, b, to),
        live_edge(f, b.0 as int, to, v, ins),
    ensures
        live_end(f, b.0 as int, v, ins),
{
    let t = f.blocks[b.0 as int].term->0.targets();
    if t[0] == to {
        assert(live_edge(f, b.0 as int, t[0], v, ins));
    } else {
        assert(live_edge(f, b.0 as int, t[1], v, ins));
    }
}

proof fn needed_is_live(f: FuncV, path: Seq<BlockId>, i: int, j: int, v: ValueId)
    requires
        needed_along(f, path, i, j, v),
        0 <= i <= f.blocks[path[0].0 as int].insts.len(),
    ensures
        live_at(
            f.blocks[path[0].0 as int].insts,
            i as nat,
            v,
            live_end(f, path[0].0 as int, v, live_ins(f, v)),
        ),
        i == 0 ==> !leading_phi(f.blocks[path[0].0 as int].insts, v, 0),
    decreases path.len(),
{
    let b = path[0];
    let insts = f.blocks[b.0 as int].insts;
    let ins = live_ins(f, v);
    let end = live_end(f, b.0 as int, v, ins);
    if path.len() == 1 {
        if j == insts.len() {
            match f.blocks[b.0 as int].term {
                Some(TermV::Jump { dest }) => {
                    handed_is_live(f, b, dest, v, ins);
                    edge_is_live(f, b, dest, v, ins);
                },
                Some(TermV::Br { taken, not_taken, .. })
                | Some(TermV::JumpIfMatch { taken, not_taken, .. }) => {
                    if handed_to(f, b, taken, v) {
                        handed_is_live(f, b, taken, v, ins);
                        edge_is_live(f, b, taken, v, ins);
                    } else if handed_to(f, b, not_taken, v) {
                        handed_is_live(f, b, not_taken, v, ins);
                        edge_is_live(f, b, not_taken, v, ins);
                    }
                },
                _ => {},
            }
        }
        live_from(insts, i, j, v, end);
        if i == 0 {
            no_leading_phi(insts, 0, j, v);
        }
    } else {
        let rest = path.drop_first();
        let to = path[1];
        assert(rest[0] == to);
        assert(needed_along(f, rest, 0, j, v));
        assert(to.0 < f.blocks.len());
        needed_is_live(f, rest, 0, j, v);
        liveness_is_least_solution(f, v, Seq::new(f.blocks.len(), |c: int| true));
        assert(ins[to.0 as int] == live_start(f, to.0 as int, v, ins));
        edge_is_live(f, b, to, v, ins);
        live_from(insts, i, insts.len() as int, v, end);
        if i == 0 {
            no_leading_phi(insts, 0, insts.len() as int, v);
        }
    }
}

/// A heap word that the code needs along some path behind a collector edge, with nothing put in it
/// on the way, is in the row of the edge: the collector keeps what is read later.
pub proof fn words_read_later_are_roots(f: FuncV, b: int, i: int, k: int, path: Seq<BlockId>, j: int, v: ValueId)
    requires
        f.fault() is None,
        has_inst(f, b, i),
        f.blocks[b].insts[i].gc_edge(),
        row_of(with_live_roots(f).gc_roots, k, f.blocks[b].insts[i].dest()),
        path.len() > 0,
        path[0].0 == b,
        needed_along(f, path, i + 1, j, v),
        f.ty(v).heap_word(),
        !barrier_token(f, v),
    ensures
        with_live_roots(f).gc_roots[k].values.contains(v),
{
    verification_finds_the_valid_functions(f);
    assert(f.gc_edge());
    row_is_its_own(f, with_live_roots(f).gc_roots, k, b, i);
    row_lists_roots(f, b, i);
    needed_is_live(f, path, i + 1, j, v);
    assert(live_after(f, b, i, v));
}

// Recording again changes nothing.

/// The instructions are the same but for the roots of collector edges.
spec fn like(x: InstV, y: InstV) -> bool {
    x == y || (x is GcBarrier && y is GcBarrier && x.dest() == y.dest())
}

spec fn lists_alike(s: Seq<InstV>, t: Seq<InstV>) -> bool {
    s.len() == t.len() && forall|i: int| 0 <= i < s.len() ==> like(#[trigger] s[i], t[i])
}

/// The functions are the same but for the roots of collector edges.
spec fn alike(f: FuncV, g: FuncV) -> bool {
    &&& f.types == g.types
    &&& f.params == g.params
    &&& f.slot_env == g.slot_env
    &&& f.blocks.len() == g.blocks.len()
    &&& forall|b: int|
        0 <= b < f.blocks.len() ==> lists_alike(#[trigger] f.blocks[b].insts, g.blocks[b].insts)
            && f.blocks[b].term == g.blocks[b].term
}

proof fn alike_turned(f: FuncV, g: FuncV)
    requires
        alike(f, g),
    ensures
        alike(g, f),
{
    assert forall|b: int| 0 <= b < g.blocks.len() implies lists_alike(
        #[trigger] g.blocks[b].insts,
        f.blocks[b].insts,
    ) && f.blocks[b].term == g.blocks[b].term by {
        assert(lists_alike(f.blocks[b].insts, g.blocks[b].insts));
        assert forall|i: int| 0 <= i < g.blocks[b].insts.len() implies like(
            #[trigger] g.blocks[b].insts[i],
            f.blocks[b].insts[i],
        ) by {
            assert(like(f.blocks[b].insts[i], g.blocks[b].insts[i]));
        }
    }
}

proof fn alike_live_at(s: Seq<InstV>, t: Seq<InstV>, i: nat, v: ValueId, end: bool)
    requires
        lists_alike(s, t),
    ensures
        live_at(s, i, v, end) == live_at(t, i, v, end),
    decreases s.len() - i,
{
    if i < s.len() {
        assert(like(s[i as int], t[i as int]));
        alike_live_at(s, t, i + 1, v, end);
    }
}

proof fn alike_phis(s: Seq<InstV>, t: Seq<InstV>, pred: BlockId, v: ValueId, i: nat)
    requires
        lists_alike(s, t),
    ensures
        leading_phi(s, v, i) == leading_phi(t, v, i),
        phi_takes(s, pred, v, i) == phi_takes(t, pred, v, i),
    decreases s.len() - i,
{
    if i < s.len() {
        assert(like(s[i as int], t[i as int]));
        alike_phis(s, t, pred, v, i + 1);
    }
}

proof fn alike_live_end(f: FuncV, g: FuncV, b: int, v: ValueId, ins: Seq<bool>)
    requires
        alike(f, g),
        0 <= b < f.blocks.len(),
    ensures
        live_end(f, b, v, ins) == live_end(g, b, v, ins),
        live_start(f, b, v, ins) == live_start(g, b, v, ins),
{
    assert(lists_alike(f.blocks[b].insts, g.blocks[b].insts));
    assert(term_data_read(f.blocks[b], v) == term_data_read(g.blocks[b], v));
    if f.blocks[b].term is Some {
        let ts = f.blocks[b].term->0.targets();
        assert forall|k: int| 0 <= k < ts.len() implies live_edge(f, b, #[trigger] ts[k], v, ins) == live_edge(
            g,
            b,
            ts[k],
            v,
            ins,
        ) by {
            let s = ts[k].0 as int;
            if s < f.blocks.len() {
                assert(lists_alike(f.blocks[s].insts, g.blocks[s].insts));
                alike_phis(f.blocks[s].insts, g.blocks[s].insts, BlockId(b as u32), v, 0);
            }
        }
        if live_end(f, b, v, ins) && !term_data_read(f.blocks[b], v) {
            let k = choose|k: int| 0 <= k < ts.len() && live_edge(f, b, #[trigger] ts[k], v, ins);
            assert(live_edge(g, b, g.blocks[b].term->0.targets()[k], v, ins));
        }
        if live_end(g, b, v, ins) && !term_data_read(f.blocks[b], v) {
            let k = choose|k: int| 0 <= k < ts.len() && live_edge(g, b, #[trigger] ts[k], v, ins);
            assert(live_edge(f, b, f.blocks[b].term->0.targets()[k], v, ins));
        }
    }
    alike_live_at(f.blocks[b].insts, g.blocks[b].insts, 0, v, live_end(f, b, v, ins));
}

proof fn alike_live_within(f: FuncV, g: FuncV, v: ValueId, n: nat)
    requires
        alike(f, g),
    ensures
        live_within(f, v, n) == live_within(g, v, n),
    decreases n,
{
    if n > 0 {
        alike_live_within(f, g, v, (n - 1) as nat);
        assert forall|b: int| 0 <= b < f.blocks.len() implies #[trigger] live_within(f, v, n)[b] == live_within(
            g,
            v,
            n,
        )[b] by {
            alike_live_end(f, g, b, v, live_within(f, v, (n - 1) as nat));
        }
        assert(live_within(f, v, n) =~= live_within(g, v, n));
    } else {
        assert(live_within(f, v, n) =~= live_within(g, v, n));
    }
}

proof fn alike_live_after(f: FuncV, g: FuncV, b: int, i: int, v: ValueId)
    requires
        alike(f, g),
        0 <= b < f.blocks.len(),
    ensures
        live_after(f, b, i, v) == live_after(g, b, i, v),
{
    assert forall|c: int| 0 <= c < f.blocks.len() implies #[trigger] live_ins(f, v)[c] == live_ins(g, v)[c] by {
        if reaches_read(f, v, c) {
            let n = choose|n: nat| #[trigger] live_within(f, v, n)[c];
            alike_live_within(f, g, v, n);
            assert(live_within(g, v, n)[c]);
        }
        if reaches_read(g, v, c) {
            let n = choose|n: nat| #[trigger] live_within(g, v, n)[c];
            alike_live_within(f, g, v, n);
            assert(live_within(f, v, n)[c]);
        }
    }
    assert(live_ins(f, v) =~= live_ins(g, v));
    alike_live_end(f, g, b, v, live_ins(f, v));
    assert(lists_alike(f.blocks[b].insts, g.blocks[b].insts));
    alike_live_at(
        f.blocks[b].insts,
        g.blocks[b].insts,
        (i + 1) as nat,
        v,
        live_end(f, b, v, live_ins(f, v)),
    );
}

proof fn alike_names(f: FuncV, g: FuncV, v: ValueId)
    requires
        alike(f, g),
    ensures
        barrier_token(f, v) ==> barrier_token(g, v),
        defined(f, v) ==> defined(g, v),
        f.gc_edge() ==> g.gc_edge(),
{
    assert forall|b: int, i: int| #[trigger] has_inst(f, b, i) implies has_inst(g, b, i) && like(
        f.blocks[b].insts[i],
        g.blocks[b].insts[i],
    ) by {
        assert(lists_alike(f.blocks[b].insts, g.blocks[b].insts));
    }
    if barrier_token(f, v) {
        let (b, i) = choose|b: int, i: int|
            0 <= b < f.blocks.len() && 0 <= i < f.blocks[b].insts.len() && (
            #[trigger] f.blocks[b].insts[i]) is GcBarrier && f.blocks[b].insts[i].dest() == v;
        assert(has_inst(f, b, i));
        assert(g.blocks[b].insts[i] is GcBarrier);
    }
    if defined(f, v) && !f.params.contains(v) {
        let (b, i) = choose|b: int, i: int|
            0 <= b < f.blocks.len() && 0 <= i < f.blocks[b].insts.len() && (
            #[trigger] f.blocks[b].insts[i]).dests().contains(v);
        assert(has_inst(f, b, i));
        assert(g.blocks[b].insts[i].dests() == f.blocks[b].insts[i].dests());
    }
    if f.gc_edge() {
        let (b, i) = choose|b: int, i: int|
            0 <= b < f.blocks.len() && 0 <= i < f.blocks[b].insts.len() && (
            #[trigger] f.blocks[b].insts[i]).gc_edge();
        assert(has_inst(f, b, i));
        assert(g.blocks[b].insts[i].gc_edge());
    }
}

proof fn alike_root_set(f: FuncV, g: FuncV, b: int, i: int, at: ValueId, new: Option<ValueId>)
    requires
        alike(f, g),
        0 <= b < f.blocks.len(),
    ensures
        root_set(f, b, i, at, new) == root_set(g, b, i, at, new),
{
    alike_turned(f, g);
    assert forall|x: u32| #[trigger] root_ids(f, b, i, at, new).contains(x) == root_ids(g, b, i, at, new).contains(
        x,
    ) by {
        let v = ValueId(x);
        alike_live_after(f, g, b, i, v);
        alike_names(f, g, v);
        alike_names(g, f, v);
        assert(f.ty(v) == g.ty(v));
        assert(env_at(f, at) == env_at(g, at));
    }
    assert(root_ids(f, b, i, at, new) =~= root_ids(g, b, i, at, new));
    assert(env_at(f, at) == env_at(g, at));
}

proof fn alike_root_sets(f: FuncV, g: FuncV, b: nat, i: nat, prev: Option<ValueId>)
    requires
        alike(f, g),
    ensures
        root_sets(f, b, i, prev) == root_sets(g, b, i, prev),
    decreases f.blocks.len() - b, (if b < f.blocks.len() {
        f.blocks[b as int].insts.len() - i
    } else {
        0
    }),
{
    if b < f.blocks.len() {
        assert(lists_alike(f.blocks[b as int].insts, g.blocks[b as int].insts));
        if i >= f.blocks[b as int].insts.len() {
            alike_root_sets(f, g, b + 1, 0, None);
        } else {
            let x = f.blocks[b as int].insts[i as int];
            let y = g.blocks[b as int].insts[i as int];
            assert(like(x, y));
            alike_root_sets(f, g, b, i + 1, Some(x.dest()));
            alike_root_sets(f, g, b, i + 1, None);
            alike_root_set(f, g, b as int, i as int, x.dest(), Some(x.dest()));
            alike_root_set(f, g, b as int, i as int, x.dest(), prev);
        }
    }
}

/// Recording roots again changes nothing.
pub proof fn recording_roots_settles(f: FuncV)
    ensures
        with_live_roots(with_live_roots(f)) == with_live_roots(f),
{
    let g = with_live_roots(f);
    let sets = root_sets(f, 0, 0, None);
    assert forall|b: int| 0 <= b < f.blocks.len() implies lists_alike(
        #[trigger] f.blocks[b].insts,
        g.blocks[b].insts,
    ) && f.blocks[b].term == g.blocks[b].term by {
        if f.gc_edge() {
            assert(g.blocks[b] == block_with_roots(f.blocks[b], sets));
            assert forall|i: int| 0 <= i < f.blocks[b].insts.len() implies like(
                #[trigger] f.blocks[b].insts[i],
                g.blocks[b].insts[i],
            ) by {
                assert(g.blocks[b].insts[i] == with_roots(f.blocks[b].insts[i], sets));
            }
        }
    }
    assert(alike(f, g));
    alike_turned(f, g);
    alike_names(f, g, ValueId(0));
    alike_names(g, f, ValueId(0));
    if f.gc_edge() {
        alike_root_sets(f, g, 0, 0, None);
        let h = with_live_roots(g);
        assert forall|b: int| 0 <= b < g.blocks.len() implies #[trigger] h.blocks[b] == g.blocks[b] by {
            assert(g.blocks[b] == block_with_roots(f.blocks[b], sets));
            assert(h.blocks[b] == block_with_roots(g.blocks[b], sets));
            assert forall|i: int| 0 <= i < g.blocks[b].insts.len() implies #[trigger] h.blocks[b].insts[i]
                == g.blocks[b].insts[i] by {
                let x = f.blocks[b].insts[i];
                assert(g.blocks[b].insts[i] == with_roots(x, sets));
                assert(h.blocks[b].insts[i] == with_roots(g.blocks[b].insts[i], sets));
            }
            assert(h.blocks[b].insts =~= g.blocks[b].insts);
        }
        assert(h.blocks =~= g.blocks);
    }
}

} // verus!

//! Dominators and natural loops.
//!
//! A block dominates another when every path to it runs through the block. Paths begin at the
//! entry, and at blocks that nothing leads to.
use super::func::{FuncV, MirFunc};
use super::inst::BlockId;
use crate::reach::{close, edge_set, marked, reached};
use vstd::prelude::*;

verus! {

/// Whether control can go from block `p` to block `b`.
pub open spec fn flows(f: FuncV, p: int, b: int) -> bool {
    &&& 0 <= p < f.blocks.len()
    &&& f.blocks[p].term is Some
    &&& exists|k: int|
        0 <= k < f.blocks[p].term->0.targets().len() && (#[trigger] f.blocks[p].term->0.targets()[k]).0
            == b
}

/// Whether something leads to block `b`.
pub open spec fn has_pred(f: FuncV, b: int) -> bool {
    exists|p: int| #[trigger] flows(f, p, b)
}

/// Blocks other than `d` at which a path begins.
pub open spec fn path_starts(f: FuncV, d: int) -> Set<int> {
    Set::new(
        |b: int| 0 <= b < f.blocks.len() && b != d && (b == f.entry.0 as int || !has_pred(f, b)),
    )
}

/// Steps of a path that do not enter block `d`.
pub open spec fn steps_around(f: FuncV, d: int) -> Set<(int, int)> {
    Set::new(|e: (int, int)| flows(f, e.0, e.1) && e.1 != d)
}

/// Whether every path to block `b` runs through block `d`.
pub open spec fn dominates(f: FuncV, d: int, b: int) -> bool {
    !reached(path_starts(f, d), steps_around(f, d), b)
}

/// All steps between blocks.
pub open spec fn all_steps(f: FuncV) -> Set<(int, int)> {
    Set::new(|e: (int, int)| flows(f, e.0, e.1))
}

/// Every step between blocks, and which blocks something leads to.
pub(crate) fn list_steps(func: &MirFunc) -> (r: Vec<(usize, usize)>)
    requires
        func@.indexed(),
    ensures
        edge_set(r@) == all_steps(func@),
        forall|k: int|
            0 <= k < r@.len() ==> (#[trigger] r@[k]).0 < func@.blocks.len() && r@[k].1
                < func@.blocks.len(),
{
    let ghost f = func@;
    let mut r: Vec<(usize, usize)> = Vec::new();
    let mut p: usize = 0;
    while p < func.blocks.len()
        invariant
            p <= func.blocks@.len(),
            f == func@,
            f.indexed(),
            forall|k: int|
                0 <= k < r@.len() ==> (#[trigger] r@[k]).0 < f.blocks.len() && r@[k].1
                    < f.blocks.len() && flows(f, r@[k].0 as int, r@[k].1 as int),
            forall|a: int, b: int|
                0 <= a < p && #[trigger] flows(f, a, b) ==> edge_set(r@).contains((a, b)),
        decreases func.blocks@.len() - p,
    {
        let ghost r0 = r@;
        assert(f.blocks[p as int] == func.blocks@[p as int]@);
        assert(f.block_indexed(f.blocks[p as int], p as int));
        if let Some(term) = &func.blocks[p].term {
            let ts = term.succs();
            let ghost tv = f.blocks[p as int].term->0.targets();
            assert(ts@ == tv);
            let mut k: usize = 0;
            while k < ts.len()
                invariant
                    k <= ts@.len(),
                    p < f.blocks.len(),
                    f.blocks[p as int].term is Some,
                    tv == f.blocks[p as int].term->0.targets(),
                    ts@ == tv,
                    f.term_indexed(f.blocks[p as int].term->0),
                    forall|x: int|
                        0 <= x < r@.len() ==> (#[trigger] r@[x]).0 < f.blocks.len() && r@[x].1
                            < f.blocks.len() && flows(f, r@[x].0 as int, r@[x].1 as int),
                    r0.len() <= r@.len(),
                    forall|x: int| 0 <= x < r0.len() ==> r@[x] == #[trigger] r0[x],
                    forall|x: int|
                        0 <= x < k ==> edge_set(r@).contains((p as int, (#[trigger] tv[x]).0 as int)),
                decreases ts@.len() - k,
            {
                let t = ts[k].index();
                assert(tv[k as int].0 == t);
                let ghost r1 = r@;
                r.push((p, t));
                proof {
                    assert(flows(f, p as int, t as int));
                    assert forall|x: int| 0 <= x < k + 1 implies edge_set(r@).contains(
                        (p as int, (#[trigger] tv[x]).0 as int),
                    ) by {
                        if x < k {
                            assert(edge_set(r1).contains((p as int, tv[x].0 as int)));
                            let y = choose|y: int|
                                0 <= y < r1.len() && (#[trigger] r1[y]).0 == p as int && r1[y].1
                                    == tv[x].0 as int;
                            assert(r@[y] == r1[y]);
                        } else {
                            assert(r@[r@.len() - 1] == (p, t));
                        }
                    }
                }
                k += 1;
            }
        }
        proof {
            assert forall|a: int, b: int| 0 <= a < p + 1 && #[trigger] flows(f, a, b) implies edge_set(
                r@,
            ).contains((a, b)) by {
                if a < p {
                    assert(edge_set(r0).contains((a, b)));
                    let y = choose|y: int|
                        0 <= y < r0.len() && (#[trigger] r0[y]).0 == a && r0[y].1 == b;
                    assert(r@[y] == r0[y]);
                } else {
                    let tv = f.blocks[a].term->0.targets();
                    let x = choose|x: int| 0 <= x < tv.len() && (#[trigger] tv[x]).0 == b;
                    assert(edge_set(r@).contains((a, tv[x].0 as int)));
                }
            }
        }
        p += 1;
    }
    proof {
        assert forall|e: (int, int)| edge_set(r@).contains(e) == all_steps(f).contains(e) by {
            if edge_set(r@).contains(e) {
                let k = choose|k: int|
                    0 <= k < r@.len() && (#[trigger] r@[k]).0 == e.0 && r@[k].1 == e.1;
                assert(flows(f, r@[k].0 as int, r@[k].1 as int));
            }
            if flows(f, e.0, e.1) {
                assert(edge_set(r@).contains((e.0, e.1)));
            }
        }
        assert(edge_set(r@) =~= all_steps(f));
    }
    r
}

/// Whether `r` says which blocks each block dominates.
pub open spec fn is_dominance(f: FuncV, r: Seq<Vec<bool>>) -> bool {
    &&& r.len() == f.blocks.len()
    &&& forall|d: int| 0 <= d < r.len() ==> (#[trigger] r[d])@.len() == f.blocks.len()
    &&& forall|d: int, b: int|
        0 <= d < r.len() && 0 <= b < f.blocks.len() ==> (#[trigger] r[d]@[b]) == dominates(f, d, b)
}

fn find_entered(func: &MirFunc, steps: &Vec<(usize, usize)>) -> (r: Vec<bool>)
    requires
        edge_set(steps@) == all_steps(func@),
        forall|k: int| 0 <= k < steps@.len() ==> (#[trigger] steps@[k]).1 < func@.blocks.len(),
    ensures
        r@.len() == func@.blocks.len(),
        forall|b: int| 0 <= b < r@.len() ==> #[trigger] r@[b] == has_pred(func@, b),
{
    let ghost f = func@;
    let n = func.blocks.len();
    let mut r: Vec<bool> = Vec::new();
    let mut i: usize = 0;
    while i < n
        invariant
            i <= n,
            r@.len() == i,
            forall|b: int| 0 <= b < i ==> !#[trigger] r@[b],
        decreases n - i,
    {
        r.push(false);
        i += 1;
    }
    let mut k: usize = 0;
    while k < steps.len()
        invariant
            k <= steps@.len(),
            n == f.blocks.len(),
            r@.len() == n,
            forall|x: int| 0 <= x < steps@.len() ==> (#[trigger] steps@[x]).1 < n,
            forall|b: int|
                0 <= b < n ==> #[trigger] r@[b] == exists|x: int|
                    0 <= x < k && (#[trigger] steps@[x]).1 == b,
        decreases steps@.len() - k,
    {
        let ghost r0 = r@;
        let to = steps[k].1;
        r.set(to, true);
        proof {
            assert forall|b: int| 0 <= b < n implies #[trigger] r@[b] == exists|x: int|
                0 <= x < k + 1 && (#[trigger] steps@[x]).1 == b by {
                assert(r0[b] == exists|x: int| 0 <= x < k && (#[trigger] steps@[x]).1 == b);
                if b == to {
                    assert(steps@[k as int].1 == b);
                }
            }
        }
        k += 1;
    }
    proof {
        assert forall|b: int| 0 <= b < n implies #[trigger] r@[b] == has_pred(f, b) by {
            if r@[b] {
                let x = choose|x: int| 0 <= x < steps@.len() && (#[trigger] steps@[x]).1 == b;
                assert(edge_set(steps@).contains((steps@[x].0 as int, b)));
                assert(flows(f, steps@[x].0 as int, b));
            }
            if has_pred(f, b) {
                let p = choose|p: int| #[trigger] flows(f, p, b);
                assert(all_steps(f).contains((p, b)));
                let x = choose|x: int|
                    0 <= x < steps@.len() && (#[trigger] steps@[x]).0 == p && steps@[x].1 == b;
                assert(steps@[x].1 == b);
            }
        }
    }
    r
}

/// The edges of a list that do not lead to `d`.
fn list_around(steps: &Vec<(usize, usize)>, d: usize, Ghost(f): Ghost<FuncV>) -> (r: Vec<
    (usize, usize),
>)
    requires
        edge_set(steps@) == all_steps(f),
        forall|k: int|
            0 <= k < steps@.len() ==> (#[trigger] steps@[k]).0 < f.blocks.len() && steps@[k].1
                < f.blocks.len(),
    ensures
        edge_set(r@) == steps_around(f, d as int),
        forall|k: int|
            0 <= k < r@.len() ==> (#[trigger] r@[k]).0 < f.blocks.len() && r@[k].1
                < f.blocks.len(),
{
    let mut r: Vec<(usize, usize)> = Vec::new();
    let mut k: usize = 0;
    while k < steps.len()
        invariant
            k <= steps@.len(),
            forall|x: int|
                0 <= x < steps@.len() ==> (#[trigger] steps@[x]).0 < f.blocks.len() && steps@[x].1
                    < f.blocks.len(),
            forall|x: int|
                0 <= x < r@.len() ==> (#[trigger] r@[x]).0 < f.blocks.len() && r@[x].1
                    < f.blocks.len() && r@[x].1 != d && steps@.contains(r@[x]),
            forall|x: int|
                0 <= x < k && (#[trigger] steps@[x]).1 != d ==> r@.contains(steps@[x]),
        decreases steps@.len() - k,
    {
        let e = steps[k];
        let ghost r0 = r@;
        if e.1 != d {
            r.push(e);
            proof {
                assert(steps@[k as int] == e);
                assert(r@[r0.len() as int] == e);
                assert forall|x: int| 0 <= x < k && (#[trigger] steps@[x]).1 != d implies r@.contains(
                    steps@[x],
                ) by {
                    let y = r0.index_of(steps@[x]);
                    assert(r0.contains(steps@[x]));
                    assert(r@[y] == steps@[x]);
                }
            }
        }
        k += 1;
    }
    proof {
        assert forall|e: (int, int)| edge_set(r@).contains(e) == steps_around(f, d as int).contains(
            e,
        ) by {
            if edge_set(r@).contains(e) {
                let k = choose|k: int|
                    0 <= k < r@.len() && (#[trigger] r@[k]).0 == e.0 && r@[k].1 == e.1;
                let y = steps@.index_of(r@[k]);
                assert(steps@[y] == r@[k]);
                assert(edge_set(steps@).contains(e));
                assert(all_steps(f).contains(e));
            }
            if steps_around(f, d as int).contains(e) {
                assert(all_steps(f).contains(e));
                assert(edge_set(steps@).contains(e));
                let k = choose|k: int|
                    0 <= k < steps@.len() && (#[trigger] steps@[k]).0 == e.0 && steps@[k].1 == e.1;
                assert(r@.contains(steps@[k]));
                let y = r@.index_of(steps@[k]);
                assert(r@[y].0 == e.0 && r@[y].1 == e.1);
            }
        }
        assert(edge_set(r@) =~= steps_around(f, d as int));
    }
    r
}

/// Which blocks each block dominates.
pub fn dominators(func: &MirFunc) -> (r: Vec<Vec<bool>>)
    requires
        func@.indexed(),
    ensures
        is_dominance(func@, r@),
{
    let ghost f = func@;
    let n = func.blocks.len();
    let entry = func.entry.index();
    let steps = list_steps(func);
    let entered = find_entered(func, &steps);
    let mut r: Vec<Vec<bool>> = Vec::new();
    let mut d: usize = 0;
    while d < n
        invariant
            d <= n,
            n == f.blocks.len(),
            f == func@,
            entry == f.entry.0,
            edge_set(steps@) == all_steps(f),
            forall|k: int|
                0 <= k < steps@.len() ==> (#[trigger] steps@[k]).0 < n && steps@[k].1 < n,
            entered@.len() == n,
            forall|b: int| 0 <= b < n ==> #[trigger] entered@[b] == has_pred(f, b),
            r@.len() == d,
            forall|x: int| 0 <= x < d ==> (#[trigger] r@[x])@.len() == n,
            forall|x: int, b: int|
                0 <= x < d && 0 <= b < n ==> (#[trigger] r@[x]@[b]) == dominates(f, x, b),
        decreases n - d,
    {
        let around = list_around(&steps, d, Ghost(f));
        let mut marks: Vec<bool> = Vec::new();
        let mut b: usize = 0;
        while b < n
            invariant
                b <= n,
                n == f.blocks.len(),
                entry == f.entry.0,
                entered@.len() == n,
                forall|x: int| 0 <= x < n ==> #[trigger] entered@[x] == has_pred(f, x),
                marks@.len() == b,
                forall|x: int|
                    0 <= x < b ==> #[trigger] marks@[x] == path_starts(f, d as int).contains(x),
            decreases n - b,
        {
            assert(entered@[b as int] == has_pred(f, b as int));
            marks.push(b != d && (b == entry || !entered[b]));
            b += 1;
        }
        assert(marked(marks@) =~= path_starts(f, d as int));
        close(&mut marks, &around);
        let mut row: Vec<bool> = Vec::new();
        let mut b: usize = 0;
        while b < n
            invariant
                b <= n,
                n == marks@.len(),
                row@.len() == b,
                forall|x: int| 0 <= x < b ==> #[trigger] row@[x] == !marks@[x],
            decreases n - b,
        {
            row.push(!marks[b]);
            b += 1;
        }
        proof {
            assert forall|x: int| 0 <= x < n implies #[trigger] row@[x] == dominates(
                f,
                d as int,
                x,
            ) by {
                assert(row@[x] == !marks@[x]);
            }
        }
        r.push(row);
        d += 1;
    }
    r
}

/// A block dominates itself.
pub proof fn blocks_dominate_themselves(f: FuncV, b: int)
    ensures
        dominates(f, b, b),
{
    let kept = Set::new(|x: int| x != b);
    if reached(path_starts(f, b), steps_around(f, b), b) {
        assert forall|x: int| path_starts(f, b).contains(x) implies kept.contains(x) by {}
        crate::reach::reaching_is_least(path_starts(f, b), steps_around(f, b), kept, b);
    }
}

/// What dominates a block dominates, or is, each block that control enters it from.
pub proof fn dominators_hold_on_every_edge(f: FuncV, d: int, p: int, b: int)
    requires
        dominates(f, d, b),
        d != b,
        flows(f, p, b),
    ensures
        dominates(f, d, p),
{
    if !dominates(f, d, p) {
        assert(steps_around(f, d).contains((p, b)));
        crate::reach::reaching_is_closed(path_starts(f, d), steps_around(f, d), p, b);
    }
}

/// Jumps back to block `h`: from a block that `h` dominates.
pub open spec fn latches(f: FuncV, h: int) -> Set<int> {
    Set::new(|b: int| flows(f, b, h) && dominates(f, h, b))
}

/// Steps backwards that do not leave the loop through its head.
pub open spec fn steps_back(f: FuncV, h: int) -> Set<(int, int)> {
    Set::new(|e: (int, int)| flows(f, e.1, e.0) && e.0 != h)
}

/// Whether block `h` is the head of a loop.
pub open spec fn is_header(f: FuncV, h: int) -> bool {
    exists|b: int| #[trigger] latches(f, h).contains(b)
}

/// Whether block `x` is in the loop whose head is `h`: the head, and whatever leads to a jump
/// back without running through the head.
pub open spec fn in_loop(f: FuncV, h: int, x: int) -> bool {
    is_header(f, h) && (x == h || reached(latches(f, h), steps_back(f, h), x))
}

/// A natural loop.
#[derive(Debug)]
pub struct LoopInfo {
    pub header: BlockId,
    /// Which blocks are in the loop.
    pub blocks: Vec<bool>,
}

/// The blocks of the loop whose head is `h`.
pub open spec fn loop_mask(f: FuncV, h: int) -> Seq<bool> {
    Seq::new(f.blocks.len(), |x: int| in_loop(f, h, x))
}

fn list_back(steps: &Vec<(usize, usize)>, h: usize, Ghost(f): Ghost<FuncV>) -> (r: Vec<
    (usize, usize),
>)
    requires
        edge_set(steps@) == all_steps(f),
        forall|k: int|
            0 <= k < steps@.len() ==> (#[trigger] steps@[k]).0 < f.blocks.len() && steps@[k].1
                < f.blocks.len(),
    ensures
        edge_set(r@) == steps_back(f, h as int),
        forall|k: int|
            0 <= k < r@.len() ==> (#[trigger] r@[k]).0 < f.blocks.len() && r@[k].1
                < f.blocks.len(),
{
    let mut r: Vec<(usize, usize)> = Vec::new();
    let mut k: usize = 0;
    while k < steps.len()
        invariant
            k <= steps@.len(),
            forall|x: int|
                0 <= x < steps@.len() ==> (#[trigger] steps@[x]).0 < f.blocks.len() && steps@[x].1
                    < f.blocks.len(),
            forall|x: int|
                0 <= x < r@.len() ==> (#[trigger] r@[x]).0 < f.blocks.len() && r@[x].1
                    < f.blocks.len() && r@[x].0 != h && steps@.contains((r@[x].1, r@[x].0)),
            forall|x: int|
                0 <= x < k && (#[trigger] steps@[x]).1 != h ==> r@.contains(
                    (steps@[x].1, steps@[x].0),
                ),
        decreases steps@.len() - k,
    {
        let e = steps[k];
        let ghost r0 = r@;
        if e.1 != h {
            r.push((e.1, e.0));
            proof {
                assert(steps@[k as int] == (e.0, e.1));
                assert(r@[r0.len() as int] == (e.1, e.0));
                assert forall|x: int| 0 <= x < k && (#[trigger] steps@[x]).1 != h implies r@.contains(
                    (steps@[x].1, steps@[x].0),
                ) by {
                    assert(r0.contains((steps@[x].1, steps@[x].0)));
                    let y = r0.index_of((steps@[x].1, steps@[x].0));
                    assert(r@[y] == (steps@[x].1, steps@[x].0));
                }
            }
        }
        k += 1;
    }
    proof {
        assert forall|e: (int, int)| edge_set(r@).contains(e) == steps_back(f, h as int).contains(
            e,
        ) by {
            if edge_set(r@).contains(e) {
                let k = choose|k: int|
                    0 <= k < r@.len() && (#[trigger] r@[k]).0 == e.0 && r@[k].1 == e.1;
                let y = steps@.index_of((r@[k].1, r@[k].0));
                assert(steps@[y] == (r@[k].1, r@[k].0));
                assert(edge_set(steps@).contains((e.1, e.0)));
                assert(all_steps(f).contains((e.1, e.0)));
            }
            if steps_back(f, h as int).contains(e) {
                assert(all_steps(f).contains((e.1, e.0)));
                assert(edge_set(steps@).contains((e.1, e.0)));
                let k = choose|k: int|
                    0 <= k < steps@.len() && (#[trigger] steps@[k]).0 == e.1 && steps@[k].1 == e.0;
                assert(r@.contains((steps@[k].1, steps@[k].0)));
                let y = r@.index_of((steps@[k].1, steps@[k].0));
                assert(r@[y].0 == e.0 && r@[y].1 == e.1);
            }
        }
        assert(edge_set(r@) =~= steps_back(f, h as int));
    }
    r
}

/// The loop whose head is `h`.
fn find_mask(
    func: &MirFunc,
    steps: &Vec<(usize, usize)>,
    dom: &Vec<Vec<bool>>,
    h: usize,
) -> (r: Option<Vec<bool>>)
    requires
        func@.indexed(),
        h < func@.blocks.len(),
        edge_set(steps@) == all_steps(func@),
        forall|k: int|
            0 <= k < steps@.len() ==> (#[trigger] steps@[k]).0 < func@.blocks.len() && steps@[k].1
                < func@.blocks.len(),
        is_dominance(func@, dom@),
    ensures
        match r {
            Some(m) => is_header(func@, h as int) && m@ == loop_mask(func@, h as int),
            None => !is_header(func@, h as int),
        },
{
    let ghost f = func@;
    let n = func.blocks.len();
    let mut marks: Vec<bool> = Vec::new();
    let mut b: usize = 0;
    while b < n
        invariant
            b <= n,
            marks@.len() == b,
            forall|x: int| 0 <= x < b ==> !#[trigger] marks@[x],
        decreases n - b,
    {
        marks.push(false);
        b += 1;
    }
    let mut found = false;
    let mut k: usize = 0;
    while k < steps.len()
        invariant
            k <= steps@.len(),
            n == f.blocks.len(),
            h < n,
            marks@.len() == n,
            is_dominance(f, dom@),
            forall|x: int|
                0 <= x < steps@.len() ==> (#[trigger] steps@[x]).0 < n && steps@[x].1 < n,
            edge_set(steps@) == all_steps(f),
            forall|x: int|
                0 <= x < n && #[trigger] marks@[x] ==> latches(f, h as int).contains(x),
            found ==> is_header(f, h as int),
            !found ==> forall|x: int| 0 <= x < n ==> !#[trigger] marks@[x],
            forall|x: int|
                0 <= x < k && (#[trigger] steps@[x]).1 == h && dominates(
                    f,
                    h as int,
                    steps@[x].0 as int,
                ) ==> marks@[steps@[x].0 as int],
        decreases steps@.len() - k,
    {
        let (p, t) = steps[k];
        assert(steps@[k as int] == (p, t));
        assert(dom@[h as int]@.len() == n);
        assert(dom@[h as int]@[p as int] == dominates(f, h as int, p as int));
        if t == h && dom[h][p] {
            proof {
                assert(edge_set(steps@).contains((p as int, t as int)));
                assert(all_steps(f).contains((p as int, t as int)));
                assert(latches(f, h as int).contains(p as int));
            }
            marks.set(p, true);
            found = true;
        }
        k += 1;
    }
    proof {
        assert forall|x: int| marked(marks@).contains(x) == latches(f, h as int).contains(x) by {
            if latches(f, h as int).contains(x) {
                assert(all_steps(f).contains((x, h as int)));
                assert(edge_set(steps@).contains((x, h as int)));
                let y = choose|y: int|
                    0 <= y < steps@.len() && (#[trigger] steps@[y]).0 == x && steps@[y].1
                        == h as int;
                assert(marks@[steps@[y].0 as int]);
            }
        }
        assert(marked(marks@) =~= latches(f, h as int));
    }
    if !found {
        proof {
            if is_header(f, h as int) {
                let x = choose|x: int| #[trigger] latches(f, h as int).contains(x);
                assert(marked(marks@).contains(x));
            }
        }
        return None;
    }
    let back = list_back(steps, h, Ghost(f));
    close(&mut marks, &back);
    marks.set(h, true);
    assert(marks@ =~= loop_mask(f, h as int));
    Some(marks)
}

/// The loops of the first `n` heads, by ascending head.
pub open spec fn loops_view(v: Seq<LoopInfo>) -> Seq<(BlockId, Seq<bool>)> {
    Seq::new(v.len(), |i: int| (v[i].header, v[i].blocks@))
}

/// The loops whose head is block `h` or behind it, by ascending head.
pub open spec fn loops_from(f: FuncV, h: int) -> Seq<(BlockId, Seq<bool>)>
    decreases f.blocks.len() - h,
{
    if h >= f.blocks.len() {
        Seq::empty()
    } else {
        (if is_header(f, h) {
            seq![(BlockId(h as u32), loop_mask(f, h))]
        } else {
            Seq::empty()
        }) + loops_from(f, h + 1)
    }
}

/// The natural loops of a function, by ascending head. Loops with one head are one loop.
pub fn natural_loops(func: &MirFunc) -> (r: Vec<LoopInfo>)
    requires
        func@.indexed(),
    ensures
        loops_view(r@) == loops_from(func@, 0),
{
    let ghost f = func@;
    let n = func.blocks.len();
    let steps = list_steps(func);
    let dom = dominators(func);
    let mut r: Vec<LoopInfo> = Vec::new();
    let mut h: usize = 0;
    assert(loops_view(r@) + loops_from(f, 0) =~= loops_from(f, 0));
    while h < n
        invariant
            h <= n,
            n == f.blocks.len(),
            f == func@,
            f.indexed(),
            edge_set(steps@) == all_steps(f),
            forall|k: int|
                0 <= k < steps@.len() ==> (#[trigger] steps@[k]).0 < n && steps@[k].1 < n,
            is_dominance(f, dom@),
            loops_view(r@) + loops_from(f, h as int) == loops_from(f, 0),
        decreases n - h,
    {
        let ghost r0 = loops_view(r@);
        match find_mask(func, &steps, &dom, h) {
            Some(m) => {
                let lp = LoopInfo { header: BlockId(h as u32), blocks: m };
                r.push(lp);
                assert(loops_view(r@) =~= r0.push((BlockId(h as u32), loop_mask(f, h as int))));
            },
            None => {},
        }
        assert(loops_view(r@) + loops_from(f, h + 1) =~= r0 + loops_from(f, h as int));
        h += 1;
    }
    assert(loops_view(r@) + loops_from(f, h as int) =~= loops_view(r@));
    r
}

} // verus!

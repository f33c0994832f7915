//! What a set of numbers leads to along edges.
use vstd::prelude::*;

verus! {

/// Whether `j` is reached from the seeds by at most `n` edges.
pub open spec fn reached_in(seeds: Set<int>, edges: Set<(int, int)>, n: nat, j: int) -> bool
    decreases n,
{
    if n == 0 {
        seeds.contains(j)
    } else {
        ||| reached_in(seeds, edges, (n - 1) as nat, j)
        ||| exists|i: int|
            #[trigger] edges.contains((i, j)) && reached_in(seeds, edges, (n - 1) as nat, i)
    }
}

/// Whether `j` is reached from the seeds.
pub open spec fn reached(seeds: Set<int>, edges: Set<(int, int)>, j: int) -> bool {
    exists|n: nat| #[trigger] reached_in(seeds, edges, n, j)
}

/// A seed is reached.
pub proof fn seeds_are_reached(seeds: Set<int>, edges: Set<(int, int)>, j: int)
    requires
        seeds.contains(j),
    ensures
        reached(seeds, edges, j),
{
    assert(reached_in(seeds, edges, 0, j));
}

/// What an edge from a reached number leads to is reached.
pub proof fn reaching_is_closed(seeds: Set<int>, edges: Set<(int, int)>, i: int, j: int)
    requires
        reached(seeds, edges, i),
        edges.contains((i, j)),
    ensures
        reached(seeds, edges, j),
{
    let n = choose|n: nat| #[trigger] reached_in(seeds, edges, n, i);
    assert((n + 1 - 1) as nat == n);
    assert(reached_in(seeds, edges, n + 1, j));
}

/// Nothing else is reached: any set that holds the seeds and what its members' edges lead to
/// holds everything that is reached.
pub proof fn reaching_is_least(seeds: Set<int>, edges: Set<(int, int)>, kept: Set<int>, j: int)
    requires
        seeds.subset_of(kept),
        forall|a: int, b: int| kept.contains(a) && #[trigger] edges.contains((a, b)) ==> kept.contains(b),
        reached(seeds, edges, j),
    ensures
        kept.contains(j),
{
    let n = choose|n: nat| #[trigger] reached_in(seeds, edges, n, j);
    reached_within_kept(seeds, edges, kept, n, j);
}

proof fn reached_within_kept(
    seeds: Set<int>,
    edges: Set<(int, int)>,
    kept: Set<int>,
    n: nat,
    j: int,
)
    requires
        seeds.subset_of(kept),
        forall|a: int, b: int| kept.contains(a) && #[trigger] edges.contains((a, b)) ==> kept.contains(b),
        reached_in(seeds, edges, n, j),
    ensures
        kept.contains(j),
    decreases n,
{
    if n > 0 {
        if reached_in(seeds, edges, (n - 1) as nat, j) {
            reached_within_kept(seeds, edges, kept, (n - 1) as nat, j);
        } else {
            let i = choose|i: int|
                #[trigger] edges.contains((i, j)) && reached_in(
                    seeds,
                    edges,
                    (n - 1) as nat,
                    i,
                );
            reached_within_kept(seeds, edges, kept, (n - 1) as nat, i);
        }
    }
}

/// The numbers that are marked.
pub open spec fn marked(marks: Seq<bool>) -> Set<int> {
    Set::new(|j: int| 0 <= j < marks.len() && marks[j])
}

/// The edges of a list.
pub open spec fn edge_set(edges: Seq<(usize, usize)>) -> Set<(int, int)> {
    Set::new(
        |e: (int, int)|
            exists|k: int|
                0 <= k < edges.len() && (#[trigger] edges[k]).0 == e.0 && edges[k].1 == e.1,
    )
}

/// Number of marks from `i` on that are not set.
pub open spec fn unmarked(marks: Seq<bool>, i: int) -> nat
    decreases marks.len() - i,
{
    if i >= marks.len() {
        0
    } else {
        (if marks[i] {
            0nat
        } else {
            1nat
        }) + unmarked(marks, i + 1)
    }
}

proof fn marking_counts(marks: Seq<bool>, j: int, i: int)
    requires
        0 <= i <= j < marks.len(),
        !marks[j],
    ensures
        unmarked(marks.update(j, true), i) + 1 == unmarked(marks, i),
    decreases marks.len() - i,
{
    if i < j {
        marking_counts(marks, j, i + 1);
    } else {
        tail_counts(marks, j, i + 1);
    }
}

proof fn tail_counts(marks: Seq<bool>, j: int, i: int)
    requires
        0 <= j < i,
        j < marks.len(),
    ensures
        unmarked(marks.update(j, true), i) == unmarked(marks, i),
    decreases marks.len() - i,
{
    if i < marks.len() {
        tail_counts(marks, j, i + 1);
    }
}

/// Marks everything that the marked numbers lead to along the edges.
pub fn close(marks: &mut Vec<bool>, edges: &Vec<(usize, usize)>)
    requires
        forall|k: int|
            0 <= k < edges@.len() ==> (#[trigger] edges@[k]).0 < old(marks)@.len() && edges@[k].1
                < old(marks)@.len(),
    ensures
        final(marks)@.len() == old(marks)@.len(),
        forall|j: int|
            0 <= j < final(marks)@.len() ==> #[trigger] final(marks)@[j] == reached(
                marked(old(marks)@),
                edge_set(edges@),
                j,
            ),
{
    let ghost seeds = marked(marks@);
    let ghost es = edge_set(edges@);
    let ghost n = marks@.len();
    let mut changed = true;
    proof {
        assert forall|j: int| 0 <= j < marks@.len() && #[trigger] marks@[j] implies reached(
            seeds,
            es,
            j,
        ) by {
            seeds_are_reached(seeds, es, j);
        }
    }
    while changed
        invariant
            n == marks@.len(),
            es == edge_set(edges@),
            forall|k: int|
                0 <= k < edges@.len() ==> (#[trigger] edges@[k]).0 < n && edges@[k].1 < n,
            forall|j: int| 0 <= j < n && #[trigger] seeds.contains(j) ==> marks@[j],
            forall|j: int| 0 <= j < n && #[trigger] marks@[j] ==> reached(seeds, es, j),
            !changed ==> forall|k: int|
                0 <= k < edges@.len() && marks@[(#[trigger] edges@[k]).0 as int]
                    ==> marks@[edges@[k].1 as int],
        decreases unmarked(marks@, 0) + (if changed {
            1int
        } else {
            0int
        }),
    {
        changed = false;
        let ghost before = unmarked(marks@, 0);
        let mut k: usize = 0;
        while k < edges.len()
            invariant
                k <= edges@.len(),
                n == marks@.len(),
                es == edge_set(edges@),
                forall|x: int|
                    0 <= x < edges@.len() ==> (#[trigger] edges@[x]).0 < n && edges@[x].1 < n,
                forall|j: int| 0 <= j < n && #[trigger] seeds.contains(j) ==> marks@[j],
                forall|j: int| 0 <= j < n && #[trigger] marks@[j] ==> reached(seeds, es, j),
                !changed ==> unmarked(marks@, 0) == before,
                changed ==> unmarked(marks@, 0) < before,
                !changed ==> forall|x: int|
                    0 <= x < k && marks@[(#[trigger] edges@[x]).0 as int]
                        ==> marks@[edges@[x].1 as int],
            decreases edges@.len() - k,
        {
            let (a, b) = edges[k];
            if marks[a] && !marks[b] {
                proof {
                    assert(es.contains((a as int, b as int))) by {
                        assert(edges@[k as int] == (a, b));
                    }
                    assert(marks@[a as int]);
                    reaching_is_closed(seeds, es, a as int, b as int);
                    marking_counts(marks@, b as int, 0);
                }
                marks.set(b, true);
                changed = true;
            }
            k += 1;
        }
    }
    proof {
        let kept = marked(marks@);
        assert forall|a: int, b: int| kept.contains(a) && #[trigger] es.contains(
            (a, b),
        ) implies kept.contains(b) by {
            let k = choose|k: int|
                0 <= k < edges@.len() && (#[trigger] edges@[k]).0 == a && edges@[k].1 == b;
            assert(marks@[edges@[k].0 as int]);
        }
        assert forall|j: int| 0 <= j < marks@.len() implies #[trigger] marks@[j] == reached(
            seeds,
            es,
            j,
        ) by {
            if reached(seeds, es, j) {
                assert forall|x: int| seeds.contains(x) implies kept.contains(x) by {}
                reaching_is_least(seeds, es, kept, j);
            }
        }
    }
}

} // verus!

//! Ways through a function: what dominators and loops say of them.
use super::dom::{
    blocks_dominate_themselves, dominates, dominators_hold_on_every_edge, flows, in_loop, latches, path_starts,
    steps_around, steps_back,
};
use super::func::FuncV;
use super::inst::BlockId;
use super::roots::goes_to;
use crate::reach::{reached, reaching_is_closed, reaching_is_least, seeds_are_reached};
use vstd::prelude::*;

verus! {

/// Control can take the route: each block goes to the next.
pub open spec fn is_route(f: FuncV, route: Seq<BlockId>) -> bool {
    &&& forall|k: int| 0 <= k < route.len() ==> (#[trigger] route[k]).0 < f.blocks.len()
    &&& forall|k: int| 0 < k < route.len() ==> goes_to(f, route[k - 1], #[trigger] route[k])
}

proof fn going_flows(f: FuncV, p: BlockId, b: BlockId)
    requires
        p.0 < f.blocks.len(),
        goes_to(f, p, b),
    ensures
        flows(f, p.0 as int, b.0 as int),
{
    let t = f.blocks[p.0 as int].term->0.targets();
    if t[0] == b {
        assert(0 < t.len() && f.blocks[p.0 as int].term->0.targets()[0].0 == b.0 as int);
    } else {
        assert(1 < t.len() && f.blocks[p.0 as int].term->0.targets()[1].0 == b.0 as int);
    }
}

proof fn routes_around(f: FuncV, d: BlockId, route: Seq<BlockId>, k: int)
    requires
        is_route(f, route),
        0 <= k < route.len(),
        route[0] == f.entry,
        !route.contains(d),
    ensures
        reached(path_starts(f, d.0 as int), steps_around(f, d.0 as int), route[k].0 as int),
    decreases k,
{
    let starts = path_starts(f, d.0 as int);
    let steps = steps_around(f, d.0 as int);
    assert(route[k] != d && route[k].0 != d.0);
    if k == 0 {
        assert(starts.contains(route[0].0 as int));
        seeds_are_reached(starts, steps, route[0].0 as int);
    } else {
        routes_around(f, d, route, k - 1);
        going_flows(f, route[k - 1], route[k]);
        assert(steps.contains((route[k - 1].0 as int, route[k].0 as int)));
        reaching_is_closed(starts, steps, route[k - 1].0 as int, route[k].0 as int);
    }
}

/// Whatever route control takes from the entry to a block, it comes through each block that
/// dominates the block.
pub proof fn routes_run_through_dominators(f: FuncV, d: BlockId, route: Seq<BlockId>)
    requires
        is_route(f, route),
        route.len() > 0,
        route[0] == f.entry,
        dominates(f, d.0 as int, route.last().0 as int),
    ensures
        route.contains(d),
{
    if !route.contains(d) {
        routes_around(f, d, route, route.len() - 1);
    }
}

/// A loop is entered at its head only.
pub proof fn loops_are_entered_at_the_head(f: FuncV, h: int, p: BlockId, x: BlockId)
    requires
        p.0 < f.blocks.len(),
        in_loop(f, h, x.0 as int),
        x.0 != h,
        goes_to(f, p, x),
    ensures
        in_loop(f, h, p.0 as int),
{
    going_flows(f, p, x);
    assert(steps_back(f, h).contains((x.0 as int, p.0 as int)));
    reaching_is_closed(latches(f, h), steps_back(f, h), x.0 as int, p.0 as int);
}

/// The head of a loop dominates its blocks.
pub proof fn heads_dominate_their_loops(f: FuncV, h: int, x: int)
    requires
        in_loop(f, h, x),
    ensures
        dominates(f, h, x),
{
    blocks_dominate_themselves(f, h);
    if x != h {
        let kept = Set::new(|y: int| dominates(f, h, y));
        assert forall|a: int, b: int| kept.contains(a) && #[trigger] steps_back(f, h).contains((a, b)) implies kept.contains(
            b,
        ) by {
            dominators_hold_on_every_edge(f, h, b, a);
        }
        reaching_is_least(latches(f, h), steps_back(f, h), kept, x);
    }
}

/// Whatever route control takes from the entry into a loop, it comes through the head.
pub proof fn routes_into_loops_run_through_the_head(f: FuncV, h: BlockId, route: Seq<BlockId>)
    requires
        is_route(f, route),
        route.len() > 0,
        route[0] == f.entry,
        in_loop(f, h.0 as int, route.last().0 as int),
    ensures
        route.contains(h),
{
    heads_dominate_their_loops(f, h.0 as int, route.last().0 as int);
    routes_run_through_dominators(f, h, route);
}

} // verus!

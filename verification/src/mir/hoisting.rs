//! Moving code in front of a loop keeps functions valid.
use super::dom::{flows, loops_from};
use super::func::FuncV;
use super::host_allow::HostNative;
use super::inst::{BlockId, InstV, TermV, ValueId};
use super::licm::{
    behind_phis, calm, defines, dest_set, emptied, entrances, filling_keeps_index, first_plain,
    first_plain_in_range, fronted, hoistable, hoisted, leaving, licm_rounds, movers, movers_are_invariant, outside,
    ready, ready_from, ready_in, ready_is_found, round_limit, size_below, smallest_hoisted,
};
use super::rewrite::{has_inst, pruned, removed, removing_keeps_index, without};
use super::valid::{
    before, block_valid, defined_at, defined_before, inst_valid, place, place_holds, place_is_found, places_rise,
    pruning_keeps_validity, same_edges, same_frame, same_frame_same_fault, same_frame_same_term, sieved, valid, values_are_defined_once,
    verification_finds_the_valid_functions, without_is_sieved,
};
use vstd::prelude::*;

verus! {

/// `inst` is instruction `i` of block `b` of the loop.
pub open spec fn in_loop(f: FuncV, mask: Seq<bool>, b: int, i: int, inst: InstV) -> bool {
    has_inst(f, b, i) && mask[b] && f.blocks[b].insts[i] == inst
}

proof fn ready_is_in_block(
    insts: Seq<InstV>,
    same: Seq<bool>,
    calm: bool,
    hosts: Seq<HostNative>,
    i: int,
) -> (k: int)
    requires
        0 <= i,
        ready_in(insts, same, calm, hosts, i) is Some,
    ensures
        i <= k < insts.len(),
        insts[k] == ready_in(insts, same, calm, hosts, i)->0,
    decreases insts.len() - i,
{
    if ready(insts[i], same, calm, hosts) {
        i
    } else {
        ready_is_in_block(insts, same, calm, hosts, i + 1)
    }
}

proof fn ready_is_in_loop(f: FuncV, mask: Seq<bool>, same: Seq<bool>, calm: bool, b: int) -> (p: (int, int))
    requires
        0 <= b,
        ready_from(f, mask, same, calm, b) is Some,
    ensures
        in_loop(f, mask, p.0, p.1, ready_from(f, mask, same, calm, b)->0),
    decreases f.blocks.len() - b,
{
    if mask[b] && ready_in(f.blocks[b].insts, same, calm, f.hosts, 0) is Some {
        let k = ready_is_in_block(f.blocks[b].insts, same, calm, f.hosts, 0);
        (b, k)
    } else {
        ready_is_in_loop(f, mask, same, calm, b + 1)
    }
}

/// What leaves comes from the loop and has a result of its own.
pub proof fn leavers_come_from_the_loop(
    f: FuncV,
    mask: Seq<bool>,
    same: Seq<bool>,
    calm: bool,
    n: nat,
    k: int,
) -> (p: (int, int))
    requires
        f.indexed(),
        same.len() == f.types.len(),
        0 <= k < leaving(f, mask, same, calm, n).len(),
    ensures
        in_loop(f, mask, p.0, p.1, leaving(f, mask, same, calm, n)[k]),
        hoistable(leaving(f, mask, same, calm, n)[k], calm, f.hosts),
        !same[leaving(f, mask, same, calm, n)[k].dest().0 as int],
        f.inst_indexed(leaving(f, mask, same, calm, n)[k]),
        forall|e: int|
            0 <= e < k ==> (#[trigger] leaving(f, mask, same, calm, n)[e]).dest() != leaving(
                f,
                mask,
                same,
                calm,
                n,
            )[k].dest(),
    decreases n,
{
    let all = leaving(f, mask, same, calm, n);
    ready_is_found(f, mask, same, calm, 0);
    let first = ready_from(f, mask, same, calm, 0)->0;
    let same2 = same.update(first.dest().0 as int, true);
    let rest = leaving(f, mask, same2, calm, (n - 1) as nat);
    assert(all =~= seq![first] + rest);
    if k == 0 {
        ready_is_in_loop(f, mask, same, calm, 0)
    } else {
        assert(all[k] == rest[k - 1]);
        let p = leavers_come_from_the_loop(f, mask, same2, calm, (n - 1) as nat, k - 1);
        assert(all[k].dest() != first.dest());
        assert forall|e: int| 0 <= e < k implies (#[trigger] all[e]).dest() != all[k].dest() by {
            if e > 0 {
                assert(all[e] == rest[e - 1]);
            }
        }
        p
    }
}

/// The loop is entered from one block outside, by a jump: the front of the loop.
pub open spec fn entered_by_jump(f: FuncV, h: int, mask: Seq<bool>) -> bool {
    let ext = entrances(f, h, mask, 0);
    ext.len() == 1 && f.blocks[ext[0].0 as int].term == Some(TermV::Jump { dest: BlockId(h as u32) })
}

/// The block that the loop is entered from.
pub open spec fn front(f: FuncV, h: int, mask: Seq<bool>) -> int {
    entrances(f, h, mask, 0)[0].0 as int
}

/// The loop comes behind its front, and whatever leaves the loop reads, of what the loop does not
/// define, only what is defined before the plain code of the front.
pub open spec fn movers_fit(f: FuncV, h: int, mask: Seq<bool>) -> bool {
    let pre = front(f, h, mask);
    &&& forall|b: int| 0 <= b < f.blocks.len() && #[trigger] mask[b] ==> pre < b
    &&& forall|k: int, u: int|
        0 <= k < movers(f, mask).len() && 0 <= u < movers(f, mask)[k].uses().len() && !defines(
            f,
            mask,
            movers(f, mask)[k].uses()[u].0 as int,
        ) ==> defined_before(
            f,
            pre,
            first_plain(f.blocks[pre].insts, 0),
            #[trigger] movers(f, mask)[k].uses()[u],
        )
}

proof fn entrances_are_outside(f: FuncV, h: int, mask: Seq<bool>, b: int, k: int)
    requires
        0 <= b,
        f.blocks.len() <= u32::MAX,
        0 <= k < entrances(f, h, mask, b).len(),
    ensures
        b <= entrances(f, h, mask, b)[k].0 < f.blocks.len(),
        !mask[entrances(f, h, mask, b)[k].0 as int],
    decreases f.blocks.len() - b,
{
    if b < f.blocks.len() {
        let rest = entrances(f, h, mask, b + 1);
        if !mask[b] && flows(f, b, h) {
            assert(entrances(f, h, mask, b) =~= seq![BlockId(b as u32)] + rest);
            if k > 0 {
                assert(entrances(f, h, mask, b)[k] == rest[k - 1]);
                entrances_are_outside(f, h, mask, b + 1, k - 1);
            }
        } else {
            assert(entrances(f, h, mask, b) =~= rest);
            entrances_are_outside(f, h, mask, b + 1, k);
        }
    }
}

/// What moves, where to, and the function that comes out.
ghost struct Move {
    f: FuncV,
    mask: Seq<bool>,
    out: Seq<InstV>,
    pre: int,
    at: int,
    g: FuncV,
}

impl Move {
    spec fn gone(self) -> Set<u32> {
        dest_set(self.out)
    }

    /// Where mover `k` comes from.
    spec fn from(self, k: int, b: int, i: int) -> bool {
        in_loop(self.f, self.mask, b, i, self.out[k])
    }

    spec fn wf(self) -> bool {
        let f = self.f;
        let insts = f.blocks[self.pre].insts;
        &&& valid(f)
        &&& f.indexed()
        &&& 0 <= self.pre < f.blocks.len()
        &&& !self.mask[self.pre]
        &&& self.at == first_plain(insts, 0)
        &&& 0 <= self.at <= insts.len()
        &&& forall|b: int| 0 <= b < f.blocks.len() && #[trigger] self.mask[b] ==> self.pre < b
        &&& forall|k: int|
            0 <= k < self.out.len() ==> !(#[trigger] self.out[k]).phi() && self.out[k].dests() == seq![
                self.out[k].dest(),
            ] && exists|b: int, i: int| #[trigger] self.from(k, b, i)
        &&& forall|e: int, k: int|
            0 <= e < k < self.out.len() ==> (#[trigger] self.out[e]).dest() != (#[trigger] self.out[k]).dest()
        &&& forall|k: int, u: int|
            0 <= k < self.out.len() && 0 <= u < self.out[k].uses().len() ==> self.reads_fit(
                k,
                #[trigger] self.out[k].uses()[u],
            )
        &&& same_frame(f, self.g)
        &&& self.g.blocks.len() == f.blocks.len()
        &&& forall|b: int|
            0 <= b < f.blocks.len() ==> (#[trigger] self.g.blocks[b]).id == f.blocks[b].id
                && self.g.blocks[b].term == f.blocks[b].term
        &&& forall|b: int|
            0 <= b < f.blocks.len() && b != self.pre ==> (#[trigger] self.g.blocks[b]).insts == sieved(
                f.blocks[b].insts,
                self.keep(),
                0,
            )
        &&& self.g.blocks[self.pre].insts == insts.subrange(0, self.at) + self.out + insts.subrange(
            self.at,
            insts.len() as int,
        )
    }

    spec fn reads_fit(self, k: int, v: ValueId) -> bool {
        &&& v.0 < self.f.types.len()
        &&& (exists|e: int| 0 <= e < k && (#[trigger] self.out[e]).dest() == v) || defined_before(
            self.f,
            self.pre,
            self.at,
            v,
        )
    }

    spec fn keep(self) -> spec_fn(InstV) -> bool {
        |x: InstV| !self.gone().contains(x.dest().0)
    }

    /// Whether position `b, k` of the outcome holds what moved.
    spec fn moved(self, b: int, k: int) -> bool {
        b == self.pre && self.at <= k < self.at + self.out.len()
    }

    /// Where an instruction of the outcome that did not move stood.
    spec fn src(self, b: int, k: int) -> int {
        if b == self.pre {
            if k < self.at {
                k
            } else {
                k - self.out.len()
            }
        } else {
            place(self.f.blocks[b].insts, self.keep(), 0, k)
        }
    }

    proof fn movers_are_gone(self, b: int, i: int)
        requires
            self.wf(),
            has_inst(self.f, b, i),
            self.gone().contains(self.f.blocks[b].insts[i].dest().0),
        ensures
            self.mask[b],
            self.f.blocks[b].insts[i].dests().len() == 1,
            exists|k: int| 0 <= k < self.out.len() && #[trigger] self.out[k] == self.f.blocks[b].insts[i],
    {
        let v = self.f.blocks[b].insts[i].dest();
        let k = choose|k: int| 0 <= k < self.out.len() && (#[trigger] self.out[k]).dest().0 == v.0;
        let (c, j) = choose|c: int, j: int| #[trigger] self.from(k, c, j);
        assert(self.from(k, c, j));
        assert(self.f.blocks[b].insts[i].dests()[0] == v);
        assert(self.f.blocks[c].insts[j].dests()[0] == v);
        assert(defined_at(self.f, b, i, v) && defined_at(self.f, c, j, v));
        values_are_defined_once(self.f, b, i, c, j, v);
        assert(self.out[k] == self.f.blocks[b].insts[i]);
    }

    /// An instruction of the outcome that did not move is the one at its source.
    proof fn stays(self, b: int, k: int)
        requires
            self.wf(),
            has_inst(self.g, b, k),
            !self.moved(b, k),
        ensures
            has_inst(self.f, b, self.src(b, k)),
            self.g.blocks[b].insts[k] == self.f.blocks[b].insts[self.src(b, k)],
            !self.gone().contains(self.g.blocks[b].insts[k].dest().0),
    {
        if b == self.pre {
            let i = self.src(b, k);
            if self.gone().contains(self.f.blocks[b].insts[i].dest().0) {
                self.movers_are_gone(b, i);
            }
        } else {
            place_holds(self.f.blocks[b].insts, self.keep(), 0, k);
        }
    }

    proof fn sources_rise(self, b: int, l: int, k: int)
        requires
            self.wf(),
            has_inst(self.g, b, l),
            has_inst(self.g, b, k),
            !self.moved(b, l),
            !self.moved(b, k),
            l < k,
        ensures
            self.src(b, l) < self.src(b, k),
    {
        if b != self.pre {
            places_rise(self.f.blocks[b].insts, self.keep(), 0, l, k);
        }
    }

    /// Where an instruction that did not move stands in the outcome.
    proof fn stands(self, b: int, i: int) -> (k: int)
        requires
            self.wf(),
            has_inst(self.f, b, i),
            !self.gone().contains(self.f.blocks[b].insts[i].dest().0),
        ensures
            has_inst(self.g, b, k),
            !self.moved(b, k),
            self.src(b, k) == i,
            self.g.blocks[b].insts[k] == self.f.blocks[b].insts[i],
            b == self.pre && i < self.at ==> k == i,
    {
        let k = if b == self.pre {
            if i < self.at {
                i
            } else {
                i + self.out.len()
            }
        } else {
            place_is_found(self.f.blocks[b].insts, self.keep(), 0, i)
        };
        if b != self.pre {
            assert(self.g.blocks[b].insts == sieved(self.f.blocks[b].insts, self.keep(), 0));
        }
        self.stays(b, k);
        k
    }

    proof fn fresh(self, b: int, k: int, v: ValueId)
        requires
            self.wf(),
            defined_at(self.g, b, k, v),
        ensures
            !defined_before(self.g, b, k, v),
            v.0 < self.f.types.len(),
    {
        let (sb, si) = self.origin(b, k);
        assert(defined_at(self.f, sb, si, v));
        values_are_defined_once(self.f, sb, si, sb, si, v);
        if defined_before(self.g, b, k, v) {
            let (c, l) = choose|c: int, l: int| #[trigger] defined_at(self.g, c, l, v) && before(c, l, b, k);
            let (tb, ti) = self.origin(c, l);
            assert(defined_at(self.f, tb, ti, v));
            values_are_defined_once(self.f, sb, si, tb, ti, v);
            if self.moved(b, k) && self.moved(c, l) {
                assert(self.out[k - self.at] == self.out[l - self.at]);
            } else if self.moved(b, k) {
                self.stays(c, l);
                self.moved_is_gone(b, k);
            } else if self.moved(c, l) {
                self.stays(b, k);
                self.moved_is_gone(c, l);
            } else {
                self.sources_rise(b, l, k);
            }
        }
    }

    proof fn moved_is_gone(self, b: int, k: int)
        requires
            self.wf(),
            self.moved(b, k),
        ensures
            self.g.blocks[b].insts[k] == self.out[k - self.at],
            self.gone().contains(self.g.blocks[b].insts[k].dest().0),
    {
        assert(self.out[k - self.at].dest().0 == self.g.blocks[b].insts[k].dest().0);
    }

    /// Where an instruction of the outcome stood.
    proof fn origin(self, b: int, k: int) -> (p: (int, int))
        requires
            self.wf(),
            has_inst(self.g, b, k),
        ensures
            has_inst(self.f, p.0, p.1),
            self.f.blocks[p.0].insts[p.1] == self.g.blocks[b].insts[k],
            !self.moved(b, k) ==> p == (b, self.src(b, k)),
            self.moved(b, k) ==> self.mask[p.0],
    {
        if self.moved(b, k) {
            self.moved_is_gone(b, k);
            let (c, j) = choose|c: int, j: int| #[trigger] self.from(k - self.at, c, j);
            assert(self.from(k - self.at, c, j));
            (c, j)
        } else {
            self.stays(b, k);
            (b, self.src(b, k))
        }
    }

    /// What an instruction reads is defined before it in the outcome too.
    proof fn reads(self, b: int, k: int, v: ValueId)
        requires
            self.wf(),
            has_inst(self.g, b, k),
            !self.g.blocks[b].insts[k].phi(),
            self.g.blocks[b].insts[k].uses().contains(v),
        ensures
            v.0 < self.f.types.len(),
            defined_before(self.g, b, k, v) || self.g.blocks[b].insts[k].dests().contains(v),
    {
        let (sb, si) = self.origin(b, k);
        let inst = self.g.blocks[b].insts[k];
        let u = inst.uses().index_of(v);
        assert(inst.uses()[u] == v);
        if self.moved(b, k) {
            self.moved_is_gone(b, k);
            let m = k - self.at;
            assert(self.reads_fit(m, self.out[m].uses()[u]));
            if exists|e: int| 0 <= e < m && (#[trigger] self.out[e]).dest() == v {
                let e = choose|e: int| 0 <= e < m && (#[trigger] self.out[e]).dest() == v;
                self.moved_is_gone(b, self.at + e);
                assert(self.out[e].dests()[0] == v);
                assert(defined_at(self.g, b, self.at + e, v));
                assert(before(b, self.at + e, b, k));
            } else if !self.f.params.contains(v) {
                let (p, j) = choose|p: int, j: int| #[trigger]
                    defined_at(self.f, p, j, v) && before(p, j, self.pre, self.at);
                if self.gone().contains(self.f.blocks[p].insts[j].dest().0) {
                    self.movers_are_gone(p, j);
                }
                let l = self.stands(p, j);
                assert(defined_at(self.g, p, l, v));
                assert(before(p, l, b, k));
            }
        } else {
            self.stays(b, k);
            assert(block_valid(self.f, b));
            assert(inst_valid(self.f, b, si));
            assert(inst.uses()[u].0 < self.f.types.len());
            if !inst.dests().contains(v) && !self.f.params.contains(v) {
                assert(defined_before(self.f, b, si, v));
                let (p, j) = choose|p: int, j: int| #[trigger] defined_at(self.f, p, j, v) && before(p, j, b, si);
                if self.gone().contains(self.f.blocks[p].insts[j].dest().0) {
                    self.movers_are_gone(p, j);
                    let e = choose|e: int| 0 <= e < self.out.len() && #[trigger] self.out[e]
                        == self.f.blocks[p].insts[j];
                    self.moved_is_gone(self.pre, self.at + e);
                    assert(self.out[e].dests().contains(v));
                    assert(defined_at(self.g, self.pre, self.at + e, v));
                    assert(self.mask[p]);
                    assert(before(self.pre, self.at + e, b, k));
                } else {
                    let l = self.stands(p, j);
                    assert(defined_at(self.g, p, l, v));
                    if p == b && l >= k {
                        if l > k {
                            self.sources_rise(b, k, l);
                        }
                    }
                    assert(before(p, l, b, k));
                }
            }
        }
    }

    proof fn phis_first(self, b: int, k: int, l: int)
        requires
            self.wf(),
            has_inst(self.g, b, k),
            self.g.blocks[b].insts[k].phi(),
            0 <= l < k,
        ensures
            self.g.blocks[b].insts[l].phi(),
    {
        if self.moved(b, k) {
            self.moved_is_gone(b, k);
        } else {
            self.stays(b, k);
            let i = self.src(b, k);
            assert(block_valid(self.f, b));
            assert(inst_valid(self.f, b, i));
            if b == self.pre {
                let insts = self.f.blocks[b].insts;
                if k >= self.at {
                    plain_code_begins(insts, 0);
                    assert(insts[self.at].phi() || self.at == i);
                }
                assert(insts[l].phi());
            } else {
                self.stays(b, l);
                self.sources_rise(b, l, k);
                assert(self.f.blocks[b].insts[self.src(b, l)].phi());
            }
        }
    }

    proof fn outcome_is_valid(self)
        requires
            self.wf(),
        ensures
            valid(self.g),
    {
        let f = self.f;
        let g = self.g;
        assert forall|b: int| 0 <= b < g.blocks.len() implies block_valid(g, b) by {
            assert(block_valid(f, b));
            assert(g.blocks[b].id == f.blocks[b].id);
            same_frame_same_term(f, g, f.blocks[b].term->0);
            same_edges(f, g, f.blocks.len(), b as nat);
            assert forall|k: int| 0 <= k < g.blocks[b].insts.len() implies inst_valid(g, b, k) by {
                assert(has_inst(g, b, k));
                let inst = g.blocks[b].insts[k];
                let (sb, si) = self.origin(b, k);
                assert(block_valid(f, sb));
                assert(inst_valid(f, sb, si));
                same_frame_same_fault(f, g, inst, f.preds(sb as nat));
                if self.moved(b, k) {
                    self.moved_is_gone(b, k);
                    assert(g.inst_fault(inst, f.preds(sb as nat)) == g.inst_fault(inst, g.preds(b as nat)));
                }
                if inst.phi() {
                    assert forall|l: int| 0 <= l < k implies (#[trigger] g.blocks[b].insts[l]).phi() by {
                        self.phis_first(b, k, l);
                    }
                } else {
                    assert forall|u: int| 0 <= u < inst.uses().len() implies (#[trigger] inst.uses()[u]).0
                        < g.types.len() && (defined_before(g, b, k, inst.uses()[u]) || inst.dests().contains(
                        inst.uses()[u],
                    )) by {
                        assert(inst.uses().contains(inst.uses()[u]));
                        self.reads(b, k, inst.uses()[u]);
                    }
                }
                let ds = inst.dests();
                assert forall|d: int| 0 <= d < ds.len() implies (#[trigger] ds[d]).0 < g.types.len()
                    && !defined_before(g, b, k, ds[d]) by {
                    assert(ds.contains(ds[d]));
                    assert(defined_at(g, b, k, ds[d]));
                    self.fresh(b, k, ds[d]);
                }
            }
        }
    }
}

/// The instruction at which the phis end is none.
proof fn plain_code_begins(insts: Seq<InstV>, i: int)
    requires
        0 <= i <= insts.len(),
    ensures
        first_plain(insts, i) < insts.len() ==> !insts[first_plain(insts, i)].phi(),
        forall|k: int| i <= k < first_plain(insts, i) ==> (#[trigger] insts[k]).phi(),
    decreases insts.len() - i,
{
    if i < insts.len() && insts[i].phi() {
        plain_code_begins(insts, i + 1);
    }
}

proof fn nothing_is_left_out(insts: Seq<InstV>, gone: Set<u32>, i: int)
    requires
        0 <= i <= insts.len(),
        forall|k: int| 0 <= k < insts.len() ==> !gone.contains((#[trigger] insts[k]).dest().0),
    ensures
        without(insts, gone, i) == insts.skip(i),
    decreases insts.len() - i,
{
    if i < insts.len() {
        nothing_is_left_out(insts, gone, i + 1);
        assert(seq![insts[i]] + insts.skip(i + 1) =~= insts.skip(i));
    } else {
        assert(insts.skip(i) =~= Seq::empty());
    }
}

/// Hoisting moves what leaves behind the phis of the front.
proof fn hoisting_is_a_move(f: FuncV, h: int, mask: Seq<bool>) -> (m: Move)
    requires
        valid(f),
        f.indexed(),
        entered_by_jump(f, h, mask),
        movers_fit(f, h, mask),
        hoisted(f, h, mask).1 > 0,
    ensures
        m.wf(),
        m.f == f,
        m.g == hoisted(f, h, mask).0,
        m.out == movers(f, mask),
{
    let out = movers(f, mask);
    let pre = front(f, h, mask);
    entrances_are_outside(f, h, mask, 0, 0);
    let insts = f.blocks[pre].insts;
    let at = first_plain(insts, 0);
    first_plain_in_range(insts, 0);
    let g = hoisted(f, h, mask).0;
    let gone = dest_set(out);
    let r = removed(f, gone);
    let m = Move { f, mask, out, pre, at, g };
    assert(fronted(f, h, mask) == (f, pre));
    assert forall|k: int| 0 <= k < out.len() implies !(#[trigger] out[k]).phi() && out[k].dests() == seq![
        out[k].dest(),
    ] && exists|b: int, i: int| #[trigger] m.from(k, b, i) by {
        let (b, i) = leavers_come_from_the_loop(f, mask, outside(f, mask), calm(f, mask), f.types.len(), k);
        assert(m.from(k, b, i));
    }
    assert forall|e: int, k: int| 0 <= e < k < out.len() implies (#[trigger] out[e]).dest() != (
    #[trigger] out[k]).dest() by {
        let p = leavers_come_from_the_loop(f, mask, outside(f, mask), calm(f, mask), f.types.len(), k);
    }
    assert forall|k: int, u: int| 0 <= k < out.len() && 0 <= u < out[k].uses().len() implies m.reads_fit(
        k,
        #[trigger] out[k].uses()[u],
    ) by {
        let v = out[k].uses()[u];
        let p = leavers_come_from_the_loop(f, mask, outside(f, mask), calm(f, mask), f.types.len(), k);
        movers_are_invariant(f, mask, k, u);
        if !defines(f, mask, v.0 as int) {
            assert(defined_before(f, pre, at, movers(f, mask)[k].uses()[u]));
        }
    }
    assert forall|i: int| 0 <= i < insts.len() implies !gone.contains((#[trigger] insts[i]).dest().0) by {
        let v = insts[i].dest();
        if gone.contains(v.0) {
            let k = choose|k: int| 0 <= k < out.len() && (#[trigger] out[k]).dest().0 == v.0;
            let (c, j) = leavers_come_from_the_loop(f, mask, outside(f, mask), calm(f, mask), f.types.len(), k);
            assert(insts[i].dests()[0] == v);
            assert(f.blocks[c].insts[j].dests()[0] == v);
            assert(defined_at(f, pre, i, v) && defined_at(f, c, j, v));
            values_are_defined_once(f, pre, i, c, j, v);
        }
    }
    nothing_is_left_out(insts, gone, 0);
    assert(insts.skip(0) =~= insts);
    assert(r.blocks[pre].insts == insts);
    assert(g.blocks[pre].insts == behind_phis(insts, out));
    assert forall|b: int| 0 <= b < f.blocks.len() implies (#[trigger] g.blocks[b]).id == f.blocks[b].id
        && g.blocks[b].term == f.blocks[b].term by {
        assert(r.blocks[b].id == f.blocks[b].id);
    }
    assert forall|b: int| 0 <= b < f.blocks.len() && b != pre implies (#[trigger] g.blocks[b]).insts == sieved(
        f.blocks[b].insts,
        m.keep(),
        0,
    ) by {
        assert(g.blocks[b].insts == r.blocks[b].insts);
        without_is_sieved(f.blocks[b].insts, gone, 0);
        same_sieve(f.blocks[b].insts, |x: InstV| !gone.contains(x.dest().0), m.keep(), 0);
    }
    m
}

proof fn same_sieve(insts: Seq<InstV>, p: spec_fn(InstV) -> bool, q: spec_fn(InstV) -> bool, i: int)
    requires
        0 <= i,
        forall|x: InstV| #[trigger] p(x) == q(x),
    ensures
        sieved(insts, p, i) == sieved(insts, q, i),
    decreases insts.len() - i,
{
    if i < insts.len() {
        assert(p(insts[i]) == q(insts[i]));
        same_sieve(insts, p, q, i + 1);
    }
}

/// Moving what leaves a loop to the one block that enters it, by a jump, keeps a function valid,
/// where the loop comes behind that block and what leaves reads nothing that the block itself
/// computes.
pub proof fn hoisting_keeps_validity(f: FuncV, h: int, mask: Seq<bool>)
    requires
        f.fault() is None,
        f.indexed(),
        entered_by_jump(f, h, mask),
        movers_fit(f, h, mask),
    ensures
        hoisted(f, h, mask).0.fault() is None,
        hoisted(f, h, mask).0.indexed(),
{
    verification_finds_the_valid_functions(f);
    if hoisted(f, h, mask).1 > 0 {
        let m = hoisting_is_a_move(f, h, mask);
        m.outcome_is_valid();
        verification_finds_the_valid_functions(m.g);
        let out = movers(f, mask);
        let r = removed(f, dest_set(out));
        removing_keeps_index(f, dest_set(out));
        assert forall|k: int| 0 <= k < out.len() implies r.inst_indexed(#[trigger] out[k]) by {
            let p = leavers_come_from_the_loop(f, mask, outside(f, mask), calm(f, mask), f.types.len(), k);
            assert(f.inst_indexed(out[k]));
        }
        entrances_are_outside(f, h, mask, 0, 0);
        filling_keeps_index(r, front(f, h, mask), out);
    } else {
        assert(hoisted(f, h, mask).0 == f);
    }
}

/// In each of up to `k` rounds every loop that something leaves is entered by a jump, and what
/// leaves it fits in front of it.
pub open spec fn rounds_fit(f: FuncV, k: nat) -> bool
    decreases k,
{
    k > 0 ==> {
        let loops = loops_from(f, 0);
        let (g, m) = smallest_hoisted(f, loops, 0, 0);
        &&& forall|i: int|
            0 <= i < loops.len() && hoisted(f, loops[i].0.0 as int, loops[i].1).1 > 0 ==> entered_by_jump(
                f,
                loops[i].0.0 as int,
                (#[trigger] loops[i]).1,
            ) && movers_fit(f, loops[i].0.0 as int, loops[i].1)
        &&& m > 0 ==> rounds_fit(g, (k - 1) as nat)
    }
}

proof fn one_loop_is_hoisted(f: FuncV, loops: Seq<(BlockId, Seq<bool>)>, s: int, i: int) -> (k: int)
    requires
        0 <= i,
        smallest_hoisted(f, loops, s, i).1 > 0,
    ensures
        0 <= k < loops.len(),
        smallest_hoisted(f, loops, s, i) == hoisted(f, loops[k].0.0 as int, loops[k].1),
    decreases f.blocks.len() + 1 - s, loops.len() - i,
{
    if i >= loops.len() {
        one_loop_is_hoisted(f, loops, s + 1, 0)
    } else if size_below(loops[i].1, loops[i].1.len() as int) == s && hoisted(
        f,
        loops[i].0.0 as int,
        loops[i].1,
    ).1 > 0 {
        i
    } else {
        one_loop_is_hoisted(f, loops, s, i + 1)
    }
}

proof fn rounds_keep_validity(f: FuncV, k: nat, n: nat)
    requires
        f.fault() is None,
        f.indexed(),
        rounds_fit(f, k),
    ensures
        licm_rounds(f, k, n).0.fault() is None,
    decreases k,
{
    if k > 0 {
        let loops = loops_from(f, 0);
        let (g, m) = smallest_hoisted(f, loops, 0, 0);
        if m > 0 {
            let i = one_loop_is_hoisted(f, loops, 0, 0);
            hoisting_keeps_validity(f, loops[i].0.0 as int, loops[i].1);
            rounds_keep_validity(g, (k - 1) as nat, n + m);
        }
    }
}

/// Hoisting all that leaves loops keeps a function valid, where each loop that something leaves is
/// entered by a jump and what leaves fits in front of it.
pub proof fn hoisting_rounds_keep_validity(f: FuncV)
    requires
        f.fault() is None,
        f.indexed(),
        rounds_fit(f, round_limit(f.blocks.len())),
    ensures
        emptied(f).0.fault() is None,
{
    let (g, n) = licm_rounds(f, round_limit(f.blocks.len()), 0);
    rounds_keep_validity(f, round_limit(f.blocks.len()), 0);
    verification_finds_the_valid_functions(g);
    pruning_keeps_validity(g);
    verification_finds_the_valid_functions(pruned(g));
}

} // verus!

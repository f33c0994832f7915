//! Reading the array that was stored to, where the code makes its like anew.
//!
//! A store to an element changes the array in place. An allocation of the same elements right
//! behind it stands for the changed array.
use super::func::{insts_view, BlockV, FuncV, MirFunc};
use super::inst::{copy_ids, has_id, map_value, value_under, InstV, MirAllocKind, MirInst, ValueId};
use super::instcombine::capped;
use super::rewrite::{
    dce, has_inst, map_in_range, pruned, pruning_keeps_index, rename_all, renamed,
    renaming_keeps_index,
};
use super::valid::{
    before, block_valid, defined_at, defined_before, earlier_is_before, inst_valid,
    pruning_keeps_validity, renaming_keeps_validity, same_types, sieved, sieving_keeps_validity,
    valid, values_are_defined_once, verification_finds_the_valid_functions,
};
use crate::idmap::IdMap;
use vstd::prelude::*;

verus! {

/// The array of those elements, by the first entry from `i` on.
pub open spec fn listed(live: Seq<(Seq<ValueId>, ValueId)>, elems: Seq<ValueId>, i: int) -> Option<
    ValueId,
>
    decreases live.len() - i,
{
    if i >= live.len() {
        None
    } else if live[i].0 == elems {
        Some(live[i].1)
    } else {
        listed(live, elems, i + 1)
    }
}

/// The entries from `i` on without those of the elements.
pub open spec fn unlisted(live: Seq<(Seq<ValueId>, ValueId)>, elems: Seq<ValueId>, i: int) -> Seq<
    (Seq<ValueId>, ValueId),
>
    decreases live.len() - i,
{
    if i >= live.len() {
        Seq::empty()
    } else {
        (if live[i].0 == elems {
            Seq::empty()
        } else {
            seq![live[i]]
        }) + unlisted(live, elems, i + 1)
    }
}

/// What is known of a block's arrays.
#[verifier::ext_equal]
pub struct HeapV {
    /// Values that stand for others; one step.
    pub subst: Map<u32, ValueId>,
    /// Elements of each allocated array.
    pub made: Map<u32, Seq<ValueId>>,
    /// Unchanged arrays by their elements.
    pub live: Seq<(Seq<ValueId>, ValueId)>,
    /// The array that was just stored to, with the elements it was made of.
    pub stored: Option<(Seq<ValueId>, ValueId)>,
    /// The allocation that the next collector edge belongs to.
    pub fresh: Option<ValueId>,
}

/// The first of the roots from `i` on that is an array.
pub open spec fn array_root(roots: Seq<ValueId>, made: Map<u32, Seq<ValueId>>, i: int) -> Option<ValueId>
    decreases roots.len() - i,
{
    if i >= roots.len() {
        None
    } else if made.dom().contains(roots[i].0) {
        Some(roots[i])
    } else {
        array_root(roots, made, i + 1)
    }
}

impl HeapV {
    /// What the result of a collector edge is: the allocation before it, or else an array root.
    pub open spec fn edge_of(self, roots: Seq<ValueId>) -> Option<ValueId> {
        match self.fresh {
            Some(a) => if roots.len() == 0 || roots.contains(a) {
                Some(a)
            } else {
                array_root(roots, self.made, 0)
            },
            None => array_root(roots, self.made, 0),
        }
    }

    /// Behind an allocation of an array or a tuple.
    pub open spec fn behind_array(self, dest: ValueId, elems: Seq<ValueId>) -> HeapV {
        let made = self.made.insert(dest.0, elems);
        let reused = match self.stored {
            Some(s) => s.0 == elems,
            None => false,
        };
        HeapV {
            subst: if reused {
                self.subst.insert(dest.0, (self.stored->0).1)
            } else {
                match listed(self.live, elems, 0) {
                    Some(prev) => self.subst.insert(dest.0, prev),
                    None => self.subst,
                }
            },
            made,
            live: if !reused && listed(self.live, elems, 0) is None {
                self.live.push((elems, dest))
            } else {
                self.live
            },
            stored: None,
            fresh: Some(dest),
        }
    }

    /// Behind a collector edge.
    pub open spec fn behind_edge(self, dest: ValueId, roots: Seq<ValueId>) -> HeapV {
        match self.edge_of(roots) {
            Some(r) => {
                let obj = map_value(self.subst, r);
                let subst = self.subst.insert(dest.0, obj);
                if self.made.dom().contains(r.0) && self.stored != Some((self.made[r.0], obj)) {
                    let elems = self.made[r.0];
                    HeapV {
                        subst,
                        live: unlisted(self.live, elems, 0).push((elems, obj)),
                        stored: None,
                        fresh: None,
                        ..self
                    }
                } else {
                    HeapV { subst, fresh: None, ..self }
                }
            },
            None => HeapV { fresh: None, ..self },
        }
    }

    /// Behind a store to an element.
    pub open spec fn behind_store(self, array: ValueId) -> HeapV {
        let arr = map_value(self.subst, array);
        if self.made.dom().contains(arr.0) {
            let elems = self.made[arr.0];
            HeapV { live: unlisted(self.live, elems, 0), stored: Some((elems, arr)), ..self }
        } else {
            self
        }
    }

    /// Behind an instruction.
    pub open spec fn behind(self, inst: InstV) -> HeapV {
        match inst {
            InstV::Alloc { dest, kind, elems } => if kind is Array || kind is Tuple {
                self.behind_array(dest, elems)
            } else {
                HeapV { fresh: Some(dest), stored: None, ..self }
            },
            InstV::ArrayPush { dest, .. } => HeapV { fresh: Some(dest), stored: None, ..self },
            InstV::GcBarrier { dest, roots, .. } => self.behind_edge(dest, roots),
            InstV::StoreIndex { array, .. } => self.behind_store(array),
            _ => HeapV { stored: None, ..self },
        }
    }
}

/// Behind the instructions from `i` on.
pub open spec fn heap_in(h: HeapV, insts: Seq<InstV>, i: int) -> HeapV
    decreases insts.len() - i,
{
    if i >= insts.len() {
        h
    } else {
        heap_in(h.behind(insts[i]), insts, i + 1)
    }
}

/// What is known where a block begins.
pub open spec fn heap_start(subst: Map<u32, ValueId>) -> HeapV {
    HeapV { subst, made: Map::empty(), live: Seq::empty(), stored: None, fresh: None }
}

/// The values that stand for others, from block `b` on.
pub open spec fn stands_from(f: FuncV, b: int, subst: Map<u32, ValueId>) -> Map<u32, ValueId>
    decreases f.blocks.len() - b,
{
    if b >= f.blocks.len() {
        subst
    } else {
        stands_from(f, b + 1, heap_in(heap_start(subst), f.blocks[b].insts, 0).subst)
    }
}

/// Some terminator names `v`.
pub open spec fn named_by_term(f: FuncV, v: ValueId) -> bool {
    exists|b: int|
        0 <= b < f.blocks.len() && (#[trigger] f.blocks[b]).term is Some && f.blocks[b].term->0.uses().contains(
            v,
        )
}

/// Whether an instruction is an allocation or a collector edge whose result nothing reads.
pub open spec fn idle(f: FuncV, inst: InstV) -> bool {
    inst.gc_edge() && !f.read_by_inst(inst.dest()) && !named_by_term(f, inst.dest())
}

/// The instructions from `i` on that are not idle.
pub open spec fn busy(f: FuncV, insts: Seq<InstV>, i: int) -> Seq<InstV>
    decreases insts.len() - i,
{
    if i >= insts.len() {
        Seq::empty()
    } else {
        (if idle(f, insts[i]) {
            Seq::empty()
        } else {
            seq![insts[i]]
        }) + busy(f, insts, i + 1)
    }
}

/// How many instructions of the first `b` blocks are idle.
pub open spec fn idle_below(f: FuncV, b: int) -> nat
    decreases b,
{
    if b <= 0 {
        0
    } else {
        idle_below(f, b - 1) + (f.blocks[b - 1].insts.len() - busy(f, f.blocks[b - 1].insts, 0).len()) as nat
    }
}

/// The function without idle allocations and collector edges.
pub open spec fn quiet(f: FuncV) -> FuncV {
    FuncV {
        blocks: Seq::new(
            f.blocks.len(),
            |b: int| BlockV { insts: busy(f, f.blocks[b].insts, 0), ..f.blocks[b] },
        ),
        ..f
    }
}

/// The function with changed arrays read in place of their likes, and how many allocations and
/// collector edges went.
pub open spec fn reused(f: FuncV) -> (FuncV, nat) {
    let subst = stands_from(f, 0, Map::empty());
    if subst == Map::<u32, ValueId>::empty() {
        (f, 0)
    } else {
        let g = renamed(f, subst);
        (pruned(quiet(g)), idle_below(g, g.blocks.len() as int))
    }
}

/// What is known of a block's arrays.
struct Heap {
    made: IdMap<Vec<ValueId>>,
    live: Vec<(Vec<ValueId>, ValueId)>,
    stored: Option<(Vec<ValueId>, ValueId)>,
    fresh: Option<ValueId>,
}

spec fn live_view(s: Seq<(Vec<ValueId>, ValueId)>) -> Seq<(Seq<ValueId>, ValueId)> {
    Seq::new(s.len(), |i: int| (s[i].0@, s[i].1))
}

spec fn made_view(m: Map<u32, Vec<ValueId>>) -> Map<u32, Seq<ValueId>> {
    Map::new(|k: u32| m.dom().contains(k), |k: u32| m[k]@)
}

spec fn heap_view(h: Heap, subst: Map<u32, ValueId>) -> HeapV {
    HeapV {
        subst,
        made: made_view(h.made@),
        live: live_view(h.live@),
        stored: match h.stored {
            Some(s) => Some((s.0@, s.1)),
            None => None,
        },
        fresh: h.fresh,
    }
}

/// Every value that is known is one of the function.
spec fn heap_in_range(h: HeapV, f: FuncV) -> bool {
    &&& map_in_range(f, h.subst)
    &&& forall|k: int| 0 <= k < h.live.len() ==> (#[trigger] h.live[k]).1.0 < f.types.len()
    &&& h.stored matches Some(s) ==> s.1.0 < f.types.len()
    &&& h.fresh matches Some(v) ==> v.0 < f.types.len()
}

proof fn listed_in_range(live: Seq<(Seq<ValueId>, ValueId)>, elems: Seq<ValueId>, i: int, n: nat)
    requires
        0 <= i,
        forall|k: int| 0 <= k < live.len() ==> (#[trigger] live[k]).1.0 < n,
    ensures
        listed(live, elems, i) matches Some(v) ==> v.0 < n,
    decreases live.len() - i,
{
    if i < live.len() {
        listed_in_range(live, elems, i + 1, n);
    }
}

proof fn unlisted_in_range(live: Seq<(Seq<ValueId>, ValueId)>, elems: Seq<ValueId>, i: int, n: nat)
    requires
        0 <= i,
        forall|k: int| 0 <= k < live.len() ==> (#[trigger] live[k]).1.0 < n,
    ensures
        forall|k: int|
            0 <= k < unlisted(live, elems, i).len() ==> (#[trigger] unlisted(live, elems, i)[k]).1.0 < n,
    decreases live.len() - i,
{
    if i < live.len() {
        unlisted_in_range(live, elems, i + 1, n);
        let rest = unlisted(live, elems, i + 1);
        let all = unlisted(live, elems, i);
        assert forall|k: int| 0 <= k < all.len() implies (#[trigger] all[k]).1.0 < n by {
            let head = all.len() - rest.len();
            if k >= head {
                assert(all[k] == rest[k - head]);
            } else {
                assert(all[k] == live[i]);
            }
        }
    }
}

fn same_ids(a: &Vec<ValueId>, b: &Vec<ValueId>) -> (r: bool)
    ensures
        r == (a@ == b@),
{
    if a.len() != b.len() {
        return false;
    }
    let mut i: usize = 0;
    while i < a.len()
        invariant
            i <= a@.len(),
            a@.len() == b@.len(),
            forall|k: int| 0 <= k < i ==> a@[k] == b@[k],
        decreases a@.len() - i,
    {
        if a[i] != b[i] {
            return false;
        }
        i += 1;
    }
    assert(a@ =~= b@);
    true
}

fn find_listed(live: &Vec<(Vec<ValueId>, ValueId)>, elems: &Vec<ValueId>) -> (r: Option<ValueId>)
    ensures
        r == listed(live_view(live@), elems@, 0),
{
    let ghost lv = live_view(live@);
    let mut i: usize = 0;
    while i < live.len()
        invariant
            i <= live@.len(),
            lv == live_view(live@),
            listed(lv, elems@, 0) == listed(lv, elems@, i as int),
        decreases live@.len() - i,
    {
        if same_ids(&live[i].0, elems) {
            return Some(live[i].1);
        }
        i += 1;
    }
    None
}

fn unlist(live: &mut Vec<(Vec<ValueId>, ValueId)>, elems: &Vec<ValueId>)
    ensures
        live_view(final(live)@) == unlisted(live_view(old(live)@), elems@, 0),
{
    let ghost lv = live_view(live@);
    let ghost all = unlisted(lv, elems@, 0);
    let mut r: Vec<(Vec<ValueId>, ValueId)> = Vec::new();
    assert(live_view(r@) + all =~= all);
    let mut i: usize = 0;
    while i < live.len()
        invariant
            i <= live@.len(),
            lv == live_view(live@),
            live_view(r@) + unlisted(lv, elems@, i as int) == all,
        decreases live@.len() - i,
    {
        let ghost r0 = live_view(r@);
        if !same_ids(&live[i].0, elems) {
            let e = copy_ids(&live[i].0);
            r.push((e, live[i].1));
            assert(live_view(r@) =~= r0.push(lv[i as int]));
        }
        assert(live_view(r@) + unlisted(lv, elems@, i + 1) =~= r0 + unlisted(lv, elems@, i as int));
        i += 1;
    }
    assert(live_view(r@) + unlisted(lv, elems@, i as int) =~= live_view(r@));
    *live = r;
}

fn find_array_root(roots: &Vec<ValueId>, made: &IdMap<Vec<ValueId>>) -> (r: Option<ValueId>)
    ensures
        r == array_root(roots@, made_view(made@), 0),
{
    let ghost mv = made_view(made@);
    let mut i: usize = 0;
    while i < roots.len()
        invariant
            i <= roots@.len(),
            mv == made_view(made@),
            array_root(roots@, mv, 0) == array_root(roots@, mv, i as int),
        decreases roots@.len() - i,
    {
        if made.contains_key(&roots[i].0) {
            return Some(roots[i]);
        }
        i += 1;
    }
    None
}

fn note_array(h: &mut Heap, subst: &mut IdMap<ValueId>, dest: ValueId, elems: &Vec<ValueId>, Ghost(f): Ghost<FuncV>)
    requires
        heap_in_range(heap_view(*old(h), old(subst)@), f),
        dest.0 < f.types.len(),
    ensures
        heap_view(*final(h), final(subst)@) == heap_view(*old(h), old(subst)@).behind_array(dest, elems@),
        heap_in_range(heap_view(*final(h), final(subst)@), f),
{
    let ghost v0 = heap_view(*h, subst@);
    proof {
        listed_in_range(v0.live, elems@, 0, f.types.len());
    }
    let ghost made0 = h.made@;
    h.made.insert(dest.0, copy_ids(elems));
    assert(made_view(h.made@) =~= v0.made.insert(dest.0, elems@));
    let reused_array = match &h.stored {
        Some(s) => if same_ids(&s.0, elems) {
            Some(s.1)
        } else {
            None
        },
        None => None,
    };
    match reused_array {
        Some(arr) => {
            subst.insert(dest.0, arr);
        },
        None => match find_listed(&h.live, elems) {
            Some(prev) => {
                subst.insert(dest.0, prev);
            },
            None => {
                h.live.push((copy_ids(elems), dest));
                assert(live_view(h.live@) =~= v0.live.push((elems@, dest)));
            },
        },
    }
    h.stored = None;
    h.fresh = Some(dest);
}

fn note_edge(h: &mut Heap, subst: &mut IdMap<ValueId>, dest: ValueId, roots: &Vec<ValueId>, Ghost(f): Ghost<FuncV>)
    requires
        heap_in_range(heap_view(*old(h), old(subst)@), f),
        dest.0 < f.types.len(),
        forall|k: int| 0 <= k < roots@.len() ==> (#[trigger] roots@[k]).0 < f.types.len(),
    ensures
        heap_view(*final(h), final(subst)@) == heap_view(*old(h), old(subst)@).behind_edge(dest, roots@),
        heap_in_range(heap_view(*final(h), final(subst)@), f),
{
    let ghost v0 = heap_view(*h, subst@);
    proof {
        array_root_in_range(roots@, v0.made, 0, f.types.len());
    }
    let ident = match h.fresh {
        Some(a) => if roots.len() == 0 || has_id(roots, a) {
            Some(a)
        } else {
            find_array_root(roots, &h.made)
        },
        None => find_array_root(roots, &h.made),
    };
    assert(ident == v0.edge_of(roots@));
    h.fresh = None;
    if let Some(r) = ident {
        let obj = value_under(subst, r);
        subst.insert(dest.0, obj);
        let elems = match h.made.get(&r.0) {
            Some(e) => Some(copy_ids(e)),
            None => None,
        };
        if let Some(elems) = elems {
            let pending = match &h.stored {
                Some(s) => same_ids(&s.0, &elems) && s.1 == obj,
                None => false,
            };
            if !pending {
                proof {
                    unlisted_in_range(v0.live, elems@, 0, f.types.len());
                }
                unlist(&mut h.live, &elems);
                let ghost l1 = live_view(h.live@);
                let ghost ev = elems@;
                h.live.push((elems, obj));
                assert(live_view(h.live@) =~= l1.push((ev, obj)));
                h.stored = None;
            }
        }
    }
}

proof fn array_root_in_range(roots: Seq<ValueId>, made: Map<u32, Seq<ValueId>>, i: int, n: nat)
    requires
        0 <= i,
        forall|k: int| 0 <= k < roots.len() ==> (#[trigger] roots[k]).0 < n,
    ensures
        array_root(roots, made, i) matches Some(v) ==> v.0 < n,
    decreases roots.len() - i,
{
    if i < roots.len() {
        array_root_in_range(roots, made, i + 1, n);
    }
}

fn note_store(h: &mut Heap, subst: &IdMap<ValueId>, array: ValueId, Ghost(f): Ghost<FuncV>)
    requires
        heap_in_range(heap_view(*old(h), subst@), f),
        array.0 < f.types.len(),
    ensures
        heap_view(*final(h), subst@) == heap_view(*old(h), subst@).behind_store(array),
        heap_in_range(heap_view(*final(h), subst@), f),
{
    let ghost v0 = heap_view(*h, subst@);
    let arr = value_under(subst, array);
    let elems = match h.made.get(&arr.0) {
        Some(e) => Some(copy_ids(e)),
        None => None,
    };
    if let Some(elems) = elems {
        proof {
            unlisted_in_range(v0.live, elems@, 0, f.types.len());
        }
        unlist(&mut h.live, &elems);
        h.stored = Some((elems, arr));
    }
}

fn note_inst(h: &mut Heap, subst: &mut IdMap<ValueId>, inst: &MirInst, Ghost(f): Ghost<FuncV>)
    requires
        heap_in_range(heap_view(*old(h), old(subst)@), f),
        f.inst_indexed(inst@),
    ensures
        heap_view(*final(h), final(subst)@) == heap_view(*old(h), old(subst)@).behind(inst@),
        heap_in_range(heap_view(*final(h), final(subst)@), f),
{
    match inst {
        MirInst::Alloc { dest, kind, elems } => {
            if matches!(*kind, MirAllocKind::Array | MirAllocKind::Tuple) {
                note_array(h, subst, *dest, elems, Ghost(f));
            } else {
                h.fresh = Some(*dest);
                h.stored = None;
            }
        },
        MirInst::ArrayPush { dest, .. } => {
            h.fresh = Some(*dest);
            h.stored = None;
        },
        MirInst::GcBarrier { dest, roots, .. } => {
            proof {
                assert forall|k: int| 0 <= k < roots@.len() implies (#[trigger] roots@[k]).0
                    < f.types.len() by {
                    assert(inst@.uses()[k] == roots@[k]);
                }
            }
            note_edge(h, subst, *dest, roots, Ghost(f));
        },
        MirInst::StoreIndex { array, .. } => {
            assert(inst@.uses()[0] == *array);
            note_store(h, subst, *array, Ghost(f));
        },
        _ => {
            h.stored = None;
        },
    }
}

fn find_stands(func: &MirFunc) -> (r: IdMap<ValueId>)
    requires
        func@.indexed(),
    ensures
        r@ == stands_from(func@, 0, Map::empty()),
        map_in_range(func@, r@),
{
    let ghost f = func@;
    let mut subst: IdMap<ValueId> = IdMap::new();
    let mut b: usize = 0;
    while b < func.blocks.len()
        invariant
            b <= func.blocks@.len(),
            f == func@,
            f.indexed(),
            map_in_range(f, subst@),
            stands_from(f, 0, Map::empty()) == stands_from(f, b as int, subst@),
        decreases func.blocks@.len() - b,
    {
        let block = &func.blocks[b];
        assert(f.blocks[b as int] == block@);
        assert(f.block_indexed(f.blocks[b as int], b as int));
        let ghost iv = block@.insts;
        let ghost start = heap_start(subst@);
        let mut h = Heap { made: IdMap::new(), live: Vec::new(), stored: None, fresh: None };
        assert(heap_view(h, subst@) =~= start);
        let mut i: usize = 0;
        while i < block.insts.len()
            invariant
                i <= block.insts@.len(),
                iv == block@.insts,
                forall|k: int| 0 <= k < iv.len() ==> f.inst_indexed(#[trigger] iv[k]),
                heap_in_range(heap_view(h, subst@), f),
                heap_in(start, iv, 0) == heap_in(heap_view(h, subst@), iv, i as int),
            decreases block.insts@.len() - i,
        {
            assert(iv[i as int] == block.insts@[i as int]@);
            assert(f.inst_indexed(iv[i as int]));
            note_inst(&mut h, &mut subst, &block.insts[i], Ghost(f));
            i += 1;
        }
        b += 1;
    }
    subst
}

fn is_named(func: &MirFunc, v: ValueId) -> (r: bool)
    ensures
        r == named_by_term(func@, v),
{
    let ghost f = func@;
    let mut b: usize = 0;
    while b < func.blocks.len()
        invariant
            b <= func.blocks@.len(),
            f == func@,
            forall|p: int|
                0 <= p < b ==> !((#[trigger] f.blocks[p]).term is Some && f.blocks[p].term->0.uses().contains(v)),
        decreases func.blocks@.len() - b,
    {
        assert(f.blocks[b as int] == func.blocks@[b as int]@);
        if let Some(t) = &func.blocks[b].term {
            if super::index::term_reads(t, v) {
                return true;
            }
        }
        b += 1;
    }
    false
}

fn keep_busy(func: &MirFunc, b: usize) -> (r: Vec<MirInst>)
    requires
        b < func@.blocks.len(),
    ensures
        insts_view(r@) == busy(func@, func@.blocks[b as int].insts, 0),
        r@.len() <= func@.blocks[b as int].insts.len(),
{
    let ghost f = func@;
    let block = &func.blocks[b];
    assert(f.blocks[b as int] == block@);
    let ghost iv = block@.insts;
    let ghost all = busy(f, iv, 0);
    let mut r: Vec<MirInst> = Vec::new();
    assert(insts_view(r@) + all =~= all);
    let mut i: usize = 0;
    while i < block.insts.len()
        invariant
            i <= block.insts@.len(),
            f == func@,
            iv == block@.insts,
            r@.len() <= i,
            insts_view(r@) + busy(f, iv, i as int) == all,
        decreases block.insts@.len() - i,
    {
        let ghost r0 = insts_view(r@);
        assert(iv[i as int] == block.insts@[i as int]@);
        let d = block.insts[i].dest();
        if !block.insts[i].is_gc_edge() || func.read_by_inst(d) || is_named(func, d) {
            let c = block.insts[i].clone();
            r.push(c);
            assert(insts_view(r@) =~= r0.push(iv[i as int]));
        }
        assert(insts_view(r@) + busy(f, iv, i + 1) =~= r0 + busy(f, iv, i as int));
        i += 1;
    }
    assert(insts_view(r@) + busy(f, iv, i as int) =~= insts_view(r@));
    r
}

proof fn busy_are_members(f: FuncV, insts: Seq<InstV>, i: int)
    requires
        0 <= i,
    ensures
        forall|k: int|
            0 <= k < busy(f, insts, i).len() ==> insts.contains(#[trigger] busy(f, insts, i)[k]),
    decreases insts.len() - i,
{
    if i < insts.len() {
        busy_are_members(f, insts, i + 1);
        let rest = busy(f, insts, i + 1);
        let all = busy(f, insts, i);
        assert forall|k: int| 0 <= k < all.len() implies insts.contains(#[trigger] all[k]) by {
            let head = all.len() - rest.len();
            if k >= head {
                assert(all[k] == rest[k - head]);
            } else {
                assert(insts[i] == all[k]);
            }
        }
    }
}

proof fn quiet_keeps_index(f: FuncV)
    requires
        f.indexed(),
    ensures
        quiet(f).indexed(),
{
    let g = quiet(f);
    assert forall|b: int| 0 <= b < g.blocks.len() implies g.block_indexed(#[trigger] g.blocks[b], b) by {
        assert(f.block_indexed(f.blocks[b], b));
        busy_are_members(f, f.blocks[b].insts, 0);
        assert forall|i: int| 0 <= i < g.blocks[b].insts.len() implies g.inst_indexed(
            #[trigger] g.blocks[b].insts[i],
        ) by {
            let k = f.blocks[b].insts.index_of(g.blocks[b].insts[i]);
            assert(f.inst_indexed(f.blocks[b].insts[k]));
        }
    }
}

fn drop_idle(func: &mut MirFunc) -> (r: usize)
    requires
        old(func)@.indexed(),
    ensures
        final(func)@ == quiet(old(func)@),
        r == capped(idle_below(old(func)@, old(func)@.blocks.len() as int)),
{
    let ghost f = func@;
    let mut kept: Vec<Vec<MirInst>> = Vec::new();
    let n = func.blocks.len();
    let mut count: usize = 0;
    let mut b: usize = 0;
    while b < n
        invariant
            b <= n,
            n == f.blocks.len(),
            f == func@,
            kept@.len() == b,
            count == capped(idle_below(f, b as int)),
            forall|k: int|
                0 <= k < b ==> insts_view((#[trigger] kept@[k])@) == busy(f, f.blocks[k].insts, 0),
        decreases n - b,
    {
        let insts = keep_busy(func, b);
        assert(f.blocks[b as int] == func.blocks@[b as int]@);
        let gone = func.blocks[b].insts.len() - insts.len();
        count = count.saturating_add(gone);
        kept.push(insts);
        b += 1;
    }
    let mut b: usize = 0;
    while b < n
        invariant
            b <= n,
            n == f.blocks.len(),
            n == func.blocks@.len(),
            kept@.len() == n,
            func@ == (FuncV { blocks: func@.blocks, ..f }),
            forall|k: int|
                b <= k < n ==> insts_view((#[trigger] kept@[k])@) == busy(f, f.blocks[k].insts, 0),
            forall|k: int| 0 <= k < b ==> (#[trigger] func@.blocks[k]) == quiet(f).blocks[k],
            forall|k: int| b <= k < n ==> (#[trigger] func@.blocks[k]) == f.blocks[k],
        decreases n - b,
    {
        let ghost fb = func@;
        let ghost k0 = kept@;
        assert(fb.blocks[b as int] == func.blocks@[b as int]@);
        let mut insts: Vec<MirInst> = Vec::new();
        std::mem::swap(&mut insts, &mut kept[b]);
        let ghost iv = insts_view(insts@);
        assert(iv == insts_view(k0[b as int]@));
        func.blocks[b].insts = insts;
        assert(func@.blocks =~= fb.blocks.update(
            b as int,
            BlockV { insts: iv, ..f.blocks[b as int] },
        ));
        assert(func@.blocks[b as int] =~= quiet(f).blocks[b as int]);
        b += 1;
    }
    assert(func@.blocks =~= quiet(f).blocks);
    count
}

/// Reads the changed array in place of an allocation of its elements. Returns how many
/// allocations and collector edges went.
pub fn sroa(func: &mut MirFunc) -> (r: usize)
    requires
        old(func)@.indexed(),
    ensures
        final(func)@ == reused(old(func)@).0,
        r == capped(reused(old(func)@).1),
        final(func)@.indexed(),
{
    let subst = find_stands(func);
    if subst.is_empty() {
        return 0;
    }
    proof {
        renaming_keeps_index(func@, subst@);
        quiet_keeps_index(renamed(func@, subst@));
        pruning_keeps_index(quiet(renamed(func@, subst@)));
    }
    rename_all(func, &subst);
    let gone = drop_idle(func);
    dce(func);
    gone
}

/// Only results of allocations and collector edges are replaced.
pub proof fn only_heap_results_are_replaced(f: FuncV, v: u32)
    requires
        stands_from(f, 0, Map::empty()).dom().contains(v),
    ensures
        exists|b: int, i: int|
            0 <= b < f.blocks.len() && 0 <= i < f.blocks[b].insts.len() && (
            #[trigger] f.blocks[b].insts[i]).gc_edge() && f.blocks[b].insts[i].dest().0 == v,
{
    replaced_from(f, 0, Map::empty(), v);
}

proof fn replaced_from(f: FuncV, b: int, subst: Map<u32, ValueId>, v: u32)
    requires
        0 <= b,
        stands_from(f, b, subst).dom().contains(v),
        !subst.dom().contains(v),
    ensures
        exists|p: int, i: int|
            0 <= p < f.blocks.len() && 0 <= i < f.blocks[p].insts.len() && (
            #[trigger] f.blocks[p].insts[i]).gc_edge() && f.blocks[p].insts[i].dest().0 == v,
    decreases f.blocks.len() - b,
{
    if b < f.blocks.len() {
        let next = heap_in(heap_start(subst), f.blocks[b].insts, 0).subst;
        if next.dom().contains(v) {
            let i = replaced_in(heap_start(subst), f.blocks[b].insts, 0, v);
            assert(f.blocks[b].insts[i].gc_edge());
        } else {
            replaced_from(f, b + 1, next, v);
        }
    }
}

proof fn replaced_in(h: HeapV, insts: Seq<InstV>, i: int, v: u32) -> (k: int)
    requires
        0 <= i,
        heap_in(h, insts, i).subst.dom().contains(v),
        !h.subst.dom().contains(v),
    ensures
        0 <= k < insts.len(),
        insts[k].gc_edge(),
        insts[k].dest().0 == v,
    decreases insts.len() - i,
{
    if h.behind(insts[i]).subst.dom().contains(v) && i < insts.len() {
        i
    } else {
        replaced_in(h.behind(insts[i]), insts, i + 1, v)
    }
}

// Reading changed arrays keeps functions valid.

/// `k` is defined at `p, j`, before position `b, i`, and what `m` puts in its place before that.
spec fn swapped_at(f: FuncV, m: Map<u32, ValueId>, k: u32, p: int, j: int, b: int, i: int) -> bool {
    &&& defined_at(f, p, j, ValueId(k))
    &&& before(p, j, b, i)
    &&& defined_before(f, p, j, m[k])
}

/// Every replacement is one of the code before position `b, i`.
spec fn swaps_earlier(f: FuncV, m: Map<u32, ValueId>, b: int, i: int) -> bool {
    forall|k: u32| #[trigger]
        m.dom().contains(k) ==> exists|p: int, j: int| #[trigger] swapped_at(f, m, k, p, j, b, i)
}

/// A heap object that is there at position `b, i`.
spec fn object_at(f: FuncV, b: int, i: int, v: ValueId) -> bool {
    f.ty(v) is HeapRef && defined_before(f, b, i, v)
}

/// What is known of a block's arrays holds of objects that are there at position `b, i`.
spec fn heap_holds(f: FuncV, h: HeapV, b: int, i: int) -> bool {
    &&& same_types(f, h.subst)
    &&& swaps_earlier(f, h.subst, b, i)
    &&& forall|k: u32| #[trigger] h.made.dom().contains(k) ==> object_at(f, b, i, ValueId(k))
    &&& forall|x: int| 0 <= x < h.live.len() ==> object_at(f, b, i, (#[trigger] h.live[x]).1)
    &&& h.stored matches Some(s) ==> object_at(f, b, i, s.1)
    &&& h.fresh matches Some(v) ==> object_at(f, b, i, v)
}

proof fn listed_is_live(live: Seq<(Seq<ValueId>, ValueId)>, elems: Seq<ValueId>, i: int)
    requires
        0 <= i,
        listed(live, elems, i) is Some,
    ensures
        exists|x: int| 0 <= x < live.len() && (#[trigger] live[x]).1 == listed(live, elems, i)->0,
    decreases live.len() - i,
{
    if i < live.len() && live[i].0 != elems {
        listed_is_live(live, elems, i + 1);
    } else {
        assert(live[i].1 == listed(live, elems, i)->0);
    }
}

proof fn unlisted_is_live(live: Seq<(Seq<ValueId>, ValueId)>, elems: Seq<ValueId>, i: int, k: int)
    requires
        0 <= i,
        0 <= k < unlisted(live, elems, i).len(),
    ensures
        exists|x: int| 0 <= x < live.len() && #[trigger] live[x] == unlisted(live, elems, i)[k],
    decreases live.len() - i,
{
    if i < live.len() {
        let rest = unlisted(live, elems, i + 1);
        let head = unlisted(live, elems, i).len() - rest.len();
        if k >= head {
            assert(unlisted(live, elems, i)[k] == rest[k - head]);
            unlisted_is_live(live, elems, i + 1, k - head);
        } else {
            assert(live[i] == unlisted(live, elems, i)[k]);
        }
    }
}

proof fn root_is_made(roots: Seq<ValueId>, made: Map<u32, Seq<ValueId>>, i: int)
    requires
        0 <= i,
    ensures
        array_root(roots, made, i) matches Some(v) ==> made.dom().contains(v.0),
    decreases roots.len() - i,
{
    if i < roots.len() {
        root_is_made(roots, made, i + 1);
    }
}

/// What stands for an object is one.
proof fn swapped_objects(f: FuncV, m: Map<u32, ValueId>, b: int, i: int, v: ValueId)
    requires
        same_types(f, m),
        swaps_earlier(f, m, b, i),
        object_at(f, b, i, v),
    ensures
        object_at(f, b, i, map_value(m, v)),
{
    assert(ValueId(v.0) == v);
    if m.dom().contains(v.0) {
        let (p, j) = choose|p: int, j: int| #[trigger] swapped_at(f, m, v.0, p, j, b, i);
        earlier_is_before(f, p, j, b, i, m[v.0]);
    }
}

/// A replacement of the result at `b, i`, added behind it.
proof fn swapping_one_more(f: FuncV, m: Map<u32, ValueId>, b: int, i: int, v: ValueId)
    requires
        valid(f),
        has_inst(f, b, i),
        same_types(f, m),
        swaps_earlier(f, m, b, i),
        object_at(f, b, i, v),
        f.ty(f.blocks[b].insts[i].dest()) is HeapRef,
    ensures
        same_types(f, m.insert(f.blocks[b].insts[i].dest().0, v)),
        swaps_earlier(f, m.insert(f.blocks[b].insts[i].dest().0, v), b, i + 1),
{
    let d = f.blocks[b].insts[i].dest();
    let n = m.insert(d.0, v);
    assert(f.blocks[b].insts[i].dests()[0] == d);
    assert(ValueId(d.0) == d);
    assert forall|k: u32| #[trigger] n.dom().contains(k) implies f.ty(n[k]) == f.ty(ValueId(k)) by {
        if k != d.0 {
            assert(m.dom().contains(k));
        }
    }
    assert forall|k: u32| #[trigger] n.dom().contains(k) implies exists|p: int, j: int| #[trigger]
        swapped_at(f, n, k, p, j, b, i + 1) by {
        if k == d.0 {
            assert(swapped_at(f, n, k, b, i, b, i + 1));
        } else {
            assert(m.dom().contains(k));
            let (p, j) = choose|p: int, j: int| #[trigger] swapped_at(f, m, k, p, j, b, i);
            assert(swapped_at(f, n, k, p, j, b, i + 1));
        }
    }
}

proof fn swaps_stay(f: FuncV, m: Map<u32, ValueId>, b: int, i: int)
    requires
        swaps_earlier(f, m, b, i),
    ensures
        swaps_earlier(f, m, b, i + 1),
{
    assert forall|k: u32| #[trigger] m.dom().contains(k) implies exists|p: int, j: int| #[trigger]
        swapped_at(f, m, k, p, j, b, i + 1) by {
        let (p, j) = choose|p: int, j: int| #[trigger] swapped_at(f, m, k, p, j, b, i);
        assert(swapped_at(f, m, k, p, j, b, i + 1));
    }
}

proof fn heap_steps(f: FuncV, h: HeapV, b: int, i: int)
    requires
        valid(f),
        has_inst(f, b, i),
        heap_holds(f, h, b, i),
    ensures
        heap_holds(f, h.behind(f.blocks[b].insts[i]), b, i + 1),
{
    let inst = f.blocks[b].insts[i];
    let n = h.behind(inst);
    let d = inst.dest();
    assert(block_valid(f, b));
    assert(inst_valid(f, b, i));
    assert(inst.dests()[0] == d);
    assert(ValueId(d.0) == d);
    assert(defined_at(f, b, i, d));
    assert(before(b, i, b, i + 1));
    assert forall|v: ValueId| object_at(f, b, i, v) implies #[trigger] object_at(f, b, i + 1, v) by {
        earlier_is_before(f, b, i, b, i + 1, v);
    }
    swaps_stay(f, h.subst, b, i);
    match inst {
        InstV::Alloc { dest, kind, elems } => {
            assert(object_at(f, b, i + 1, d));
            if kind is Array || kind is Tuple {
                let again = match h.stored {
                    Some(s) => s.0 == elems,
                    None => false,
                };
                if again {
                    swapping_one_more(f, h.subst, b, i, (h.stored->0).1);
                } else if listed(h.live, elems, 0) is Some {
                    listed_is_live(h.live, elems, 0);
                    swapping_one_more(f, h.subst, b, i, listed(h.live, elems, 0)->0);
                }
                assert forall|k: u32| #[trigger] n.made.dom().contains(k) implies object_at(
                    f,
                    b,
                    i + 1,
                    ValueId(k),
                ) by {
                    if k != d.0 {
                        assert(h.made.dom().contains(k));
                        assert(object_at(f, b, i, ValueId(k)));
                    }
                }
                assert forall|x: int| 0 <= x < n.live.len() implies object_at(
                    f,
                    b,
                    i + 1,
                    (#[trigger] n.live[x]).1,
                ) by {
                    if x < h.live.len() {
                        assert(object_at(f, b, i, h.live[x].1));
                    }
                }
            }
        },
        InstV::GcBarrier { dest, roots, .. } => {
            root_is_made(roots, h.made, 0);
            if let Some(r) = h.edge_of(roots) {
                assert(ValueId(r.0) == r);
                assert(object_at(f, b, i, r));
                let obj = map_value(h.subst, r);
                swapped_objects(f, h.subst, b, i, r);
                swapping_one_more(f, h.subst, b, i, obj);
                assert forall|x: int| 0 <= x < n.live.len() implies object_at(
                    f,
                    b,
                    i + 1,
                    (#[trigger] n.live[x]).1,
                ) by {
                    if n.live != h.live && x < n.live.len() - 1 {
                        let elems = h.made[r.0];
                        assert(n.live[x] == unlisted(h.live, elems, 0)[x]);
                        unlisted_is_live(h.live, elems, 0, x);
                        let y = choose|y: int|
                            0 <= y < h.live.len() && #[trigger] h.live[y] == n.live[x];
                        assert(object_at(f, b, i, h.live[y].1));
                    } else if n.live != h.live {
                        assert(object_at(f, b, i, obj));
                    } else {
                        assert(object_at(f, b, i, h.live[x].1));
                    }
                }
            }
        },
        InstV::ArrayPush { .. } => {
            assert(object_at(f, b, i + 1, d));
        },
        InstV::StoreIndex { array, .. } => {
            let arr = map_value(h.subst, array);
            assert(ValueId(arr.0) == arr);
            if h.made.dom().contains(arr.0) {
                assert(object_at(f, b, i, arr));
                assert forall|x: int| 0 <= x < n.live.len() implies object_at(
                    f,
                    b,
                    i + 1,
                    (#[trigger] n.live[x]).1,
                ) by {
                    unlisted_is_live(h.live, h.made[arr.0], 0, x);
                    let y = choose|y: int| 0 <= y < h.live.len() && #[trigger] h.live[y] == n.live[x];
                    assert(object_at(f, b, i, h.live[y].1));
                }
            }
        },
        _ => {},
    }
    assert forall|k: u32| #[trigger] h.made.dom().contains(k) implies object_at(
        f,
        b,
        i + 1,
        ValueId(k),
    ) by {
        assert(object_at(f, b, i, ValueId(k)));
    }
    assert forall|x: int| 0 <= x < h.live.len() implies object_at(f, b, i + 1, (#[trigger] h.live[x]).1) by {
        assert(object_at(f, b, i, h.live[x].1));
    }
    if let Some(s) = h.stored {
        assert(object_at(f, b, i, s.1));
    }
    if let Some(v) = h.fresh {
        assert(object_at(f, b, i, v));
    }
}

proof fn heap_walks(f: FuncV, h: HeapV, b: int, i: int)
    requires
        valid(f),
        0 <= b < f.blocks.len(),
        0 <= i <= f.blocks[b].insts.len(),
        heap_holds(f, h, b, i),
    ensures
        same_types(f, heap_in(h, f.blocks[b].insts, i).subst),
        swaps_earlier(f, heap_in(h, f.blocks[b].insts, i).subst, b + 1, 0),
    decreases f.blocks[b].insts.len() - i,
{
    let insts = f.blocks[b].insts;
    if i < insts.len() {
        assert(has_inst(f, b, i));
        heap_steps(f, h, b, i);
        heap_walks(f, h.behind(insts[i]), b, i + 1);
    } else {
        assert forall|k: u32| #[trigger] h.subst.dom().contains(k) implies exists|p: int, j: int|
            #[trigger] swapped_at(f, h.subst, k, p, j, b + 1, 0) by {
            let (p, j) = choose|p: int, j: int| #[trigger] swapped_at(f, h.subst, k, p, j, b, i);
            assert(swapped_at(f, h.subst, k, p, j, b + 1, 0));
        }
    }
}

proof fn stands_are_earlier(f: FuncV, b: int, m: Map<u32, ValueId>)
    requires
        valid(f),
        0 <= b <= f.blocks.len(),
        same_types(f, m),
        swaps_earlier(f, m, b, 0),
    ensures
        same_types(f, stands_from(f, b, m)),
        swaps_earlier(f, stands_from(f, b, m), f.blocks.len() as int, 0),
    decreases f.blocks.len() - b,
{
    if b < f.blocks.len() {
        heap_walks(f, heap_start(m), b, 0);
        stands_are_earlier(f, b + 1, heap_in(heap_start(m), f.blocks[b].insts, 0).subst);
    }
}

proof fn busy_is_sieved(f: FuncV, insts: Seq<InstV>, i: int)
    ensures
        busy(f, insts, i) == sieved(insts, |x: InstV| !idle(f, x), i),
    decreases insts.len() - i,
{
    if i < insts.len() {
        busy_is_sieved(f, insts, i + 1);
    }
}

/// Leaving out idle allocations and collector edges keeps a function valid.
pub proof fn quiet_functions_are_valid(f: FuncV)
    requires
        valid(f),
    ensures
        valid(quiet(f)),
{
    let g = quiet(f);
    let p = |x: InstV| !idle(f, x);
    assert forall|b: int, i: int, c: int, j: int|
        #![trigger has_inst(f, b, i), has_inst(f, c, j)]
        has_inst(f, b, i) && has_inst(f, c, j) && p(f.blocks[b].insts[i]) && !f.blocks[b].insts[i].phi()
            && (exists|v: ValueId| #[trigger]
            f.blocks[b].insts[i].uses().contains(v) && f.blocks[c].insts[j].dests().contains(v)) implies p(
        f.blocks[c].insts[j],
    ) by {
        let user = f.blocks[b].insts[i];
        let maker = f.blocks[c].insts[j];
        let v = choose|v: ValueId| #[trigger] user.uses().contains(v) && maker.dests().contains(v);
        if maker.gc_edge() {
            assert(maker.dests() =~= seq![maker.dest()]);
            assert(f.blocks[b].insts[i].uses().contains(maker.dest()));
            assert(f.read_by_inst(maker.dest()));
        }
    }
    assert forall|b: int| 0 <= b < f.blocks.len() implies (#[trigger] g.blocks[b]) == (BlockV {
        insts: sieved(f.blocks[b].insts, p, 0),
        ..f.blocks[b]
    }) by {
        busy_is_sieved(f, f.blocks[b].insts, 0);
    }
    sieving_keeps_validity(f, g, p);
}

/// Reading changed arrays in place of their likes keeps a function valid.
pub proof fn reuse_keeps_validity(f: FuncV)
    requires
        f.fault() is None,
    ensures
        reused(f).0.fault() is None,
{
    verification_finds_the_valid_functions(f);
    let none = Map::<u32, ValueId>::empty();
    let m = stands_from(f, 0, none);
    let n = f.blocks.len() as int;
    stands_are_earlier(f, 0, none);
    assert forall|k: u32| #[trigger] m.dom().contains(k) implies !f.params.contains(ValueId(k)) by {
        let (p, j) = choose|p: int, j: int| #[trigger] swapped_at(f, m, k, p, j, n, 0);
        values_are_defined_once(f, p, j, p, j, ValueId(k));
    }
    assert forall|k: u32, b: int, i: int|
        #![trigger m.dom().contains(k), has_inst(f, b, i)]
        m.dom().contains(k) && defined_at(f, b, i, ValueId(k)) implies defined_before(f, b, i, m[k]) by {
        let (p, j) = choose|p: int, j: int| #[trigger] swapped_at(f, m, k, p, j, n, 0);
        values_are_defined_once(f, p, j, b, i, ValueId(k));
    }
    if m != none {
        let g = renamed(f, m);
        renaming_keeps_validity(f, m);
        quiet_functions_are_valid(g);
        pruning_keeps_validity(quiet(g));
    }
    verification_finds_the_valid_functions(reused(f).0);
}

// Arrays stand for arrays of their elements.

/// Instruction `j` makes the array or tuple `w` of the elements.
pub open spec fn makes_array(insts: Seq<InstV>, j: int, w: ValueId, elems: Seq<ValueId>) -> bool {
    0 <= j < insts.len() && match insts[j] {
        InstV::Alloc { dest, kind, elems: es } => (kind is Array || kind is Tuple) && dest == w && es == elems,
        _ => false,
    }
}

/// What is known of the arrays before instruction `i` is so.
spec fn arrays_known(h: HeapV, insts: Seq<InstV>, i: int) -> bool {
    &&& forall|d: u32| #[trigger]
        h.made.dom().contains(d) ==> exists|j: int| j < i && #[trigger] makes_array(insts, j, ValueId(d), h.made[d])
    &&& forall|x: int|
        0 <= x < h.live.len() ==> h.made.dom().contains((#[trigger] h.live[x]).1.0) && h.made[h.live[x].1.0]
            == h.live[x].0
    &&& h.stored matches Some(s) ==> h.made.dom().contains(s.1.0) && h.made[s.1.0] == s.0
    &&& forall|d: u32| #[trigger]
        h.made.dom().contains(d) && h.subst.dom().contains(d) ==> h.made.dom().contains(h.subst[d].0)
            && h.made[h.subst[d].0] == h.made[d]
}

/// The results of the instructions differ.
spec fn results_differ(insts: Seq<InstV>) -> bool {
    forall|x: int, y: int| #![trigger insts[x], insts[y]]
        0 <= x < y < insts.len() ==> insts[x].dest() != insts[y].dest()
}

proof fn listed_elements(live: Seq<(Seq<ValueId>, ValueId)>, elems: Seq<ValueId>, i: int)
    requires
        0 <= i,
        listed(live, elems, i) is Some,
    ensures
        exists|x: int| 0 <= x < live.len() && #[trigger] live[x] == (elems, listed(live, elems, i)->0),
    decreases live.len() - i,
{
    if i < live.len() && live[i].0 != elems {
        listed_elements(live, elems, i + 1);
    } else {
        assert(live[i] == (elems, listed(live, elems, i)->0));
    }
}

proof fn knowing_goes_on(h: HeapV, insts: Seq<InstV>, i: int)
    requires
        0 <= i < insts.len(),
        arrays_known(h, insts, i),
        results_differ(insts),
        !h.subst.dom().contains(insts[i].dest().0),
    ensures
        arrays_known(h.behind(insts[i]), insts, i + 1),
{
    let g = h.behind(insts[i]);
    let d = insts[i].dest();
    assert forall|c: u32| #[trigger] h.made.dom().contains(c) implies c != d.0 by {
        let j = choose|j: int| j < i && #[trigger] makes_array(insts, j, ValueId(c), h.made[c]);
        assert(insts[j].dest() != insts[i].dest());
        assert(ValueId(d.0) == d);
    }
    assert forall|c: u32| #[trigger] g.made.dom().contains(c) implies exists|j: int|
        j < i + 1 && #[trigger] makes_array(insts, j, ValueId(c), g.made[c]) by {
        if h.made.dom().contains(c) {
            let j = choose|j: int| j < i && #[trigger] makes_array(insts, j, ValueId(c), h.made[c]);
            assert(makes_array(insts, j, ValueId(c), g.made[c]));
        } else {
            assert(ValueId(d.0) == d);
            assert(makes_array(insts, i, ValueId(c), g.made[c]));
        }
    }
    match insts[i] {
        InstV::Alloc { dest, kind, elems } => {
            if (kind is Array || kind is Tuple) && listed(h.live, elems, 0) is Some {
                listed_elements(h.live, elems, 0);
            }
        },
        InstV::GcBarrier { dest, roots, .. } => {
            if h.edge_of(roots) is Some {
                let r = h.edge_of(roots)->0;
                let obj = map_value(h.subst, r);
                if h.made.dom().contains(r.0) && h.stored != Some((h.made[r.0], obj)) {
                    let rest = unlisted(h.live, h.made[r.0], 0);
                    assert forall|x: int| 0 <= x < g.live.len() implies g.made.dom().contains(
                        (#[trigger] g.live[x]).1.0,
                    ) && g.made[g.live[x].1.0] == g.live[x].0 by {
                        if x < rest.len() {
                            unlisted_is_live(h.live, h.made[r.0], 0, x);
                        }
                    }
                }
            }
        },
        InstV::StoreIndex { array, .. } => {
            let arr = map_value(h.subst, array);
            if h.made.dom().contains(arr.0) {
                assert forall|x: int| 0 <= x < g.live.len() implies g.made.dom().contains(
                    (#[trigger] g.live[x]).1.0,
                ) && g.made[g.live[x].1.0] == g.live[x].0 by {
                    unlisted_is_live(h.live, h.made[arr.0], 0, x);
                }
            }
        },
        _ => {},
    }
}

proof fn known_to_the_end(h: HeapV, insts: Seq<InstV>, i: int)
    requires
        0 <= i <= insts.len(),
        arrays_known(h, insts, i),
        results_differ(insts),
        forall|k: int| i <= k < insts.len() ==> !h.subst.dom().contains((#[trigger] insts[k]).dest().0),
    ensures
        arrays_known(heap_in(h, insts, i), insts, insts.len() as int),
        forall|d: u32| #[trigger] h.made.dom().contains(d) ==> heap_in(h, insts, i).made.dom().contains(d),
        forall|k: int, elems: Seq<ValueId>|
            i <= k < insts.len() && #[trigger] makes_array(insts, k, insts[k].dest(), elems) ==> heap_in(
                h,
                insts,
                i,
            ).made.dom().contains(insts[k].dest().0),
    decreases insts.len() - i,
{
    if i < insts.len() {
        let g = h.behind(insts[i]);
        knowing_goes_on(h, insts, i);
        known_to_the_end(g, insts, i + 1);
        assert forall|k: int, elems: Seq<ValueId>|
            i <= k < insts.len() && #[trigger] makes_array(insts, k, insts[k].dest(), elems) implies heap_in(
            h,
            insts,
            i,
        ).made.dom().contains(insts[k].dest().0) by {
            if k == i {
                assert(g.made.dom().contains(insts[i].dest().0));
            } else {
                assert(heap_in(g, insts, i + 1).made.dom().contains(insts[k].dest().0));
            }
        }
    }
}

proof fn others_stay(h: HeapV, insts: Seq<InstV>, i: int, d: u32)
    requires
        0 <= i <= insts.len(),
        forall|k: int| i <= k < insts.len() ==> (#[trigger] insts[k]).dest().0 != d,
    ensures
        heap_in(h, insts, i).subst.dom().contains(d) == h.subst.dom().contains(d),
        h.subst.dom().contains(d) ==> heap_in(h, insts, i).subst[d] == h.subst[d],
    decreases insts.len() - i,
{
    if i < insts.len() {
        others_stay(h.behind(insts[i]), insts, i + 1, d);
    }
}

proof fn stands_in_other_blocks(f: FuncV, b: int, subst: Map<u32, ValueId>, d: u32)
    requires
        0 <= b <= f.blocks.len(),
        forall|c: int, k: int| b <= c && #[trigger] has_inst(f, c, k) ==> f.blocks[c].insts[k].dest().0 != d,
    ensures
        stands_from(f, b, subst).dom().contains(d) == subst.dom().contains(d),
        subst.dom().contains(d) ==> stands_from(f, b, subst)[d] == subst[d],
    decreases f.blocks.len() - b,
{
    if b < f.blocks.len() {
        let insts = f.blocks[b].insts;
        assert forall|k: int| 0 <= k < insts.len() implies (#[trigger] insts[k]).dest().0 != d by {
            assert(has_inst(f, b, k));
        }
        others_stay(heap_start(subst), insts, 0, d);
        stands_in_other_blocks(f, b + 1, heap_in(heap_start(subst), insts, 0).subst, d);
    }
}

proof fn results_apart(f: FuncV, b: int, i: int, c: int, j: int)
    requires
        valid(f),
        has_inst(f, b, i),
        has_inst(f, c, j),
        f.blocks[b].insts[i].dest() == f.blocks[c].insts[j].dest(),
    ensures
        b == c && i == j,
{
    assert(f.blocks[b].insts[i].dests()[0] == f.blocks[b].insts[i].dest());
    assert(f.blocks[c].insts[j].dests()[0] == f.blocks[c].insts[j].dest());
    values_are_defined_once(f, b, i, c, j, f.blocks[b].insts[i].dest());
}

proof fn stands_from_block(f: FuncV, a: int, subst: Map<u32, ValueId>, b: int, i: int, elems: Seq<ValueId>)
    requires
        valid(f),
        0 <= a <= b < f.blocks.len(),
        forall|c: int, k: int|
            a <= c && #[trigger] has_inst(f, c, k) ==> !subst.dom().contains(f.blocks[c].insts[k].dest().0),
        makes_array(f.blocks[b].insts, i, f.blocks[b].insts[i].dest(), elems),
        stands_from(f, a, subst).dom().contains(f.blocks[b].insts[i].dest().0),
    ensures
        exists|j: int| #[trigger]
            makes_array(
                f.blocks[b].insts,
                j,
                stands_from(f, a, subst)[f.blocks[b].insts[i].dest().0],
                elems,
            ),
    decreases b - a,
{
    let insts = f.blocks[a].insts;
    let h = heap_start(subst);
    let g = heap_in(h, insts, 0);
    let d = f.blocks[b].insts[i].dest();
    assert(has_inst(f, b, i));
    if a < b {
        assert forall|c: int, k: int| a + 1 <= c && #[trigger] has_inst(f, c, k) implies !g.subst.dom().contains(
            f.blocks[c].insts[k].dest().0,
        ) by {
            let e = f.blocks[c].insts[k].dest();
            assert forall|m: int| 0 <= m < insts.len() implies (#[trigger] insts[m]).dest().0 != e.0 by {
                assert(has_inst(f, a, m));
                if insts[m].dest().0 == e.0 {
                    assert(insts[m].dest() == e);
                    results_apart(f, a, m, c, k);
                }
            }
            others_stay(h, insts, 0, e.0);
        }
        stands_from_block(f, a + 1, g.subst, b, i, elems);
    } else {
        assert(results_differ(insts)) by {
            assert forall|x: int, y: int| #![trigger insts[x], insts[y]]
                0 <= x < y < insts.len() implies insts[x].dest() != insts[y].dest() by {
                assert(has_inst(f, a, x) && has_inst(f, a, y));
                if insts[x].dest() == insts[y].dest() {
                    results_apart(f, a, x, a, y);
                }
            }
        }
        assert forall|k: int| 0 <= k < insts.len() implies !h.subst.dom().contains((#[trigger] insts[k]).dest().0) by {
            assert(has_inst(f, a, k));
        }
        known_to_the_end(h, insts, 0);
        assert forall|c: int, k: int| a + 1 <= c && #[trigger] has_inst(f, c, k) implies f.blocks[c].insts[k].dest().0
            != d.0 by {
            if f.blocks[c].insts[k].dest().0 == d.0 {
                assert(f.blocks[c].insts[k].dest() == d);
                results_apart(f, c, k, b, i);
            }
        }
        stands_in_other_blocks(f, a + 1, g.subst, d.0);
        assert(g.made.dom().contains(d.0));
        let w = g.subst[d.0];
        let j = choose|j: int| j < insts.len() && #[trigger] makes_array(insts, j, ValueId(d.0), g.made[d.0]);
        assert(makes_array(insts, j, ValueId(d.0), g.made[d.0]));
        assert(insts[j].dest() == insts[i].dest());
        assert(has_inst(f, a, j));
        results_apart(f, a, i, a, j);
        assert(g.made[d.0] == elems);
        let m = choose|m: int| m < insts.len() && #[trigger] makes_array(insts, m, ValueId(w.0), g.made[w.0]);
        assert(makes_array(insts, m, w, elems));
    }
}

/// What stands for an array or a tuple is one that its block makes of the same elements.
pub proof fn arrays_stand_for_their_likes(f: FuncV, b: int, i: int, elems: Seq<ValueId>)
    requires
        f.fault() is None,
        0 <= b < f.blocks.len(),
        makes_array(f.blocks[b].insts, i, f.blocks[b].insts[i].dest(), elems),
        stands_from(f, 0, Map::empty()).dom().contains(f.blocks[b].insts[i].dest().0),
    ensures
        exists|j: int| #[trigger]
            makes_array(
                f.blocks[b].insts,
                j,
                stands_from(f, 0, Map::empty())[f.blocks[b].insts[i].dest().0],
                elems,
            ),
{
    verification_finds_the_valid_functions(f);
    stands_from_block(f, 0, Map::empty(), b, i, elems);
}

} // verus!

//! Which frame slots hold heap words at each allocation.
use super::func::{roots_view, FuncV, MirFunc};
use super::gc::{alloc_reason, fill_live_roots, refuses_alloc, with_live_roots, RootsV};
use super::host_allow::HostNative;
use super::infer::{infer_stack_map, inferred, InferMode, InferredV};
use super::inst::{InstV, LocalId, MirInst, ValueId};
use super::lower::{numeric, plain_hints, try_lower_numeric, HintsV, LowerHints};
use super::ty::MirTy;
use crate::idmap::IdMap;
use crate::ids::ascending_ids;
use crate::il::op::{Byte, IlOp, Instruction};
use crate::order::{keyed, sort_keyed, sort_orders_and_permutes, sorted_keyed};
use crate::scan::same;
use vstd::prelude::*;

verus! {

// Sets of slots.

/// The numbers of a set, ascending, as 16-bit slots.
pub open spec fn slots16(s: Set<u32>) -> Seq<u16> {
    ascending_ids(s).map_values(|k: u32| k as u16)
}

fn list_slots(m: &IdMap<()>) -> (r: Vec<u16>)
    requires
        forall|k: u32| #[trigger] m@.dom().contains(k) ==> k <= u16::MAX,
    ensures
        r@ == slots16(m@.dom()),
{
    let ks = m.keys();
    proof {
        crate::ids::listing_holds_the_members(m@.dom());
    }
    let mut r: Vec<u16> = Vec::new();
    let mut i: usize = 0;
    while i < ks.len()
        invariant
            i <= ks@.len(),
            ks@ == ascending_ids(m@.dom()),
            r@.len() == i,
            forall|x: int| 0 <= x < i ==> #[trigger] r@[x] == ks@[x] as u16,
        decreases ks@.len() - i,
    {
        r.push(ks[i] as u16);
        i += 1;
    }
    assert(r@ =~= slots16(m@.dom()));
    r
}

/// The numbers of a list, as a set.
pub open spec fn members(s: Seq<u16>) -> Set<u32> {
    Set::new(|k: u32| exists|j: int| 0 <= j < s.len() && #[trigger] s[j] == k)
}

fn add_slots(m: &mut IdMap<()>, s: &Vec<u16>)
    requires
        forall|k: u32| #[trigger] old(m)@.dom().contains(k) ==> k <= u16::MAX,
    ensures
        final(m)@.dom() == old(m)@.dom().union(members(s@)),
        forall|k: u32| #[trigger] final(m)@.dom().contains(k) ==> k <= u16::MAX,
{
    let ghost d0 = m@.dom();
    let mut i: usize = 0;
    while i < s.len()
        invariant
            i <= s@.len(),
            forall|k: u32| #[trigger] m@.dom().contains(k) ==> k <= u16::MAX,
            forall|k: u32|
                #[trigger] m@.dom().contains(k) <==> d0.contains(k) || (exists|j: int|
                    0 <= j < i && #[trigger] s@[j] == k),
        decreases s@.len() - i,
    {
        let ghost m0 = m@.dom();
        m.insert(s[i] as u32, ());
        proof {
            assert forall|k: u32|
                #[trigger] m@.dom().contains(k) <==> d0.contains(k) || (exists|j: int|
                    0 <= j < i + 1 && #[trigger] s@[j] == k) by {
                if k == s@[i as int] {
                } else {
                    assert(m@.dom().contains(k) == m0.contains(k));
                    if exists|j: int| 0 <= j < i + 1 && #[trigger] s@[j] == k {
                        let j = choose|j: int| 0 <= j < i + 1 && #[trigger] s@[j] == k;
                        assert(j < i);
                    }
                }
            }
        }
        i += 1;
    }
    assert(m@.dom() =~= d0.union(members(s@)));
}

fn copy_slots(s: &Vec<u16>) -> (r: Vec<u16>)
    ensures
        r@ == s@,
{
    let mut r: Vec<u16> = Vec::new();
    let mut i: usize = 0;
    while i < s.len()
        invariant
            i <= s@.len(),
            r@ == s@.take(i as int),
        decreases s@.len() - i,
    {
        r.push(s[i]);
        i += 1;
        assert(r@ =~= s@.take(i as int));
    }
    assert(r@ =~= s@);
    r
}

// Maps of a function.

/// Heap slots of a function, before code has positions.
#[derive(Debug, PartialEq, Eq)]
pub struct DraftFrameMap {
    pub name: String,
    /// Live heap slots at each allocation, in code order.
    pub sites: Vec<Vec<u16>>,
    /// Slots that hold a heap word anywhere.
    pub frame_slots: Vec<u16>,
}

/// Mathematical form of [`DraftFrameMap`].
#[verifier::ext_equal]
pub struct FrameMapV {
    pub name: Seq<char>,
    pub sites: Seq<Seq<u16>>,
    pub frame_slots: Seq<u16>,
}

pub open spec fn lists_view(s: Seq<Vec<u16>>) -> Seq<Seq<u16>> {
    Seq::new(s.len(), |i: int| s[i]@)
}

impl View for DraftFrameMap {
    type V = FrameMapV;

    open spec fn view(&self) -> FrameMapV {
        FrameMapV {
            name: self.name@,
            sites: lists_view(self.sites@),
            frame_slots: self.frame_slots@,
        }
    }
}

pub open spec fn draft_view(o: Option<DraftFrameMap>) -> Option<FrameMapV> {
    match o {
        Some(d) => Some(d@),
        None => None,
    }
}

/// Slots recorded at value `at`, by the first set from `i` on.
pub open spec fn recorded(roots: Seq<RootsV>, at: ValueId, i: int) -> Seq<LocalId>
    decreases roots.len() - i,
{
    if i >= roots.len() {
        Seq::empty()
    } else if roots[i].at == at {
        roots[i].slots
    } else {
        recorded(roots, at, i + 1)
    }
}

/// The locals that are 16-bit slots.
pub open spec fn narrow(s: Seq<LocalId>) -> Set<u32> {
    Set::new(|k: u32| k <= u16::MAX && exists|j: int| 0 <= j < s.len() && (#[trigger] s[j]).0 == k)
}

/// Heap slots live at value `at`.
pub open spec fn slots_at(f: FuncV, at: ValueId) -> Set<u32> {
    narrow(recorded(f.gc_roots, at, 0))
}

/// Whether an instruction allocates; the collector edge behind it belongs to it.
pub open spec fn allocates(inst: InstV) -> bool {
    inst is Alloc || inst is ArrayPush || inst is Format || inst is Stringify
}

/// `done` with the sites from instruction `i` on; `pending` allocated just before.
pub open spec fn sites_in(
    f: FuncV,
    insts: Seq<InstV>,
    i: int,
    pending: Option<ValueId>,
    done: Seq<Seq<u16>>,
) -> Seq<Seq<u16>>
    decreases insts.len() - i,
{
    if i >= insts.len() {
        done
    } else if allocates(insts[i]) {
        sites_in(f, insts, i + 1, Some(insts[i].dest()), done)
    } else if insts[i] is GcBarrier {
        let own = slots_at(f, insts[i].dest());
        let all = match pending {
            Some(a) => slots_at(f, a).union(own),
            None => own,
        };
        sites_in(f, insts, i + 1, None, done.push(slots16(all)))
    } else {
        sites_in(f, insts, i + 1, None, done)
    }
}

/// `done` with the sites from block `b` on.
pub open spec fn sites_from(f: FuncV, b: int, done: Seq<Seq<u16>>) -> Seq<Seq<u16>>
    decreases f.blocks.len() - b,
{
    if b >= f.blocks.len() {
        done
    } else {
        sites_from(f, b + 1, sites_in(f, f.blocks[b].insts, 0, None, done))
    }
}

/// `s` with the slots of the sites from `i` on.
pub open spec fn all_members(s: Set<u32>, sites: Seq<Seq<u16>>, i: int) -> Set<u32>
    decreases sites.len() - i,
{
    if i >= sites.len() {
        s
    } else {
        all_members(s.union(members(sites[i])), sites, i + 1)
    }
}

/// The map of a function whose live heap words are recorded; none where nothing is recorded.
pub open spec fn frame_map(f: FuncV) -> Option<FrameMapV> {
    let sites = sites_from(f, 0, Seq::empty());
    if f.gc_roots.len() == 0 || sites.len() == 0 {
        None
    } else {
        Some(
            FrameMapV {
                name: f.name,
                sites,
                frame_slots: slots16(all_members(Set::empty(), sites, 0)),
            },
        )
    }
}

fn take_slots(func: &MirFunc, at: ValueId, into: &mut IdMap<()>)
    requires
        forall|k: u32| #[trigger] old(into)@.dom().contains(k) ==> k <= u16::MAX,
    ensures
        final(into)@.dom() == old(into)@.dom().union(slots_at(func@, at)),
        forall|k: u32| #[trigger] final(into)@.dom().contains(k) ==> k <= u16::MAX,
{
    let ghost f = func@;
    let ghost rv = f.gc_roots;
    let ghost d0 = into@.dom();
    let n = func.gc_roots.len();
    let mut i: usize = 0;
    while i < n && func.gc_roots[i].at != at
        invariant
            i <= n,
            n == func.gc_roots@.len(),
            rv == roots_view(func.gc_roots@),
            recorded(rv, at, 0) == recorded(rv, at, i as int),
        decreases n - i,
    {
        assert(rv[i as int] == func.gc_roots@[i as int]@);
        i += 1;
    }
    if i >= n {
        assert(into@.dom() =~= d0.union(slots_at(f, at)));
        return;
    }
    assert(rv[i as int] == func.gc_roots@[i as int]@);
    let slots = &func.gc_roots[i].slots;
    let ghost sv = slots@;
    assert(sv == recorded(rv, at, 0));
    let mut j: usize = 0;
    while j < slots.len()
        invariant
            j <= slots@.len(),
            sv == slots@,
            forall|k: u32| #[trigger] into@.dom().contains(k) ==> k <= u16::MAX,
            forall|k: u32|
                #[trigger] into@.dom().contains(k) <==> d0.contains(k) || (k <= u16::MAX && exists|x: int|
                    0 <= x < j && (#[trigger] sv[x]).0 == k),
        decreases slots@.len() - j,
    {
        let ghost m0 = into@.dom();
        let s = slots[j].0;
        if s <= u16::MAX as u32 {
            into.insert(s, ());
        }
        proof {
            assert forall|k: u32|
                #[trigger] into@.dom().contains(k) <==> d0.contains(k) || (k <= u16::MAX && exists|x: int|
                    0 <= x < j + 1 && (#[trigger] sv[x]).0 == k) by {
                if k == s {
                    assert(sv[j as int].0 == k);
                    if !(k <= u16::MAX) {
                        assert(into@.dom().contains(k) == m0.contains(k));
                    }
                } else {
                    assert(into@.dom().contains(k) == m0.contains(k));
                    if exists|x: int| 0 <= x < j + 1 && (#[trigger] sv[x]).0 == k {
                        let x = choose|x: int| 0 <= x < j + 1 && (#[trigger] sv[x]).0 == k;
                        assert(x < j);
                    }
                }
            }
        }
        j += 1;
    }
    assert(into@.dom() =~= d0.union(slots_at(f, at)));
}

fn list_sites(func: &MirFunc) -> (r: Vec<Vec<u16>>)
    ensures
        lists_view(r@) == sites_from(func@, 0, Seq::empty()),
{
    let ghost f = func@;
    let mut r: Vec<Vec<u16>> = Vec::new();
    assert(lists_view(r@) =~= Seq::empty());
    let mut b: usize = 0;
    while b < func.blocks.len()
        invariant
            b <= func.blocks@.len(),
            f == func@,
            sites_from(f, 0, Seq::empty()) == sites_from(f, b as int, lists_view(r@)),
        decreases func.blocks@.len() - b,
    {
        let block = &func.blocks[b];
        assert(f.blocks[b as int] == block@);
        let ghost iv = block@.insts;
        let ghost d0 = lists_view(r@);
        let mut pending: Option<ValueId> = None;
        let mut i: usize = 0;
        while i < block.insts.len()
            invariant
                i <= block.insts@.len(),
                f == func@,
                iv == block@.insts,
                sites_in(f, iv, 0, None, d0) == sites_in(f, iv, i as int, pending, lists_view(r@)),
            decreases block.insts@.len() - i,
        {
            assert(iv[i as int] == block.insts@[i as int]@);
            match &block.insts[i] {
                MirInst::Alloc { dest, .. }
                | MirInst::ArrayPush { dest, .. }
                | MirInst::Format { dest, .. }
                | MirInst::Stringify { dest, .. } => {
                    pending = Some(*dest);
                },
                MirInst::GcBarrier { dest, .. } => {
                    let ghost r0 = lists_view(r@);
                    let mut slots: IdMap<()> = IdMap::new();
                    let ghost e = Set::<u32>::empty();
                    assert(slots@.dom() =~= e);
                    if let Some(a) = pending {
                        take_slots(func, a, &mut slots);
                    }
                    take_slots(func, *dest, &mut slots);
                    assert(slots@.dom() =~= (match pending {
                        Some(a) => slots_at(f, a).union(slots_at(f, *dest)),
                        None => slots_at(f, *dest),
                    }));
                    pending = None;
                    let site = list_slots(&slots);
                    let ghost sv = site@;
                    r.push(site);
                    assert(lists_view(r@) =~= r0.push(sv));
                },
                _ => {
                    pending = None;
                },
            }
            i += 1;
        }
        b += 1;
    }
    r
}

fn add_sites(m: &mut IdMap<()>, sites: &Vec<Vec<u16>>)
    requires
        forall|k: u32| #[trigger] old(m)@.dom().contains(k) ==> k <= u16::MAX,
    ensures
        final(m)@.dom() == all_members(old(m)@.dom(), lists_view(sites@), 0),
        forall|k: u32| #[trigger] final(m)@.dom().contains(k) ==> k <= u16::MAX,
{
    let ghost sv = lists_view(sites@);
    let ghost d0 = m@.dom();
    let mut i: usize = 0;
    while i < sites.len()
        invariant
            i <= sites@.len(),
            sv == lists_view(sites@),
            forall|k: u32| #[trigger] m@.dom().contains(k) ==> k <= u16::MAX,
            all_members(d0, sv, 0) == all_members(m@.dom(), sv, i as int),
        decreases sites@.len() - i,
    {
        assert(sv[i as int] == sites@[i as int]@);
        add_slots(m, &sites[i]);
        i += 1;
    }
}

/// The map of a function whose live heap words are recorded.
pub fn encode_draft(func: &MirFunc) -> (r: Option<DraftFrameMap>)
    ensures
        draft_view(r) == frame_map(func@),
{
    if func.gc_roots.len() == 0 {
        return None;
    }
    let sites = list_sites(func);
    if sites.len() == 0 {
        return None;
    }
    let mut frame: IdMap<()> = IdMap::new();
    assert(frame@.dom() =~= Set::empty());
    add_sites(&mut frame, &sites);
    let frame_slots = list_slots(&frame);
    Some(DraftFrameMap { name: func.name.as_str().to_owned(), sites, frame_slots })
}

// Maps of a body.

/// What a body is lowered with for its map.
pub open spec fn map_hints(
    name: Seq<char>,
    types: InferredV,
    pool: Seq<u64>,
    entry_sp: u32,
    fields: Seq<(u32, u32)>,
    hosts: Seq<HostNative>,
) -> HintsV {
    HintsV {
        slot_ty: types.slot_ty,
        pool,
        pool_ty: types.pool_ty,
        param_count: entry_sp,
        allow_alloc: true,
        allow_index: true,
        allow_match: true,
        allow_effects: true,
        allow_string: true,
        unboxed_fields: fields,
        allow_fields: fields.len() > 0,
        allow_heap_fields: true,
        skip_verify: true,
        ..plain_hints(name, hosts)
    }
}

/// The function with its live heap words recorded, where they are not yet.
pub open spec fn with_roots(f: FuncV) -> FuncV {
    if f.gc_roots.len() == 0 && f.gc_edge() {
        with_live_roots(f)
    } else {
        f
    }
}

/// Slots below `n`, as far as they have 16 bits.
pub open spec fn slots_below(n: u32) -> Set<u32> {
    Set::new(|k: u32| k < n && k <= u16::MAX)
}

/// Slots of a heap type, as far as they have 16 bits.
pub open spec fn heap_slots(types: Map<u32, MirTy>) -> Set<u32> {
    Set::new(|k: u32| types.dom().contains(k) && types[k].heap_word() && k <= u16::MAX)
}

/// The slots of the frame: those of the sites and the parameters or, where there are none, those
/// of a heap type.
pub open spec fn frame_of(m: FrameMapV, entry_sp: u32, types: Map<u32, MirTy>) -> Set<u32> {
    if m.frame_slots.len() == 0 && entry_sp == 0 {
        heap_slots(types)
    } else {
        members(m.frame_slots).union(slots_below(entry_sp))
    }
}

/// The map with the parameters among the frame's slots. Where no site has a slot, each gets all.
pub open spec fn completed(
    m: FrameMapV,
    name: Seq<char>,
    entry_sp: u32,
    types: Map<u32, MirTy>,
) -> FrameMapV {
    let frame = slots16(frame_of(m, entry_sp, types));
    FrameMapV {
        name,
        sites: if forall|k: int| 0 <= k < m.sites.len() ==> (#[trigger] m.sites[k]).len() == 0 {
            Seq::new(m.sites.len(), |k: int| frame)
        } else {
            m.sites
        },
        frame_slots: frame,
    }
}

/// Whether a body allocates.
pub open spec fn body_allocates(ops: Seq<IlOp>) -> bool {
    exists|i: int| 0 <= i < ops.len() && (#[trigger] alloc_reason(ops[i])) is Some
}

/// The map of a body; none where it does not allocate or cannot be lowered.
pub open spec fn body_map(
    ops: Seq<IlOp>,
    name: Seq<char>,
    entry_sp: u32,
    pool: Seq<u64>,
    fields: Seq<(u32, u32)>,
    hosts: Seq<HostNative>,
) -> Option<FrameMapV> {
    if !body_allocates(ops) {
        None
    } else {
        match inferred(
            ops,
            pool.len(),
            entry_sp,
            InferMode::Maps,
            Map::empty(),
            Map::empty(),
            true,
            hosts,
        ) {
            Err(_) => None,
            Ok(types) => match numeric(ops, map_hints(name, types, pool, entry_sp, fields, hosts)) {
                Err(_) => None,
                Ok(f) => match frame_map(with_roots(f)) {
                    Some(m) => Some(completed(m, name, entry_sp, types.slot_ty)),
                    None => None,
                },
            },
        }
    }
}

/// Whether a body allocates.
pub fn has_alloc(ops: &[IlOp]) -> (r: bool)
    ensures
        r == body_allocates(ops@),
{
    let mut i: usize = 0;
    while i < ops.len()
        invariant
            i <= ops@.len(),
            forall|k: int| 0 <= k < i ==> (#[trigger] alloc_reason(ops@[k])) is None,
        decreases ops@.len() - i,
    {
        if refuses_alloc(&ops[i]) {
            return true;
        }
        i += 1;
    }
    false
}

/// Copy of a constant pool.
pub fn copy_pool(s: &[u64]) -> (r: Vec<u64>)
    ensures
        r@ == s@,
{
    let mut r: Vec<u64> = Vec::new();
    let mut i: usize = 0;
    while i < s.len()
        invariant
            i <= s@.len(),
            r@ == s@.take(i as int),
        decreases s@.len() - i,
    {
        r.push(s[i]);
        i += 1;
        assert(r@ =~= s@.take(i as int));
    }
    assert(r@ =~= s@);
    r
}

/// Copy of field ranges.
pub fn copy_ranges(s: &[(u32, u32)]) -> (r: Vec<(u32, u32)>)
    ensures
        r@ == s@,
{
    let mut r: Vec<(u32, u32)> = Vec::new();
    let mut i: usize = 0;
    while i < s.len()
        invariant
            i <= s@.len(),
            r@ == s@.take(i as int),
        decreases s@.len() - i,
    {
        r.push(s[i]);
        i += 1;
        assert(r@ =~= s@.take(i as int));
    }
    assert(r@ =~= s@);
    r
}

fn find_heap_slots(types: &IdMap<MirTy>) -> (r: IdMap<()>)
    ensures
        r@.dom() == heap_slots(types@),
{
    let ks = types.keys();
    proof {
        crate::ids::listing_holds_the_members(types@.dom());
    }
    let mut r: IdMap<()> = IdMap::new();
    let mut i: usize = 0;
    while i < ks.len()
        invariant
            i <= ks@.len(),
            ks@ == ascending_ids(types@.dom()),
            forall|k: u32|
                #[trigger] r@.dom().contains(k) <==> heap_slots(types@).contains(k) && (exists|j: int|
                    0 <= j < i && #[trigger] ks@[j] == k),
        decreases ks@.len() - i,
    {
        let k = ks[i];
        let ghost r0 = r@.dom();
        if k <= u16::MAX as u32 {
            if let Some(ty) = types.get(&k) {
                if ty.is_heap_word() {
                    r.insert(k, ());
                }
            }
        }
        proof {
            assert forall|x: u32|
                #[trigger] r@.dom().contains(x) <==> heap_slots(types@).contains(x) && (exists|j: int|
                    0 <= j < i + 1 && #[trigger] ks@[j] == x) by {
                if x == k {
                    assert(ks@[i as int] == x);
                } else {
                    assert(r@.dom().contains(x) == r0.contains(x));
                    if exists|j: int| 0 <= j < i + 1 && #[trigger] ks@[j] == x {
                        let j = choose|j: int| 0 <= j < i + 1 && #[trigger] ks@[j] == x;
                        assert(j < i);
                    }
                }
            }
        }
        i += 1;
    }
    assert forall|k: u32| heap_slots(types@).contains(k) implies #[trigger] r@.dom().contains(k) by {
        assert(ks@.contains(k));
    }
    assert(r@.dom() =~= heap_slots(types@));
    r
}

fn find_frame(m: &DraftFrameMap, entry_sp: u32, types: &IdMap<MirTy>) -> (r: IdMap<()>)
    ensures
        r@.dom() == frame_of(m@, entry_sp, types@),
        forall|k: u32| #[trigger] r@.dom().contains(k) ==> k <= u16::MAX,
{
    if m.frame_slots.len() == 0 && entry_sp == 0 {
        return find_heap_slots(types);
    }
    let ghost m0 = m@;
    let mut frame: IdMap<()> = IdMap::new();
    assert(frame@.dom() =~= Set::empty());
    add_slots(&mut frame, &m.frame_slots);
    assert(frame@.dom() =~= members(m0.frame_slots));
    let end: u32 = if entry_sp > u16::MAX as u32 {
        u16::MAX as u32 + 1
    } else {
        entry_sp
    };
    let mut k: u32 = 0;
    while k < end
        invariant
            k <= end,
            end == (if entry_sp > u16::MAX {
                u16::MAX + 1
            } else {
                entry_sp as int
            }),
            forall|x: u32| #[trigger] frame@.dom().contains(x) ==> x <= u16::MAX,
            forall|x: u32|
                #[trigger] frame@.dom().contains(x) <==> members(m0.frame_slots).contains(x) || x < k,
        decreases end - k,
    {
        frame.insert(k, ());
        k += 1;
    }
    assert(frame@.dom() =~= members(m0.frame_slots).union(slots_below(entry_sp)));
    frame
}

fn complete(m: &mut DraftFrameMap, name: &str, entry_sp: u32, types: &IdMap<MirTy>)
    ensures
        final(m)@ == completed(old(m)@, name@, entry_sp, types@),
{
    let ghost m0 = m@;
    let frame = find_frame(m, entry_sp, types);
    let slots = list_slots(&frame);
    let n = m.sites.len();
    let mut bare = true;
    let mut i: usize = 0;
    while i < n && bare
        invariant
            i <= n,
            n == m.sites@.len(),
            m0 == m@,
            bare ==> forall|x: int| 0 <= x < i ==> (#[trigger] m0.sites[x]).len() == 0,
            !bare ==> exists|x: int| 0 <= x < n && (#[trigger] m0.sites[x]).len() != 0,
        decreases n - i,
    {
        assert(m0.sites[i as int] == m.sites@[i as int]@);
        if m.sites[i].len() != 0 {
            bare = false;
        }
        i += 1;
    }
    if bare {
        let mut sites: Vec<Vec<u16>> = Vec::new();
        let mut i: usize = 0;
        while i < n
            invariant
                i <= n,
                sites@.len() == i,
                forall|x: int| 0 <= x < i ==> (#[trigger] sites@[x])@ == slots@,
            decreases n - i,
        {
            sites.push(copy_slots(&slots));
            i += 1;
        }
        m.sites = sites;
    }
    m.frame_slots = slots;
    m.name = name.to_owned();
    assert(m@.sites =~= completed(m0, name@, entry_sp, types@).sites);
}

/// The map of a body, whose host calls go by the table `hosts`; none where it does not allocate or
/// cannot be lowered.
pub fn try_build_draft(
    ops: &[IlOp],
    name: &str,
    entry_sp: u32,
    pool: &[u64],
    unboxed_fields: &[(u32, u32)],
    hosts: &Vec<HostNative>,
) -> (r: Option<DraftFrameMap>)
    requires
        ops@.len() <= u32::MAX,
    ensures
        draft_view(r) == body_map(ops@, name@, entry_sp, pool@, unboxed_fields@, hosts@),
{
    if !has_alloc(ops) {
        return None;
    }
    let seed = IdMap::new();
    let types = match infer_stack_map(ops, pool.len(), entry_sp, &seed, hosts) {
        Ok(t) => t,
        Err(_) => return None,
    };
    let ghost tv = types@;
    let mut hints = LowerHints::new(name, hosts);
    hints.slot_ty = types.slot_ty;
    hints.pool = copy_pool(pool);
    hints.pool_ty = types.pool_ty;
    hints.param_count = entry_sp;
    hints.allow_alloc = true;
    hints.allow_index = true;
    hints.allow_match = true;
    hints.allow_effects = true;
    hints.allow_string = true;
    hints.unboxed_fields = copy_ranges(unboxed_fields);
    hints.allow_fields = unboxed_fields.len() > 0;
    hints.allow_heap_fields = true;
    hints.skip_verify = true;
    assert(hints@ =~= map_hints(name@, tv, pool@, entry_sp, unboxed_fields@, hosts@));
    let mut func = match try_lower_numeric(ops, &hints) {
        Ok(f) => f,
        Err(_) => return None,
    };
    if func.gc_roots.len() == 0 && func.has_gc_edge() {
        fill_live_roots(&mut func);
    }
    match encode_draft(&func) {
        Some(m) => {
            let mut m = m;
            complete(&mut m, name, entry_sp, &hints.slot_ty);
            Some(m)
        },
        None => None,
    }
}

/// Whether an allocating body has a map.
pub fn has_real_maps(
    ops: &[IlOp],
    name: &str,
    entry_sp: u32,
    pool: &[u64],
    unboxed_fields: &[(u32, u32)],
    hosts: &Vec<HostNative>,
) -> (r: bool)
    requires
        ops@.len() <= u32::MAX,
    ensures
        r == mapped(ops@, name@, entry_sp, pool@, unboxed_fields@, hosts@),
{
    match try_build_draft(ops, name, entry_sp, pool, unboxed_fields, hosts) {
        Some(d) => d.sites.len() > 0,
        None => false,
    }
}

/// Whether a body has a map with a site.
pub open spec fn mapped(
    ops: Seq<IlOp>,
    name: Seq<char>,
    entry_sp: u32,
    pool: Seq<u64>,
    fields: Seq<(u32, u32)>,
    hosts: Seq<HostNative>,
) -> bool {
    body_map(ops, name, entry_sp, pool, fields, hosts) matches Some(m) && m.sites.len() > 0
}

// Positions in code.

pub open spec fn alloc_opcode(inst: Instruction) -> bool {
    inst is MakeArray || inst is MakeTuple || inst is MakeEnum || inst is InitTyped || inst is INIT
        || inst is ArrayPush || inst is DenseMake || inst is DenseArrayPush || inst is FORMAT
        || inst is STRINGIFY
}

/// Opcodes at which the collector may run.
pub fn is_alloc_opcode(inst: Instruction) -> (r: bool)
    ensures
        r == alloc_opcode(inst),
{
    matches!(
        inst,
        Instruction::MakeArray
        | Instruction::MakeTuple
        | Instruction::MakeEnum
        | Instruction::InitTyped
        | Instruction::INIT
        | Instruction::ArrayPush
        | Instruction::DenseMake
        | Instruction::DenseArrayPush
        | Instruction::FORMAT
        | Instruction::STRINGIFY
    )
}

/// Heap slots at a position.
#[derive(Debug, PartialEq, Eq)]
pub struct SlotMap {
    pub pc: u32,
    pub slots: Vec<u16>,
}

/// Mathematical form of [`SlotMap`].
#[verifier::ext_equal]
pub struct SlotMapV {
    pub pc: u32,
    pub slots: Seq<u16>,
}

impl View for SlotMap {
    type V = SlotMapV;

    open spec fn view(&self) -> SlotMapV {
        SlotMapV { pc: self.pc, slots: self.slots@ }
    }
}

/// Heap slots of a function's frame, and at each of its allocations.
#[derive(Debug, PartialEq, Eq)]
pub struct FrameStackMap {
    pub entry_pc: u32,
    pub end_pc: u32,
    pub frame_slots: Vec<u16>,
    pub safepoints: Vec<SlotMap>,
}

/// Mathematical form of [`FrameStackMap`].
#[verifier::ext_equal]
pub struct StackMapV {
    pub entry_pc: u32,
    pub end_pc: u32,
    pub frame_slots: Seq<u16>,
    pub safepoints: Seq<SlotMapV>,
}

pub open spec fn points_view(s: Seq<SlotMap>) -> Seq<SlotMapV> {
    Seq::new(s.len(), |i: int| s[i]@)
}

impl View for FrameStackMap {
    type V = StackMapV;

    open spec fn view(&self) -> StackMapV {
        StackMapV {
            entry_pc: self.entry_pc,
            end_pc: self.end_pc,
            frame_slots: self.frame_slots@,
            safepoints: points_view(self.safepoints@),
        }
    }
}

pub open spec fn maps_view(s: Seq<FrameStackMap>) -> Seq<StackMapV> {
    Seq::new(s.len(), |i: int| s[i]@)
}

pub open spec fn all_drafts(s: Seq<DraftFrameMap>) -> Seq<FrameMapV> {
    Seq::new(s.len(), |i: int| s[i]@)
}

pub open spec fn entries_view(s: Seq<(String, u32)>) -> Seq<(Seq<char>, u32)> {
    Seq::new(s.len(), |i: int| (s[i].0@, s[i].1))
}

/// Positions from `at` to `end` whose instruction allocates.
pub open spec fn alloc_pcs(code: Seq<Byte>, at: int, end: int) -> Seq<u32>
    decreases end - at,
{
    if at >= end {
        Seq::empty()
    } else {
        (if alloc_opcode(code[at].inst) {
            seq![at as u32]
        } else {
            Seq::empty()
        }) + alloc_pcs(code, at + 1, end)
    }
}

/// The first map from `i` on of that name.
pub open spec fn draft_named(drafts: Seq<FrameMapV>, name: Seq<char>, i: int) -> Option<int>
    decreases drafts.len() - i,
{
    if i >= drafts.len() {
        None
    } else if drafts[i].name == name {
        Some(i)
    } else {
        draft_named(drafts, name, i + 1)
    }
}

/// Entries by ascending position.
pub open spec fn entry_order(entries: Seq<(Seq<char>, u32)>) -> Seq<(usize, u32)> {
    sorted_keyed(Seq::new(entries.len(), |i: int| (i as usize, entries[i].1)))
}

/// A map placed at a function's code, where it has as many sites as the code allocations.
pub open spec fn placed(d: FrameMapV, code: Seq<Byte>, entry_pc: u32, end_pc: u32) -> Option<StackMapV> {
    let end = if end_pc > code.len() {
        code.len() as int
    } else {
        end_pc as int
    };
    let pcs = alloc_pcs(code, entry_pc as int, end);
    if pcs.len() != d.sites.len() {
        None
    } else {
        Some(
            StackMapV {
                entry_pc,
                end_pc,
                frame_slots: slots16(all_members(members(d.frame_slots), d.sites, 0)),
                safepoints: Seq::new(
                    pcs.len(),
                    |i: int| SlotMapV { pc: pcs[i], slots: d.sites[i] },
                ),
            },
        )
    }
}

/// `done` with the maps of the entries from `k` on.
pub open spec fn placed_from(
    drafts: Seq<FrameMapV>,
    code: Seq<Byte>,
    entries: Seq<(Seq<char>, u32)>,
    order: Seq<(usize, u32)>,
    k: int,
    done: Seq<StackMapV>,
) -> Seq<StackMapV>
    decreases order.len() - k,
{
    if k >= order.len() {
        done
    } else {
        let end_pc = if k + 1 < order.len() {
            order[k + 1].1
        } else {
            code.len() as u32
        };
        let next = match draft_named(drafts, entries[order[k].0 as int].0, 0) {
            Some(d) => match placed(drafts[d], code, order[k].1, end_pc) {
                Some(m) => done.push(m),
                None => done,
            },
            None => done,
        };
        placed_from(drafts, code, entries, order, k + 1, next)
    }
}

/// The maps of all entries, by ascending position.
pub open spec fn bound_maps(drafts: Seq<FrameMapV>, code: Seq<Byte>, entries: Seq<(Seq<char>, u32)>) -> Seq<
    StackMapV,
> {
    placed_from(drafts, code, entries, entry_order(entries), 0, Seq::empty())
}

fn list_alloc_pcs(code: &[Byte], start: usize, end: usize) -> (r: Vec<u32>)
    requires
        end <= code@.len(),
        code@.len() <= u32::MAX,
    ensures
        r@ == alloc_pcs(code@, start as int, end as int),
{
    let ghost all = alloc_pcs(code@, start as int, end as int);
    let mut r: Vec<u32> = Vec::new();
    assert(r@ + all =~= all);
    if start >= end {
        return r;
    }
    let mut at = start;
    while at < end
        invariant
            start <= at <= end,
            end <= code@.len(),
            code@.len() <= u32::MAX,
            r@ + alloc_pcs(code@, at as int, end as int) == all,
        decreases end - at,
    {
        let ghost r0 = r@;
        if is_alloc_opcode(*code[at].bytecode()) {
            r.push(at as u32);
        }
        assert(r@ + alloc_pcs(code@, at + 1, end as int) =~= r0 + alloc_pcs(
            code@,
            at as int,
            end as int,
        ));
        at += 1;
    }
    assert(r@ + alloc_pcs(code@, at as int, end as int) =~= r@);
    r
}

fn find_draft(drafts: &[DraftFrameMap], name: &str) -> (r: Option<usize>)
    ensures
        (match r {
            Some(i) => Some(i as int),
            None => None,
        }) == draft_named(all_drafts(drafts@), name@, 0),
        r matches Some(i) ==> i < drafts@.len(),
{
    let ghost dv = all_drafts(drafts@);
    let mut i: usize = 0;
    while i < drafts.len()
        invariant
            i <= drafts@.len(),
            dv == all_drafts(drafts@),
            draft_named(dv, name@, 0) == draft_named(dv, name@, i as int),
        decreases drafts@.len() - i,
    {
        assert(dv[i as int] == drafts@[i as int]@);
        if same(drafts[i].name.as_str(), name) {
            return Some(i);
        }
        i += 1;
    }
    None
}

fn place(d: &DraftFrameMap, code: &[Byte], entry_pc: u32, end_pc: u32) -> (r: Option<FrameStackMap>)
    requires
        code@.len() <= u32::MAX,
    ensures
        (match r {
            Some(m) => Some(m@),
            None => None,
        }) == placed(d@, code@, entry_pc, end_pc),
{
    let n = code.len();
    let end: usize = if end_pc as usize > n {
        n
    } else {
        end_pc as usize
    };
    let pcs = list_alloc_pcs(code, entry_pc as usize, end);
    if pcs.len() != d.sites.len() {
        return None;
    }
    let ghost dv = d@;
    let mut frame: IdMap<()> = IdMap::new();
    assert(frame@.dom() =~= Set::empty());
    add_slots(&mut frame, &d.frame_slots);
    assert(frame@.dom() =~= members(dv.frame_slots));
    add_sites(&mut frame, &d.sites);
    let mut safepoints: Vec<SlotMap> = Vec::new();
    let mut i: usize = 0;
    while i < pcs.len()
        invariant
            i <= pcs@.len(),
            pcs@.len() == d.sites@.len(),
            dv == d@,
            safepoints@.len() == i,
            forall|x: int|
                0 <= x < i ==> (#[trigger] safepoints@[x])@ == (SlotMapV {
                    pc: pcs@[x],
                    slots: dv.sites[x],
                }),
        decreases pcs@.len() - i,
    {
        let slots = copy_slots(&d.sites[i]);
        safepoints.push(SlotMap { pc: pcs[i], slots });
        i += 1;
    }
    let r = FrameStackMap { entry_pc, end_pc, frame_slots: list_slots(&frame), safepoints };
    assert(r@.safepoints =~= placed(dv, code@, entry_pc, end_pc)->0.safepoints);
    Some(r)
}

/// Places the maps at finished code. `entries` are functions and where their code begins; it ends
/// where the next begins. A map whose sites do not match the code's allocations is left out.
pub fn bind_drafts(drafts: &[DraftFrameMap], bytecode: &[Byte], entries: &[(String, u32)]) -> (r: Vec<
    FrameStackMap,
>)
    requires
        bytecode@.len() <= u32::MAX,
        forall|i: int|
            0 <= i < entries@.len() && draft_named(
                all_drafts(drafts@),
                (#[trigger] entries@[i]).0@,
                0,
            ) is Some ==> entries@[i].1 <= bytecode@.len(),
    ensures
        maps_view(r@) == bound_maps(all_drafts(drafts@), bytecode@, entries_view(entries@)),
{
    let ghost dv = all_drafts(drafts@);
    let ghost ev = entries_view(entries@);
    let mut numbered: Vec<(usize, u32)> = Vec::new();
    let mut i: usize = 0;
    while i < entries.len()
        invariant
            i <= entries@.len(),
            numbered@.len() == i,
            forall|x: int| 0 <= x < i ==> #[trigger] numbered@[x] == (x as usize, entries@[x].1),
        decreases entries@.len() - i,
    {
        numbered.push((i, entries[i].1));
        i += 1;
    }
    assert(numbered@ =~= Seq::new(ev.len(), |i: int| (i as usize, ev[i].1)));
    let order = sort_keyed(&numbered);
    let ghost ov = order@;
    proof {
        broadcast use vstd::seq_lib::group_to_multiset_ensures;

        sort_orders_and_permutes(keyed(), numbered@);
        assert forall|k: int| 0 <= k < ov.len() implies (#[trigger] ov[k]).0 < entries@.len() by {
            assert(ov.contains(ov[k]));
            assert(numbered@.to_multiset().contains(ov[k]));
            let x = numbered@.index_of(ov[k]);
            assert(numbered@[x] == ov[k]);
        }
    }
    let mut r: Vec<FrameStackMap> = Vec::new();
    assert(maps_view(r@) =~= Seq::empty());
    let n = order.len();
    let mut k: usize = 0;
    while k < n
        invariant
            k <= n,
            n == ov.len(),
            ov == order@,
            dv == all_drafts(drafts@),
            ev == entries_view(entries@),
            bytecode@.len() <= u32::MAX,
            forall|x: int| 0 <= x < ov.len() ==> (#[trigger] ov[x]).0 < entries@.len(),
            placed_from(dv, bytecode@, ev, ov, 0, Seq::empty()) == placed_from(
                dv,
                bytecode@,
                ev,
                ov,
                k as int,
                maps_view(r@),
            ),
        decreases n - k,
    {
        let ghost r0 = maps_view(r@);
        let (e, entry_pc) = order[k];
        assert(ov[k as int].0 < entries@.len());
        let end_pc: u32 = if k + 1 < n {
            order[k + 1].1
        } else {
            bytecode.len() as u32
        };
        if let Some(d) = find_draft(drafts, entries[e].0.as_str()) {
            if let Some(m) = place(&drafts[d], bytecode, entry_pc, end_pc) {
                let ghost mv = m@;
                r.push(m);
                assert(maps_view(r@) =~= r0.push(mv));
            }
        }
        k += 1;
    }
    r
}

} // verus!

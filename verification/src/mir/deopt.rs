//! Where the debugger may stop or optimised code may be left, and which slots are live there.
use super::effects::{host_effects, row_effects};
use super::func::{sites_view, BlockV, DeoptSite, FuncV, MirFunc, SiteV};
use super::gc::{alloc_inst, is_alloc_inst};
use super::host_allow::{row_in, HostNative};
use super::inst::{InstV, LocalId, MirDeoptKind, MirInst, TermV, Terminator, ValueId};
use crate::idmap::IdMap;
use crate::ids::ascending_ids;
use crate::il::op::{DebugLoc, IlOp, Instruction};
use vstd::prelude::*;

verus! {

impl InstV {
    /// Kind of the debugger edge that the instruction is.
    pub open spec fn edge_kind(self, hosts: Seq<HostNative>) -> Option<MirDeoptKind> {
        match self {
            InstV::Deopt { kind, .. } => Some(kind),
            InstV::Call { .. }
            | InstV::Alloc { .. }
            | InstV::GcBarrier { .. }
            | InstV::Print { .. }
            | InstV::Format { .. }
            | InstV::Stringify { .. } => Some(MirDeoptKind::Deopt),
            InstV::HostInvoke { native_id, .. } => if row_effects(row_in(hosts, native_id)).pure() {
                None
            } else {
                Some(MirDeoptKind::Deopt)
            },
            _ => None,
        }
    }
}

impl MirInst {
    /// Kind of the debugger edge that the instruction is, explicit or not.
    pub fn deopt_kind(&self, hosts: &Vec<HostNative>) -> (r: Option<MirDeoptKind>)
        ensures
            r == self@.edge_kind(hosts@),
    {
        match self {
            MirInst::Deopt { kind, .. } => Some(*kind),
            MirInst::Call { .. }
            | MirInst::Alloc { .. }
            | MirInst::GcBarrier { .. }
            | MirInst::Print { .. }
            | MirInst::Format { .. }
            | MirInst::Stringify { .. } => Some(MirDeoptKind::Deopt),
            MirInst::HostInvoke { native_id, .. } => if host_effects(hosts, *native_id).is_pure() {
                None
            } else {
                Some(MirDeoptKind::Deopt)
            },
            _ => None,
        }
    }
}

/// Kind of the debugger edge that an operation becomes.
pub open spec fn boundary(op: IlOp) -> Option<MirDeoptKind> {
    match op {
        IlOp::HostInvoke { .. }
        | IlOp::Entry { .. }
        | IlOp::MakeArray { .. }
        | IlOp::MakeTuple { .. }
        | IlOp::MakeEnum { .. }
        | IlOp::Print { .. } => Some(MirDeoptKind::Deopt),
        IlOp::Byte { byte, .. } => if alloc_inst(byte.inst) || byte.inst is FORMAT
            || byte.inst is STRINGIFY {
            Some(MirDeoptKind::Deopt)
        } else {
            None
        },
        IlOp::Return { .. } | IlOp::Halt { .. } | IlOp::Jump { .. } => Some(MirDeoptKind::Stop),
        IlOp::StorePop { loc, .. } => if loc.known() {
            Some(MirDeoptKind::Stop)
        } else {
            None
        },
        _ => None,
    }
}

/// Kind of the debugger edge that an operation becomes.
pub fn boundary_for_op(op: &IlOp) -> (r: Option<MirDeoptKind>)
    ensures
        r == boundary(*op),
{
    match op {
        IlOp::HostInvoke { .. }
        | IlOp::Entry { .. }
        | IlOp::MakeArray { .. }
        | IlOp::MakeTuple { .. }
        | IlOp::MakeEnum { .. }
        | IlOp::Print { .. } => Some(MirDeoptKind::Deopt),
        IlOp::Byte { byte, .. } => {
            let inst = *byte.bytecode();
            if is_alloc_inst(inst) || inst == Instruction::FORMAT || inst == Instruction::STRINGIFY {
                Some(MirDeoptKind::Deopt)
            } else {
                None
            }
        },
        IlOp::Return { .. } | IlOp::Halt { .. } | IlOp::Jump { .. } => Some(MirDeoptKind::Stop),
        IlOp::StorePop { loc, .. } => if loc.is_known() {
            Some(MirDeoptKind::Stop)
        } else {
            None
        },
        _ => None,
    }
}

// Sorted slots.

/// Order of slots: by local, then by value.
pub open spec fn slot_below(a: (LocalId, ValueId), b: (LocalId, ValueId)) -> bool {
    a.0.0 < b.0.0 || (a.0.0 == b.0.0 && a.1.0 < b.1.0)
}

/// `s` with `x` at its place, once.
pub open spec fn put(s: Seq<(LocalId, ValueId)>, x: (LocalId, ValueId)) -> Seq<(LocalId, ValueId)>
    decreases s.len(),
{
    if s.len() == 0 || slot_below(s.last(), x) {
        s.push(x)
    } else if s.last() == x {
        s
    } else {
        put(s.drop_last(), x).push(s.last())
    }
}

/// `done` with each of the slots from `i` on at its place.
pub open spec fn put_all(s: Seq<(LocalId, ValueId)>, i: int, done: Seq<(LocalId, ValueId)>) -> Seq<
    (LocalId, ValueId),
>
    decreases s.len() - i,
{
    if i >= s.len() {
        done
    } else {
        put_all(s, i + 1, put(done, s[i]))
    }
}

/// Slots in ascending order, each once.
pub open spec fn rising_slots(s: Seq<(LocalId, ValueId)>) -> bool {
    forall|i: int, j: int| 0 <= i < j < s.len() ==> slot_below(#[trigger] s[i], #[trigger] s[j])
}

/// Putting a slot at its place keeps the order and adds that slot only.
pub proof fn putting_keeps_order(s: Seq<(LocalId, ValueId)>, x: (LocalId, ValueId))
    requires
        rising_slots(s),
    ensures
        rising_slots(put(s, x)),
        forall|y: (LocalId, ValueId)| #[trigger] put(s, x).contains(y) <==> s.contains(y) || y == x,
    decreases s.len(),
{
    if s.len() == 0 || slot_below(s.last(), x) {
        let r = s.push(x);
        assert forall|i: int, j: int| 0 <= i < j < r.len() implies slot_below(
            #[trigger] r[i],
            #[trigger] r[j],
        ) by {
            if j == s.len() && i < s.len() - 1 {
                assert(slot_below(s[i], s[s.len() - 1]));
            }
        }
        assert forall|y: (LocalId, ValueId)| #[trigger] r.contains(y) <==> s.contains(y) || y == x by {
            if s.contains(y) {
                assert(r[s.index_of(y)] == y);
            }
            assert(r[s.len() as int] == x);
        }
    } else if s.last() == x {
        assert(s[s.len() - 1] == x);
    } else {
        let d = s.drop_last();
        let l = s.last();
        assert forall|i: int, j: int| 0 <= i < j < d.len() implies slot_below(
            #[trigger] d[i],
            #[trigger] d[j],
        ) by {
            assert(slot_below(s[i], s[j]));
        }
        putting_keeps_order(d, x);
        let p = put(d, x);
        let r = p.push(l);
        assert forall|i: int, j: int| 0 <= i < j < r.len() implies slot_below(
            #[trigger] r[i],
            #[trigger] r[j],
        ) by {
            if j == p.len() {
                assert(p.contains(p[i]));
                if p[i] != x {
                    let k = d.index_of(p[i]);
                    assert(slot_below(s[k], s[s.len() - 1]));
                }
            }
        }
        assert forall|y: (LocalId, ValueId)| #[trigger] r.contains(y) <==> s.contains(y) || y == x by {
            if r.contains(y) {
                let k = r.index_of(y);
                if k < p.len() {
                    assert(p.contains(p[k]));
                    if y != x {
                        assert(s[d.index_of(y)] == y);
                    }
                } else {
                    assert(s[s.len() - 1] == y);
                }
            }
            if s.contains(y) {
                let k = s.index_of(y);
                if k < d.len() {
                    assert(d[k] == y);
                    assert(p.contains(y));
                    assert(r[p.index_of(y)] == y);
                } else {
                    assert(r[p.len() as int] == y);
                }
            }
            if y == x {
                assert(p.contains(x));
                assert(r[p.index_of(x)] == x);
            }
        }
    }
}

fn put_slot(s: &mut Vec<(LocalId, ValueId)>, x: (LocalId, ValueId))
    ensures
        final(s)@ == put(old(s)@, x),
{
    let ghost s0 = s@;
    let mut p = s.len();
    assert(s0.take(p as int) =~= s0);
    assert(put(s0, x) =~= put(s0.take(p as int), x) + s0.skip(p as int));
    while p > 0 && !(s[p - 1].0.0 < x.0.0 || (s[p - 1].0.0 == x.0.0 && s[p - 1].1.0 < x.1.0))
        invariant
            p <= s@.len(),
            s@ == s0,
            put(s0, x) == put(s0.take(p as int), x) + s0.skip(p as int),
        decreases p,
    {
        let ghost t = s0.take(p as int);
        assert(t.last() == s0[p - 1]);
        assert(t.drop_last() =~= s0.take(p - 1));
        if s[p - 1].0 == x.0 && s[p - 1].1 == x.1 {
            assert(s0[p - 1] == x);
            assert(t + s0.skip(p as int) =~= s0);
            return;
        }
        p -= 1;
        assert(put(t, x) + s0.skip(p + 1) =~= put(s0.take(p as int), x) + s0.skip(p as int));
    }
    proof {
        let t = s0.take(p as int);
        if p > 0 {
            assert(t.last() == s0[p - 1]);
        }
        assert(t.push(x) + s0.skip(p as int) =~= s0.insert(p as int, x));
    }
    s.insert(p, x);
}

fn put_slots(s: &Vec<(LocalId, ValueId)>) -> (r: Vec<(LocalId, ValueId)>)
    ensures
        r@ == put_all(s@, 0, Seq::empty()),
{
    let mut r: Vec<(LocalId, ValueId)> = Vec::new();
    assert(r@ =~= Seq::empty());
    let mut i: usize = 0;
    while i < s.len()
        invariant
            i <= s@.len(),
            put_all(s@, 0, Seq::empty()) == put_all(s@, i as int, r@),
        decreases s@.len() - i,
    {
        put_slot(&mut r, s[i]);
        i += 1;
    }
    r
}

// Edges of a function.

/// Named locals and their values, by ascending local.
pub open spec fn named_slots(m: Map<u32, ValueId>) -> Seq<(LocalId, ValueId)> {
    ascending_ids(m.dom()).map_values(|k: u32| (LocalId(k), m[k]))
}

fn list_named(m: &IdMap<ValueId>) -> (r: Vec<(LocalId, ValueId)>)
    ensures
        r@ == named_slots(m@),
{
    let ks = m.keys();
    proof {
        crate::ids::listing_holds_the_members(m@.dom());
    }
    let mut r: Vec<(LocalId, ValueId)> = Vec::new();
    let mut i: usize = 0;
    while i < ks.len()
        invariant
            i <= ks@.len(),
            ks@ == ascending_ids(m@.dom()),
            forall|k: u32| m@.dom().contains(k) <==> #[trigger] ks@.contains(k),
            r@.len() == i,
            forall|x: int| 0 <= x < i ==> #[trigger] r@[x] == (LocalId(ks@[x]), m@[ks@[x]]),
        decreases ks@.len() - i,
    {
        let k = ks[i];
        assert(ks@.contains(ks@[i as int]));
        if let Some(v) = m.get(&k) {
            r.push((LocalId(k), *v));
        }
        i += 1;
    }
    assert(r@ =~= named_slots(m@));
    r
}

/// Live locals at value `at`: those recorded there, or else all named ones.
pub open spec fn live_slots(f: FuncV, at: Option<ValueId>) -> Seq<(LocalId, ValueId)> {
    let own = match at {
        Some(v) => if f.slot_env.dom().contains(v.0) {
            put_all(f.slot_env[v.0], 0, Seq::empty())
        } else {
            Seq::empty()
        },
        None => Seq::empty(),
    };
    if own.len() == 0 {
        put_all(named_slots(f.debug_slots), 0, Seq::empty())
    } else {
        own
    }
}

/// An edge of the function.
pub open spec fn site_at(f: FuncV, at: Option<ValueId>, kind: MirDeoptKind, loc: DebugLoc) -> SiteV {
    SiteV { kind, at, loc, slots: live_slots(f, at) }
}

/// The edge that an instruction is.
pub open spec fn site_of(f: FuncV, inst: InstV) -> Option<SiteV> {
    match inst.edge_kind(f.hosts) {
        Some(kind) => Some(
            site_at(
                f,
                Some(inst.dest()),
                kind,
                match inst {
                    InstV::Deopt { loc, .. } => loc,
                    _ => f.loc_of(inst.dest()),
                },
            ),
        ),
        None => None,
    }
}

/// `done` with the edges from instruction `i` on.
pub open spec fn sites_in(f: FuncV, insts: Seq<InstV>, i: int, done: Seq<SiteV>) -> Seq<SiteV>
    decreases insts.len() - i,
{
    if i >= insts.len() {
        done
    } else {
        sites_in(
            f,
            insts,
            i + 1,
            match site_of(f, insts[i]) {
                Some(s) => done.push(s),
                None => done,
            },
        )
    }
}

/// Whether a stop stands at the block's last instruction.
pub open spec fn stops_last(sites: Seq<SiteV>, block: BlockV) -> bool {
    block.insts.len() > 0 && exists|k: int|
        0 <= k < sites.len() && (#[trigger] sites[k]).kind is Stop && sites[k].at == Some(
            block.insts.last().dest(),
        )
}

/// `done` with the edges of a block. Where it returns or jumps, the debugger may stop.
pub open spec fn sites_of_block(f: FuncV, block: BlockV, done: Seq<SiteV>) -> Seq<SiteV> {
    let inner = sites_in(f, block.insts, 0, done);
    let ends = match block.term {
        Some(TermV::Return { .. }) | Some(TermV::Jump { .. }) => true,
        _ => false,
    };
    if ends && !stops_last(inner, block) {
        inner.push(site_at(f, None, MirDeoptKind::Stop, f.term_loc(block.id)))
    } else {
        inner
    }
}

/// `done` with the edges from block `b` on.
pub open spec fn sites_from(f: FuncV, b: int, done: Seq<SiteV>) -> Seq<SiteV>
    decreases f.blocks.len() - b,
{
    if b >= f.blocks.len() {
        done
    } else {
        sites_from(f, b + 1, sites_of_block(f, f.blocks[b], done))
    }
}

fn find_site(func: &MirFunc, at: Option<ValueId>, kind: MirDeoptKind, loc: DebugLoc, fallback: &Vec<
    (LocalId, ValueId),
>) -> (r: DeoptSite)
    requires
        fallback@ == named_slots(func@.debug_slots),
    ensures
        r@ == site_at(func@, at, kind, loc),
{
    let mut slots: Vec<(LocalId, ValueId)> = Vec::new();
    assert(slots@ =~= Seq::empty());
    if let Some(v) = at {
        if let Some(env) = func.slot_env.get(&v.0) {
            slots = put_slots(env);
        }
    }
    if slots.len() == 0 {
        slots = put_slots(fallback);
    }
    DeoptSite { kind, at, loc, slots }
}

fn has_stop(sites: &Vec<DeoptSite>, at: ValueId) -> (r: bool)
    ensures
        r == exists|k: int|
            0 <= k < sites@.len() && (#[trigger] sites_view(sites@)[k]).kind is Stop && sites_view(
                sites@,
            )[k].at == Some(at),
{
    let ghost sv = sites_view(sites@);
    let mut k: usize = 0;
    while k < sites.len()
        invariant
            k <= sites@.len(),
            sv == sites_view(sites@),
            forall|x: int|
                0 <= x < k ==> !((#[trigger] sv[x]).kind is Stop && sv[x].at == Some(at)),
        decreases sites@.len() - k,
    {
        assert(sv[k as int] == sites@[k as int]@);
        if sites[k].kind == MirDeoptKind::Stop && sites[k].at == Some(at) {
            return true;
        }
        k += 1;
    }
    false
}

fn list_sites(func: &MirFunc) -> (r: Vec<DeoptSite>)
    ensures
        sites_view(r@) == sites_from(func@, 0, Seq::empty()),
{
    let ghost f = func@;
    let fallback = list_named(&func.debug_slots);
    let mut r: Vec<DeoptSite> = Vec::new();
    assert(sites_view(r@) =~= Seq::empty());
    let mut b: usize = 0;
    while b < func.blocks.len()
        invariant
            b <= func.blocks@.len(),
            f == func@,
            fallback@ == named_slots(f.debug_slots),
            sites_from(f, 0, Seq::empty()) == sites_from(f, b as int, sites_view(r@)),
        decreases func.blocks@.len() - b,
    {
        let block = &func.blocks[b];
        assert(f.blocks[b as int] == block@);
        let ghost iv = block@.insts;
        let ghost d0 = sites_view(r@);
        let n = block.insts.len();
        let mut i: usize = 0;
        while i < n
            invariant
                i <= n,
                n == block.insts@.len(),
                f == func@,
                iv == block@.insts,
                fallback@ == named_slots(f.debug_slots),
                sites_in(f, iv, 0, d0) == sites_in(f, iv, i as int, sites_view(r@)),
            decreases n - i,
        {
            let ghost r0 = sites_view(r@);
            assert(iv[i as int] == block.insts@[i as int]@);
            let inst = &block.insts[i];
            if let Some(kind) = inst.deopt_kind(&func.hosts) {
                let at = inst.dest();
                let loc = match inst {
                    MirInst::Deopt { loc, .. } => *loc,
                    _ => func.loc_of(at),
                };
                let site = find_site(func, Some(at), kind, loc, &fallback);
                r.push(site);
                assert(sites_view(r@) =~= r0.push(site@));
            }
            i += 1;
        }
        let ends = match &block.term {
            Some(Terminator::Return { .. }) => true,
            Some(Terminator::Jump { .. }) => true,
            _ => false,
        };
        let ghost r0 = sites_view(r@);
        if ends {
            let stopped = n > 0 && has_stop(&r, block.insts[n - 1].dest());
            proof {
                if n > 0 {
                    assert(iv.last() == block.insts@[n - 1]@);
                }
                assert(stopped == stops_last(r0, block@));
            }
            if !stopped {
                let site = find_site(func, None, MirDeoptKind::Stop, func.term_loc(block.id), &fallback);
                r.push(site);
                assert(sites_view(r@) =~= r0.push(site@));
            }
        }
        b += 1;
    }
    r
}

/// Records the debugger edges of a function.
pub fn fill_deopt_maps(func: &mut MirFunc)
    ensures
        final(func)@ == (FuncV {
            deopt_sites: sites_from(old(func)@, 0, Seq::empty()),
            ..old(func)@
        }),
{
    let sites = list_sites(func);
    func.deopt_sites = sites;
}

// Slots after registers were assigned.

/// Whether the value has a register.
pub open spec fn slotted(f: FuncV, regs: Seq<u8>, need_slot: Seq<bool>, v: ValueId) -> bool {
    (f.params.contains(v) || (v.0 < need_slot.len() && need_slot[v.0 as int])) && v.0 < regs.len()
}

/// The register of each named local that has one.
pub open spec fn remapped(f: FuncV, regs: Seq<u8>, need_slot: Seq<bool>) -> Map<u32, u32> {
    Map::new(
        |l: u32| f.debug_slots.dom().contains(l) && slotted(f, regs, need_slot, f.debug_slots[l]),
        |l: u32| regs[f.debug_slots[l].0 as int] as u32,
    )
}

fn find_reg(func: &MirFunc, regs: &[u8], need_slot: &[bool], v: ValueId) -> (r: Option<u8>)
    ensures
        r == (if slotted(func@, regs@, need_slot@, v) {
            Some(regs@[v.0 as int])
        } else {
            None
        }),
{
    let i = v.index();
    if (super::inst::has_id(&func.params, v) || (i < need_slot.len() && need_slot[i])) && i
        < regs.len() {
        Some(regs[i])
    } else {
        None
    }
}

/// The register of each named local that has one.
pub fn debug_slot_remap(func: &MirFunc, regs: &[u8], need_slot: &[bool]) -> (r: IdMap<u32>)
    ensures
        r@ == remapped(func@, regs@, need_slot@),
{
    let ghost f = func@;
    let named = list_named(&func.debug_slots);
    let ghost q = ascending_ids(f.debug_slots.dom());
    proof {
        crate::ids::listing_holds_the_members(f.debug_slots.dom());
    }
    let mut r: IdMap<u32> = IdMap::new();
    let mut i: usize = 0;
    while i < named.len()
        invariant
            i <= named@.len(),
            f == func@,
            named@ == named_slots(f.debug_slots),
            q == ascending_ids(f.debug_slots.dom()),
            forall|k: u32| f.debug_slots.dom().contains(k) <==> #[trigger] q.contains(k),
            forall|k: u32|
                #[trigger] r@.dom().contains(k) <==> (exists|x: int| 0 <= x < i && #[trigger] q[x] == k)
                    && slotted(f, regs@, need_slot@, f.debug_slots[k]),
            forall|k: u32|
                #[trigger] r@.dom().contains(k) ==> r@[k] == regs@[f.debug_slots[k].0 as int] as u32,
        decreases named@.len() - i,
    {
        let ghost r0 = r@;
        let (l, v) = named[i];
        assert(named@[i as int] == (LocalId(q[i as int]), f.debug_slots[q[i as int]]));
        if let Some(reg) = find_reg(func, regs, need_slot, v) {
            r.insert(l.0, reg as u32);
        }
        proof {
            assert forall|k: u32|
                #[trigger] r@.dom().contains(k) <==> (exists|x: int|
                    0 <= x < i + 1 && #[trigger] q[x] == k) && slotted(
                    f,
                    regs@,
                    need_slot@,
                    f.debug_slots[k],
                ) by {
                if k == q[i as int] {
                } else {
                    assert(r@.dom().contains(k) == r0.dom().contains(k));
                    if exists|x: int| 0 <= x < i + 1 && #[trigger] q[x] == k {
                        let x = choose|x: int| 0 <= x < i + 1 && #[trigger] q[x] == k;
                        assert(x < i);
                    }
                }
            }
        }
        i += 1;
    }
    proof {
        assert forall|k: u32| r@.dom().contains(k) == remapped(f, regs@, need_slot@).dom().contains(k) by {
            if f.debug_slots.dom().contains(k) {
                assert(q.contains(k));
                assert(q[q.index_of(k)] == k);
            }
            if exists|x: int| 0 <= x < i && #[trigger] q[x] == k {
                assert(q.contains(k));
            }
        }
        assert(r@ =~= remapped(f, regs@, need_slot@));
    }
    r
}

/// One edge after registers were assigned: live slots, and the registers that hold them.
#[derive(Debug, PartialEq, Eq)]
pub struct DraftDeoptSite {
    pub kind: MirDeoptKind,
    pub loc: DebugLoc,
    pub il_slots: Vec<u16>,
    pub regs: Vec<u16>,
}

/// Mathematical form of [`DraftDeoptSite`].
#[verifier::ext_equal]
pub struct DraftSiteV {
    pub kind: MirDeoptKind,
    pub loc: DebugLoc,
    pub il_slots: Seq<u16>,
    pub regs: Seq<u16>,
}

impl View for DraftDeoptSite {
    type V = DraftSiteV;

    open spec fn view(&self) -> DraftSiteV {
        DraftSiteV { kind: self.kind, loc: self.loc, il_slots: self.il_slots@, regs: self.regs@ }
    }
}

pub open spec fn drafts_view(s: Seq<DraftDeoptSite>) -> Seq<DraftSiteV> {
    Seq::new(s.len(), |i: int| s[i]@)
}

/// Resume map of a function. Resuming from an incomplete one is not possible.
#[derive(Debug, PartialEq, Eq)]
pub struct DraftDeoptMap {
    pub name: String,
    pub sites: Vec<DraftDeoptSite>,
    /// Whether every live local has a register.
    pub complete: bool,
}

/// Mathematical form of [`DraftDeoptMap`].
#[verifier::ext_equal]
pub struct DraftMapV {
    pub name: Seq<char>,
    pub sites: Seq<DraftSiteV>,
    pub complete: bool,
}

impl View for DraftDeoptMap {
    type V = DraftMapV;

    open spec fn view(&self) -> DraftMapV {
        DraftMapV { name: self.name@, sites: drafts_view(self.sites@), complete: self.complete }
    }
}

/// The numbers of the locals from `i` on that fit 16 bits.
pub open spec fn il_slots_from(slots: Seq<(LocalId, ValueId)>, i: int) -> Seq<u16>
    decreases slots.len() - i,
{
    if i >= slots.len() {
        Seq::empty()
    } else {
        (if slots[i].0.0 <= u16::MAX {
            seq![slots[i].0.0 as u16]
        } else {
            Seq::empty()
        }) + il_slots_from(slots, i + 1)
    }
}

/// The registers of the slots from `i` on.
pub open spec fn regs_from(
    f: FuncV,
    regs: Seq<u8>,
    need_slot: Seq<bool>,
    slots: Seq<(LocalId, ValueId)>,
    i: int,
) -> Seq<u16>
    decreases slots.len() - i,
{
    if i >= slots.len() {
        Seq::empty()
    } else {
        (if slotted(f, regs, need_slot, slots[i].1) {
            seq![regs[slots[i].1.0 as int] as u16]
        } else {
            Seq::empty()
        }) + regs_from(f, regs, need_slot, slots, i + 1)
    }
}

/// Whether every one of the slots has a register.
pub open spec fn all_slotted(f: FuncV, regs: Seq<u8>, need_slot: Seq<bool>, slots: Seq<
    (LocalId, ValueId),
>) -> bool {
    forall|k: int|
        0 <= k < slots.len() ==> slotted(f, regs, need_slot, (#[trigger] slots[k]).1)
}

/// An edge after registers were assigned.
pub open spec fn draft_site(f: FuncV, regs: Seq<u8>, need_slot: Seq<bool>, s: SiteV) -> DraftSiteV {
    DraftSiteV {
        kind: s.kind,
        loc: s.loc,
        il_slots: il_slots_from(s.slots, 0),
        regs: regs_from(f, regs, need_slot, s.slots, 0),
    }
}

/// The resume map of a function after registers were assigned.
pub open spec fn resume_map(f: FuncV, regs: Seq<u8>, need_slot: Seq<bool>) -> DraftMapV {
    DraftMapV {
        name: f.name,
        sites: Seq::new(
            f.deopt_sites.len(),
            |k: int| draft_site(f, regs, need_slot, f.deopt_sites[k]),
        ),
        complete: forall|k: int|
            0 <= k < f.deopt_sites.len() ==> all_slotted(
                f,
                regs,
                need_slot,
                (#[trigger] f.deopt_sites[k]).slots,
            ),
    }
}

fn encode_site(func: &MirFunc, regs: &[u8], need_slot: &[bool], site: &DeoptSite) -> (r: (
    DraftDeoptSite,
    bool,
))
    ensures
        r.0@ == draft_site(func@, regs@, need_slot@, site@),
        r.1 == all_slotted(func@, regs@, need_slot@, site@.slots),
{
    let ghost f = func@;
    let ghost sv = site@.slots;
    let mut il_slots: Vec<u16> = Vec::new();
    let mut mapped: Vec<u16> = Vec::new();
    let mut complete = true;
    assert(il_slots@ + il_slots_from(sv, 0) =~= il_slots_from(sv, 0));
    assert(mapped@ + regs_from(f, regs@, need_slot@, sv, 0) =~= regs_from(
        f,
        regs@,
        need_slot@,
        sv,
        0,
    ));
    let mut i: usize = 0;
    while i < site.slots.len()
        invariant
            i <= site.slots@.len(),
            f == func@,
            sv == site.slots@,
            il_slots@ + il_slots_from(sv, i as int) == il_slots_from(sv, 0),
            mapped@ + regs_from(f, regs@, need_slot@, sv, i as int) == regs_from(
                f,
                regs@,
                need_slot@,
                sv,
                0,
            ),
            complete == (forall|k: int|
                0 <= k < i ==> slotted(f, regs@, need_slot@, (#[trigger] sv[k]).1)),
        decreases site.slots@.len() - i,
    {
        let ghost a0 = il_slots@;
        let ghost m0 = mapped@;
        let (local, v) = site.slots[i];
        if local.0 <= u16::MAX as u32 {
            il_slots.push(local.0 as u16);
        }
        assert(il_slots@ + il_slots_from(sv, i + 1) =~= a0 + il_slots_from(sv, i as int));
        match find_reg(func, regs, need_slot, v) {
            Some(reg) => {
                mapped.push(reg as u16);
            },
            None => {
                complete = false;
                assert(!slotted(f, regs@, need_slot@, sv[i as int].1));
            },
        }
        assert(mapped@ + regs_from(f, regs@, need_slot@, sv, i + 1) =~= m0 + regs_from(
            f,
            regs@,
            need_slot@,
            sv,
            i as int,
        ));
        i += 1;
    }
    assert(il_slots@ + il_slots_from(sv, i as int) =~= il_slots@);
    assert(mapped@ + regs_from(f, regs@, need_slot@, sv, i as int) =~= mapped@);
    (DraftDeoptSite { kind: site.kind, loc: site.loc, il_slots, regs: mapped }, complete)
}

/// The resume map of a function after registers were assigned.
pub fn encode_draft(func: &MirFunc, regs: &[u8], need_slot: &[bool]) -> (r: DraftDeoptMap)
    ensures
        r@ == resume_map(func@, regs@, need_slot@),
{
    let ghost f = func@;
    let mut sites: Vec<DraftDeoptSite> = Vec::new();
    let mut complete = true;
    let mut i: usize = 0;
    while i < func.deopt_sites.len()
        invariant
            i <= func.deopt_sites@.len(),
            f == func@,
            sites@.len() == i,
            forall|k: int|
                0 <= k < i ==> (#[trigger] sites@[k])@ == draft_site(
                    f,
                    regs@,
                    need_slot@,
                    f.deopt_sites[k],
                ),
            complete == (forall|k: int|
                0 <= k < i ==> all_slotted(f, regs@, need_slot@, (#[trigger] f.deopt_sites[k]).slots)),
        decreases func.deopt_sites@.len() - i,
    {
        assert(f.deopt_sites[i as int] == func.deopt_sites@[i as int]@);
        let (site, whole) = encode_site(func, regs, need_slot, &func.deopt_sites[i]);
        if !whole {
            complete = false;
            assert(!all_slotted(f, regs@, need_slot@, f.deopt_sites[i as int].slots));
        }
        sites.push(site);
        i += 1;
    }
    let r = DraftDeoptMap { name: func.name.as_str().to_owned(), sites, complete };
    assert(r@.sites =~= resume_map(f, regs@, need_slot@).sites);
    r
}

/// A complete map names a register for every live local.
pub proof fn complete_maps_lose_no_local(f: FuncV, regs: Seq<u8>, need_slot: Seq<bool>, k: int)
    requires
        resume_map(f, regs, need_slot).complete,
        0 <= k < f.deopt_sites.len(),
    ensures
        resume_map(f, regs, need_slot).sites[k].regs.len() == f.deopt_sites[k].slots.len(),
{
    assert(all_slotted(f, regs, need_slot, f.deopt_sites[k].slots));
    slotted_regs_are_all(f, regs, need_slot, f.deopt_sites[k].slots, 0);
}

proof fn slotted_regs_are_all(
    f: FuncV,
    regs: Seq<u8>,
    need_slot: Seq<bool>,
    slots: Seq<(LocalId, ValueId)>,
    i: int,
)
    requires
        0 <= i <= slots.len(),
        all_slotted(f, regs, need_slot, slots),
    ensures
        regs_from(f, regs, need_slot, slots, i).len() == slots.len() - i,
    decreases slots.len() - i,
{
    if i < slots.len() {
        assert(slotted(f, regs, need_slot, slots[i].1));
        slotted_regs_are_all(f, regs, need_slot, slots, i + 1);
    }
}

} // verus!

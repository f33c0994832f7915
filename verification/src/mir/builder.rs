//! SSA construction.
//!
//! Source locals are slots. A read of a local looks for a definition in the
//! current block, then in its predecessors; joins get a phi. Sealing a block
//! states that all its predecessors are known, and completes its phis.
use super::abi::{AbiV, DenseAbi};
use super::func::{
    blocks_view, empty_block, empty_func, insts_view, BlockV, FuncV, MirBlock, MirFunc,
};
use super::gc::{fill_live_roots, with_live_roots};
use super::host_allow::{edge, host_edge_spec, host_spec, precise_edge, HostNative};
use super::index::first_in;
use super::inst::{
    has_id, map_value, BlockId, InstV, LocalId, MirAllocKind, MirBinOp, MirCastKind, MirCmpOp, MirConst, MirDeoptKind,
    MirGcKind, MirInst, MirUnaryOp, TermV, Terminator, ValueId,
};
use super::layout::MirLayout;
use super::ty::MirTy;
use crate::idmap::IdMap;
use crate::ids::{ascending_ids, listing_holds_the_members};
use crate::il::op::{DebugLoc, Label};
use crate::order::{sort_args, sorted_args};
use crate::text::{cat2, cat3, cat4, cat5, cat6, dec, dec_str};
use vstd::prelude::*;

verus! {

#[derive(Debug, PartialEq, Eq)]
pub enum MirError {
    Msg(String),
}

impl View for MirError {
    type V = Seq<char>;

    open spec fn view(&self) -> Seq<char> {
        match self {
            MirError::Msg(s) => s@,
        }
    }
}

impl MirError {
    /// Message text.
    pub fn message(&self) -> (r: &str)
        ensures
            r@ == self@,
    {
        match self {
            MirError::Msg(s) => s.as_str(),
        }
    }

    fn msg(s: &str) -> (r: Self)
        ensures
            r@ == s@,
    {
        MirError::Msg(s.to_owned())
    }
}

/// Incremental SSA constructor.
#[derive(Debug)]
pub struct MirBuilder {
    func: MirFunc,
    current: Option<BlockId>,
    current_def: Vec<IdMap<ValueId>>,
    sealed: Vec<bool>,
    preds: Vec<Vec<BlockId>>,
    incomplete_phis: Vec<Vec<(LocalId, ValueId)>>,
    subst: IdMap<ValueId>,
    /// Host calls outside the precise table become word-typed edges.
    pub allow_effects: bool,
    /// Finish without checking the function.
    pub skip_verify: bool,
}

/// Mathematical form of [`MirBuilder`].
#[verifier::ext_equal]
pub struct BuildV {
    pub f: FuncV,
    pub current: Option<BlockId>,
    /// Value of each local at the end of each block.
    pub defs: Seq<Map<u32, ValueId>>,
    pub sealed: Seq<bool>,
    pub preds: Seq<Seq<BlockId>>,
    /// Phis that wait for the block to be sealed.
    pub incomplete: Seq<Seq<(LocalId, ValueId)>>,
    /// Removed phis and the values that stand for them.
    pub subst: Map<u32, ValueId>,
    pub effects: bool,
    pub skip: bool,
}

pub open spec fn defs_view(s: Seq<IdMap<ValueId>>) -> Seq<Map<u32, ValueId>> {
    s.map_values(|m: IdMap<ValueId>| m@)
}

pub open spec fn preds_view(s: Seq<Vec<BlockId>>) -> Seq<Seq<BlockId>> {
    s.map_values(|m: Vec<BlockId>| m@)
}

pub open spec fn pending_view(s: Seq<Vec<(LocalId, ValueId)>>) -> Seq<Seq<(LocalId, ValueId)>> {
    s.map_values(|m: Vec<(LocalId, ValueId)>| m@)
}

impl View for MirBuilder {
    type V = BuildV;

    closed spec fn view(&self) -> BuildV {
        BuildV {
            f: self.func@,
            current: self.current,
            defs: defs_view(self.current_def@),
            sealed: self.sealed@,
            preds: preds_view(self.preds@),
            incomplete: pending_view(self.incomplete_phis@),
            subst: self.subst@,
            effects: self.allow_effects,
            skip: self.skip_verify,
        }
    }
}

/// `v` with up to `fuel` replacements followed.
pub open spec fn chase(m: Map<u32, ValueId>, v: ValueId, fuel: nat) -> ValueId
    decreases fuel,
{
    if fuel == 0 || !m.dom().contains(v.0) || m[v.0] == v {
        v
    } else {
        chase(m, m[v.0], (fuel - 1) as nat)
    }
}

/// First position from `i` on that holds no phi.
pub open spec fn phi_end(insts: Seq<InstV>, i: nat) -> nat
    decreases insts.len() - i,
{
    if i >= insts.len() || !insts[i as int].phi() {
        i
    } else {
        phi_end(insts, i + 1)
    }
}

/// The first `k` instructions except those whose first result is `d`.
pub open spec fn without(insts: Seq<InstV>, d: ValueId, k: nat) -> Seq<InstV>
    decreases k,
{
    if k == 0 {
        Seq::empty()
    } else if insts[k - 1].dest() == d {
        without(insts, d, (k - 1) as nat)
    } else {
        without(insts, d, (k - 1) as nat).push(insts[k - 1])
    }
}

/// The instructions with the arguments of `phi` set.
pub open spec fn fill_phi(insts: Seq<InstV>, phi: ValueId, args: Seq<(BlockId, ValueId)>) -> Seq<InstV> {
    match first_in(insts, phi, 0) {
        Some(i) => match insts[i as int] {
            InstV::Phi { dest, ty, .. } => insts.update(i as int, InstV::Phi { dest, ty, args }),
            _ => insts,
        },
        None => insts,
    }
}

impl BuildV {
    /// The parts have one entry per block, and name only blocks that exist.
    pub open spec fn wf(self) -> bool {
        let n = self.f.blocks.len();
        &&& 0 < n <= u32::MAX
        &&& self.f.entry.0 < n
        &&& self.defs.len() == n
        &&& self.sealed.len() == n
        &&& self.preds.len() == n
        &&& self.incomplete.len() == n
        &&& self.current is Some ==> (self.current->0).0 < n
        &&& forall|b: int, k: int|
            0 <= b < n && 0 <= k < self.preds[b].len() ==> (#[trigger] self.preds[b][k]).0 < n
    }

    pub open spec fn resolve(self, v: ValueId) -> ValueId {
        chase(self.subst, v, ascending_ids(self.subst.dom()).len())
    }

    pub open spec fn resolve_all(self, s: Seq<ValueId>) -> Seq<ValueId> {
        s.map_values(|v: ValueId| self.resolve(v))
    }

    /// Type of the value that `v` stands for.
    pub open spec fn ty(self, v: ValueId) -> MirTy {
        self.f.ty(self.resolve(v))
    }

    /// Name of the next value.
    pub open spec fn next(self) -> ValueId {
        ValueId(self.f.types.len() as u32)
    }

    /// Allocates the next value.
    pub open spec fn grow(self, ty: MirTy) -> BuildV {
        BuildV { f: FuncV { types: self.f.types.push(ty), ..self.f }, ..self }
    }

    pub open spec fn insts(self, b: BlockId) -> Seq<InstV> {
        self.f.blocks[b.0 as int].insts
    }

    pub open spec fn with_insts(self, b: BlockId, insts: Seq<InstV>) -> BuildV {
        BuildV {
            f: FuncV {
                blocks: self.f.blocks.update(b.0 as int, BlockV { insts, ..self.f.blocks[b.0 as int] }),
                ..self.f
            },
            ..self
        }
    }

    /// Sets the value of a local at the end of a block.
    pub open spec fn write(self, local: LocalId, b: BlockId, v: ValueId) -> BuildV {
        BuildV { defs: self.defs.update(b.0 as int, self.defs[b.0 as int].insert(local.0, v)), ..self }
    }

    /// Adds a phi without arguments.
    pub open spec fn make_phi(self, b: BlockId, ty: MirTy) -> BuildV {
        let insts = self.insts(b);
        self.grow(ty).with_insts(
            b,
            insts.insert(phi_end(insts, 0) as int, InstV::Phi { dest: self.next(), ty, args: Seq::empty() }),
        )
    }

    /// The one value besides the phi itself that its arguments from `i` on and
    /// `same` name.
    pub open spec fn agreed(
        self,
        args: Seq<(BlockId, ValueId)>,
        phi: ValueId,
        i: nat,
        same: Option<ValueId>,
    ) -> Option<ValueId>
        decreases args.len() - i,
    {
        if i >= args.len() {
            same
        } else {
            let v = self.resolve(args[i as int].1);
            if v == phi {
                self.agreed(args, phi, i + 1, same)
            } else if same is Some && same != Some(v) {
                None
            } else {
                self.agreed(args, phi, i + 1, Some(v))
            }
        }
    }

    /// Value that a phi can be replaced by.
    pub open spec fn trivial(self, b: BlockId, phi: ValueId) -> Option<ValueId> {
        match first_in(self.insts(b), phi, 0) {
            Some(i) => match self.insts(b)[i as int] {
                InstV::Phi { args, .. } => self.agreed(args, phi, 0, None),
                _ => None,
            },
            None => None,
        }
    }

    /// Removes a phi that only names one value besides itself.
    pub open spec fn drop_trivial(self, b: BlockId, phi: ValueId) -> BuildV {
        match self.trivial(b, phi) {
            Some(v) => BuildV {
                subst: self.subst.insert(phi.0, v),
                ..self.with_insts(b, without(self.insts(b), phi, self.insts(b).len()))
            },
            None => self,
        }
    }

    /// Sets the arguments of a phi, and removes it if it is trivial.
    pub open spec fn close_phi(self, b: BlockId, phi: ValueId, args: Seq<(BlockId, ValueId)>) -> BuildV {
        self.with_insts(b, fill_phi(self.insts(b), phi, sorted_args(args))).drop_trivial(b, phi)
    }

    /// Makes a local that no predecessor defines a parameter.
    pub open spec fn live_in(self, local: LocalId, ty: MirTy, b: BlockId) -> BuildV {
        let v = self.next();
        let s = self.grow(ty);
        let params = if s.f.params.contains(v) {
            s.f.params
        } else {
            s.f.params.push(v)
        };
        BuildV { f: FuncV { params, ..s.f }, ..s }.write(local, b, v)
    }

    /// Value of a local at the end of block `b`. `joins` bounds the joins that
    /// get a phi on the way, `chain` the blocks with one predecessor in a row,
    /// and `n` is the number of blocks. A ring of blocks with one predecessor
    /// each has no way in: there the local becomes a parameter.
    pub open spec fn read(self, local: LocalId, ty: MirTy, b: BlockId, joins: nat, chain: nat, n: nat) -> (
        BuildV,
        ValueId,
    )
        decreases joins, chain, 0nat,
    {
        let ps = self.preds[b.0 as int];
        let v = self.next();
        if self.defs[b.0 as int].dom().contains(local.0) {
            (self, self.resolve(self.defs[b.0 as int][local.0]))
        } else if !self.sealed[b.0 as int] {
            let s = self.make_phi(b, ty);
            (
                BuildV {
                    incomplete: s.incomplete.update(b.0 as int, s.incomplete[b.0 as int].push((local, v))),
                    ..s
                }.write(local, b, v),
                v,
            )
        } else if ps.len() == 1 && chain > 0 {
            let r = self.read(local, ty, ps[0], joins, (chain - 1) as nat, n);
            (r.0.write(local, b, r.1), r.1)
        } else if ps.len() > 1 && joins > 0 {
            let s = self.make_phi(b, ty).write(local, b, v);
            let r = s.operands(local, s.f.ty(v), ps, 0, Seq::empty(), (joins - 1) as nat, n);
            let t = r.0.close_phi(b, v, r.1);
            (t, t.resolve(v))
        } else {
            (self.live_in(local, ty, b), v)
        }
    }

    /// Values of a local at the ends of the blocks `ps` from `i` on.
    pub open spec fn operands(
        self,
        local: LocalId,
        ty: MirTy,
        ps: Seq<BlockId>,
        i: nat,
        args: Seq<(BlockId, ValueId)>,
        joins: nat,
        n: nat,
    ) -> (BuildV, Seq<(BlockId, ValueId)>)
        decreases joins, n + 1, ps.len() - i,
    {
        if i >= ps.len() {
            (self, args)
        } else {
            let r = self.read(local, ty, ps[i as int], joins, n, n);
            r.0.operands(local, ty, ps, i + 1, args.push((ps[i as int], r.0.resolve(r.1))), joins, n)
        }
    }

    /// Gives a waiting phi its arguments.
    pub open spec fn complete(self, b: BlockId, local: LocalId, phi: ValueId) -> BuildV {
        let n = self.f.blocks.len();
        let r = self.operands(local, self.f.ty(phi), self.preds[b.0 as int], 0, Seq::empty(), n, n);
        r.0.close_phi(b, phi, r.1)
    }

    /// Completes the waiting phis from `i` on.
    pub open spec fn complete_all(self, b: BlockId, pending: Seq<(LocalId, ValueId)>, i: nat) -> BuildV
        decreases pending.len() - i,
    {
        if i >= pending.len() {
            self
        } else {
            self.complete(b, pending[i as int].0, pending[i as int].1).complete_all(b, pending, i + 1)
        }
    }

    pub open spec fn seal(self, b: BlockId) -> BuildV {
        if self.sealed[b.0 as int] {
            self
        } else {
            BuildV {
                sealed: self.sealed.update(b.0 as int, true),
                incomplete: self.incomplete.update(b.0 as int, Seq::empty()),
                ..self
            }.complete_all(b, self.incomplete[b.0 as int], 0)
        }
    }

    /// Seals the blocks from `i` to `n`.
    pub open spec fn seal_from(self, i: nat, n: nat) -> BuildV
        decreases n - i,
    {
        if i >= n {
            self
        } else {
            self.seal(BlockId(i as u32)).seal_from(i + 1, n)
        }
    }
}

// Executable part.

fn phi_end_of(insts: &Vec<MirInst>) -> (r: usize)
    ensures
        r == phi_end(insts_view(insts@), 0),
        r <= insts@.len(),
{
    let mut i: usize = 0;
    while i < insts.len() && insts[i].is_phi()
        invariant
            i <= insts@.len(),
            phi_end(insts_view(insts@), 0) == phi_end(insts_view(insts@), i as nat),
        decreases insts@.len() - i,
    {
        assert(insts_view(insts@)[i as int] == insts@[i as int]@);
        i = i + 1;
    }
    assert(i < insts@.len() ==> insts_view(insts@)[i as int] == insts@[i as int]@);
    i
}

fn find_dest(insts: &Vec<MirInst>, d: ValueId) -> (r: Option<usize>)
    ensures
        match r {
            Some(i) => first_in(insts_view(insts@), d, 0) == Some(i as nat) && i < insts@.len(),
            None => first_in(insts_view(insts@), d, 0) is None,
        },
{
    let mut i: usize = 0;
    while i < insts.len()
        invariant
            i <= insts@.len(),
            first_in(insts_view(insts@), d, 0) == first_in(insts_view(insts@), d, i as nat),
        decreases insts@.len() - i,
    {
        assert(insts_view(insts@)[i as int] == insts@[i as int]@);
        if insts[i].dest() == d {
            return Some(i);
        }
        i = i + 1;
    }
    None
}

fn filled(insts: Vec<MirInst>, phi: ValueId, args: Vec<(BlockId, ValueId)>) -> (r: Vec<MirInst>)
    ensures
        insts_view(r@) == fill_phi(insts_view(insts@), phi, args@),
{
    let mut insts = insts;
    let ghost i0 = insts@;
    if let Some(i) = find_dest(&insts, phi) {
        assert(insts_view(i0)[i as int] == i0[i as int]@);
        let mut known: Option<(ValueId, MirTy)> = None;
        if let MirInst::Phi { dest, ty, .. } = &insts[i] {
            known = Some((*dest, *ty));
        }
        if let Some((dest, ty)) = known {
            insts.set(i, MirInst::Phi { dest, ty, args });
            assert(insts_view(insts@) =~= insts_view(i0).update(i as int, InstV::Phi { dest, ty, args: args@ }));
        }
    }
    insts
}

fn removed(insts: Vec<MirInst>, d: ValueId) -> (r: Vec<MirInst>)
    ensures
        insts_view(r@) == without(insts_view(insts@), d, insts@.len()),
{
    let ghost i0 = insts@;
    let ghost v0 = insts_view(insts@);
    let mut insts = insts;
    let mut i: usize = 0;
    let ghost mut seen: int = 0;
    assert(insts_view(insts@.take(0)) =~= without(v0, d, 0));
    while i < insts.len()
        invariant
            i <= insts@.len(),
            0 <= seen <= i0.len(),
            v0 == insts_view(i0),
            insts@.len() - i == i0.len() - seen,
            insts@.skip(i as int) == i0.skip(seen),
            insts_view(insts@.take(i as int)) == without(v0, d, seen as nat),
        decreases insts@.len() - i,
    {
        let ghost before = insts@;
        assert(before[i as int] == before.skip(i as int)[0]);
        assert(before[i as int] == i0[seen]);
        assert(v0[seen] == i0[seen]@);
        if insts[i].dest() == d {
            let _ = insts.remove(i);
            assert(insts@.skip(i as int) =~= i0.skip(seen + 1)) by {
                assert(insts@ =~= before.remove(i as int));
                assert forall|k: int| 0 <= k < i0.len() - seen - 1 implies #[trigger] insts@.skip(i as int)[k] == i0.skip(
                    seen + 1,
                )[k] by {
                    assert(before.skip(i as int)[k + 1] == i0.skip(seen)[k + 1]);
                }
            }
            assert(insts@.take(i as int) =~= before.take(i as int));
        } else {
            assert(insts_view(insts@.take(i + 1)) =~= insts_view(insts@.take(i as int)).push(v0[seen]));
            assert(insts@.skip(i + 1) =~= i0.skip(seen + 1)) by {
                assert forall|k: int| 0 <= k < i0.len() - seen - 1 implies #[trigger] insts@.skip(i + 1)[k] == i0.skip(
                    seen + 1,
                )[k] by {
                    assert(before.skip(i as int)[k + 1] == i0.skip(seen)[k + 1]);
                }
            }
            i = i + 1;
        }
        proof {
            seen = seen + 1;
        }
    }
    assert(insts@.take(i as int) =~= insts@);
    insts
}

/// The parts that reading a local does not touch.
spec fn same_frame(a: BuildV, b: BuildV) -> bool {
    &&& a.f.blocks.len() == b.f.blocks.len()
    &&& a.preds == b.preds
    &&& a.sealed == b.sealed
    &&& a.current == b.current
}

impl MirBuilder {
    /// Starts an empty function whose host calls go by the table `hosts`.
    pub fn new(name: &str, hosts: &Vec<HostNative>) -> (r: Self)
        ensures
            r@.wf(),
            r@ == (BuildV {
                f: empty_func(name@, hosts@),
                current: Some(BlockId(0)),
                defs: seq![Map::empty()],
                sealed: seq![false],
                preds: seq![Seq::empty()],
                incomplete: seq![Seq::empty()],
                subst: Map::empty(),
                effects: false,
                skip: false,
            }),
    {
        let mut current_def: Vec<IdMap<ValueId>> = Vec::new();
        current_def.push(IdMap::new());
        let mut sealed: Vec<bool> = Vec::new();
        sealed.push(false);
        let mut preds: Vec<Vec<BlockId>> = Vec::new();
        preds.push(Vec::new());
        let mut incomplete_phis: Vec<Vec<(LocalId, ValueId)>> = Vec::new();
        incomplete_phis.push(Vec::new());
        let r = MirBuilder {
            func: MirFunc::new(name, hosts),
            current: Some(BlockId(0)),
            current_def,
            sealed,
            preds,
            incomplete_phis,
            subst: IdMap::new(),
            allow_effects: false,
            skip_verify: false,
        };
        assert(r@.defs =~= seq![Map::empty()]);
        assert(r@.sealed =~= seq![false]);
        assert(r@.preds =~= seq![Seq::empty()]);
        assert(r@.incomplete =~= seq![Seq::empty()]);
        r
    }

    pub fn func(&self) -> (r: &MirFunc)
        ensures
            r@ == self@.f,
    {
        &self.func
    }

    pub fn entry(&self) -> (r: BlockId)
        ensures
            r == self@.f.entry,
    {
        self.func.entry
    }

    pub fn current_block(&self) -> (r: Option<BlockId>)
        ensures
            r == self@.current,
    {
        self.current
    }

    pub fn set_ret_ty(&mut self, ty: MirTy)
        requires
            old(self)@.wf(),
        ensures
            final(self)@.wf(),
            final(self)@ == (BuildV { f: FuncV { ret_ty: Some(ty), ..old(self)@.f }, ..old(self)@ }),
    {
        self.func.ret_ty = Some(ty);
    }

    /// Sets `allow_effects` and `skip_verify`.
    pub(crate) fn set_effects(&mut self, effects: bool, skip: bool)
        requires
            old(self)@.wf(),
        ensures
            final(self)@.wf(),
            final(self)@ == (BuildV { effects, skip, ..old(self)@ }),
    {
        self.allow_effects = effects;
        self.skip_verify = skip;
    }

    fn resolve(&self, v: ValueId) -> (r: ValueId)
        ensures
            r == self@.resolve(v),
    {
        let mut fuel = self.subst.len();
        let mut cur = v;
        while fuel > 0
            invariant
                self@.resolve(v) == chase(self@.subst, cur, fuel as nat),
            decreases fuel,
        {
            match self.subst.get(&cur.0) {
                Some(n) => {
                    if *n == cur {
                        return cur;
                    }
                    cur = *n;
                },
                None => {
                    return cur;
                },
            }
            fuel = fuel - 1;
        }
        cur
    }

    fn resolve_ty(&self, v: ValueId) -> (r: MirTy)
        ensures
            r == self@.ty(v),
    {
        self.func.ty(self.resolve(v))
    }

    fn resolve_all(&self, s: &Vec<ValueId>) -> (r: Vec<ValueId>)
        ensures
            r@ == self@.resolve_all(s@),
    {
        let mut r: Vec<ValueId> = Vec::new();
        let mut i: usize = 0;
        while i < s.len()
            invariant
                i <= s@.len(),
                r@ == self@.resolve_all(s@.take(i as int)),
            decreases s@.len() - i,
        {
            r.push(self.resolve(s[i]));
            i = i + 1;
            assert(r@ =~= self@.resolve_all(s@.take(i as int)));
        }
        assert(s@.take(i as int) =~= s@);
        r
    }

    fn fresh(&mut self, ty: MirTy) -> (r: ValueId)
        requires
            old(self)@.wf(),
        ensures
            final(self)@.wf(),
            r == old(self)@.next(),
            final(self)@ == old(self)@.grow(ty),
    {
        let id = ValueId(self.func.types.len() as u32);
        self.func.types.push(ty);
        id
    }

    fn write_variable(&mut self, local: LocalId, b: BlockId, v: ValueId)
        requires
            old(self)@.wf(),
            b.0 < old(self)@.f.blocks.len(),
        ensures
            final(self)@.wf(),
            final(self)@ == old(self)@.write(local, b, v),
    {
        let ghost s0 = self@;
        let mut m: IdMap<ValueId> = IdMap::new();
        std::mem::swap(&mut m, &mut self.current_def[b.index()]);
        m.insert(local.0, v);
        self.current_def.set(b.index(), m);
        assert(self@.defs =~= s0.write(local, b, v).defs);
    }

    fn take_insts(&mut self, b: BlockId) -> (r: Vec<MirInst>)
        requires
            old(self)@.wf(),
            b.0 < old(self)@.f.blocks.len(),
        ensures
            final(self)@.wf(),
            insts_view(r@) == old(self)@.insts(b),
            final(self)@ == old(self)@.with_insts(b, Seq::empty()),
    {
        let ghost s0 = self@;
        let mut insts: Vec<MirInst> = Vec::new();
        std::mem::swap(&mut insts, &mut self.func.blocks[b.index()].insts);
        assert(self@.f.blocks[b.0 as int].insts =~= Seq::empty());
        assert(self@.f.blocks =~= s0.with_insts(b, Seq::empty()).f.blocks);
        insts
    }

    fn put_insts(&mut self, b: BlockId, insts: Vec<MirInst>)
        requires
            old(self)@.wf(),
            b.0 < old(self)@.f.blocks.len(),
        ensures
            final(self)@.wf(),
            final(self)@ == old(self)@.with_insts(b, insts_view(insts@)),
    {
        let ghost s0 = self@;
        let mut insts = insts;
        let ghost i0 = insts_view(insts@);
        std::mem::swap(&mut insts, &mut self.func.blocks[b.index()].insts);
        assert(self@.f.blocks =~= s0.with_insts(b, i0).f.blocks);
    }

    fn make_phi(&mut self, b: BlockId, ty: MirTy) -> (r: ValueId)
        requires
            old(self)@.wf(),
            b.0 < old(self)@.f.blocks.len(),
        ensures
            final(self)@.wf(),
            r == old(self)@.next(),
            final(self)@ == old(self)@.make_phi(b, ty),
    {
        let ghost s0 = self@;
        let dest = self.fresh(ty);
        let mut insts = self.take_insts(b);
        let ghost i0 = insts@;
        let p = phi_end_of(&insts);
        insts.insert(p, MirInst::Phi { dest, ty, args: Vec::new() });
        let ghost phi = InstV::Phi { dest, ty, args: Seq::empty() };
        proof {
            assert(insts@[p as int]@ == phi) by {
                assert(insts@[p as int]@->Phi_args =~= Seq::empty());
            }
            assert(insts_view(insts@) =~= insts_view(i0).insert(p as int, phi));
        }
        self.put_insts(b, insts);
        assert(self@.f.blocks =~= s0.make_phi(b, ty).f.blocks);
        dest
    }

    fn agreed(&self, args: &Vec<(BlockId, ValueId)>, phi: ValueId) -> (r: Option<ValueId>)
        ensures
            r == self@.agreed(args@, phi, 0, None),
    {
        let mut same: Option<ValueId> = None;
        let mut i: usize = 0;
        while i < args.len()
            invariant
                i <= args@.len(),
                self@.agreed(args@, phi, 0, None) == self@.agreed(args@, phi, i as nat, same),
            decreases args@.len() - i,
        {
            let v = self.resolve(args[i].1);
            if v != phi {
                if let Some(x) = same {
                    if x != v {
                        return None;
                    }
                }
                same = Some(v);
            }
            i = i + 1;
        }
        same
    }

    fn try_remove_trivial_phi(&mut self, phi: ValueId, b: BlockId)
        requires
            old(self)@.wf(),
            b.0 < old(self)@.f.blocks.len(),
        ensures
            final(self)@.wf(),
            same_frame(old(self)@, final(self)@),
            final(self)@ == old(self)@.drop_trivial(b, phi),
    {
        let ghost s0 = self@;
        let mut same: Option<ValueId> = None;
        let insts = &self.func.blocks[b.index()].insts;
        assert(insts_view(insts@) == s0.insts(b));
        if let Some(i) = find_dest(insts, phi) {
            assert(s0.insts(b)[i as int] == insts@[i as int]@);
            if let MirInst::Phi { args, .. } = &insts[i] {
                same = self.agreed(args, phi);
            }
        }
        assert(same == s0.trivial(b, phi));
        if let Some(v) = same {
            let insts = self.take_insts(b);
            let kept = removed(insts, phi);
            self.put_insts(b, kept);
            self.subst.insert(phi.0, v);
            assert(self@.f.blocks =~= s0.drop_trivial(b, phi).f.blocks);
            assert(self@ =~= s0.drop_trivial(b, phi));
        }
    }

    fn close_phi(&mut self, b: BlockId, phi: ValueId, args: Vec<(BlockId, ValueId)>)
        requires
            old(self)@.wf(),
            b.0 < old(self)@.f.blocks.len(),
        ensures
            final(self)@.wf(),
            same_frame(old(self)@, final(self)@),
            final(self)@ == old(self)@.close_phi(b, phi, args@),
    {
        let ghost s0 = self@;
        let sorted = sort_args(&args);
        let insts = self.take_insts(b);
        let insts = filled(insts, phi, sorted);
        self.put_insts(b, insts);
        assert(self@.f.blocks =~= s0.with_insts(b, fill_phi(s0.insts(b), phi, sorted_args(args@))).f.blocks);
        self.try_remove_trivial_phi(phi, b);
    }

    fn read_variable(&mut self, local: LocalId, ty: MirTy, b: BlockId, joins: usize, chain: usize) -> (r: ValueId)
        requires
            old(self)@.wf(),
            b.0 < old(self)@.f.blocks.len(),
        ensures
            final(self)@.wf(),
            same_frame(old(self)@, final(self)@),
            (final(self)@, r) == old(self)@.read(local, ty, b, joins as nat, chain as nat, old(self)@.f.blocks.len()),
        decreases joins, chain, 0nat,
    {
        let ghost s0 = self@;
        let i = b.index();
        if let Some(v) = self.current_def[i].get(&local.0) {
            let v = *v;
            return self.resolve(v);
        }
        if !self.sealed[i] {
            let phi = self.make_phi(b, ty);
            let ghost s1 = self@;
            let mut p: Vec<(LocalId, ValueId)> = Vec::new();
            std::mem::swap(&mut p, &mut self.incomplete_phis[i]);
            p.push((local, phi));
            self.incomplete_phis.set(i, p);
            assert(self@.incomplete =~= s1.incomplete.update(
                b.0 as int,
                s1.incomplete[b.0 as int].push((local, phi)),
            ));
            self.write_variable(local, b, phi);
            return phi;
        }
        let n = self.preds[i].len();
        if n == 1 && chain > 0 {
            let pred = self.preds[i][0];
            assert(s0.preds[b.0 as int][0] == pred);
            let v = self.read_variable(local, ty, pred, joins, chain - 1);
            self.write_variable(local, b, v);
            return v;
        }
        if n > 1 && joins > 0 {
            let phi = self.make_phi(b, ty);
            self.write_variable(local, b, phi);
            let t = self.func.ty(phi);
            let ps = copy_blocks(&self.preds[i]);
            assert forall|k: int| 0 <= k < ps@.len() implies (#[trigger] ps@[k]).0 < self@.f.blocks.len() by {
                assert(s0.preds[b.0 as int][k] == ps@[k]);
            }
            let args = self.phi_operands(local, t, &ps, joins - 1);
            self.close_phi(b, phi, args);
            return self.resolve(phi);
        }
        let v = self.fresh(ty);
        if !has_id(&self.func.params, v) {
            self.func.params.push(v);
        }
        self.write_variable(local, b, v);
        v
    }

    fn phi_operands(&mut self, local: LocalId, ty: MirTy, ps: &Vec<BlockId>, joins: usize) -> (r: Vec<
        (BlockId, ValueId),
    >)
        requires
            old(self)@.wf(),
            forall|k: int| 0 <= k < ps@.len() ==> (#[trigger] ps@[k]).0 < old(self)@.f.blocks.len(),
        ensures
            final(self)@.wf(),
            same_frame(old(self)@, final(self)@),
            (final(self)@, r@) == old(self)@.operands(
                local,
                ty,
                ps@,
                0,
                Seq::empty(),
                joins as nat,
                old(self)@.f.blocks.len(),
            ),
        decreases joins, old(self)@.f.blocks.len() + 1, ps@.len(),
    {
        let ghost s0 = self@;
        let n = self.func.blocks.len();
        let mut args: Vec<(BlockId, ValueId)> = Vec::new();
        let mut k: usize = 0;
        assert(args@ =~= Seq::empty());
        while k < ps.len()
            invariant
                self@.wf(),
                same_frame(s0, self@),
                n == s0.f.blocks.len(),
                s0 == old(self)@,
                forall|k: int| 0 <= k < ps@.len() ==> (#[trigger] ps@[k]).0 < n,
                k <= ps@.len(),
                s0.operands(local, ty, ps@, 0, Seq::empty(), joins as nat, n as nat) == self@.operands(
                    local,
                    ty,
                    ps@,
                    k as nat,
                    args@,
                    joins as nat,
                    n as nat,
                ),
            decreases ps@.len() - k,
        {
            let v = self.read_variable(local, ty, ps[k], joins, n);
            args.push((ps[k], self.resolve(v)));
            k = k + 1;
        }
        args
    }
}

fn copy_blocks(s: &Vec<BlockId>) -> (r: Vec<BlockId>)
    ensures
        r@ == s@,
{
    let mut r: Vec<BlockId> = Vec::new();
    let mut i: usize = 0;
    while i < s.len()
        invariant
            i <= s@.len(),
            r@ == s@.take(i as int),
        decreases s@.len() - i,
    {
        r.push(s[i]);
        i = i + 1;
        assert(r@ =~= s@.take(i as int));
    }
    assert(s@.take(i as int) =~= s@);
    r
}

// Instructions.

/// `l` and `r` in a message about operand types.
pub open spec fn versus(what: Seq<char>, l: MirTy, r: MirTy) -> Seq<char> {
    what + l.text() + " vs "@ + r.text()
}

/// Result type of an arithmetic operation.
pub open spec fn bin_ty(op: MirBinOp, lt: MirTy, rt: MirTy) -> Result<MirTy, Seq<char>> {
    if op.int_only() && (lt.heap_word() || rt.heap_word()) {
        if !(op is BitAnd || op is BitOr || op is Xor) {
            Err("binop "@ + op.variant() + " on heap word"@)
        } else if !(lt.heap_word() || lt is I64) || !(rt.heap_word() || rt is I64) {
            Err(versus("binop operand types "@, lt, rt))
        } else if op is BitOr {
            Ok(MirTy::NicheRes)
        } else if op is BitAnd {
            Ok(MirTy::HeapRef)
        } else if lt.heap_word() {
            Ok(lt)
        } else {
            Ok(rt)
        }
    } else if lt != rt {
        Err(versus("binop operand types "@, lt, rt))
    } else if !lt.numeric() || lt is Bool {
        Err("binop on "@ + lt.text())
    } else if op.int_only() && !lt.int_ty() {
        Err("bitwise op on "@ + lt.text())
    } else {
        Ok(lt)
    }
}

/// Operand type of a comparison.
pub open spec fn compare_ty(op: MirCmpOp, lt: MirTy, rt: MirTy) -> Result<MirTy, Seq<char>> {
    if (lt.heap_word() || rt.heap_word()) && (op is Eq || op is Ne) {
        if !(lt.heap_word() || lt is I64) || !(rt.heap_word() || rt is I64) {
            Err(versus("cmp types "@, lt, rt))
        } else if lt.heap_word() {
            Ok(lt)
        } else {
            Ok(rt)
        }
    } else if lt != rt || !lt.numeric() || lt is Bool {
        Err(versus("cmp types "@, lt, rt))
    } else {
        Ok(lt)
    }
}

/// First host argument from `i` on with a wrong type.
pub open spec fn host_mistyped(b: BuildV, args: Seq<ValueId>, tys: Seq<MirTy>, i: nat) -> Option<nat>
    decreases args.len() - i,
{
    if i >= args.len() || i >= tys.len() {
        None
    } else if b.ty(args[i as int]) != tys[i as int] {
        Some(i)
    } else {
        host_mistyped(b, args, tys, i + 1)
    }
}

/// First complaint about the call arguments from `i` on.
pub open spec fn call_mistyped(b: BuildV, args: Seq<ValueId>, tys: Seq<MirTy>, i: nat) -> Option<Seq<char>>
    decreases args.len() - i,
{
    if i >= args.len() || i >= tys.len() {
        None
    } else if b.ty(args[i as int]) != tys[i as int] {
        Some(versus("call arg "@ + dec(i) + " is "@, b.ty(args[i as int]), tys[i as int]))
    } else if !tys[i as int].specialized() {
        Some("call arg "@ + dec(i) + " is "@ + tys[i as int].text())
    } else {
        call_mistyped(b, args, tys, i + 1)
    }
}

/// First value from `i` on that has no specialized type.
pub open spec fn first_unspecialized(b: BuildV, s: Seq<ValueId>, i: nat) -> Option<nat>
    decreases s.len() - i,
{
    if i >= s.len() {
        None
    } else if !b.ty(s[i as int]).specialized() {
        Some(i)
    } else {
        first_unspecialized(b, s, i + 1)
    }
}

/// First value from `i` on that is no heap word.
pub open spec fn first_non_word(b: BuildV, s: Seq<ValueId>, i: nat) -> Option<nat>
    decreases s.len() - i,
{
    if i >= s.len() {
        None
    } else if !b.ty(s[i as int]).heap_word() {
        Some(i)
    } else {
        first_non_word(b, s, i + 1)
    }
}

/// A type that an array or object reference has.
pub open spec fn indexable(t: MirTy) -> bool {
    t is HeapRef || t is Value
}

impl BuildV {
    pub open spec fn cur(self) -> BlockId {
        self.current->0
    }

    /// Why nothing can be added to the current block.
    pub open spec fn closed(self) -> Option<Seq<char>> {
        match self.current {
            None => Some("no current block"@),
            Some(b) => if self.f.blocks[b.0 as int].term is Some {
                Some(b.text() + " already terminated"@)
            } else {
                None
            },
        }
    }

    /// Adds an instruction to the current block, phis in front.
    pub open spec fn add(self, inst: InstV) -> BuildV {
        let insts = self.insts(self.cur());
        self.with_insts(
            self.cur(),
            if inst.phi() {
                insts.insert(phi_end(insts, 0) as int, inst)
            } else {
                insts.push(inst)
            },
        )
    }

    /// Allocates the next value and adds the instruction that defines it.
    pub open spec fn place(self, ty: MirTy, inst: InstV) -> (BuildV, Result<ValueId, Seq<char>>) {
        let s = self.grow(ty);
        match s.closed() {
            Some(m) => (s, Err(m)),
            None => (s.add(inst), Ok(self.next())),
        }
    }

    pub open spec fn ins_const(self, c: MirConst) -> (BuildV, Result<ValueId, Seq<char>>) {
        self.place(c.const_ty(), InstV::Const { dest: self.next(), c })
    }

    pub open spec fn ins_binop(self, op: MirBinOp, lhs: ValueId, rhs: ValueId) -> (
        BuildV,
        Result<ValueId, Seq<char>>,
    ) {
        match bin_ty(op, self.ty(lhs), self.ty(rhs)) {
            Err(m) => (self, Err(m)),
            Ok(ty) => self.place(
                ty,
                InstV::Bin { dest: self.next(), op, ty, lhs: self.resolve(lhs), rhs: self.resolve(rhs) },
            ),
        }
    }

    pub open spec fn ins_compare(self, op: MirCmpOp, lhs: ValueId, rhs: ValueId) -> (
        BuildV,
        Result<ValueId, Seq<char>>,
    ) {
        match compare_ty(op, self.ty(lhs), self.ty(rhs)) {
            Err(m) => (self, Err(m)),
            Ok(ty) => self.place(
                MirTy::Bool,
                InstV::Cmp { dest: self.next(), op, ty, lhs: self.resolve(lhs), rhs: self.resolve(rhs) },
            ),
        }
    }

    pub open spec fn ins_neg(self, src: ValueId) -> (BuildV, Result<ValueId, Seq<char>>) {
        let t = self.ty(src);
        if !t.int_ty() && !t.float() {
            (self, Err("neg on "@ + t.text()))
        } else {
            self.place(t, InstV::Unary { dest: self.next(), op: MirUnaryOp::Neg, src: self.resolve(src) })
        }
    }

    pub open spec fn ins_not(self, src: ValueId) -> (BuildV, Result<ValueId, Seq<char>>) {
        let t = self.ty(src);
        if !(t is Bool) && !t.int_ty() && !t.heap_word() {
            (self, Err("lnot on "@ + t.text()))
        } else {
            self.place(MirTy::Bool, InstV::Unary { dest: self.next(), op: MirUnaryOp::Not, src: self.resolve(src) })
        }
    }

    pub open spec fn ins_cast(self, kind: MirCastKind, to: MirTy, src: ValueId) -> (
        BuildV,
        Result<ValueId, Seq<char>>,
    ) {
        let from = self.ty(src);
        let ok = match kind {
            MirCastKind::IntToFloat => from.int_ty() && to.float(),
            MirCastKind::Sext => from is I32 && to is I64,
        };
        if !ok {
            (self, Err("illegal cast "@ + from.text() + " -> "@ + to.text()))
        } else {
            self.place(to, InstV::Cast { dest: self.next(), kind, to, src: self.resolve(src) })
        }
    }

    pub open spec fn ins_host_invoke(self, native_id: u16, args: Seq<ValueId>) -> (
        BuildV,
        Result<ValueId, Seq<char>>,
    ) {
        let spec = if self.effects {
            edge(self.f.hosts, native_id)
        } else {
            precise_edge(self.f.hosts, native_id)
        };
        let vs = self.resolve_all(args);
        match spec {
            None => (self, Err("host "@ + dec(native_id as nat) + " is not a typed MIR edge"@)),
            Some(h) => if h.args.len() != args.len() {
                (self, Err("host "@ + h.name + " arity "@ + dec(h.args.len()) + " vs "@ + dec(args.len())))
            } else {
                match host_mistyped(self, vs, h.args, 0) {
                    Some(i) => (
                        self,
                        Err(
                            versus(
                                "host "@ + h.name + " arg "@ + dec(i) + " is "@,
                                self.ty(vs[i as int]),
                                h.args[i as int],
                            ),
                        ),
                    ),
                    None => self.place(
                        h.ret,
                        InstV::HostInvoke { dest: self.next(), native_id, layout: 0, args: vs },
                    ),
                }
            },
        }
    }

    pub open spec fn ins_call(self, target: Label, args: Seq<ValueId>, abi: AbiV) -> (
        BuildV,
        Result<ValueId, Seq<char>>,
    ) {
        let vs = self.resolve_all(args);
        if abi.params.len() != args.len() {
            (self, Err("call arity "@ + dec(abi.params.len()) + " vs "@ + dec(args.len())))
        } else if !abi.ret.specialized() {
            (self, Err("call dest is "@ + abi.ret.text()))
        } else {
            match call_mistyped(self, vs, abi.params, 0) {
                Some(m) => (self, Err(m)),
                None => self.place(
                    abi.ret,
                    InstV::Call { dest: self.next(), dest_hi: None, target, args: vs },
                ),
            }
        }
    }

    pub open spec fn ins_stack_phi(self, args: Seq<(BlockId, ValueId)>) -> (BuildV, Result<ValueId, Seq<char>>) {
        if args.len() == 0 {
            (self, Err("empty stack phi"@))
        } else {
            let ty = self.ty(args[0].1);
            let vs = args.map_values(|a: (BlockId, ValueId)| (a.0, self.resolve(a.1)));
            self.place(ty, InstV::Phi { dest: self.next(), ty, args: sorted_args(vs) })
        }
    }

    pub open spec fn ins_match_payload(self, scrutinee: ValueId, index: u32, ty: MirTy) -> (
        BuildV,
        Result<ValueId, Seq<char>>,
    ) {
        if index > 0 {
            (self, Err("I2 MatchPayload index > 0"@))
        } else if !ty.specialized() {
            (self, Err("MatchPayload type "@ + ty.text()))
        } else {
            self.place(
                ty,
                InstV::MatchPayload { dest: self.next(), scrutinee: self.resolve(scrutinee), index },
            )
        }
    }

    pub open spec fn ins_field_load(self, object: ValueId, base: u32, index: u32) -> (
        BuildV,
        Result<ValueId, Seq<char>>,
    ) {
        let ty = self.ty(object);
        if !ty.specialized() {
            (self, Err("FieldLoad type "@ + ty.text()))
        } else {
            self.place(ty, InstV::FieldLoad { dest: self.next(), object: self.resolve(object), base, index })
        }
    }

    pub open spec fn ins_field_store(self, src: ValueId, base: u32, index: u32) -> (
        BuildV,
        Result<ValueId, Seq<char>>,
    ) {
        let ty = self.ty(src);
        let v = self.resolve(src);
        if !ty.specialized() {
            (self, Err("FieldStore type "@ + ty.text()))
        } else if self.current is None {
            (self.grow(ty), Err("no current block"@))
        } else {
            let s = self.grow(ty).write(LocalId((base + index) as u32), self.cur(), v);
            match s.closed() {
                Some(m) => (s, Err(m)),
                None => (s.add(InstV::FieldStore { dest: self.next(), src: v, base, index }), Ok(self.next())),
            }
        }
    }

    pub open spec fn ins_index(self, array: ValueId, index: ValueId, dest_ty: MirTy, unchecked: bool) -> (
        BuildV,
        Result<ValueId, Seq<char>>,
    ) {
        if !indexable(self.ty(array)) {
            (self, Err("Index array is "@ + self.ty(array).text()))
        } else if !self.ty(index).int_ty() {
            (self, Err("Index index is "@ + self.ty(index).text()))
        } else if !dest_ty.specialized() {
            (self, Err("Index dest is "@ + dest_ty.text()))
        } else {
            self.place(
                dest_ty,
                InstV::Index {
                    dest: self.next(),
                    array: self.resolve(array),
                    index: self.resolve(index),
                    unchecked,
                },
            )
        }
    }

    pub open spec fn ins_store_index(self, array: ValueId, index: ValueId, value: ValueId, unchecked: bool) -> (
        BuildV,
        Result<ValueId, Seq<char>>,
    ) {
        if !indexable(self.ty(array)) {
            (self, Err("StoreIndex array is "@ + self.ty(array).text()))
        } else if !self.ty(index).int_ty() {
            (self, Err("StoreIndex index is "@ + self.ty(index).text()))
        } else if !self.ty(value).specialized() {
            (self, Err("StoreIndex value is "@ + self.ty(value).text()))
        } else {
            self.place(
                self.ty(value),
                InstV::StoreIndex {
                    dest: self.next(),
                    array: self.resolve(array),
                    index: self.resolve(index),
                    value: self.resolve(value),
                    unchecked,
                },
            )
        }
    }

    pub open spec fn ins_array_len(self, array: ValueId) -> (BuildV, Result<ValueId, Seq<char>>) {
        if !indexable(self.ty(array)) {
            (self, Err("ArrayLen array is "@ + self.ty(array).text()))
        } else {
            self.place(MirTy::I64, InstV::ArrayLen { dest: self.next(), array: self.resolve(array) })
        }
    }

    /// Source locals of the current block, by ascending local.
    pub open spec fn env(self) -> Seq<(LocalId, ValueId)> {
        let m = self.defs[self.cur().0 as int];
        ascending_ids(m.dom()).map_values(|l: u32| (LocalId(l), self.resolve(m[l])))
    }

    /// Records the source locals at the edge `at`.
    pub open spec fn snapshot(self, at: ValueId) -> BuildV {
        BuildV { f: FuncV { slot_env: self.f.slot_env.insert(at.0, self.env()), ..self.f }, ..self }
    }

    /// Like `place`, and records the source locals at the new value.
    pub open spec fn place_edge(self, ty: MirTy, inst: InstV) -> (BuildV, Result<ValueId, Seq<char>>) {
        let r = self.place(ty, inst);
        match r.1 {
            Ok(v) => (r.0.snapshot(v), Ok(v)),
            Err(m) => (r.0, Err(m)),
        }
    }

    pub open spec fn ins_alloc(self, kind: MirAllocKind, elems: Seq<ValueId>) -> (
        BuildV,
        Result<ValueId, Seq<char>>,
    ) {
        let vs = self.resolve_all(elems);
        match first_unspecialized(self, vs, 0) {
            Some(i) => (self, Err("Alloc elem "@ + dec(i) + " is "@ + self.ty(vs[i as int]).text())),
            None => self.place_edge(MirTy::HeapRef, InstV::Alloc { dest: self.next(), kind, elems: vs }),
        }
    }

    pub open spec fn ins_gc_barrier(self, kind: MirGcKind, roots: Seq<ValueId>) -> (
        BuildV,
        Result<ValueId, Seq<char>>,
    ) {
        let vs = self.resolve_all(roots);
        match first_non_word(self, vs, 0) {
            Some(i) => (self, Err("GcBarrier root "@ + dec(i) + " is "@ + self.ty(vs[i as int]).text())),
            None => self.place_edge(MirTy::HeapRef, InstV::GcBarrier { dest: self.next(), kind, roots: vs }),
        }
    }

    pub open spec fn ins_deopt(self, kind: MirDeoptKind, loc: DebugLoc) -> (BuildV, Result<ValueId, Seq<char>>) {
        self.place(MirTy::Bool, InstV::Deopt { dest: self.next(), kind, loc })
    }

    pub open spec fn ins_string(self, idx: u32) -> (BuildV, Result<ValueId, Seq<char>>) {
        self.place(MirTy::HeapRef, InstV::String { dest: self.next(), idx })
    }

    pub open spec fn ins_heap_field_store(
        self,
        object: ValueId,
        value: ValueId,
        name: Option<ValueId>,
        index: Option<u32>,
    ) -> (BuildV, Result<ValueId, Seq<char>>) {
        if !indexable(self.ty(object)) {
            (self, Err("HeapFieldStore object is "@ + self.ty(object).text()))
        } else if !self.ty(value).specialized() {
            (self, Err("HeapFieldStore value is "@ + self.ty(value).text()))
        } else {
            self.place(
                self.ty(value),
                InstV::HeapFieldStore {
                    dest: self.next(),
                    object: self.resolve(object),
                    value: self.resolve(value),
                    name: match name {
                        Some(x) => Some(self.resolve(x)),
                        None => None,
                    },
                    index,
                },
            )
        }
    }

    pub open spec fn ins_array_push(self, array: ValueId, value: ValueId) -> (BuildV, Result<ValueId, Seq<char>>) {
        if !indexable(self.ty(array)) {
            (self, Err("ArrayPush array is "@ + self.ty(array).text()))
        } else if !self.ty(value).specialized() {
            (self, Err("ArrayPush value is "@ + self.ty(value).text()))
        } else {
            self.place_edge(
                MirTy::HeapRef,
                InstV::ArrayPush { dest: self.next(), array: self.resolve(array), value: self.resolve(value) },
            )
        }
    }

    pub open spec fn ins_print(self, src: ValueId) -> (BuildV, Result<ValueId, Seq<char>>) {
        if !self.ty(src).specialized() {
            (self, Err("Print operand is "@ + self.ty(src).text()))
        } else {
            self.place(MirTy::Bool, InstV::Print { dest: self.next(), src: self.resolve(src) })
        }
    }

    pub open spec fn ins_format(self, fmt: ValueId, args: Seq<ValueId>) -> (BuildV, Result<ValueId, Seq<char>>) {
        let vs = self.resolve_all(args);
        match first_unspecialized(self, vs, 0) {
            Some(i) => (self, Err("Format arg "@ + dec(i) + " is "@ + self.ty(vs[i as int]).text())),
            None => self.place_edge(
                MirTy::HeapRef,
                InstV::Format { dest: self.next(), fmt: self.resolve(fmt), args: vs },
            ),
        }
    }

    pub open spec fn ins_stringify(self, src: ValueId) -> (BuildV, Result<ValueId, Seq<char>>) {
        if !self.ty(src).specialized() {
            (self, Err("Stringify operand is "@ + self.ty(src).text()))
        } else {
            self.place_edge(MirTy::HeapRef, InstV::Stringify { dest: self.next(), src: self.resolve(src) })
        }
    }

    pub open spec fn ins_heap_field_load(self, object: ValueId, name: Option<ValueId>, index: u32, ty: MirTy) -> (
        BuildV,
        Result<ValueId, Seq<char>>,
    ) {
        if !indexable(self.ty(object)) {
            (self, Err("HeapFieldLoad object is "@ + self.ty(object).text()))
        } else if !ty.specialized() {
            (self, Err("HeapFieldLoad type "@ + ty.text()))
        } else {
            self.place(
                ty,
                InstV::HeapFieldLoad {
                    dest: self.next(),
                    object: self.resolve(object),
                    name: match name {
                        Some(x) => Some(self.resolve(x)),
                        None => None,
                    },
                    index,
                },
            )
        }
    }

    // Terminators.

    pub open spec fn set_term(self, term: TermV) -> (BuildV, Option<Seq<char>>) {
        match self.closed() {
            Some(m) => (self, Some(m)),
            None => (
                BuildV {
                    f: FuncV {
                        blocks: self.f.blocks.update(
                            self.cur().0 as int,
                            BlockV { term: Some(term), ..self.f.blocks[self.cur().0 as int] },
                        ),
                        ..self.f
                    },
                    ..self
                },
                None,
            ),
        }
    }

    /// Records the edge from the current block to `dest`.
    pub open spec fn add_edge(self, dest: BlockId) -> BuildV {
        let ps = self.preds[dest.0 as int];
        BuildV {
            preds: self.preds.update(
                dest.0 as int,
                if ps.contains(self.cur()) {
                    ps
                } else {
                    ps.push(self.cur())
                },
            ),
            ..self
        }
    }

    pub open spec fn jump(self, dest: BlockId) -> (BuildV, Option<Seq<char>>) {
        if self.current is None {
            (self, Some("no current block"@))
        } else {
            self.add_edge(dest).set_term(TermV::Jump { dest })
        }
    }

    pub open spec fn branch(self, cond: ValueId, taken: BlockId, not_taken: BlockId) -> (BuildV, Option<Seq<char>>) {
        if !(self.ty(cond) is Bool) {
            (self, Some("branch cond must be bool"@))
        } else if self.current is None {
            (self, Some("no current block"@))
        } else {
            self.add_edge(taken).add_edge(not_taken).set_term(
                TermV::Br { cond: self.resolve(cond), taken, not_taken },
            )
        }
    }

    pub open spec fn jump_if_match(
        self,
        scrutinee: ValueId,
        tag: u32,
        payloads: Seq<ValueId>,
        taken: BlockId,
        not_taken: BlockId,
    ) -> (BuildV, Option<Seq<char>>) {
        if payloads.len() > 1 {
            (self, Some("I2 JumpIfMatch arity > 1"@))
        } else if !self.ty(scrutinee).specialized() {
            (self, Some("JumpIfMatch scrutinee is "@ + self.ty(scrutinee).text()))
        } else if self.current is None {
            (self, Some("no current block"@))
        } else {
            self.add_edge(taken).add_edge(not_taken).set_term(
                TermV::JumpIfMatch {
                    scrutinee: self.resolve(scrutinee),
                    tag,
                    payloads: self.resolve_all(payloads),
                    taken,
                    not_taken,
                },
            )
        }
    }

    pub open spec fn ret(self, value: Option<ValueId>) -> (BuildV, Option<Seq<char>>) {
        match value {
            None => self.set_term(TermV::Return { lo: None, hi: None }),
            Some(x) => {
                let v = self.resolve(x);
                let ty = match self.f.ret_ty {
                    Some(t) => t,
                    None => self.ty(v),
                };
                let ret_layout = if ty.heap_word() {
                    ty.layout_of()
                } else {
                    self.f.ret_layout
                };
                BuildV { f: FuncV { ret_ty: Some(ty), ret_layout, ..self.f }, ..self }.set_term(
                    TermV::Return { lo: Some(v), hi: None },
                )
            },
        }
    }

    pub open spec fn ret_pair(self, lo: ValueId, hi: ValueId) -> (BuildV, Option<Seq<char>>) {
        let l = self.resolve(lo);
        let h = self.resolve(hi);
        let lt = match self.f.ret_ty {
            Some(t) => t,
            None => self.ty(l),
        };
        let ht = match self.f.ret_hi_ty {
            Some(t) => t,
            None => self.ty(h),
        };
        BuildV {
            f: FuncV { ret_ty: Some(lt), ret_hi_ty: Some(ht), ret_layout: MirLayout::TwoSlot, ..self.f },
            ..self
        }.set_term(TermV::Return { lo: Some(l), hi: Some(h) })
    }

    // The finished function.

    /// Every removed phi with the value that stands for it.
    pub open spec fn flat(self) -> Map<u32, ValueId> {
        Map::new(|k: u32| self.subst.dom().contains(k), |k: u32| self.resolve(ValueId(k)))
    }

    /// The function with removed phis replaced.
    pub open spec fn replaced(self) -> FuncV {
        let m = self.flat();
        FuncV {
            blocks: self.f.blocks.map_values(|b: BlockV| block_renamed(b, m)),
            params: self.f.params.map_values(|v: ValueId| map_value(m, v)),
            ..self.f
        }
    }

    pub open spec fn finished(self) -> FuncV {
        let f = self.seal_from(0, self.f.blocks.len()).replaced();
        if f.gc_edge() {
            with_live_roots(f)
        } else {
            f
        }
    }
}

pub open spec fn block_renamed(b: BlockV, m: Map<u32, ValueId>) -> BlockV {
    BlockV {
        insts: b.insts.map_values(|i: InstV| i.renamed(m)),
        term: match b.term {
            Some(t) => Some(t.renamed(m)),
            None => None,
        },
        ..b
    }
}

/// Relates the outcome of adding an instruction to its specification.
pub open spec fn outcome(r: Result<ValueId, MirError>, s: Result<ValueId, Seq<char>>) -> bool {
    match s {
        Ok(v) => r == Ok::<ValueId, MirError>(v),
        Err(m) => r matches Err(e) && e@ == m,
    }
}

/// Relates the outcome of ending a block to its specification.
pub open spec fn ended(r: Result<(), MirError>, s: Option<Seq<char>>) -> bool {
    match s {
        None => r is Ok,
        Some(m) => r matches Err(e) && e@ == m,
    }
}

fn versus_text(what: &str, l: MirTy, r: MirTy) -> (s: MirError)
    ensures
        s@ == versus(what@, l, r),
{
    MirError::Msg(cat4(what, l.as_str(), " vs ", r.as_str()))
}

fn ty_error(what: &str, t: MirTy) -> (s: MirError)
    ensures
        s@ == what@ + t.text(),
{
    MirError::Msg(cat2(what, t.as_str()))
}

fn bin_result(op: MirBinOp, lt: MirTy, rt: MirTy) -> (r: Result<MirTy, MirError>)
    ensures
        match bin_ty(op, lt, rt) {
            Ok(t) => r == Ok::<MirTy, MirError>(t),
            Err(m) => r matches Err(e) && e@ == m,
        },
{
    if op.requires_int() && (lt.is_heap_word() || rt.is_heap_word()) {
        let bits = matches!(op, MirBinOp::BitAnd | MirBinOp::BitOr | MirBinOp::Xor);
        if !bits {
            return Err(MirError::Msg(cat3("binop ", op.variant_str(), " on heap word")));
        }
        if !(lt.is_heap_word() || lt == MirTy::I64) || !(rt.is_heap_word() || rt == MirTy::I64) {
            return Err(versus_text("binop operand types ", lt, rt));
        }
        return Ok(
            match op {
                MirBinOp::BitOr => MirTy::NicheRes,
                MirBinOp::BitAnd => MirTy::HeapRef,
                _ => if lt.is_heap_word() {
                    lt
                } else {
                    rt
                },
            },
        );
    }
    if lt != rt {
        return Err(versus_text("binop operand types ", lt, rt));
    }
    if !lt.is_numeric() || lt == MirTy::Bool {
        return Err(ty_error("binop on ", lt));
    }
    if op.requires_int() && !lt.is_int() {
        return Err(ty_error("bitwise op on ", lt));
    }
    Ok(lt)
}

fn compare_operands(op: MirCmpOp, lt: MirTy, rt: MirTy) -> (r: Result<MirTy, MirError>)
    ensures
        match compare_ty(op, lt, rt) {
            Ok(t) => r == Ok::<MirTy, MirError>(t),
            Err(m) => r matches Err(e) && e@ == m,
        },
{
    let equality = matches!(op, MirCmpOp::Eq | MirCmpOp::Ne);
    if (lt.is_heap_word() || rt.is_heap_word()) && equality {
        if !(lt.is_heap_word() || lt == MirTy::I64) || !(rt.is_heap_word() || rt == MirTy::I64) {
            return Err(versus_text("cmp types ", lt, rt));
        }
        return Ok(
            if lt.is_heap_word() {
                lt
            } else {
                rt
            },
        );
    }
    if lt != rt || !lt.is_numeric() || lt == MirTy::Bool {
        return Err(versus_text("cmp types ", lt, rt));
    }
    Ok(lt)
}

fn is_indexable(t: MirTy) -> (r: bool)
    ensures
        r == indexable(t),
{
    t == MirTy::HeapRef || t == MirTy::Value
}

impl MirBuilder {
    /// Adds a parameter.
    pub fn add_param(&mut self, ty: MirTy) -> (r: Result<ValueId, MirError>)
        requires
            old(self)@.wf(),
        ensures
            final(self)@.wf(),
            if ty.specialized() {
                &&& r == Ok::<ValueId, MirError>(old(self)@.next())
                &&& final(self)@ == (BuildV {
                    f: FuncV {
                        types: old(self)@.f.types.push(ty),
                        params: old(self)@.f.params.push(old(self)@.next()),
                        ..old(self)@.f
                    },
                    ..old(self)@
                })
            } else {
                &&& r matches Err(e) && e@ == "param must be a specialized SSA type"@
                &&& final(self)@ == old(self)@
            },
    {
        if !ty.is_specialized() {
            return Err(MirError::msg("param must be a specialized SSA type"));
        }
        let v = self.fresh(ty);
        self.func.params.push(v);
        Ok(v)
    }

    fn cur(&self) -> (r: Result<BlockId, MirError>)
        ensures
            match self@.current {
                Some(b) => r == Ok::<BlockId, MirError>(b),
                None => r matches Err(e) && e@ == "no current block"@,
            },
    {
        match self.current {
            Some(b) => Ok(b),
            None => Err(MirError::msg("no current block")),
        }
    }

    /// Binds a source local to a value in the current block.
    pub fn def_local(&mut self, local: LocalId, val: ValueId) -> (r: Result<(), MirError>)
        requires
            old(self)@.wf(),
        ensures
            final(self)@.wf(),
            match old(self)@.current {
                Some(b) => r is Ok && final(self)@ == old(self)@.write(local, b, val),
                None => final(self)@ == old(self)@ && (r matches Err(e) && e@ == "no current block"@),
            },
    {
        match self.cur() {
            Ok(b) => {
                self.write_variable(local, b, val);
                Ok(())
            },
            Err(e) => Err(e),
        }
    }

    /// Reads a source local; joins on the way get a phi.
    pub fn use_local(&mut self, local: LocalId, ty: MirTy) -> (r: Result<ValueId, MirError>)
        requires
            old(self)@.wf(),
        ensures
            final(self)@.wf(),
            match old(self)@.current {
                Some(b) => {
                    let n = old(self)@.f.blocks.len();
                    let s = old(self)@.read(local, ty, b, n, n, n);
                    final(self)@ == s.0 && r == Ok::<ValueId, MirError>(s.1)
                },
                None => final(self)@ == old(self)@ && (r matches Err(e) && e@ == "no current block"@),
            },
            final(self)@.f.blocks.len() == old(self)@.f.blocks.len(),
            final(self)@.current == old(self)@.current,
    {
        match self.cur() {
            Ok(b) => {
                let n = self.func.blocks.len();
                Ok(self.read_variable(local, ty, b, n, n))
            },
            Err(e) => Err(e),
        }
    }

    pub fn create_block(&mut self) -> (r: BlockId)
        requires
            old(self)@.wf(),
            old(self)@.f.blocks.len() < u32::MAX,
        ensures
            final(self)@.wf(),
            r.0 == old(self)@.f.blocks.len(),
            final(self)@ == (BuildV {
                f: FuncV { blocks: old(self)@.f.blocks.push(empty_block(r)), ..old(self)@.f },
                defs: old(self)@.defs.push(Map::empty()),
                sealed: old(self)@.sealed.push(false),
                preds: old(self)@.preds.push(Seq::empty()),
                incomplete: old(self)@.incomplete.push(Seq::empty()),
                ..old(self)@
            }),
    {
        let ghost s0 = self@;
        let id = BlockId(self.func.blocks.len() as u32);
        self.func.blocks.push(MirBlock::new(id));
        self.current_def.push(IdMap::new());
        self.sealed.push(false);
        self.preds.push(Vec::new());
        self.incomplete_phis.push(Vec::new());
        proof {
            assert(self@.f.blocks =~= s0.f.blocks.push(empty_block(id)));
            assert(self@.defs =~= s0.defs.push(Map::empty()));
            assert(self@.preds.last() =~= Seq::empty());
            assert(self@.preds =~= s0.preds.push(Seq::empty()));
            assert(self@.incomplete.last() =~= Seq::empty());
            assert(self@.incomplete =~= s0.incomplete.push(Seq::empty()));
            assert forall|b: int, k: int|
                0 <= b < self@.preds.len() && 0 <= k < self@.preds[b].len() implies (#[trigger] self@.preds[b][k]).0
                < self@.f.blocks.len() by {
                assert(self@.preds[b] == s0.preds.push(Seq::empty())[b]);
                if b < s0.preds.len() {
                    assert(s0.preds[b][k].0 < s0.f.blocks.len());
                }
            }
        }
        id
    }

    pub fn switch_to_block(&mut self, b: BlockId)
        requires
            old(self)@.wf(),
            b.0 < old(self)@.f.blocks.len(),
        ensures
            final(self)@.wf(),
            final(self)@ == (BuildV { current: Some(b), ..old(self)@ }),
    {
        self.current = Some(b);
    }

    fn add_phi_operands(&mut self, local: LocalId, phi: ValueId, b: BlockId)
        requires
            old(self)@.wf(),
            b.0 < old(self)@.f.blocks.len(),
        ensures
            final(self)@.wf(),
            same_frame(old(self)@, final(self)@),
            final(self)@ == old(self)@.complete(b, local, phi),
    {
        let ghost s0 = self@;
        let ty = self.func.ty(phi);
        let ps = copy_blocks(&self.preds[b.index()]);
        assert forall|k: int| 0 <= k < ps@.len() implies (#[trigger] ps@[k]).0 < self@.f.blocks.len() by {
            assert(s0.preds[b.0 as int][k] == ps@[k]);
        }
        let args = self.phi_operands(local, ty, &ps, self.func.blocks.len());
        self.close_phi(b, phi, args);
    }

    /// States that all predecessors of `b` are known.
    pub fn seal_block(&mut self, b: BlockId)
        requires
            old(self)@.wf(),
            b.0 < old(self)@.f.blocks.len(),
        ensures
            final(self)@.wf(),
            final(self)@ == old(self)@.seal(b),
            final(self)@.f.blocks.len() == old(self)@.f.blocks.len(),
            final(self)@.current == old(self)@.current,
    {
        let ghost s0 = self@;
        if self.sealed[b.index()] {
            return;
        }
        self.sealed.set(b.index(), true);
        let mut pending: Vec<(LocalId, ValueId)> = Vec::new();
        std::mem::swap(&mut pending, &mut self.incomplete_phis[b.index()]);
        let ghost s1 = self@;
        proof {
            assert(self@.incomplete[b.0 as int] =~= Seq::empty());
            assert(self@.incomplete =~= s0.incomplete.update(b.0 as int, Seq::empty()));
        }
        let mut i: usize = 0;
        while i < pending.len()
            invariant
                self@.wf(),
                s0.wf(),
                b.0 < s0.f.blocks.len(),
                self@.f.blocks.len() == s0.f.blocks.len(),
                self@.current == s0.current,
                i <= pending@.len(),
                s1.complete_all(b, pending@, 0) == self@.complete_all(b, pending@, i as nat),
            decreases pending@.len() - i,
        {
            let (local, phi) = pending[i];
            self.add_phi_operands(local, phi, b);
            i = i + 1;
        }
    }

    /// Seals every block.
    pub fn seal_all(&mut self)
        requires
            old(self)@.wf(),
        ensures
            final(self)@.wf(),
            final(self)@ == old(self)@.seal_from(0, old(self)@.f.blocks.len()),
            final(self)@.f.blocks.len() == old(self)@.f.blocks.len(),
    {
        let ghost s0 = self@;
        let n = self.func.blocks.len();
        let mut i: usize = 0;
        while i < n
            invariant
                self@.wf(),
                n == s0.f.blocks.len(),
                n <= u32::MAX,
                self@.f.blocks.len() == n,
                i <= n,
                s0.seal_from(0, n as nat) == self@.seal_from(i as nat, n as nat),
            decreases n - i,
        {
            self.seal_block(BlockId(i as u32));
            i = i + 1;
        }
    }

    fn next_id(&self) -> (r: ValueId)
        ensures
            r == self@.next(),
    {
        ValueId(self.func.types.len() as u32)
    }

    /// Why nothing can be added to the current block.
    fn why_closed(&self) -> (r: Option<MirError>)
        requires
            self@.wf(),
        ensures
            match self@.closed() {
                Some(m) => r matches Some(e) && e@ == m,
                None => r is None,
            },
    {
        match self.current {
            None => Some(MirError::msg("no current block")),
            Some(b) => {
                if self.func.blocks[b.index()].term.is_some() {
                    let name = b.name();
                    Some(MirError::Msg(cat2(name.as_str(), " already terminated")))
                } else {
                    None
                }
            },
        }
    }

    fn place(&mut self, ty: MirTy, inst: MirInst) -> (r: Result<ValueId, MirError>)
        requires
            old(self)@.wf(),
        ensures
            final(self)@.wf(),
            final(self)@ == old(self)@.place(ty, inst@).0,
            outcome(r, old(self)@.place(ty, inst@).1),
    {
        let dest = self.fresh(ty);
        if let Some(e) = self.why_closed() {
            return Err(e);
        }
        self.add_inst(inst);
        Ok(dest)
    }

    fn add_inst(&mut self, inst: MirInst)
        requires
            old(self)@.wf(),
            old(self)@.current is Some,
        ensures
            final(self)@.wf(),
            final(self)@ == old(self)@.add(inst@),
    {
        let ghost s0 = self@;
        if let Some(b) = self.current {
            let mut insts = self.take_insts(b);
            let ghost i0 = insts@;
            let ghost v = inst@;
            if inst.is_phi() {
                let p = phi_end_of(&insts);
                insts.insert(p, inst);
                assert(insts_view(insts@) =~= insts_view(i0).insert(p as int, v));
            } else {
                insts.push(inst);
                assert(insts_view(insts@) =~= insts_view(i0).push(v));
            }
            self.put_insts(b, insts);
            assert(self@.f.blocks =~= s0.add(v).f.blocks);
        }
    }

    pub fn ins_const(&mut self, c: MirConst) -> (r: Result<ValueId, MirError>)
        requires
            old(self)@.wf(),
        ensures
            final(self)@.wf(),
            final(self)@ == old(self)@.ins_const(c).0,
            outcome(r, old(self)@.ins_const(c).1),
    {
        let dest = self.next_id();
        self.place(c.ty(), MirInst::Const { dest, c })
    }

    pub fn ins_binop(&mut self, op: MirBinOp, lhs: ValueId, rhs: ValueId) -> (r: Result<ValueId, MirError>)
        requires
            old(self)@.wf(),
        ensures
            final(self)@.wf(),
            final(self)@ == old(self)@.ins_binop(op, lhs, rhs).0,
            outcome(r, old(self)@.ins_binop(op, lhs, rhs).1),
    {
        match bin_result(op, self.resolve_ty(lhs), self.resolve_ty(rhs)) {
            Err(e) => Err(e),
            Ok(ty) => {
                let inst = MirInst::Bin {
                    dest: self.next_id(),
                    op,
                    ty,
                    lhs: self.resolve(lhs),
                    rhs: self.resolve(rhs),
                };
                self.place(ty, inst)
            },
        }
    }

    pub fn ins_cmp(&mut self, op: MirCmpOp, lhs: ValueId, rhs: ValueId) -> (r: Result<ValueId, MirError>)
        requires
            old(self)@.wf(),
        ensures
            final(self)@.wf(),
            final(self)@ == old(self)@.ins_compare(op, lhs, rhs).0,
            outcome(r, old(self)@.ins_compare(op, lhs, rhs).1),
    {
        match compare_operands(op, self.resolve_ty(lhs), self.resolve_ty(rhs)) {
            Err(e) => Err(e),
            Ok(ty) => {
                let inst = MirInst::Cmp {
                    dest: self.next_id(),
                    op,
                    ty,
                    lhs: self.resolve(lhs),
                    rhs: self.resolve(rhs),
                };
                self.place(MirTy::Bool, inst)
            },
        }
    }

    pub fn ins_neg(&mut self, src: ValueId) -> (r: Result<ValueId, MirError>)
        requires
            old(self)@.wf(),
        ensures
            final(self)@.wf(),
            final(self)@ == old(self)@.ins_neg(src).0,
            outcome(r, old(self)@.ins_neg(src).1),
    {
        let t = self.resolve_ty(src);
        if !t.is_int() && !t.is_float() {
            return Err(ty_error("neg on ", t));
        }
        let inst = MirInst::Unary { dest: self.next_id(), op: MirUnaryOp::Neg, src: self.resolve(src) };
        self.place(t, inst)
    }

    /// Truth of a `bool`, an integer or a heap word.
    pub fn ins_not(&mut self, src: ValueId) -> (r: Result<ValueId, MirError>)
        requires
            old(self)@.wf(),
        ensures
            final(self)@.wf(),
            final(self)@ == old(self)@.ins_not(src).0,
            outcome(r, old(self)@.ins_not(src).1),
    {
        let t = self.resolve_ty(src);
        if t != MirTy::Bool && !t.is_int() && !t.is_heap_word() {
            return Err(ty_error("lnot on ", t));
        }
        let inst = MirInst::Unary { dest: self.next_id(), op: MirUnaryOp::Not, src: self.resolve(src) };
        self.place(MirTy::Bool, inst)
    }

    pub fn ins_cast(&mut self, kind: MirCastKind, to: MirTy, src: ValueId) -> (r: Result<ValueId, MirError>)
        requires
            old(self)@.wf(),
        ensures
            final(self)@.wf(),
            final(self)@ == old(self)@.ins_cast(kind, to, src).0,
            outcome(r, old(self)@.ins_cast(kind, to, src).1),
    {
        let from = self.resolve_ty(src);
        let ok = match kind {
            MirCastKind::IntToFloat => from.is_int() && to.is_float(),
            MirCastKind::Sext => from == MirTy::I32 && to == MirTy::I64,
        };
        if !ok {
            return Err(MirError::Msg(cat4("illegal cast ", from.as_str(), " -> ", to.as_str())));
        }
        let inst = MirInst::Cast { dest: self.next_id(), kind, to, src: self.resolve(src) };
        self.place(to, inst)
    }

    pub fn ins_host_invoke(&mut self, native_id: u16, args: Vec<ValueId>) -> (r: Result<ValueId, MirError>)
        requires
            old(self)@.wf(),
        ensures
            final(self)@.wf(),
            final(self)@ == old(self)@.ins_host_invoke(native_id, args@).0,
            outcome(r, old(self)@.ins_host_invoke(native_id, args@).1),
    {
        let spec = if self.allow_effects {
            host_edge_spec(&self.func.hosts, native_id)
        } else {
            host_spec(&self.func.hosts, native_id)
        };
        let spec = match spec {
            Some(h) => h,
            None => {
                let id = dec_str(native_id as u64);
                return Err(MirError::Msg(cat3("host ", id.as_str(), " is not a typed MIR edge")));
            },
        };
        if spec.args.len() != args.len() {
            let want = dec_str(spec.args.len() as u64);
            let have = dec_str(args.len() as u64);
            return Err(
                MirError::Msg(cat6("host ", spec.name, " arity ", want.as_str(), " vs ", have.as_str())),
            );
        }
        let vs = self.resolve_all(&args);
        let mut i: usize = 0;
        while i < vs.len()
            invariant
                self@ == old(self)@,
                self@.wf(),
                spec@.args.len() == args@.len(),
                vs@ == self@.resolve_all(args@),
                (if self@.effects {
                    edge(self@.f.hosts, native_id)
                } else {
                    precise_edge(self@.f.hosts, native_id)
                }) == Some(spec@),
                i <= vs@.len(),
                host_mistyped(self@, vs@, spec@.args, 0) == host_mistyped(self@, vs@, spec@.args, i as nat),
            decreases vs@.len() - i,
        {
            let t = self.resolve_ty(vs[i]);
            if t != spec.args[i] {
                let at = dec_str(i as u64);
                let what = cat5("host ", spec.name, " arg ", at.as_str(), " is ");
                return Err(versus_text(what.as_str(), t, spec.args[i]));
            }
            i = i + 1;
        }
        let inst = MirInst::HostInvoke { dest: self.next_id(), native_id, layout: 0, args: vs };
        self.place(spec.ret, inst)
    }

    pub fn ins_call(&mut self, target: Label, args: Vec<ValueId>, abi: &DenseAbi) -> (r: Result<ValueId, MirError>)
        requires
            old(self)@.wf(),
        ensures
            final(self)@.wf(),
            final(self)@ == old(self)@.ins_call(target, args@, abi@).0,
            outcome(r, old(self)@.ins_call(target, args@, abi@).1),
    {
        if abi.params.len() != args.len() {
            let want = dec_str(abi.params.len() as u64);
            let have = dec_str(args.len() as u64);
            return Err(MirError::Msg(cat4("call arity ", want.as_str(), " vs ", have.as_str())));
        }
        let vs = self.resolve_all(&args);
        if !abi.ret.is_word_lane() {
            return Err(ty_error("call dest is ", abi.ret));
        }
        let mut i: usize = 0;
        while i < vs.len()
            invariant
                self@ == old(self)@,
                self@.wf(),
                abi@.params.len() == args@.len(),
                abi@.ret.specialized(),
                vs@ == self@.resolve_all(args@),
                i <= vs@.len(),
                call_mistyped(self@, vs@, abi@.params, 0) == call_mistyped(self@, vs@, abi@.params, i as nat),
            decreases vs@.len() - i,
        {
            let t = self.resolve_ty(vs[i]);
            let want = abi.params[i];
            if t != want {
                let at = dec_str(i as u64);
                let what = cat3("call arg ", at.as_str(), " is ");
                return Err(versus_text(what.as_str(), t, want));
            }
            if !want.is_word_lane() {
                let at = dec_str(i as u64);
                return Err(MirError::Msg(cat4("call arg ", at.as_str(), " is ", want.as_str())));
            }
            i = i + 1;
        }
        let inst = MirInst::Call { dest: self.next_id(), dest_hi: None, target, args: vs };
        self.place(abi.ret, inst)
    }

    /// Joins values that are carried on the operand stack.
    pub fn ins_stack_phi(&mut self, args: Vec<(BlockId, ValueId)>) -> (r: Result<ValueId, MirError>)
        requires
            old(self)@.wf(),
        ensures
            final(self)@.wf(),
            final(self)@ == old(self)@.ins_stack_phi(args@).0,
            outcome(r, old(self)@.ins_stack_phi(args@).1),
    {
        if args.len() == 0 {
            return Err(MirError::msg("empty stack phi"));
        }
        let ty = self.resolve_ty(args[0].1);
        let ghost vs = args@.map_values(|a: (BlockId, ValueId)| (a.0, self@.resolve(a.1)));
        let mut r: Vec<(BlockId, ValueId)> = Vec::new();
        let mut i: usize = 0;
        while i < args.len()
            invariant
                self@ == old(self)@,
                i <= args@.len(),
                vs == args@.map_values(|a: (BlockId, ValueId)| (a.0, self@.resolve(a.1))),
                r@ == vs.take(i as int),
            decreases args@.len() - i,
        {
            let (b, v) = args[i];
            r.push((b, self.resolve(v)));
            i = i + 1;
            assert(r@ =~= vs.take(i as int));
        }
        assert(r@ =~= vs);
        let inst = MirInst::Phi { dest: self.next_id(), ty, args: sort_args(&r) };
        self.place(ty, inst)
    }

    pub fn ins_match_payload(&mut self, scrutinee: ValueId, index: u32, ty: MirTy) -> (r: Result<ValueId, MirError>)
        requires
            old(self)@.wf(),
        ensures
            final(self)@.wf(),
            final(self)@ == old(self)@.ins_match_payload(scrutinee, index, ty).0,
            outcome(r, old(self)@.ins_match_payload(scrutinee, index, ty).1),
    {
        if index > 0 {
            return Err(MirError::msg("I2 MatchPayload index > 0"));
        }
        if !ty.is_specialized() {
            return Err(ty_error("MatchPayload type ", ty));
        }
        let inst = MirInst::MatchPayload { dest: self.next_id(), scrutinee: self.resolve(scrutinee), index };
        self.place(ty, inst)
    }

    /// Field of an unboxed class. `object` is the value of slot `base + index`.
    pub fn ins_field_load(&mut self, object: ValueId, base: u32, index: u32) -> (r: Result<ValueId, MirError>)
        requires
            old(self)@.wf(),
        ensures
            final(self)@.wf(),
            final(self)@ == old(self)@.ins_field_load(object, base, index).0,
            outcome(r, old(self)@.ins_field_load(object, base, index).1),
    {
        let ty = self.resolve_ty(object);
        if !ty.is_specialized() {
            return Err(ty_error("FieldLoad type ", ty));
        }
        let inst = MirInst::FieldLoad { dest: self.next_id(), object: self.resolve(object), base, index };
        self.place(ty, inst)
    }

    /// Writes slot `base + index` of an unboxed class.
    pub fn ins_field_store(&mut self, src: ValueId, base: u32, index: u32) -> (r: Result<ValueId, MirError>)
        requires
            old(self)@.wf(),
            base + index <= u32::MAX,
        ensures
            final(self)@.wf(),
            final(self)@ == old(self)@.ins_field_store(src, base, index).0,
            outcome(r, old(self)@.ins_field_store(src, base, index).1),
    {
        let ty = self.resolve_ty(src);
        if !ty.is_specialized() {
            return Err(ty_error("FieldStore type ", ty));
        }
        let v = self.resolve(src);
        let dest = self.fresh(ty);
        match self.def_local(LocalId(base + index), v) {
            Ok(_) => {},
            Err(e) => {
                return Err(e);
            },
        }
        if let Some(e) = self.why_closed() {
            return Err(e);
        }
        self.add_inst(MirInst::FieldStore { dest, src: v, base, index });
        Ok(dest)
    }

    pub fn ins_index(&mut self, array: ValueId, index: ValueId, dest_ty: MirTy, unchecked: bool) -> (r: Result<ValueId, MirError>)
        requires
            old(self)@.wf(),
        ensures
            final(self)@.wf(),
            final(self)@ == old(self)@.ins_index(array, index, dest_ty, unchecked).0,
            outcome(r, old(self)@.ins_index(array, index, dest_ty, unchecked).1),
    {
        let at = self.resolve_ty(array);
        if !is_indexable(at) {
            return Err(ty_error("Index array is ", at));
        }
        let it = self.resolve_ty(index);
        if !it.is_int() {
            return Err(ty_error("Index index is ", it));
        }
        if !dest_ty.is_word_lane() {
            return Err(ty_error("Index dest is ", dest_ty));
        }
        let inst = MirInst::Index {
            dest: self.next_id(),
            array: self.resolve(array),
            index: self.resolve(index),
            unchecked,
        };
        self.place(dest_ty, inst)
    }

    /// Array store. The result is the stored value.
    pub fn ins_store_index(&mut self, array: ValueId, index: ValueId, value: ValueId, unchecked: bool) -> (r: Result<ValueId, MirError>)
        requires
            old(self)@.wf(),
        ensures
            final(self)@.wf(),
            final(self)@ == old(self)@.ins_store_index(array, index, value, unchecked).0,
            outcome(r, old(self)@.ins_store_index(array, index, value, unchecked).1),
    {
        let at = self.resolve_ty(array);
        if !is_indexable(at) {
            return Err(ty_error("StoreIndex array is ", at));
        }
        let it = self.resolve_ty(index);
        if !it.is_int() {
            return Err(ty_error("StoreIndex index is ", it));
        }
        let vt = self.resolve_ty(value);
        if !vt.is_word_lane() {
            return Err(ty_error("StoreIndex value is ", vt));
        }
        let inst = MirInst::StoreIndex {
            dest: self.next_id(),
            array: self.resolve(array),
            index: self.resolve(index),
            value: self.resolve(value),
            unchecked,
        };
        self.place(vt, inst)
    }

    pub fn ins_array_len(&mut self, array: ValueId) -> (r: Result<ValueId, MirError>)
        requires
            old(self)@.wf(),
        ensures
            final(self)@.wf(),
            final(self)@ == old(self)@.ins_array_len(array).0,
            outcome(r, old(self)@.ins_array_len(array).1),
    {
        let at = self.resolve_ty(array);
        if !is_indexable(at) {
            return Err(ty_error("ArrayLen array is ", at));
        }
        let inst = MirInst::ArrayLen { dest: self.next_id(), array: self.resolve(array) };
        self.place(MirTy::I64, inst)
    }

    fn snapshot_slots(&mut self, at: ValueId)
        requires
            old(self)@.wf(),
            old(self)@.current is Some,
        ensures
            final(self)@.wf(),
            final(self)@ == old(self)@.snapshot(at),
    {
        let ghost s0 = self@;
        let b = match self.current {
            Some(b) => b,
            None => {
                return;
            },
        };
        let m = &self.current_def[b.index()];
        let ks = m.keys();
        m.check_order();
        proof {
            m.pairs_are_the_entries();
        }
        let mut env: Vec<(LocalId, ValueId)> = Vec::new();
        let mut i: usize = 0;
        while i < ks.len()
            invariant
                self@ == s0,
                s0.wf(),
                s0.current == Some(b),
                m@ == s0.defs[b.0 as int],
                ks@ == ascending_ids(m@.dom()),
                ks@.len() == m.pairs().len(),
                forall|j: int| 0 <= j < ks@.len() ==> #[trigger] ks@[j] == m.pairs()[j].0,
                i <= ks@.len(),
                env@ == s0.env().take(i as int),
            decreases ks@.len() - i,
        {
            let (l, v) = m.entry_at(i);
            env.push((LocalId(l), self.resolve(*v)));
            assert(ks@[i as int] == l);
            i = i + 1;
            assert(env@ =~= s0.env().take(i as int));
        }
        assert(env@ =~= s0.env());
        self.func.slot_env.insert(at.0, env);
        assert(self@.f.slot_env =~= s0.f.slot_env.insert(at.0, s0.env()));
    }

    fn place_edge(&mut self, inst: MirInst) -> (r: Result<ValueId, MirError>)
        requires
            old(self)@.wf(),
        ensures
            final(self)@.wf(),
            final(self)@ == old(self)@.place_edge(MirTy::HeapRef, inst@).0,
            outcome(r, old(self)@.place_edge(MirTy::HeapRef, inst@).1),
    {
        match self.place(MirTy::HeapRef, inst) {
            Ok(v) => {
                self.snapshot_slots(v);
                Ok(v)
            },
            Err(e) => Err(e),
        }
    }

    /// Heap allocation. The collector edge is added by [`Self::ins_gc_barrier`].
    pub fn ins_alloc(&mut self, kind: MirAllocKind, elems: Vec<ValueId>) -> (r: Result<ValueId, MirError>)
        requires
            old(self)@.wf(),
        ensures
            final(self)@.wf(),
            final(self)@ == old(self)@.ins_alloc(kind, elems@).0,
            outcome(r, old(self)@.ins_alloc(kind, elems@).1),
    {
        let vs = self.resolve_all(&elems);
        let mut i: usize = 0;
        while i < vs.len()
            invariant
                self@ == old(self)@,
                self@.wf(),
                vs@ == self@.resolve_all(elems@),
                i <= vs@.len(),
                first_unspecialized(self@, vs@, 0) == first_unspecialized(self@, vs@, i as nat),
            decreases vs@.len() - i,
        {
            let t = self.resolve_ty(vs[i]);
            if !t.is_specialized() {
                let at = dec_str(i as u64);
                return Err(MirError::Msg(cat4("Alloc elem ", at.as_str(), " is ", t.as_str())));
            }
            i = i + 1;
        }
        let inst = MirInst::Alloc { dest: self.next_id(), kind, elems: vs };
        self.place_edge(inst)
    }

    /// Collector edge. `roots` is replaced by the live heap words on finishing.
    pub fn ins_gc_barrier(&mut self, kind: MirGcKind, roots: Vec<ValueId>) -> (r: Result<ValueId, MirError>)
        requires
            old(self)@.wf(),
        ensures
            final(self)@.wf(),
            final(self)@ == old(self)@.ins_gc_barrier(kind, roots@).0,
            outcome(r, old(self)@.ins_gc_barrier(kind, roots@).1),
    {
        let vs = self.resolve_all(&roots);
        let mut i: usize = 0;
        while i < vs.len()
            invariant
                self@ == old(self)@,
                self@.wf(),
                vs@ == self@.resolve_all(roots@),
                i <= vs@.len(),
                first_non_word(self@, vs@, 0) == first_non_word(self@, vs@, i as nat),
            decreases vs@.len() - i,
        {
            let t = self.resolve_ty(vs[i]);
            if !t.is_heap_word() {
                let at = dec_str(i as u64);
                return Err(MirError::Msg(cat4("GcBarrier root ", at.as_str(), " is ", t.as_str())));
            }
            i = i + 1;
        }
        let inst = MirInst::GcBarrier { dest: self.next_id(), kind, roots: vs };
        self.place_edge(inst)
    }

    /// Debugger stop or deoptimisation point.
    pub fn ins_deopt(&mut self, kind: MirDeoptKind, loc: DebugLoc) -> (r: Result<ValueId, MirError>)
        requires
            old(self)@.wf(),
        ensures
            final(self)@.wf(),
            final(self)@ == old(self)@.ins_deopt(kind, loc).0,
            outcome(r, old(self)@.ins_deopt(kind, loc).1),
    {
        let dest = self.next_id();
        self.place(MirTy::Bool, MirInst::Deopt { dest, kind, loc })
    }

    /// Interned string.
    pub fn ins_string(&mut self, idx: u32) -> (r: Result<ValueId, MirError>)
        requires
            old(self)@.wf(),
        ensures
            final(self)@.wf(),
            final(self)@ == old(self)@.ins_string(idx).0,
            outcome(r, old(self)@.ins_string(idx).1),
    {
        let dest = self.next_id();
        self.place(MirTy::HeapRef, MirInst::String { dest, idx })
    }

    /// Store to a field of a heap object, by interned name or by index.
    pub fn ins_heap_field_store(&mut self, object: ValueId, value: ValueId, name: Option<ValueId>, index: Option<u32>) -> (r: Result<ValueId, MirError>)
        requires
            old(self)@.wf(),
        ensures
            final(self)@.wf(),
            final(self)@ == old(self)@.ins_heap_field_store(object, value, name, index).0,
            outcome(r, old(self)@.ins_heap_field_store(object, value, name, index).1),
    {
        let ot = self.resolve_ty(object);
        if !is_indexable(ot) {
            return Err(ty_error("HeapFieldStore object is ", ot));
        }
        let vt = self.resolve_ty(value);
        if !vt.is_specialized() {
            return Err(ty_error("HeapFieldStore value is ", vt));
        }
        let name = match name {
            Some(x) => Some(self.resolve(x)),
            None => None,
        };
        let inst = MirInst::HeapFieldStore {
            dest: self.next_id(),
            object: self.resolve(object),
            value: self.resolve(value),
            name,
            index,
        };
        self.place(vt, inst)
    }

    /// Appends to an array, which may grow it. The result is the array.
    pub fn ins_array_push(&mut self, array: ValueId, value: ValueId) -> (r: Result<ValueId, MirError>)
        requires
            old(self)@.wf(),
        ensures
            final(self)@.wf(),
            final(self)@ == old(self)@.ins_array_push(array, value).0,
            outcome(r, old(self)@.ins_array_push(array, value).1),
    {
        let at = self.resolve_ty(array);
        if !is_indexable(at) {
            return Err(ty_error("ArrayPush array is ", at));
        }
        let vt = self.resolve_ty(value);
        if !vt.is_specialized() {
            return Err(ty_error("ArrayPush value is ", vt));
        }
        let inst = MirInst::ArrayPush {
            dest: self.next_id(),
            array: self.resolve(array),
            value: self.resolve(value),
        };
        self.place_edge(inst)
    }

    pub fn ins_print(&mut self, src: ValueId) -> (r: Result<ValueId, MirError>)
        requires
            old(self)@.wf(),
        ensures
            final(self)@.wf(),
            final(self)@ == old(self)@.ins_print(src).0,
            outcome(r, old(self)@.ins_print(src).1),
    {
        let t = self.resolve_ty(src);
        if !t.is_specialized() {
            return Err(ty_error("Print operand is ", t));
        }
        let inst = MirInst::Print { dest: self.next_id(), src: self.resolve(src) };
        self.place(MirTy::Bool, inst)
    }

    pub fn ins_format(&mut self, fmt: ValueId, args: Vec<ValueId>) -> (r: Result<ValueId, MirError>)
        requires
            old(self)@.wf(),
        ensures
            final(self)@.wf(),
            final(self)@ == old(self)@.ins_format(fmt, args@).0,
            outcome(r, old(self)@.ins_format(fmt, args@).1),
    {
        let vs = self.resolve_all(&args);
        let mut i: usize = 0;
        while i < vs.len()
            invariant
                self@ == old(self)@,
                self@.wf(),
                vs@ == self@.resolve_all(args@),
                i <= vs@.len(),
                first_unspecialized(self@, vs@, 0) == first_unspecialized(self@, vs@, i as nat),
            decreases vs@.len() - i,
        {
            let t = self.resolve_ty(vs[i]);
            if !t.is_specialized() {
                let at = dec_str(i as u64);
                return Err(MirError::Msg(cat4("Format arg ", at.as_str(), " is ", t.as_str())));
            }
            i = i + 1;
        }
        let inst = MirInst::Format { dest: self.next_id(), fmt: self.resolve(fmt), args: vs };
        self.place_edge(inst)
    }

    pub fn ins_stringify(&mut self, src: ValueId) -> (r: Result<ValueId, MirError>)
        requires
            old(self)@.wf(),
        ensures
            final(self)@.wf(),
            final(self)@ == old(self)@.ins_stringify(src).0,
            outcome(r, old(self)@.ins_stringify(src).1),
    {
        let t = self.resolve_ty(src);
        if !t.is_specialized() {
            return Err(ty_error("Stringify operand is ", t));
        }
        let inst = MirInst::Stringify { dest: self.next_id(), src: self.resolve(src) };
        self.place_edge(inst)
    }

    /// Field of a heap object, by interned name or by index.
    pub fn ins_heap_field_load(&mut self, object: ValueId, name: Option<ValueId>, index: u32, ty: MirTy) -> (r: Result<ValueId, MirError>)
        requires
            old(self)@.wf(),
        ensures
            final(self)@.wf(),
            final(self)@ == old(self)@.ins_heap_field_load(object, name, index, ty).0,
            outcome(r, old(self)@.ins_heap_field_load(object, name, index, ty).1),
    {
        let ot = self.resolve_ty(object);
        if !is_indexable(ot) {
            return Err(ty_error("HeapFieldLoad object is ", ot));
        }
        if !ty.is_specialized() {
            return Err(ty_error("HeapFieldLoad type ", ty));
        }
        let name = match name {
            Some(x) => Some(self.resolve(x)),
            None => None,
        };
        let inst = MirInst::HeapFieldLoad {
            dest: self.next_id(),
            object: self.resolve(object),
            name,
            index,
        };
        self.place(ty, inst)
    }

    fn set_term(&mut self, term: Terminator) -> (r: Result<(), MirError>)
        requires
            old(self)@.wf(),
        ensures
            final(self)@.wf(),
            final(self)@ == old(self)@.set_term(term@).0,
            ended(r, old(self)@.set_term(term@).1),
    {
        let ghost s0 = self@;
        if let Some(e) = self.why_closed() {
            return Err(e);
        }
        if let Some(b) = self.current {
            let mut t = Some(term);
            std::mem::swap(&mut t, &mut self.func.blocks[b.index()].term);
            assert(self@.f.blocks =~= s0.set_term(term@).0.f.blocks);
        }
        Ok(())
    }

    fn add_edge(&mut self, src: BlockId, dest: BlockId)
        requires
            old(self)@.wf(),
            old(self)@.current == Some(src),
            dest.0 < old(self)@.f.blocks.len(),
        ensures
            final(self)@.wf(),
            final(self)@ == old(self)@.add_edge(dest),
    {
        let ghost s0 = self@;
        let mut ps: Vec<BlockId> = Vec::new();
        std::mem::swap(&mut ps, &mut self.preds[dest.index()]);
        if !has_block(&ps, src) {
            ps.push(src);
        }
        self.preds.set(dest.index(), ps);
        proof {
            let t = s0.add_edge(dest);
            assert(self@.preds =~= t.preds);
            assert forall|b: int, k: int|
                0 <= b < self@.preds.len() && 0 <= k < self@.preds[b].len() implies (#[trigger] self@.preds[b][k]).0
                < self@.f.blocks.len() by {
                assert(self@.preds[b] == t.preds[b]);
                if b == dest.0 && k >= s0.preds[b].len() {
                } else {
                    assert(s0.preds[b][k].0 < s0.f.blocks.len());
                }
            }
        }
    }

    pub fn jump(&mut self, dest: BlockId) -> (r: Result<(), MirError>)
        requires
            old(self)@.wf(),
            dest.0 < old(self)@.f.blocks.len(),
        ensures
            final(self)@.wf(),
            final(self)@ == old(self)@.jump(dest).0,
            ended(r, old(self)@.jump(dest).1),
    {
        match self.cur() {
            Ok(src) => {
                self.add_edge(src, dest);
                self.set_term(Terminator::Jump { dest })
            },
            Err(e) => Err(e),
        }
    }

    pub fn branch(&mut self, cond: ValueId, taken: BlockId, not_taken: BlockId) -> (r: Result<(), MirError>)
        requires
            old(self)@.wf(),
            taken.0 < old(self)@.f.blocks.len(),
            not_taken.0 < old(self)@.f.blocks.len(),
        ensures
            final(self)@.wf(),
            final(self)@ == old(self)@.branch(cond, taken, not_taken).0,
            ended(r, old(self)@.branch(cond, taken, not_taken).1),
    {
        if self.resolve_ty(cond) != MirTy::Bool {
            return Err(MirError::msg("branch cond must be bool"));
        }
        match self.cur() {
            Ok(src) => {
                let cond = self.resolve(cond);
                self.add_edge(src, taken);
                self.add_edge(src, not_taken);
                self.set_term(Terminator::Br { cond, taken, not_taken })
            },
            Err(e) => Err(e),
        }
    }

    pub fn jump_if_match(&mut self, scrutinee: ValueId, tag: u32, payloads: Vec<ValueId>, taken: BlockId, not_taken: BlockId) -> (r: Result<(), MirError>)
        requires
            old(self)@.wf(),
            taken.0 < old(self)@.f.blocks.len(),
            not_taken.0 < old(self)@.f.blocks.len(),
        ensures
            final(self)@.wf(),
            final(self)@ == old(self)@.jump_if_match(scrutinee, tag, payloads@, taken, not_taken).0,
            ended(r, old(self)@.jump_if_match(scrutinee, tag, payloads@, taken, not_taken).1),
    {
        if payloads.len() > 1 {
            return Err(MirError::msg("I2 JumpIfMatch arity > 1"));
        }
        let st = self.resolve_ty(scrutinee);
        if !st.is_specialized() {
            return Err(ty_error("JumpIfMatch scrutinee is ", st));
        }
        match self.cur() {
            Ok(src) => {
                let scrutinee = self.resolve(scrutinee);
                let payloads = self.resolve_all(&payloads);
                self.add_edge(src, taken);
                self.add_edge(src, not_taken);
                self.set_term(Terminator::JumpIfMatch { scrutinee, tag, payloads, taken, not_taken })
            },
            Err(e) => Err(e),
        }
    }

    pub fn ret(&mut self, value: Option<ValueId>) -> (r: Result<(), MirError>)
        requires
            old(self)@.wf(),
        ensures
            final(self)@.wf(),
            final(self)@ == old(self)@.ret(value).0,
            ended(r, old(self)@.ret(value).1),
    {
        match value {
            None => self.set_term(Terminator::Return { lo: None, hi: None }),
            Some(x) => {
                let v = self.resolve(x);
                let ty = match self.func.ret_ty {
                    Some(t) => t,
                    None => self.resolve_ty(v),
                };
                self.func.ret_ty = Some(ty);
                if ty.is_heap_word() {
                    self.func.ret_layout = ty.layout();
                }
                self.set_term(Terminator::Return { lo: Some(v), hi: None })
            },
        }
    }

    pub fn ret_pair(&mut self, lo: ValueId, hi: ValueId) -> (r: Result<(), MirError>)
        requires
            old(self)@.wf(),
        ensures
            final(self)@.wf(),
            final(self)@ == old(self)@.ret_pair(lo, hi).0,
            ended(r, old(self)@.ret_pair(lo, hi).1),
    {
        let lo = self.resolve(lo);
        let hi = self.resolve(hi);
        let lt = match self.func.ret_ty {
            Some(t) => t,
            None => self.resolve_ty(lo),
        };
        let ht = match self.func.ret_hi_ty {
            Some(t) => t,
            None => self.resolve_ty(hi),
        };
        self.func.ret_ty = Some(lt);
        self.func.ret_hi_ty = Some(ht);
        self.func.ret_layout = MirLayout::TwoSlot;
        self.set_term(Terminator::Return { lo: Some(lo), hi: Some(hi) })
    }

    pub fn unreachable(&mut self) -> (r: Result<(), MirError>)
        requires
            old(self)@.wf(),
        ensures
            final(self)@.wf(),
            final(self)@ == old(self)@.set_term(TermV::Unreachable).0,
            ended(r, old(self)@.set_term(TermV::Unreachable).1),
    {
        self.set_term(Terminator::Unreachable)
    }

    fn flat_subst(&self) -> (r: IdMap<ValueId>)
        ensures
            r@ == self@.flat(),
    {
        let ks = self.subst.keys();
        proof {
            listing_holds_the_members(self@.subst.dom());
        }
        let mut m: IdMap<ValueId> = IdMap::new();
        let mut i: usize = 0;
        while i < ks.len()
            invariant
                ks@ == ascending_ids(self@.subst.dom()),
                forall|x: u32| self@.subst.dom().contains(x) <==> #[trigger] ks@.contains(x),
                i <= ks@.len(),
                forall|x: u32| m@.dom().contains(x) <==> #[trigger] ks@.take(i as int).contains(x),
                forall|x: u32| #[trigger] m@.dom().contains(x) ==> m@[x] == self@.resolve(ValueId(x)),
            decreases ks@.len() - i,
        {
            let k = ks[i];
            m.insert(k, self.resolve(ValueId(k)));
            proof {
                let p = ks@.take(i as int);
                let q = ks@.take(i + 1);
                assert forall|x: u32| m@.dom().contains(x) <==> #[trigger] q.contains(x) by {
                    if p.contains(x) {
                        assert(q[p.index_of(x)] == x);
                    }
                    if q.contains(x) && x != k {
                        assert(p[q.index_of(x)] == x);
                    }
                    assert(q[i as int] == k);
                }
            }
            i = i + 1;
        }
        assert(ks@.take(i as int) =~= ks@);
        assert forall|x: u32| m@.dom().contains(x) == self@.flat().dom().contains(x) by {
            assert(ks@.take(i as int).contains(x) == ks@.contains(x));
        }
        assert(m@ =~= self@.flat());
        m
    }

    fn rewrite_subst(&mut self)
        ensures
            final(self)@ == (BuildV { f: old(self)@.replaced(), ..old(self)@ }),
    {
        let ghost s0 = self@;
        let m = self.flat_subst();
        let mut blocks: Vec<MirBlock> = Vec::new();
        std::mem::swap(&mut blocks, &mut self.func.blocks);
        let ghost b0 = blocks@;
        let mut b: usize = 0;
        while b < blocks.len()
            invariant
                b <= blocks@.len(),
                blocks@.len() == b0.len(),
                forall|x: int| 0 <= x < b ==> (#[trigger] blocks@[x])@ == block_renamed(b0[x]@, m@),
                forall|x: int| b <= x < b0.len() ==> #[trigger] blocks@[x] == b0[x],
            decreases blocks@.len() - b,
        {
            let mut insts: Vec<MirInst> = Vec::new();
            std::mem::swap(&mut insts, &mut blocks[b].insts);
            let ghost i0 = insts@;
            let mut i: usize = 0;
            while i < insts.len()
                invariant
                    i <= insts@.len(),
                    insts@.len() == i0.len(),
                    forall|x: int| 0 <= x < i ==> (#[trigger] insts@[x])@ == i0[x]@.renamed(m@),
                    forall|x: int| i <= x < i0.len() ==> #[trigger] insts@[x] == i0[x],
                decreases insts@.len() - i,
            {
                insts[i].rewrite_values(&m);
                i = i + 1;
            }
            assert(insts_view(insts@) =~= insts_view(i0).map_values(|i: InstV| i.renamed(m@)));
            let mut term: Option<Terminator> = None;
            std::mem::swap(&mut term, &mut blocks[b].term);
            let term = match term {
                Some(t) => {
                    let mut t = t;
                    t.rewrite_values(&m);
                    Some(t)
                },
                None => None,
            };
            let id = blocks[b].id;
            blocks.set(b, MirBlock { id, insts, term });
            assert(blocks@[b as int]@ =~= block_renamed(b0[b as int]@, m@));
            b = b + 1;
        }
        self.func.blocks = blocks;
        let mut i: usize = 0;
        let ghost p0 = self.func.params@;
        while i < self.func.params.len()
            invariant
                i <= self.func.params@.len(),
                p0 == s0.f.params,
                self.func.params@.len() == p0.len(),
                forall|x: int| 0 <= x < i ==> #[trigger] self.func.params@[x] == map_value(m@, p0[x]),
                forall|x: int| i <= x < p0.len() ==> #[trigger] self.func.params@[x] == p0[x],
                self@ == (BuildV {
                    f: FuncV { blocks: blocks_view(self.func.blocks@), params: self.func.params@, ..s0.f },
                    ..s0
                }),
                self.func.blocks@.len() == b0.len(),
                forall|x: int|
                    0 <= x < b0.len() ==> (#[trigger] self.func.blocks@[x])@ == block_renamed(b0[x]@, m@),
            decreases self.func.params@.len() - i,
        {
            let v = self.func.params[i];
            let w = match m.get(&v.0) {
                Some(w) => *w,
                None => v,
            };
            self.func.params.set(i, w);
            i = i + 1;
        }
        assert(self@.f.params =~= s0.replaced().params);
        assert(self@.f.blocks =~= s0.replaced().blocks);
    }

    /// Seals the blocks, replaces removed phis, fills collector edges and
    /// checks the function.
    pub fn finish(self) -> (r: Result<MirFunc, MirError>)
        requires
            self@.wf(),
        ensures
            match self@.finished().fault() {
                Some(m) if !self@.skip => r matches Err(e) && e@ == m,
                _ => r matches Ok(f) && f@ == self@.finished(),
            },
    {
        let skip_verify = self.skip_verify;
        let mut b = self;
        b.seal_all();
        b.rewrite_subst();
        let mut func = b.func;
        if func.has_gc_edge() {
            fill_live_roots(&mut func);
        }
        if !skip_verify {
            match func.verify() {
                Ok(_) => {},
                Err(m) => {
                    return Err(MirError::Msg(m));
                },
            }
        }
        Ok(func)
    }
}

fn has_block(s: &Vec<BlockId>, b: BlockId) -> (r: bool)
    ensures
        r == s@.contains(b),
{
    let mut i: usize = 0;
    while i < s.len()
        invariant
            i <= s@.len(),
            forall|k: int| 0 <= k < i ==> s@[k] != b,
        decreases s@.len() - i,
    {
        if s[i] == b {
            return true;
        }
        i = i + 1;
    }
    false
}

} // verus!

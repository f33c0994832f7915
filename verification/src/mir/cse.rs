//! Sharing of equal computations: inside a block, from a block to those it dominates, and from
//! both sides of a fork to the fork.
//!
//! Divisions take part. An integer division is not moved to a fork: it may trap where neither
//! side was to run.
use super::count::{any, gives, pruning_counts, removing_counts, renaming_keeps_count, size};
use super::dom::{dominates, dominators, is_dominance};
use super::func::{insts_view, BlockV, FuncV, MirFunc};
use super::inst::{
    BlockId, InstV, MirBinOp, MirCastKind, MirCmpOp, MirConst, MirInst, MirUnaryOp, ValueId,
};
use super::rewrite::{
    dce, has_inst, map_in_range, pruned, pruning_keeps_index, remove_renamed, removed, removing_keeps_index,
    rename_all, renamed, renaming_keeps_index,
};
use super::ty::MirTy;
use super::valid::{
    before, block_end_defines, block_valid, defined_at, defined_before, defined_is_in_range,
    earlier_is_before, inst_valid,
    pruning_keeps_validity, renaming_keeps_types, replaced_at, replaces_earlier,
    replacing_earlier_is_in_order, same_types,
    substituting_keeps_validity, valid, values_are_defined_once, verification_finds_the_valid_functions,
};
use crate::idmap::IdMap;
use crate::ids::{ascending_ids, listing_holds_the_members};
use vstd::prelude::*;

verus! {

/// What an instruction computes, up to the order of operands that may be swapped.
#[derive(Clone, Copy, Debug, PartialEq, Eq, Structural)]
#[allow(inconsistent_fields)]
pub enum ExprKey {
    Const(MirConst),
    Bin { op: MirBinOp, ty: MirTy, a: ValueId, b: ValueId },
    Cmp { op: MirCmpOp, ty: MirTy, a: ValueId, b: ValueId },
    Unary { op: MirUnaryOp, src: ValueId },
    Cast { kind: MirCastKind, to: MirTy, src: ValueId },
}

/// Whether the operands may be swapped.
pub open spec fn swaps(op: MirBinOp) -> bool {
    match op {
        MirBinOp::Add | MirBinOp::Mul | MirBinOp::BitAnd | MirBinOp::BitOr | MirBinOp::Xor => true,
        _ => false,
    }
}

/// Whether the operands of a compare may be swapped.
pub open spec fn swaps_compared(op: MirCmpOp) -> bool {
    match op {
        MirCmpOp::Eq | MirCmpOp::Ne => true,
        _ => false,
    }
}

/// What an instruction computes, if that depends on its operands alone.
pub open spec fn key_of(inst: InstV) -> Option<ExprKey> {
    match inst {
        InstV::Const { c, .. } => Some(ExprKey::Const(c)),
        InstV::Bin { op, ty, lhs, rhs, .. } => if swaps(op) && rhs.0 < lhs.0 {
            Some(ExprKey::Bin { op, ty, a: rhs, b: lhs })
        } else {
            Some(ExprKey::Bin { op, ty, a: lhs, b: rhs })
        },
        InstV::Cmp { op, ty, lhs, rhs, .. } => if swaps_compared(op) && rhs.0 < lhs.0 {
            Some(ExprKey::Cmp { op, ty, a: rhs, b: lhs })
        } else {
            Some(ExprKey::Cmp { op, ty, a: lhs, b: rhs })
        },
        InstV::Unary { op, src, .. } => Some(ExprKey::Unary { op, src }),
        InstV::Cast { kind, to, src, .. } => Some(ExprKey::Cast { kind, to, src }),
        _ => None,
    }
}

fn commutes(op: MirBinOp) -> (r: bool)
    ensures
        r == swaps(op),
{
    match op {
        MirBinOp::Add | MirBinOp::Mul | MirBinOp::BitAnd | MirBinOp::BitOr | MirBinOp::Xor => true,
        _ => false,
    }
}

fn compare_commutes(op: MirCmpOp) -> (r: bool)
    ensures
        r == swaps_compared(op),
{
    match op {
        MirCmpOp::Eq | MirCmpOp::Ne => true,
        _ => false,
    }
}

/// What an instruction computes, if that depends on its operands alone.
pub fn expr_key(inst: &MirInst) -> (r: Option<ExprKey>)
    ensures
        r == key_of(inst@),
{
    match inst {
        MirInst::Const { c, .. } => Some(ExprKey::Const(*c)),
        MirInst::Bin { op, ty, lhs, rhs, .. } => if commutes(*op) && rhs.0 < lhs.0 {
            Some(ExprKey::Bin { op: *op, ty: *ty, a: *rhs, b: *lhs })
        } else {
            Some(ExprKey::Bin { op: *op, ty: *ty, a: *lhs, b: *rhs })
        },
        MirInst::Cmp { op, ty, lhs, rhs, .. } => if compare_commutes(*op) && rhs.0 < lhs.0 {
            Some(ExprKey::Cmp { op: *op, ty: *ty, a: *rhs, b: *lhs })
        } else {
            Some(ExprKey::Cmp { op: *op, ty: *ty, a: *lhs, b: *rhs })
        },
        MirInst::Unary { op, src, .. } => Some(ExprKey::Unary { op: *op, src: *src }),
        MirInst::Cast { kind, to, src, .. } => Some(
            ExprKey::Cast { kind: *kind, to: *to, src: *src },
        ),
        _ => None,
    }
}

/// The value that holds `key`, by the last of the first `n` entries.
pub open spec fn held(avail: Seq<(ExprKey, ValueId)>, key: ExprKey, n: int) -> Option<ValueId>
    decreases n,
{
    if n <= 0 {
        None
    } else if avail[n - 1].0 == key {
        Some(avail[n - 1].1)
    } else {
        held(avail, key, n - 1)
    }
}

fn find_held(avail: &Vec<(ExprKey, ValueId)>, key: ExprKey) -> (r: Option<ValueId>)
    ensures
        r == held(avail@, key, avail@.len() as int),
{
    let mut n: usize = avail.len();
    while n > 0
        invariant
            n <= avail@.len(),
            held(avail@, key, avail@.len() as int) == held(avail@, key, n as int),
        decreases n,
    {
        if avail[n - 1].0 == key {
            return Some(avail[n - 1].1);
        }
        n -= 1;
    }
    None
}

/// Substitutions so far, and the values that hold computations.
#[verifier::ext_equal]
pub ghost struct NumberV {
    pub subst: Map<u32, ValueId>,
    pub avail: Seq<(ExprKey, ValueId)>,
}

impl NumberV {
    /// After an instruction. What a value holds already is substituted by it. With `home`, a
    /// constant from another block is not: it is cheap, and `home` says where each value lives.
    pub open spec fn seen(self, inst: InstV, home: Option<(FuncV, BlockId)>) -> NumberV {
        let here = inst.renamed(self.subst);
        if here.phi() {
            self
        } else {
            match key_of(here) {
                Some(key) => match held(self.avail, key, self.avail.len() as int) {
                    Some(prev) => if key is Const && foreign(home, prev) {
                        NumberV { avail: self.avail.push((key, inst.dest())), ..self }
                    } else {
                        NumberV { subst: self.subst.insert(inst.dest().0, prev), ..self }
                    },
                    None => NumberV { avail: self.avail.push((key, inst.dest())), ..self },
                },
                None => self,
            }
        }
    }

    /// After the instructions from `i` on.
    pub open spec fn seen_from(self, insts: Seq<InstV>, home: Option<(FuncV, BlockId)>, i: int) -> NumberV
        decreases insts.len() - i,
    {
        if i >= insts.len() {
            self
        } else {
            self.seen(insts[i], home).seen_from(insts, home, i + 1)
        }
    }

    /// Whether every value in it exists in `f`.
    pub open spec fn in_range(self, f: FuncV) -> bool {
        &&& map_in_range(f, self.subst)
        &&& forall|i: int| 0 <= i < self.avail.len() ==> (#[trigger] self.avail[i]).1.0 < f.types.len()
    }
}

/// Whether `v` lives in another block.
pub open spec fn foreign(home: Option<(FuncV, BlockId)>, v: ValueId) -> bool {
    match home {
        Some(p) => p.0.home(v) != Some(p.1),
        None => false,
    }
}

/// The block that `v` lives in.
pub(crate) fn find_home(func: &MirFunc, v: ValueId) -> (r: Option<BlockId>)
    requires
        func@.indexed(),
    ensures
        r == func@.home(v),
{
    match func.def_of(v) {
        Some(p) => Some(p.0),
        None => if func.is_param(v.index()) {
            Some(func.entry)
        } else {
            None
        },
    }
}

/// What is held is one of the values that are available.
pub proof fn held_in_range(avail: Seq<(ExprKey, ValueId)>, key: ExprKey, n: int, f: FuncV)
    requires
        n <= avail.len(),
        forall|i: int| 0 <= i < avail.len() ==> (#[trigger] avail[i]).1.0 < f.types.len(),
    ensures
        held(avail, key, n) matches Some(v) ==> v.0 < f.types.len(),
    decreases n,
{
    if n > 0 {
        held_in_range(avail, key, n - 1, f);
    }
}

/// Numbers the instructions of a block.
fn number_block(
    func: &MirFunc,
    b: usize,
    subst: &mut IdMap<ValueId>,
    avail: &mut Vec<(ExprKey, ValueId)>,
    keep_consts: bool,
)
    requires
        func@.indexed(),
        b < func@.blocks.len(),
        (NumberV { subst: old(subst)@, avail: old(avail)@ }).in_range(func@),
    ensures
        (NumberV { subst: final(subst)@, avail: final(avail)@ }) == (NumberV {
            subst: old(subst)@,
            avail: old(avail)@,
        }).seen_from(
            func@.blocks[b as int].insts,
            if keep_consts {
                Some((func@, BlockId(b as u32)))
            } else {
                None
            },
            0,
        ),
        (NumberV { subst: final(subst)@, avail: final(avail)@ }).in_range(func@),
{
    let ghost f = func@;
    let ghost home: Option<(FuncV, BlockId)> = if keep_consts {
        Some((f, BlockId(b as u32)))
    } else {
        None
    };
    let block = &func.blocks[b];
    assert(f.blocks[b as int] == block@);
    assert(f.block_indexed(f.blocks[b as int], b as int));
    let ghost iv = block@.insts;
    let ghost start = NumberV { subst: subst@, avail: avail@ };
    let mut i: usize = 0;
    while i < block.insts.len()
        invariant
            i <= block.insts@.len(),
            f == func@,
            f.indexed(),
            b < f.blocks.len(),
            f.blocks.len() <= u32::MAX,
            iv == block@.insts,
            forall|k: int| 0 <= k < iv.len() ==> f.inst_indexed(#[trigger] iv[k]),
            home == (if keep_consts {
                Some((f, BlockId(b as u32)))
            } else {
                None
            }),
            (NumberV { subst: subst@, avail: avail@ }).in_range(f),
            start.seen_from(iv, home, 0) == (NumberV { subst: subst@, avail: avail@ }).seen_from(
                iv,
                home,
                i as int,
            ),
        decreases block.insts@.len() - i,
    {
        let ghost now = NumberV { subst: subst@, avail: avail@ };
        assert(iv[i as int] == block.insts@[i as int]@);
        assert(f.inst_indexed(iv[i as int]));
        proof {
            super::rewrite::renaming_renames_uses(iv[i as int], now.subst);
        }
        let mut inst = block.insts[i].clone();
        inst.rewrite_values(subst);
        if !inst.is_phi() {
            if let Some(key) = expr_key(&inst) {
                let dest = inst.dest();
                match find_held(avail, key) {
                    Some(prev) => {
                        proof {
                            held_in_range(avail@, key, avail@.len() as int, f);
                        }
                        let is_const = match key {
                            ExprKey::Const(_) => true,
                            _ => false,
                        };
                        let mut away = false;
                        if is_const && keep_consts {
                            away = find_home(func, prev) != Some(BlockId(b as u32));
                        }
                        if away {
                            avail.push((key, dest));
                        } else {
                            subst.insert(dest.0, prev);
                        }
                    },
                    None => {
                        avail.push((key, dest));
                    },
                }
            }
        }
        assert((NumberV { subst: subst@, avail: avail@ }) == now.seen(iv[i as int], home));
        i += 1;
    }
}

/// Substitutions inside the blocks from `b` on.
pub open spec fn numbered_from(f: FuncV, subst: Map<u32, ValueId>, b: int) -> Map<u32, ValueId>
    decreases f.blocks.len() - b,
{
    if b >= f.blocks.len() {
        subst
    } else {
        numbered_from(
            f,
            (NumberV { subst, avail: Seq::empty() }).seen_from(f.blocks[b].insts, None, 0).subst,
            b + 1,
        )
    }
}

/// The function after substitutions: renamed, without the substituted instructions, and without
/// what is no longer needed.
pub open spec fn substituted(f: FuncV, subst: Map<u32, ValueId>) -> FuncV {
    pruned(removed(renamed(f, subst), subst.dom()))
}

/// Number of entries.
pub open spec fn entries(subst: Map<u32, ValueId>) -> nat {
    ascending_ids(subst.dom()).len()
}

/// A pass that substitutes: nothing happens without substitutions.
pub open spec fn shared(f: FuncV, subst: Map<u32, ValueId>) -> (FuncV, nat) {
    if subst == Map::<u32, ValueId>::empty() {
        (f, 0)
    } else {
        (substituted(f, subst), entries(subst))
    }
}

/// Applies substitutions; returns how many there were.
fn apply_subst(func: &mut MirFunc, subst: &IdMap<ValueId>) -> (r: usize)
    requires
        old(func)@.indexed(),
        map_in_range(old(func)@, subst@),
    ensures
        (final(func)@, r as nat) == shared(old(func)@, subst@),
        final(func)@.indexed(),
{
    if subst.is_empty() {
        return 0;
    }
    let ghost f = func@;
    proof {
        renaming_keeps_index(f, subst@);
        removing_keeps_index(renamed(f, subst@), subst@.dom());
        pruning_keeps_index(removed(renamed(f, subst@), subst@.dom()));
    }
    rename_all(func, subst);
    remove_renamed(func, subst);
    dce(func);
    subst.len()
}

/// Shares equal computations inside each block. Returns how many instructions were substituted.
pub fn cse(func: &mut MirFunc) -> (r: usize)
    requires
        old(func)@.indexed(),
    ensures
        (final(func)@, r as nat) == shared(
            old(func)@,
            numbered_from(old(func)@, Map::empty(), 0),
        ),
        final(func)@.indexed(),
{
    let ghost f = func@;
    let mut subst: IdMap<ValueId> = IdMap::new();
    let mut b: usize = 0;
    while b < func.blocks.len()
        invariant
            b <= func.blocks@.len(),
            f == func@,
            f.indexed(),
            map_in_range(f, subst@),
            numbered_from(f, Map::empty(), 0) == numbered_from(f, subst@, b as int),
        decreases func.blocks@.len() - b,
    {
        let mut avail: Vec<(ExprKey, ValueId)> = Vec::new();
        assert(avail@ =~= Seq::empty());
        number_block(func, b, &mut subst, &mut avail, false);
        b += 1;
    }
    apply_subst(func, &subst)
}

// Sharing along dominators.

/// Number of blocks from `d` on that dominate block `b`.
pub open spec fn depth_from(f: FuncV, b: int, d: int) -> nat
    decreases f.blocks.len() - d,
{
    if d >= f.blocks.len() {
        0
    } else {
        (if dominates(f, d, b) {
            1nat
        } else {
            0nat
        }) + depth_from(f, b, d + 1)
    }
}

/// Number of blocks that dominate block `b`.
pub open spec fn depth(f: FuncV, b: int) -> nat {
    depth_from(f, b, 0)
}

/// The deepest of the first `n` blocks that dominate block `b` and are not `b`.
pub open spec fn nearest(f: FuncV, b: int, n: int) -> Option<int>
    decreases n,
{
    if n <= 0 {
        None
    } else {
        let rest = nearest(f, b, n - 1);
        if n - 1 != b && dominates(f, n - 1, b) {
            match rest {
                Some(r) => if depth(f, n - 1) >= depth(f, r) {
                    Some(n - 1)
                } else {
                    rest
                },
                None => Some(n - 1),
            }
        } else {
            rest
        }
    }
}

/// The closest block that dominates block `b`; the entry has none.
pub open spec fn parent(f: FuncV, b: int) -> Option<int> {
    if b == f.entry.0 {
        None
    } else {
        nearest(f, b, f.blocks.len() as int)
    }
}

/// Substitutions so far, and what holds at the end of each block.
#[verifier::ext_equal]
pub ghost struct TreeV {
    pub subst: Map<u32, ValueId>,
    pub outs: Seq<Seq<(ExprKey, ValueId)>>,
}

impl TreeV {
    /// After block `b`, which begins with what holds at the end of its parent.
    pub open spec fn block_seen(self, f: FuncV, b: int) -> TreeV {
        let avail = match parent(f, b) {
            Some(p) => self.outs[p],
            None => Seq::empty(),
        };
        let n = (NumberV { subst: self.subst, avail }).seen_from(
            f.blocks[b].insts,
            Some((f, BlockId(b as u32))),
            0,
        );
        TreeV { subst: n.subst, outs: self.outs.update(b, n.avail) }
    }

    /// After the blocks of depth `d` from `b` on, then those of greater depth. Every block comes
    /// behind those that dominate it.
    pub open spec fn seen_from(self, f: FuncV, d: int, b: int) -> TreeV
        decreases f.blocks.len() + 1 - d, f.blocks.len() + 1 - b,
    {
        if d > f.blocks.len() {
            self
        } else if b >= f.blocks.len() {
            self.seen_from(f, d + 1, 0)
        } else if depth(f, b) == d {
            self.block_seen(f, b).seen_from(f, d, b + 1)
        } else {
            self.seen_from(f, d, b + 1)
        }
    }
}

/// Nothing seen yet.
pub open spec fn empty_tree(f: FuncV) -> TreeV {
    TreeV { subst: Map::empty(), outs: Seq::new(f.blocks.len(), |b: int| Seq::empty()) }
}

/// Substitutions along dominators.
pub open spec fn tree_subst(f: FuncV) -> Map<u32, ValueId> {
    empty_tree(f).seen_from(f, 0, 0).subst
}

fn find_depths(dom: &Vec<Vec<bool>>, Ghost(f): Ghost<FuncV>) -> (r: Vec<usize>)
    requires
        is_dominance(f, dom@),
    ensures
        r@.len() == f.blocks.len(),
        forall|b: int| 0 <= b < r@.len() ==> #[trigger] r@[b] == depth(f, b),
        forall|b: int| 0 <= b < r@.len() ==> #[trigger] r@[b] <= f.blocks.len(),
{
    let n = dom.len();
    let mut r: Vec<usize> = Vec::new();
    let mut b: usize = 0;
    while b < n
        invariant
            b <= n,
            n == dom@.len(),
            n == f.blocks.len(),
            is_dominance(f, dom@),
            r@.len() == b,
            forall|x: int| 0 <= x < b ==> #[trigger] r@[x] == depth(f, x),
            forall|x: int| 0 <= x < b ==> #[trigger] r@[x] <= n,
        decreases n - b,
    {
        let mut count: usize = 0;
        let mut d: usize = n;
        while d > 0
            invariant
                d <= n,
                b < n,
                n == dom@.len(),
                n == f.blocks.len(),
                is_dominance(f, dom@),
                count == depth_from(f, b as int, d as int),
                count <= n - d,
            decreases d,
        {
            d -= 1;
            assert(dom@[d as int]@.len() == n);
            assert(dom@[d as int]@[b as int] == dominates(f, d as int, b as int));
            if dom[d][b] {
                count += 1;
            }
        }
        r.push(count);
        b += 1;
    }
    r
}

fn find_parent(
    func: &MirFunc,
    dom: &Vec<Vec<bool>>,
    depths: &Vec<usize>,
    b: usize,
) -> (r: Option<usize>)
    requires
        is_dominance(func@, dom@),
        depths@.len() == func@.blocks.len(),
        forall|x: int| 0 <= x < depths@.len() ==> #[trigger] depths@[x] == depth(func@, x),
        b < func@.blocks.len(),
    ensures
        match r {
            Some(p) => parent(func@, b as int) == Some(p as int) && p < func@.blocks.len(),
            None => parent(func@, b as int) is None,
        },
{
    let ghost f = func@;
    if b == func.entry.index() {
        return None;
    }
    let mut best: Option<usize> = None;
    let mut n: usize = 0;
    while n < dom.len()
        invariant
            n <= dom@.len(),
            f == func@,
            is_dominance(f, dom@),
            depths@.len() == f.blocks.len(),
            forall|x: int| 0 <= x < depths@.len() ==> #[trigger] depths@[x] == depth(f, x),
            b < f.blocks.len(),
            match best {
                Some(p) => nearest(f, b as int, n as int) == Some(p as int) && p < n,
                None => nearest(f, b as int, n as int) is None,
            },
        decreases dom@.len() - n,
    {
        assert(dom@[n as int]@.len() == f.blocks.len());
        assert(dom@[n as int]@[b as int] == dominates(f, n as int, b as int));
        if n != b && dom[n][b] {
            assert(depths@[n as int] == depth(f, n as int));
            best = match best {
                Some(p) => {
                    assert(depths@[p as int] == depth(f, p as int));
                    if depths[n] >= depths[p] {
                        Some(n)
                    } else {
                        Some(p)
                    }
                },
                None => Some(n),
            };
        }
        n += 1;
    }
    best
}

fn copy_avail(v: &Vec<(ExprKey, ValueId)>) -> (r: Vec<(ExprKey, ValueId)>)
    ensures
        r@ == v@,
{
    let mut r: Vec<(ExprKey, ValueId)> = Vec::new();
    let mut i: usize = 0;
    while i < v.len()
        invariant
            i <= v@.len(),
            r@ == v@.take(i as int),
        decreases v@.len() - i,
    {
        r.push(v[i]);
        i += 1;
        assert(r@ =~= v@.take(i as int));
    }
    assert(r@ =~= v@);
    r
}

/// The lists of `v`.
pub open spec fn outs_view(v: Seq<Vec<(ExprKey, ValueId)>>) -> Seq<Seq<(ExprKey, ValueId)>> {
    Seq::new(v.len(), |i: int| v[i]@)
}

/// Whether every listed value exists in `f`.
pub open spec fn outs_in_range(f: FuncV, outs: Seq<Seq<(ExprKey, ValueId)>>) -> bool {
    forall|b: int, i: int|
        0 <= b < outs.len() && 0 <= i < outs[b].len() ==> (#[trigger] outs[b][i]).1.0
            < f.types.len()
}

fn gvn_block(
    func: &MirFunc,
    dom: &Vec<Vec<bool>>,
    depths: &Vec<usize>,
    b: usize,
    subst: &mut IdMap<ValueId>,
    outs: &mut Vec<Vec<(ExprKey, ValueId)>>,
)
    requires
        func@.indexed(),
        is_dominance(func@, dom@),
        depths@.len() == func@.blocks.len(),
        forall|x: int| 0 <= x < depths@.len() ==> #[trigger] depths@[x] == depth(func@, x),
        b < func@.blocks.len(),
        old(outs)@.len() == func@.blocks.len(),
        map_in_range(func@, old(subst)@),
        outs_in_range(func@, outs_view(old(outs)@)),
    ensures
        (TreeV { subst: final(subst)@, outs: outs_view(final(outs)@) }) == (TreeV {
            subst: old(subst)@,
            outs: outs_view(old(outs)@),
        }).block_seen(func@, b as int),
        final(outs)@.len() == func@.blocks.len(),
        map_in_range(func@, final(subst)@),
        outs_in_range(func@, outs_view(final(outs)@)),
{
    let ghost f = func@;
    let ghost t0 = TreeV { subst: subst@, outs: outs_view(outs@) };
    let mut avail: Vec<(ExprKey, ValueId)> = match find_parent(func, dom, depths, b) {
        Some(p) => {
            assert(t0.outs[p as int] == outs@[p as int]@);
            copy_avail(&outs[p])
        },
        None => {
            let v: Vec<(ExprKey, ValueId)> = Vec::new();
            assert(v@ =~= Seq::empty());
            v
        },
    };
    proof {
        if let Some(p) = parent(f, b as int) {
            assert forall|i: int| 0 <= i < avail@.len() implies (#[trigger] avail@[i]).1.0
                < f.types.len() by {
                assert(t0.outs[p][i] == avail@[i]);
            }
        }
    }
    number_block(func, b, subst, &mut avail, true);
    outs.set(b, avail);
    proof {
        assert(outs_view(outs@) =~= t0.outs.update(b as int, avail@));
        assert forall|x: int, i: int|
            0 <= x < outs_view(outs@).len() && 0 <= i < outs_view(outs@)[x].len() implies (
        #[trigger] outs_view(outs@)[x][i]).1.0 < f.types.len() by {
            if x != b {
                assert(outs_view(outs@)[x][i] == t0.outs[x][i]);
            } else {
                assert(outs_view(outs@)[x][i] == avail@[i]);
                let n = NumberV { subst: subst@, avail: avail@ };
                assert(n.in_range(f));
                assert(n.avail[i].1.0 < f.types.len());
            }
        }
    }
}

/// Shares computations with the blocks that are dominated. Returns how many instructions were
/// substituted.
fn gvn_dom(func: &mut MirFunc) -> (r: usize)
    requires
        old(func)@.indexed(),
    ensures
        (final(func)@, r as nat) == shared(old(func)@, tree_subst(old(func)@)),
        final(func)@.indexed(),
{
    let ghost f = func@;
    let n = func.blocks.len();
    let dom = dominators(func);
    let depths = find_depths(&dom, Ghost(f));
    let mut subst: IdMap<ValueId> = IdMap::new();
    let mut outs: Vec<Vec<(ExprKey, ValueId)>> = Vec::new();
    let mut i: usize = 0;
    while i < n
        invariant
            i <= n,
            outs@.len() == i,
            forall|b: int| 0 <= b < i ==> (#[trigger] outs@[b])@ == Seq::<(ExprKey, ValueId)>::empty(),
        decreases n - i,
    {
        outs.push(Vec::new());
        i += 1;
    }
    assert(outs_view(outs@) =~= empty_tree(f).outs);
    let mut d: usize = 0;
    let mut done = false;
    while !done
        invariant
            d <= n,
            n == f.blocks.len(),
            f == func@,
            f.indexed(),
            is_dominance(f, dom@),
            depths@.len() == n,
            forall|x: int| 0 <= x < depths@.len() ==> #[trigger] depths@[x] == depth(f, x),
            outs@.len() == n,
            map_in_range(f, subst@),
            outs_in_range(f, outs_view(outs@)),
            !done ==> empty_tree(f).seen_from(f, 0, 0) == (TreeV {
                subst: subst@,
                outs: outs_view(outs@),
            }).seen_from(f, d as int, 0),
            done ==> empty_tree(f).seen_from(f, 0, 0) == (TreeV {
                subst: subst@,
                outs: outs_view(outs@),
            }),
        decreases n - d + (if done {
            0int
        } else {
            1int
        }),
    {
        let mut b: usize = 0;
        while b < n
            invariant
                b <= n,
                d <= n,
                n == f.blocks.len(),
                f == func@,
                f.indexed(),
                is_dominance(f, dom@),
                depths@.len() == n,
                forall|x: int| 0 <= x < depths@.len() ==> #[trigger] depths@[x] == depth(f, x),
                outs@.len() == n,
                map_in_range(f, subst@),
                outs_in_range(f, outs_view(outs@)),
                empty_tree(f).seen_from(f, 0, 0) == (TreeV {
                    subst: subst@,
                    outs: outs_view(outs@),
                }).seen_from(f, d as int, b as int),
            decreases n - b,
        {
            assert(depths@[b as int] == depth(f, b as int));
            if depths[b] == d {
                gvn_block(func, &dom, &depths, b, &mut subst, &mut outs);
            }
            b += 1;
        }
        if d == n {
            done = true;
            proof {
                reveal_with_fuel(TreeV::seen_from, 2);
            }
        } else {
            d += 1;
        }
    }
    apply_subst(func, &subst)
}


// Sharing at forks.

/// Whether a computation may run where neither side of a fork was to run it. Constants are not
/// worth it, and an integer division may trap.
pub open spec fn movable(key: ExprKey) -> bool {
    match key {
        ExprKey::Const(_) => false,
        ExprKey::Bin { op, ty, .. } => !((op is Div || op is Rem) && !ty.float()),
        _ => true,
    }
}

fn pre_safe(key: ExprKey) -> (r: bool)
    ensures
        r == movable(key),
{
    match key {
        ExprKey::Const(_) => false,
        ExprKey::Bin { op, ty, .. } => match op {
            MirBinOp::Div | MirBinOp::Rem => ty.is_float(),
            _ => true,
        },
        _ => true,
    }
}

/// What a computation reads.
pub open spec fn key_uses(key: ExprKey) -> Seq<ValueId> {
    match key {
        ExprKey::Const(_) => Seq::empty(),
        ExprKey::Bin { a, b, .. } => seq![a, b],
        ExprKey::Cmp { a, b, .. } => seq![a, b],
        ExprKey::Unary { src, .. } => seq![src],
        ExprKey::Cast { src, .. } => seq![src],
    }
}

fn key_operands(key: ExprKey) -> (r: Vec<ValueId>)
    ensures
        r@ == key_uses(key),
{
    let mut r: Vec<ValueId> = Vec::new();
    match key {
        ExprKey::Const(_) => {},
        ExprKey::Bin { a, b, .. } => {
            r.push(a);
            r.push(b);
        },
        ExprKey::Cmp { a, b, .. } => {
            r.push(a);
            r.push(b);
        },
        ExprKey::Unary { src, .. } => {
            r.push(src);
        },
        ExprKey::Cast { src, .. } => {
            r.push(src);
        },
    }
    assert(r@ =~= key_uses(key));
    r
}

/// Type of the result of a computation.
pub open spec fn key_result(f: FuncV, key: ExprKey) -> MirTy {
    match key {
        ExprKey::Const(c) => c.const_ty(),
        ExprKey::Bin { ty, .. } => ty,
        ExprKey::Cmp { .. } => MirTy::Bool,
        ExprKey::Unary { op, src } => if op is Not {
            MirTy::Bool
        } else {
            f.ty(src)
        },
        ExprKey::Cast { to, .. } => to,
    }
}

fn key_ty(func: &MirFunc, key: ExprKey) -> (r: MirTy)
    ensures
        r == key_result(func@, key),
{
    match key {
        ExprKey::Const(c) => c.ty(),
        ExprKey::Bin { ty, .. } => ty,
        ExprKey::Cmp { .. } => MirTy::Bool,
        ExprKey::Unary { op, src } => match op {
            MirUnaryOp::Not => MirTy::Bool,
            MirUnaryOp::Neg => func.ty(src),
        },
        ExprKey::Cast { to, .. } => to,
    }
}

/// The instruction that computes `key` into `dest`.
pub open spec fn key_inst(key: ExprKey, dest: ValueId) -> InstV {
    match key {
        ExprKey::Const(c) => InstV::Const { dest, c },
        ExprKey::Bin { op, ty, a, b } => InstV::Bin { dest, op, ty, lhs: a, rhs: b },
        ExprKey::Cmp { op, ty, a, b } => InstV::Cmp { dest, op, ty, lhs: a, rhs: b },
        ExprKey::Unary { op, src } => InstV::Unary { dest, op, src },
        ExprKey::Cast { kind, to, src } => InstV::Cast { dest, kind, to, src },
    }
}

fn inst_from_key(key: ExprKey, dest: ValueId) -> (r: MirInst)
    ensures
        r@ == key_inst(key, dest),
{
    match key {
        ExprKey::Const(c) => MirInst::Const { dest, c },
        ExprKey::Bin { op, ty, a, b } => MirInst::Bin { dest, op, ty, lhs: a, rhs: b },
        ExprKey::Cmp { op, ty, a, b } => MirInst::Cmp { dest, op, ty, lhs: a, rhs: b },
        ExprKey::Unary { op, src } => MirInst::Unary { dest, op, src },
        ExprKey::Cast { kind, to, src } => MirInst::Cast { dest, kind, to, src },
    }
}

/// Whether `v` is there at block `b`: it lives in the block or in one that dominates it.
pub open spec fn available(f: FuncV, v: ValueId, b: int) -> bool {
    match f.home(v) {
        Some(h) => h.0 == b || dominates(f, h.0 as int, b),
        None => true,
    }
}

fn available_at(func: &MirFunc, home: Option<BlockId>, b: usize, dom: &Vec<Vec<bool>>, Ghost(f): Ghost<
    FuncV,
>, Ghost(v): Ghost<ValueId>) -> (r: bool)
    requires
        is_dominance(f, dom@),
        b < f.blocks.len(),
        home == f.home(v),
        home matches Some(h) ==> h.0 < f.blocks.len(),
    ensures
        r == available(f, v, b as int),
{
    match home {
        Some(h) => {
            assert(dom@[h.0 as int]@.len() == f.blocks.len());
            assert(dom@[h.0 as int]@[b as int] == dominates(f, h.0 as int, b as int));
            h.index() == b || dom[h.index()][b]
        },
        None => true,
    }
}

/// Where each value lives.
fn find_homes(func: &MirFunc) -> (r: Vec<Option<BlockId>>)
    requires
        func@.indexed(),
    ensures
        r@.len() == func@.types.len(),
        forall|v: int|
            0 <= v < r@.len() ==> #[trigger] r@[v] == func@.home(ValueId(v as u32)) && (
            r@[v] matches Some(h) ==> h.0 < func@.blocks.len()),
{
    let n = func.types.len();
    let defs = func.defs();
    let mut r: Vec<Option<BlockId>> = Vec::new();
    let mut v: usize = 0;
    while v < n
        invariant
            v <= n,
            n == func@.types.len(),
            func@.indexed(),
            defs@.len() == n,
            forall|x: int|
                0 <= x < defs@.len() ==> match #[trigger] defs@[x] {
                    Some(p) => func@.def(ValueId(x as u32)) == Some((p.0, p.1 as nat)) && p.0.0
                        < func@.blocks.len() && p.1 < func@.blocks[p.0.0 as int].insts.len(),
                    None => func@.def(ValueId(x as u32)) is None,
                },
            r@.len() == v,
            forall|x: int|
                0 <= x < v ==> #[trigger] r@[x] == func@.home(ValueId(x as u32)) && (
                r@[x] matches Some(h) ==> h.0 < func@.blocks.len()),
        decreases n - v,
    {
        let d = defs[v];
        r.push(
            match d {
                Some(p) => Some(p.0),
                None => if func.is_param(v) {
                    Some(func.entry)
                } else {
                    None
                },
            },
        );
        v += 1;
    }
    r
}

/// Whether instruction `inst` computes something that may move to block `b`.
pub open spec fn moves_to(f: FuncV, inst: InstV, b: int) -> bool {
    !inst.phi() && (match key_of(inst) {
        Some(key) => movable(key) && forall|k: int|
            0 <= k < key_uses(key).len() ==> available(f, #[trigger] key_uses(key)[k], b),
        None => false,
    })
}

/// Whether an instruction of block `s` of `g` computes `key` and may move to block `b`.
pub open spec fn anticipated(f: FuncV, g: FuncV, s: int, b: int, key: ExprKey) -> bool {
    exists|i: int|
        0 <= i < g.blocks[s].insts.len() && key_of(#[trigger] g.blocks[s].insts[i]) == Some(key)
            && moves_to(f, g.blocks[s].insts[i], b)
}

/// Whether an instruction of block `b` computes `key`.
pub open spec fn computed(g: FuncV, b: int, key: ExprKey) -> bool {
    exists|i: int|
        0 <= i < g.blocks[b].insts.len() && key_of(#[trigger] g.blocks[b].insts[i]) == Some(key)
}

/// The computations of the instructions from `i` on that may move to block `b`, each once,
/// behind those in `acc`.
pub open spec fn movable_from(f: FuncV, insts: Seq<InstV>, b: int, i: int, acc: Seq<ExprKey>) -> Seq<
    ExprKey,
>
    decreases insts.len() - i,
{
    if i >= insts.len() {
        acc
    } else if moves_to(f, insts[i], b) && !acc.contains(key_of(insts[i])->0) {
        movable_from(f, insts, b, i + 1, acc.push(key_of(insts[i])->0))
    } else {
        movable_from(f, insts, b, i + 1, acc)
    }
}

/// Whether every successor from `k` on computes `key`.
pub open spec fn on_every_side(
    f: FuncV,
    g: FuncV,
    targets: Seq<BlockId>,
    b: int,
    key: ExprKey,
    k: int,
) -> bool {
    forall|j: int|
        k <= j < targets.len() ==> anticipated(f, g, (#[trigger] targets[j]).0 as int, b, key)
}

/// The computations among those from `i` on that every successor makes and the fork does not.
pub open spec fn chosen_from(
    f: FuncV,
    g: FuncV,
    targets: Seq<BlockId>,
    b: int,
    keys: Seq<ExprKey>,
    i: int,
) -> Seq<ExprKey>
    decreases keys.len() - i,
{
    if i >= keys.len() {
        Seq::empty()
    } else {
        (if on_every_side(f, g, targets, b, keys[i], 0) && !computed(g, b, keys[i]) {
            seq![keys[i]]
        } else {
            Seq::empty()
        }) + chosen_from(f, g, targets, b, keys, i + 1)
    }
}

/// `g` with `key` computed at the end of block `b`.
pub open spec fn with_key(g: FuncV, b: int, key: ExprKey) -> FuncV {
    FuncV {
        types: g.types.push(key_result(g, key)),
        blocks: g.blocks.update(
            b,
            BlockV {
                insts: g.blocks[b].insts.push(key_inst(key, ValueId(g.types.len() as u32))),
                ..g.blocks[b]
            },
        ),
        ..g
    }
}

/// `g` with the computations from `i` on at the end of block `b`, as long as values can be
/// numbered, and how many there are.
pub open spec fn with_keys(g: FuncV, b: int, keys: Seq<ExprKey>, i: int, n: nat) -> (FuncV, nat)
    decreases keys.len() - i,
{
    if i >= keys.len() || g.types.len() >= u32::MAX {
        (g, n)
    } else {
        with_keys(with_key(g, b, keys[i]), b, keys, i + 1, n + 1)
    }
}

/// After fork `b`: `f` is the function before any fork, `g` the function so far.
pub open spec fn fork_shared(f: FuncV, g: FuncV, b: int, n: nat) -> (FuncV, nat) {
    match f.blocks[b].term {
        Some(t) => if t.targets().len() >= 2 {
            let keys = movable_from(
                f,
                g.blocks[t.targets()[0].0 as int].insts,
                b,
                0,
                Seq::empty(),
            );
            with_keys(g, b, chosen_from(f, g, t.targets(), b, keys, 0), 0, n)
        } else {
            (g, n)
        },
        None => (g, n),
    }
}

/// After the forks from `b` on.
pub open spec fn forks_shared(f: FuncV, g: FuncV, b: int, n: nat) -> (FuncV, nat)
    decreases f.blocks.len() - b,
{
    if b >= f.blocks.len() {
        (g, n)
    } else {
        let (g2, n2) = fork_shared(f, g, b, n);
        forks_shared(f, g2, b + 1, n2)
    }
}

/// Whether `g` has the blocks of `f`, perhaps with more instructions and values.
pub open spec fn grown(f: FuncV, g: FuncV) -> bool {
    &&& g.indexed()
    &&& g.blocks.len() == f.blocks.len()
    &&& f.types.len() <= g.types.len()
    &&& forall|b: int| 0 <= b < f.blocks.len() ==> (#[trigger] g.blocks[b]).term == f.blocks[b].term
}

/// Whether all of the operands exist in `g`.
pub open spec fn keys_in_range(g: FuncV, keys: Seq<ExprKey>) -> bool {
    forall|i: int, k: int|
        0 <= i < keys.len() && 0 <= k < key_uses(keys[i]).len() ==> (#[trigger] key_uses(
            keys[i],
        )[k]).0 < g.types.len()
}

/// A computation reads what its instruction reads.
pub proof fn keys_of_insts_in_range(g: FuncV, inst: InstV)
    requires
        g.inst_indexed(inst),
        key_of(inst) is Some,
    ensures
        forall|k: int|
            0 <= k < key_uses(key_of(inst)->0).len() ==> (#[trigger] key_uses(key_of(inst)->0)[k]).0
                < g.types.len(),
{
    let us = inst.uses();
    assert forall|k: int| 0 <= k < key_uses(key_of(inst)->0).len() implies (#[trigger] key_uses(
        key_of(inst)->0,
    )[k]).0 < g.types.len() by {
        match inst {
            InstV::Bin { lhs, rhs, .. } => {
                assert(us[0] == lhs && us[1] == rhs);
            },
            InstV::Cmp { lhs, rhs, .. } => {
                assert(us[0] == lhs && us[1] == rhs);
            },
            InstV::Unary { src, .. } => {
                assert(us[0] == src);
            },
            InstV::Cast { src, .. } => {
                assert(us[0] == src);
            },
            _ => {},
        }
    }
}

/// Computing a key at the end of a block keeps a function indexed.
pub proof fn growing_keeps_index(f: FuncV, g: FuncV, b: int, key: ExprKey)
    requires
        grown(f, g),
        0 <= b < g.blocks.len(),
        g.types.len() < u32::MAX,
        forall|k: int| 0 <= k < key_uses(key).len() ==> (#[trigger] key_uses(key)[k]).0 < g.types.len(),
    ensures
        grown(f, with_key(g, b, key)),
{
    let h = with_key(g, b, key);
    let new = key_inst(key, ValueId(g.types.len() as u32));
    assert(new.uses() =~= key_uses(key));
    assert(new.dests() =~= seq![ValueId(g.types.len() as u32)]);
    assert forall|i: int| 0 <= i < h.params.len() implies (#[trigger] h.params[i]).0 < h.types.len() by {
        assert(g.params[i].0 < g.types.len());
    }
    assert forall|x: int| 0 <= x < h.blocks.len() implies h.block_indexed(#[trigger] h.blocks[x], x) by {
        assert(g.block_indexed(g.blocks[x], x));
        assert forall|i: int| 0 <= i < h.blocks[x].insts.len() implies h.inst_indexed(
            #[trigger] h.blocks[x].insts[i],
        ) by {
            if i < g.blocks[x].insts.len() {
                let inst = g.blocks[x].insts[i];
                assert(g.inst_indexed(inst));
                assert(h.blocks[x].insts[i] == inst);
                assert forall|k: int| 0 <= k < inst.uses().len() implies (
                #[trigger] inst.uses()[k]).0 < h.types.len() by {
                    assert(inst.uses()[k].0 < g.types.len());
                }
                assert forall|k: int| 0 <= k < inst.dests().len() implies (
                #[trigger] inst.dests()[k]).0 < h.types.len() by {
                    assert(inst.dests()[k].0 < g.types.len());
                }
            } else {
                assert(h.blocks[x].insts[i] == new);
            }
        }
        if let Some(t) = h.blocks[x].term {
            assert(g.term_indexed(t));
            assert forall|k: int| 0 <= k < t.uses().len() implies (#[trigger] t.uses()[k]).0
                < h.types.len() by {
                assert(t.uses()[k].0 < g.types.len());
            }
        }
    }
}

fn can_move(
    inst: &MirInst,
    b: usize,
    homes: &Vec<Option<BlockId>>,
    dom: &Vec<Vec<bool>>,
    func: &MirFunc,
    Ghost(f): Ghost<FuncV>,
) -> (r: bool)
    requires
        f.indexed(),
        is_dominance(f, dom@),
        b < f.blocks.len(),
        homes@.len() == f.types.len(),
        forall|v: int|
            0 <= v < homes@.len() ==> #[trigger] homes@[v] == f.home(ValueId(v as u32)) && (
            homes@[v] matches Some(h) ==> h.0 < f.blocks.len()),
        forall|v: ValueId| v.0 >= f.types.len() ==> #[trigger] f.home(v) is None,
    ensures
        r == moves_to(f, inst@, b as int),
{
    if inst.is_phi() {
        return false;
    }
    let key = match expr_key(inst) {
        Some(key) => key,
        None => return false,
    };
    if !pre_safe(key) {
        return false;
    }
    let us = key_operands(key);
    let mut k: usize = 0;
    while k < us.len()
        invariant
            k <= us@.len(),
            f.indexed(),
            is_dominance(f, dom@),
            b < f.blocks.len(),
            homes@.len() == f.types.len(),
            forall|v: int|
                0 <= v < homes@.len() ==> #[trigger] homes@[v] == f.home(ValueId(v as u32)) && (
                homes@[v] matches Some(h) ==> h.0 < f.blocks.len()),
            forall|v: ValueId| v.0 >= f.types.len() ==> #[trigger] f.home(v) is None,
            us@ == key_uses(key),
            key_of(inst@) == Some(key),
            !inst@.phi(),
            forall|x: int| 0 <= x < k ==> available(f, #[trigger] us@[x], b as int),
        decreases us@.len() - k,
    {
        let v = us[k];
        let home = if v.index() < homes.len() {
            assert(ValueId(v.0) == v);
            homes[v.index()]
        } else {
            assert(f.home(v) is None);
            None
        };
        if !available_at(func, home, b, dom, Ghost(f), Ghost(v)) {
            assert(!available(f, key_uses(key)[k as int], b as int));
            return false;
        }
        k += 1;
    }
    true
}

fn is_anticipated(
    func: &MirFunc,
    s: usize,
    b: usize,
    key: ExprKey,
    homes: &Vec<Option<BlockId>>,
    dom: &Vec<Vec<bool>>,
    Ghost(f): Ghost<FuncV>,
) -> (r: bool)
    requires
        f.indexed(),
        is_dominance(f, dom@),
        b < f.blocks.len(),
        s < func@.blocks.len(),
        homes@.len() == f.types.len(),
        forall|v: int|
            0 <= v < homes@.len() ==> #[trigger] homes@[v] == f.home(ValueId(v as u32)) && (
            homes@[v] matches Some(h) ==> h.0 < f.blocks.len()),
        forall|v: ValueId| v.0 >= f.types.len() ==> #[trigger] f.home(v) is None,
    ensures
        r == anticipated(f, func@, s as int, b as int, key),
{
    let block = &func.blocks[s];
    assert(func@.blocks[s as int] == block@);
    let mut i: usize = 0;
    while i < block.insts.len()
        invariant
            i <= block.insts@.len(),
            f.indexed(),
            is_dominance(f, dom@),
            b < f.blocks.len(),
            s < func@.blocks.len(),
            func@.blocks[s as int] == block@,
            homes@.len() == f.types.len(),
            forall|v: int|
                0 <= v < homes@.len() ==> #[trigger] homes@[v] == f.home(ValueId(v as u32)) && (
                homes@[v] matches Some(h) ==> h.0 < f.blocks.len()),
            forall|v: ValueId| v.0 >= f.types.len() ==> #[trigger] f.home(v) is None,
            forall|x: int|
                0 <= x < i ==> !(key_of(#[trigger] func@.blocks[s as int].insts[x]) == Some(key)
                    && moves_to(f, func@.blocks[s as int].insts[x], b as int)),
        decreases block.insts@.len() - i,
    {
        assert(block@.insts[i as int] == block.insts@[i as int]@);
        if expr_key(&block.insts[i]) == Some(key) && can_move(
            &block.insts[i],
            b,
            homes,
            dom,
            func,
            Ghost(f),
        ) {
            return true;
        }
        i += 1;
    }
    false
}

fn is_computed(func: &MirFunc, b: usize, key: ExprKey) -> (r: bool)
    requires
        b < func@.blocks.len(),
    ensures
        r == computed(func@, b as int, key),
{
    let block = &func.blocks[b];
    assert(func@.blocks[b as int] == block@);
    let mut i: usize = 0;
    while i < block.insts.len()
        invariant
            i <= block.insts@.len(),
            b < func@.blocks.len(),
            func@.blocks[b as int] == block@,
            forall|x: int|
                0 <= x < i ==> key_of(#[trigger] func@.blocks[b as int].insts[x]) != Some(key),
        decreases block.insts@.len() - i,
    {
        assert(block@.insts[i as int] == block.insts@[i as int]@);
        if expr_key(&block.insts[i]) == Some(key) {
            return true;
        }
        i += 1;
    }
    false
}

fn has_key(keys: &Vec<ExprKey>, key: ExprKey) -> (r: bool)
    ensures
        r == keys@.contains(key),
{
    let mut i: usize = 0;
    while i < keys.len()
        invariant
            i <= keys@.len(),
            forall|k: int| 0 <= k < i ==> keys@[k] != key,
        decreases keys@.len() - i,
    {
        if keys[i] == key {
            return true;
        }
        i += 1;
    }
    false
}


proof fn unnumbered_values_have_no_home(f: FuncV, v: ValueId)
    requires
        f.indexed(),
        v.0 >= f.types.len(),
    ensures
        f.home(v) is None,
{
    super::index::def_below_hit(f, v, f.blocks.len());
    if let Some(p) = f.def(v) {
        let b = p.0.0 as int;
        assert(f.block_indexed(f.blocks[b], b));
        let inst = f.blocks[b].insts[p.1 as int];
        assert(f.inst_indexed(inst));
        let k = inst.dests().index_of(v);
        assert(inst.dests()[k].0 < f.types.len());
    }
    if f.param(v.0 as int) {
        let k = choose|k: int| 0 <= k < f.params.len() && (#[trigger] f.params[k]).0 == v.0 as int;
        assert(f.params[k].0 < f.types.len());
    }
}

/// What the forks of a function are looked at with: where values live, and dominance.
struct Places {
    homes: Vec<Option<BlockId>>,
    dom: Vec<Vec<bool>>,
}

spec fn places_of(p: Places, f: FuncV) -> bool {
    &&& f.indexed()
    &&& is_dominance(f, p.dom@)
    &&& p.homes@.len() == f.types.len()
    &&& forall|v: int|
        0 <= v < p.homes@.len() ==> #[trigger] p.homes@[v] == f.home(ValueId(v as u32)) && (
        p.homes@[v] matches Some(h) ==> h.0 < f.blocks.len())
    &&& forall|v: ValueId| v.0 >= f.types.len() ==> #[trigger] f.home(v) is None
}

/// The computations that the first successor makes and that may move to block `b`.
fn list_movable(func: &MirFunc, s: usize, b: usize, p: &Places, Ghost(f): Ghost<FuncV>) -> (r: Vec<
    ExprKey,
>)
    requires
        places_of(*p, f),
        grown(f, func@),
        b < f.blocks.len(),
        s < f.blocks.len(),
    ensures
        r@ == movable_from(f, func@.blocks[s as int].insts, b as int, 0, Seq::empty()),
        keys_in_range(func@, r@),
{
    let ghost g = func@;
    let block = &func.blocks[s];
    assert(g.blocks[s as int] == block@);
    assert(g.block_indexed(g.blocks[s as int], s as int));
    let ghost iv = g.blocks[s as int].insts;
    let mut r: Vec<ExprKey> = Vec::new();
    assert(r@ =~= Seq::empty());
    let mut i: usize = 0;
    while i < block.insts.len()
        invariant
            i <= block.insts@.len(),
            places_of(*p, f),
            b < f.blocks.len(),
            g == func@,
            iv == block@.insts,
            forall|k: int| 0 <= k < iv.len() ==> g.inst_indexed(#[trigger] iv[k]),
            keys_in_range(g, r@),
            movable_from(f, iv, b as int, 0, Seq::empty()) == movable_from(
                f,
                iv,
                b as int,
                i as int,
                r@,
            ),
        decreases block.insts@.len() - i,
    {
        assert(iv[i as int] == block.insts@[i as int]@);
        assert(g.inst_indexed(iv[i as int]));
        if can_move(&block.insts[i], b, &p.homes, &p.dom, func, Ghost(f)) {
            if let Some(key) = expr_key(&block.insts[i]) {
                if !has_key(&r, key) {
                    let ghost r0 = r@;
                    proof {
                        keys_of_insts_in_range(g, iv[i as int]);
                    }
                    r.push(key);
                    assert forall|x: int, k: int|
                        0 <= x < r@.len() && 0 <= k < key_uses(r@[x]).len() implies (
                    #[trigger] key_uses(r@[x])[k]).0 < g.types.len() by {
                        if x < r0.len() {
                            assert(r@[x] == r0[x]);
                            assert(key_uses(r0[x])[k].0 < g.types.len());
                        }
                    }
                }
            }
        }
        i += 1;
    }
    r
}

fn list_chosen(
    func: &MirFunc,
    targets: &Vec<BlockId>,
    b: usize,
    keys: &Vec<ExprKey>,
    p: &Places,
    Ghost(f): Ghost<FuncV>,
) -> (r: Vec<ExprKey>)
    requires
        places_of(*p, f),
        grown(f, func@),
        b < f.blocks.len(),
        forall|k: int| 0 <= k < targets@.len() ==> (#[trigger] targets@[k]).0 < f.blocks.len(),
        keys_in_range(func@, keys@),
    ensures
        r@ == chosen_from(f, func@, targets@, b as int, keys@, 0),
        keys_in_range(func@, r@),
{
    let ghost g = func@;
    let mut r: Vec<ExprKey> = Vec::new();
    let ghost all = chosen_from(f, g, targets@, b as int, keys@, 0);
    assert(r@ + all =~= all);
    let mut i: usize = 0;
    while i < keys.len()
        invariant
            i <= keys@.len(),
            places_of(*p, f),
            grown(f, g),
            g == func@,
            b < f.blocks.len(),
            forall|k: int| 0 <= k < targets@.len() ==> (#[trigger] targets@[k]).0 < f.blocks.len(),
            keys_in_range(g, keys@),
            keys_in_range(g, r@),
            r@ + chosen_from(f, g, targets@, b as int, keys@, i as int) == all,
        decreases keys@.len() - i,
    {
        let ghost r0 = r@;
        let key = keys[i];
        let mut everywhere = true;
        let mut k: usize = targets.len();
        while k > 0 && everywhere
            invariant
                k <= targets@.len(),
                places_of(*p, f),
                grown(f, g),
                g == func@,
                b < f.blocks.len(),
                forall|x: int| 0 <= x < targets@.len() ==> (#[trigger] targets@[x]).0 < f.blocks.len(),
                everywhere ==> on_every_side(f, g, targets@, b as int, key, k as int),
                !everywhere ==> !on_every_side(f, g, targets@, b as int, key, 0),
            decreases k,
        {
            k -= 1;
            if !is_anticipated(func, targets[k].index(), b, key, &p.homes, &p.dom, Ghost(f)) {
                everywhere = false;
                assert(!anticipated(f, g, targets@[k as int].0 as int, b as int, key));
            }
        }
        if everywhere && !is_computed(func, b, key) {
            r.push(key);
            assert forall|x: int, y: int|
                0 <= x < r@.len() && 0 <= y < key_uses(r@[x]).len() implies (#[trigger] key_uses(
                r@[x],
            )[y]).0 < g.types.len() by {
                if x < r0.len() {
                    assert(key_uses(r0[x])[y].0 < g.types.len());
                } else {
                    assert(key_uses(keys@[i as int])[y].0 < g.types.len());
                }
            }
        }
        assert(r@ + chosen_from(f, g, targets@, b as int, keys@, i + 1) =~= r0 + chosen_from(
            f,
            g,
            targets@,
            b as int,
            keys@,
            i as int,
        ));
        i += 1;
    }
    assert(r@ + chosen_from(f, g, targets@, b as int, keys@, i as int) =~= r@);
    r
}

fn add_key(func: &mut MirFunc, b: usize, key: ExprKey)
    requires
        b < old(func)@.blocks.len(),
        old(func)@.types.len() < u32::MAX,
    ensures
        final(func)@ == with_key(old(func)@, b as int, key),
{
    let ghost g = func@;
    let dest = ValueId(func.types.len() as u32);
    let ty = key_ty(func, key);
    func.types.push(ty);
    let inst = inst_from_key(key, dest);
    let ghost block = func.blocks@[b as int];
    assert(g.blocks[b as int] == block@);
    func.blocks[b].insts.push(inst);
    assert(insts_view(func.blocks@[b as int].insts@) =~= g.blocks[b as int].insts.push(inst@));
    assert(func@.blocks =~= with_key(g, b as int, key).blocks);
}

fn share_fork(func: &mut MirFunc, b: usize, p: &Places, Ghost(f): Ghost<FuncV>) -> (r: usize)
    requires
        places_of(*p, f),
        grown(f, old(func)@),
        b < f.blocks.len(),
    ensures
        forall|n: nat|
            #[trigger] fork_shared(f, old(func)@, b as int, n) == (final(func)@, n + r as nat),
        grown(f, final(func)@),
        r > 0 ==> final(func)@.types.len() > f.types.len(),
{
    let ghost g = func@;
    assert(g.blocks[b as int] == func.blocks@[b as int]@);
    assert(g.blocks[b as int].term == f.blocks[b as int].term);
    assert(g.block_indexed(g.blocks[b as int], b as int));
    let targets = match &func.blocks[b].term {
        Some(t) => t.succs(),
        None => return 0,
    };
    if targets.len() < 2 {
        return 0;
    }
    let keys = list_movable(func, targets[0].index(), b, p, Ghost(f));
    let chosen = list_chosen(func, &targets, b, &keys, p, Ghost(f));
    let ghost cv = chosen@;
    let mut i: usize = 0;
    while i < chosen.len() && func.types.len() < u32::MAX as usize
        invariant
            i <= chosen@.len(),
            cv == chosen@,
            b < f.blocks.len(),
            grown(f, func@),
            keys_in_range(func@, cv),
            i > 0 ==> func@.types.len() > f.types.len(),
            forall|n: nat|
                #[trigger] with_keys(g, b as int, cv, 0, n) == with_keys(
                    func@,
                    b as int,
                    cv,
                    i as int,
                    n + i as nat,
                ),
        decreases chosen@.len() - i,
    {
        let ghost h = func@;
        proof {
            assert forall|k: int| 0 <= k < key_uses(cv[i as int]).len() implies (
            #[trigger] key_uses(cv[i as int])[k]).0 < h.types.len() by {}
            growing_keeps_index(f, h, b as int, cv[i as int]);
        }
        add_key(func, b, chosen[i]);
        proof {
            assert forall|x: int, k: int|
                0 <= x < cv.len() && 0 <= k < key_uses(cv[x]).len() implies (#[trigger] key_uses(
                cv[x],
            )[k]).0 < func@.types.len() by {
                assert(key_uses(cv[x])[k].0 < h.types.len());
            }
            assert forall|n: nat| #[trigger] with_keys(g, b as int, cv, 0, n) == with_keys(
                func@,
                b as int,
                cv,
                i + 1,
                n + (i + 1) as nat,
            ) by {
                assert(with_keys(g, b as int, cv, 0, n) == with_keys(
                    h,
                    b as int,
                    cv,
                    i as int,
                    n + i as nat,
                ));
                assert(n + i as nat + 1 == n + (i + 1) as nat);
            }
        }
        i += 1;
    }
    proof {
        assert forall|n: nat| #[trigger] fork_shared(f, g, b as int, n) == (func@, n + i as nat) by {
            assert(with_keys(g, b as int, cv, 0, n) == with_keys(
                func@,
                b as int,
                cv,
                i as int,
                n + i as nat,
            ));
        }
    }
    i
}

/// Moves to each fork what all of its sides compute. Returns whether something moved.
fn pre_fully_anticipated(func: &mut MirFunc) -> (r: bool)
    requires
        old(func)@.indexed(),
    ensures
        final(func)@ == forks_shared(old(func)@, old(func)@, 0, 0).0,
        r == (forks_shared(old(func)@, old(func)@, 0, 0).1 > 0),
        final(func)@.indexed(),
{
    let ghost f = func@;
    let p = Places { homes: find_homes(func), dom: dominators(func) };
    proof {
        assert forall|v: ValueId| v.0 >= f.types.len() implies #[trigger] f.home(v) is None by {
            unnumbered_values_have_no_home(f, v);
        }
    }
    let n = func.blocks.len();
    let mut moved = false;
    let ghost mut count: nat = 0;
    let mut b: usize = 0;
    while b < n
        invariant
            b <= n,
            n == f.blocks.len(),
            places_of(p, f),
            grown(f, func@),
            moved == (count > 0),
            forks_shared(f, f, 0, 0) == forks_shared(f, func@, b as int, count),
        decreases n - b,
    {
        let ghost g = func@;
        let k = share_fork(func, b, &p, Ghost(f));
        proof {
            assert(fork_shared(f, g, b as int, count) == (func@, count + k as nat));
            count = count + k as nat;
        }
        if k > 0 {
            moved = true;
        }
        b += 1;
    }
    moved
}

/// One round: sharing along dominators, then at forks.
pub open spec fn gvn_rounds(f: FuncV, k: nat, n: nat) -> (FuncV, nat)
    decreases k,
{
    if k == 0 {
        let (g, m) = shared(f, tree_subst(f));
        (g, n + m)
    } else {
        let (g, m) = shared(f, tree_subst(f));
        let (h, inserted) = forks_shared(g, g, 0, 0);
        if inserted == 0 {
            let (e, last) = shared(h, tree_subst(h));
            (e, n + m + last)
        } else {
            gvn_rounds(h, (k - 1) as nat, n + m)
        }
    }
}

/// Shares computations along dominators and at forks, until no fork takes any more, at most four
/// times. Returns how many instructions were substituted.
pub fn gvn(func: &mut MirFunc) -> (r: u64)
    requires
        old(func)@.indexed(),
    ensures
        (final(func)@, r as nat) == gvn_rounds(old(func)@, 4, 0),
        final(func)@.indexed(),
{
    let ghost want = gvn_rounds(func@, 4, 0);
    let mut total: u64 = 0;
    let mut k: u64 = 4;
    let mut going = true;
    while k > 0 && going
        invariant
            k <= 4,
            func@.indexed(),
            total <= (4 - k) * 0x1_0000_0000,
            going ==> want == gvn_rounds(func@, k as nat, total as nat),
            !going ==> want == (
                shared(func@, tree_subst(func@)).0,
                total as nat + shared(func@, tree_subst(func@)).1,
            ),
        decreases k,
    {
        let ghost f = func@;
        proof {
            few_entries(tree_subst(f));
        }
        let removed_now = gvn_dom(func);
        total += removed_now as u64;
        if !pre_fully_anticipated(func) {
            going = false;
        }
        k -= 1;
    }
    proof {
        few_entries(tree_subst(func@));
    }
    let last = gvn_dom(func);
    total + last as u64
}

/// There are no more entries than names.
proof fn few_entries(subst: Map<u32, ValueId>)
    ensures
        entries(subst) <= 0x1_0000_0000,
{
    let q = ascending_ids(subst.dom());
    crate::ids::listing_holds_the_members(subst.dom());
    rising_lists_are_short(q, q.len() as int);
}

proof fn rising_lists_are_short(q: Seq<u32>, n: int)
    requires
        crate::ids::rising(q),
        0 <= n <= q.len(),
    ensures
        n <= 0x1_0000_0000,
        n > 0 ==> q[n - 1] >= n - 1,
    decreases n,
{
    if n > 0 {
        rising_lists_are_short(q, n - 1);
        if n > 1 {
            assert(q[n - 2] < q[n - 1]);
        }
    }
}

// Sharing inside blocks keeps functions valid.

/// What is held at position `b, i`: results of the block's earlier instructions, of the type of
/// what they hold.
spec fn holds_earlier(f: FuncV, s: NumberV, b: int, i: int) -> bool {
    forall|x: int|
        0 <= x < s.avail.len() ==> f.ty((#[trigger] s.avail[x]).1) == key_result(f, s.avail[x].0)
            && !s.subst.dom().contains(s.avail[x].1.0) && defined_before(f, b, i, s.avail[x].1)
            && !f.params.contains(s.avail[x].1)
}

proof fn held_is_available(avail: Seq<(ExprKey, ValueId)>, key: ExprKey, n: int) -> (x: int)
    requires
        n <= avail.len(),
        held(avail, key, n) is Some,
    ensures
        0 <= x < n,
        avail[x] == (key, held(avail, key, n)->0),
    decreases n,
{
    if avail[n - 1].0 == key {
        n - 1
    } else {
        held_is_available(avail, key, n - 1)
    }
}

/// The result of an instruction has the type of what it computes.
proof fn results_have_key_types(f: FuncV, m: Map<u32, ValueId>, b: int, i: int)
    requires
        valid(f),
        has_inst(f, b, i),
        same_types(f, m),
    ensures
        key_of(f.blocks[b].insts[i].renamed(m)) matches Some(key) ==> f.ty(f.blocks[b].insts[i].dest())
            == key_result(f, key) && f.blocks[b].insts[i].dests().len() == 1,
{
    assert(block_valid(f, b));
    assert(inst_valid(f, b, i));
    let inst = f.blocks[b].insts[i];
    renaming_keeps_types(f, f, m, inst, f.preds(b as nat));
}

proof fn seeing_keeps_order(f: FuncV, s: NumberV, b: int, i: int)
    requires
        valid(f),
        has_inst(f, b, i),
        same_types(f, s.subst),
        replaces_earlier(f, s.subst, b, i),
        holds_earlier(f, s, b, i),
    ensures
        same_types(f, s.seen(f.blocks[b].insts[i], None).subst),
        replaces_earlier(f, s.seen(f.blocks[b].insts[i], None).subst, b, i + 1),
        holds_earlier(f, s.seen(f.blocks[b].insts[i], None), b, i + 1),
{
    let inst = f.blocks[b].insts[i];
    let t = s.seen(inst, None);
    let d = inst.dest();
    let m = s.subst;
    let n = t.subst;
    results_have_key_types(f, m, b, i);
    assert(inst.dests()[0] == d);
    assert(defined_at(f, b, i, d));
    assert(ValueId(d.0) == d);
    // the result is new
    if m.dom().contains(d.0) {
        let (p, j) = choose|p: int, j: int| #[trigger] replaced_at(f, m, d.0, p, j, b, i);
        values_are_defined_once(f, b, i, p, j, d);
        assert(false);
    }
    assert(block_valid(f, b));
    assert(inst_valid(f, b, i));
    assert(!defined_before(f, b, i, d));
    assert forall|x: int| 0 <= x < s.avail.len() implies (#[trigger] s.avail[x]).1 != d
        && defined_before(f, b, i + 1, s.avail[x].1) by {
        earlier_is_before(f, b, i, b, i + 1, s.avail[x].1);
    }
    assert forall|k: u32| #[trigger] n.dom().contains(k) implies f.ty(n[k]) == f.ty(ValueId(k)) by {
        if !m.dom().contains(k) {
            let key = key_of(inst.renamed(m))->0;
            let x = held_is_available(s.avail, key, s.avail.len() as int);
        }
    }
    assert forall|k: u32| #[trigger] n.dom().contains(k) implies exists|p: int, j: int| #[trigger]
        replaced_at(f, n, k, p, j, b, i + 1) by {
        if m.dom().contains(k) {
            let (p, j) = choose|p: int, j: int| #[trigger] replaced_at(f, m, k, p, j, b, i);
            earlier_is_before(f, p, j, b, i, m[k]);
            assert(m[k] != d);
            assert(replaced_at(f, n, k, p, j, b, i + 1));
        } else {
            let key = key_of(inst.renamed(m))->0;
            let x = held_is_available(s.avail, key, s.avail.len() as int);
            assert(n[k] == s.avail[x].1);
            assert(replaced_at(f, n, k, b, i, b, i + 1));
        }
    }
    assert forall|x: int| 0 <= x < t.avail.len() implies f.ty((#[trigger] t.avail[x]).1) == key_result(
        f,
        t.avail[x].0,
    ) && !n.dom().contains(t.avail[x].1.0) && defined_before(f, b, i + 1, t.avail[x].1)
        && !f.params.contains(t.avail[x].1) by {
        if x < s.avail.len() {
            assert(t.avail[x] == s.avail[x]);
            assert(ValueId(s.avail[x].1.0) == s.avail[x].1);
        } else {
            values_are_defined_once(f, b, i, b, i, d);
            assert(before(b, i, b, i + 1));
        }
    }
}

proof fn seeing_all_keeps_order(f: FuncV, s: NumberV, b: int, i: int)
    requires
        valid(f),
        0 <= b < f.blocks.len(),
        0 <= i <= f.blocks[b].insts.len(),
        same_types(f, s.subst),
        replaces_earlier(f, s.subst, b, i),
        holds_earlier(f, s, b, i),
    ensures
        same_types(f, s.seen_from(f.blocks[b].insts, None, i).subst),
        replaces_earlier(f, s.seen_from(f.blocks[b].insts, None, i).subst, b + 1, 0),
    decreases f.blocks[b].insts.len() - i,
{
    let insts = f.blocks[b].insts;
    if i < insts.len() {
        assert(has_inst(f, b, i));
        seeing_keeps_order(f, s, b, i);
        seeing_all_keeps_order(f, s.seen(insts[i], None), b, i + 1);
    } else {
        assert forall|k: u32| #[trigger] s.subst.dom().contains(k) implies exists|p: int, j: int|
            #[trigger] replaced_at(f, s.subst, k, p, j, b + 1, 0) by {
            let (p, j) = choose|p: int, j: int| #[trigger] replaced_at(f, s.subst, k, p, j, b, i);
            assert(replaced_at(f, s.subst, k, p, j, b + 1, 0));
        }
    }
}

proof fn numbering_keeps_order(f: FuncV, m: Map<u32, ValueId>, b: int)
    requires
        valid(f),
        0 <= b <= f.blocks.len(),
        same_types(f, m),
        replaces_earlier(f, m, b, 0),
    ensures
        same_types(f, numbered_from(f, m, b)),
        replaces_earlier(f, numbered_from(f, m, b), f.blocks.len() as int, 0),
    decreases f.blocks.len() - b,
{
    if b < f.blocks.len() {
        let s = NumberV { subst: m, avail: Seq::empty() };
        seeing_all_keeps_order(f, s, b, 0);
        numbering_keeps_order(f, s.seen_from(f.blocks[b].insts, None, 0).subst, b + 1);
    }
}

/// Sharing computations inside blocks keeps a function valid.
pub proof fn sharing_in_blocks_keeps_validity(f: FuncV)
    requires
        f.fault() is None,
    ensures
        shared(f, numbered_from(f, Map::empty(), 0)).0.fault() is None,
{
    verification_finds_the_valid_functions(f);
    let none = Map::<u32, ValueId>::empty();
    let m = numbered_from(f, none, 0);
    numbering_keeps_order(f, none, 0);
    replacing_earlier_is_in_order(f, m);
    if m != none {
        substituting_keeps_validity(f, m);
        pruning_keeps_validity(removed(renamed(f, m), m.dom()));
    }
    verification_finds_the_valid_functions(shared(f, m).0);
}

// Sharing along dominators keeps functions valid.

/// `v` is defined in one of the blocks `done`, or in block `b` before instruction `i`.
spec fn settled_at(f: FuncV, v: ValueId, done: Set<int>, b: int, i: int) -> bool {
    exists|p: int, j: int| #[trigger]
        defined_at(f, p, j, v) && (done.contains(p) || (p == b && j < i))
}

/// `k` is the one result of the instruction at `p, j`, and what `m` puts in its place is defined
/// before it and not replaced.
spec fn replaced_there(f: FuncV, m: Map<u32, ValueId>, k: u32, p: int, j: int) -> bool {
    &&& defined_at(f, p, j, ValueId(k))
    &&& f.blocks[p].insts[j].dests().len() == 1
    &&& defined_before(f, p, j, m[k])
    &&& !m.dom().contains(m[k].0)
}

/// Replacements among the blocks `done` and the first `i` instructions of block `b`.
spec fn replaces_settled(f: FuncV, m: Map<u32, ValueId>, done: Set<int>, b: int, i: int) -> bool {
    &&& same_types(f, m)
    &&& forall|k: u32| #[trigger]
        m.dom().contains(k) ==> settled_at(f, ValueId(k), done, b, i) && settled_at(f, m[k], done, b, i)
            && exists|p: int, j: int| #[trigger] replaced_there(f, m, k, p, j)
}

/// Values of the type of what they hold, not replaced, that are there at position `b, i`.
spec fn held_settled(
    f: FuncV,
    avail: Seq<(ExprKey, ValueId)>,
    m: Map<u32, ValueId>,
    done: Set<int>,
    b: int,
    i: int,
) -> bool {
    forall|x: int|
        0 <= x < avail.len() ==> f.ty((#[trigger] avail[x]).1) == key_result(f, avail[x].0)
            && !m.dom().contains(avail[x].1.0) && settled_at(f, avail[x].1, done, b, i)
            && defined_before(f, b, i, avail[x].1)
}

proof fn settled_further(f: FuncV, v: ValueId, done: Set<int>, b: int, i: int)
    requires
        settled_at(f, v, done, b, i),
    ensures
        settled_at(f, v, done, b, i + 1),
{
    let (p, j) = choose|p: int, j: int| #[trigger]
        defined_at(f, p, j, v) && (done.contains(p) || (p == b && j < i));
    assert(defined_at(f, p, j, v) && (done.contains(p) || (p == b && j < i + 1)));
}

/// What is settled is not the result of the next instruction.
proof fn settled_is_old(f: FuncV, v: ValueId, done: Set<int>, b: int, i: int)
    requires
        valid(f),
        has_inst(f, b, i),
        !done.contains(b),
        settled_at(f, v, done, b, i),
    ensures
        v != f.blocks[b].insts[i].dest(),
{
    let d = f.blocks[b].insts[i].dest();
    assert(f.blocks[b].insts[i].dests()[0] == d);
    assert(defined_at(f, b, i, d));
    if v == d {
        let (p, j) = choose|p: int, j: int| #[trigger]
            defined_at(f, p, j, v) && (done.contains(p) || (p == b && j < i));
        values_are_defined_once(f, b, i, p, j, v);
    }
}

proof fn tree_steps(
    f: FuncV,
    s: NumberV,
    home: Option<(FuncV, BlockId)>,
    done: Set<int>,
    b: int,
    i: int,
)
    requires
        valid(f),
        has_inst(f, b, i),
        !done.contains(b),
        replaces_settled(f, s.subst, done, b, i),
        held_settled(f, s.avail, s.subst, done, b, i),
    ensures
        ({
            let t = s.seen(f.blocks[b].insts[i], home);
            &&& replaces_settled(f, t.subst, done, b, i + 1)
            &&& held_settled(f, t.avail, t.subst, done, b, i + 1)
            &&& forall|k: u32| #[trigger]
                t.subst.dom().contains(k) ==> s.subst.dom().contains(k) || defined_at(
                    f,
                    b,
                    i,
                    ValueId(k),
                )
        }),
{
    let inst = f.blocks[b].insts[i];
    let t = s.seen(inst, home);
    let d = inst.dest();
    let m = s.subst;
    let n = t.subst;
    results_have_key_types(f, m, b, i);
    assert(inst.dests()[0] == d);
    assert(defined_at(f, b, i, d));
    assert(ValueId(d.0) == d);
    assert(settled_at(f, d, done, b, i + 1)) by {
        assert(defined_at(f, b, i, d) && (done.contains(b) || (b == b && i < i + 1)));
    }
    assert(defined_before(f, b, i + 1, d)) by {
        assert(before(b, i, b, i + 1));
    }
    if m.dom().contains(d.0) {
        settled_is_old(f, d, done, b, i);
    }
    assert forall|x: int| 0 <= x < s.avail.len() implies (#[trigger] s.avail[x]).1 != d && settled_at(
        f,
        s.avail[x].1,
        done,
        b,
        i + 1,
    ) && defined_before(f, b, i + 1, s.avail[x].1) by {
        settled_is_old(f, s.avail[x].1, done, b, i);
        settled_further(f, s.avail[x].1, done, b, i);
        earlier_is_before(f, b, i, b, i + 1, s.avail[x].1);
    }
    let new = n.dom().contains(d.0);
    if new {
        let key = key_of(inst.renamed(m))->0;
        let x = held_is_available(s.avail, key, s.avail.len() as int);
        assert(n == m.insert(d.0, s.avail[x].1));
        assert(replaced_there(f, n, d.0, b, i)) by {
            assert(s.avail[x].1 != d);
            assert(ValueId(s.avail[x].1.0) == s.avail[x].1);
        }
    } else {
        assert(n == m);
    }
    assert forall|k: u32| #[trigger] n.dom().contains(k) implies f.ty(n[k]) == f.ty(ValueId(k))
        && settled_at(f, ValueId(k), done, b, i + 1) && settled_at(f, n[k], done, b, i + 1) && (exists|
        p: int,
        j: int,
    | #[trigger] replaced_there(f, n, k, p, j)) by {
        if m.dom().contains(k) {
            settled_further(f, ValueId(k), done, b, i);
            settled_further(f, m[k], done, b, i);
            settled_is_old(f, m[k], done, b, i);
            assert(ValueId(m[k].0) == m[k]);
            let (p, j) = choose|p: int, j: int| #[trigger] replaced_there(f, m, k, p, j);
            assert(n[k] == m[k]);
            assert(replaced_there(f, n, k, p, j));
        }
    }
    assert forall|x: int| 0 <= x < t.avail.len() implies f.ty((#[trigger] t.avail[x]).1) == key_result(
        f,
        t.avail[x].0,
    ) && !n.dom().contains(t.avail[x].1.0) && settled_at(f, t.avail[x].1, done, b, i + 1)
        && defined_before(f, b, i + 1, t.avail[x].1) by {
        if x < s.avail.len() {
            assert(t.avail[x] == s.avail[x]);
            assert(ValueId(s.avail[x].1.0) == s.avail[x].1);
        } else {
            assert(t.avail[x].1 == d);
            assert(!new);
        }
    }
}

proof fn tree_block_steps(
    f: FuncV,
    s: NumberV,
    home: Option<(FuncV, BlockId)>,
    done: Set<int>,
    b: int,
    i: int,
)
    requires
        valid(f),
        0 <= b < f.blocks.len(),
        0 <= i <= f.blocks[b].insts.len(),
        !done.contains(b),
        replaces_settled(f, s.subst, done, b, i),
        held_settled(f, s.avail, s.subst, done, b, i),
    ensures
        ({
            let t = s.seen_from(f.blocks[b].insts, home, i);
            let n = f.blocks[b].insts.len() as int;
            &&& replaces_settled(f, t.subst, done, b, n)
            &&& held_settled(f, t.avail, t.subst, done, b, n)
            &&& forall|k: u32| #[trigger]
                t.subst.dom().contains(k) ==> s.subst.dom().contains(k) || exists|j: int| #[trigger]
                    defined_at(f, b, j, ValueId(k))
        }),
    decreases f.blocks[b].insts.len() - i,
{
    let insts = f.blocks[b].insts;
    if i < insts.len() {
        assert(has_inst(f, b, i));
        tree_steps(f, s, home, done, b, i);
        tree_block_steps(f, s.seen(insts[i], home), home, done, b, i + 1);
    }
}

/// What holds at the end of each block, of the blocks `done`.
spec fn outs_settled(
    f: FuncV,
    outs: Seq<Seq<(ExprKey, ValueId)>>,
    m: Map<u32, ValueId>,
    done: Set<int>,
) -> bool {
    &&& outs.len() == f.blocks.len()
    &&& forall|q: int|
        0 <= q < outs.len() ==> held_settled(f, #[trigger] outs[q], m, done, q + 1, 0)
}

/// The closest dominator of each block comes before it.
pub open spec fn parents_come_first(f: FuncV) -> bool {
    forall|b: int|
        0 <= b < f.blocks.len() ==> (#[trigger] parent(f, b) matches Some(p) ==> p < b)
}

/// The deepest of the first `n` blocks is one of them.
pub proof fn nearest_is_a_block(f: FuncV, b: int, n: int)
    ensures
        nearest(f, b, n) matches Some(p) ==> 0 <= p < n,
    decreases n,
{
    if n > 0 {
        nearest_is_a_block(f, b, n - 1);
    }
}

/// What is settled at the end of block `b` is settled once the block is done.
proof fn settled_when_done(f: FuncV, v: ValueId, done: Set<int>, b: int, i: int, c: int)
    requires
        settled_at(f, v, done, b, i),
    ensures
        settled_at(f, v, done.insert(b), c, 0),
{
    let (p, j) = choose|p: int, j: int| #[trigger]
        defined_at(f, p, j, v) && (done.contains(p) || (p == b && j < i));
    assert(defined_at(f, p, j, v) && done.insert(b).contains(p));
}

/// Positions inside a block that is not begun settle nothing.
proof fn settled_anywhere(f: FuncV, v: ValueId, done: Set<int>, b: int, c: int)
    requires
        settled_at(f, v, done, b, 0),
    ensures
        settled_at(f, v, done, c, 0),
{
    let (p, j) = choose|p: int, j: int| #[trigger]
        defined_at(f, p, j, v) && (done.contains(p) || (p == b && j < 0));
    assert(defined_at(f, p, j, v) && done.contains(p));
}

proof fn tree_block(f: FuncV, t: TreeV, done: Set<int>, b: int)
    requires
        valid(f),
        parents_come_first(f),
        0 <= b < f.blocks.len(),
        !done.contains(b),
        replaces_settled(f, t.subst, done, 0, 0),
        outs_settled(f, t.outs, t.subst, done),
    ensures
        ({
            let u = t.block_seen(f, b);
            &&& replaces_settled(f, u.subst, done.insert(b), 0, 0)
            &&& outs_settled(f, u.outs, u.subst, done.insert(b))
        }),
{
    let avail: Seq<(ExprKey, ValueId)> = match parent(f, b) {
        Some(p) => t.outs[p],
        None => Seq::empty(),
    };
    let s = NumberV { subst: t.subst, avail };
    let home = Some((f, BlockId(b as u32)));
    let m = t.subst;
    nearest_is_a_block(f, b, f.blocks.len() as int);
    assert(held_settled(f, avail, m, done, b, 0)) by {
        if let Some(p) = parent(f, b) {
            assert(p < b);
            assert(held_settled(f, t.outs[p], m, done, p + 1, 0));
            assert forall|x: int| 0 <= x < avail.len() implies settled_at(
                f,
                (#[trigger] avail[x]).1,
                done,
                b,
                0,
            ) && defined_before(f, b, 0, avail[x].1) by {
                settled_anywhere(f, avail[x].1, done, p + 1, b);
                if p + 1 < b {
                    earlier_is_before(f, p + 1, 0, b, 0, avail[x].1);
                }
            }
        }
    }
    assert forall|k: u32| #[trigger] m.dom().contains(k) implies settled_at(
        f,
        ValueId(k),
        done,
        b,
        0,
    ) && settled_at(f, m[k], done, b, 0) by {
        settled_anywhere(f, ValueId(k), done, 0, b);
        settled_anywhere(f, m[k], done, 0, b);
    }
    tree_block_steps(f, s, home, done, b, 0);
    let e = s.seen_from(f.blocks[b].insts, home, 0);
    let n = f.blocks[b].insts.len() as int;
    let now = done.insert(b);
    assert forall|k: u32| #[trigger] e.subst.dom().contains(k) implies settled_at(
        f,
        ValueId(k),
        now,
        0,
        0,
    ) && settled_at(f, e.subst[k], now, 0, 0) by {
        settled_when_done(f, ValueId(k), done, b, n, 0);
        settled_when_done(f, e.subst[k], done, b, n, 0);
    }
    let outs = t.outs.update(b, e.avail);
    assert forall|q: int| 0 <= q < outs.len() implies held_settled(
        f,
        #[trigger] outs[q],
        e.subst,
        now,
        q + 1,
        0,
    ) by {
        let a = outs[q];
        assert forall|x: int| 0 <= x < a.len() implies f.ty((#[trigger] a[x]).1) == key_result(f, a[x].0)
            && !e.subst.dom().contains(a[x].1.0) && settled_at(f, a[x].1, now, q + 1, 0)
            && defined_before(f, q + 1, 0, a[x].1) by {
            let v = a[x].1;
            assert(ValueId(v.0) == v);
            if q == b {
                settled_when_done(f, v, done, b, n, q + 1);
                block_end_defines(f, b, v);
            } else {
                assert(held_settled(f, t.outs[q], m, done, q + 1, 0));
                assert(a[x] == t.outs[q][x]);
                settled_when_done(f, v, done, q + 1, 0, q + 1);
                let (p, j) = choose|p: int, j: int| #[trigger]
                    defined_at(f, p, j, v) && (done.contains(p) || (p == q + 1 && j < 0));
                assert(done.contains(p));
                assert(settled_at(f, v, now, q + 1, 0)) by {
                    assert(defined_at(f, p, j, v) && now.contains(p));
                }
                if e.subst.dom().contains(v.0) && !m.dom().contains(v.0) {
                    let y = choose|y: int| #[trigger] defined_at(f, b, y, ValueId(v.0));
                    values_are_defined_once(f, p, j, b, y, v);
                }
            }
        }
    }
}

/// Blocks of depth below `d`, and of depth `d` before `b`.
spec fn blocks_done(f: FuncV, d: int, b: int) -> Set<int> {
    Set::new(|x: int| 0 <= x < f.blocks.len() && (depth(f, x) < d || (depth(f, x) == d && x < b)))
}

proof fn tree_walks(f: FuncV, t: TreeV, d: int, b: int) -> (done: Set<int>)
    requires
        valid(f),
        parents_come_first(f),
        0 <= d,
        0 <= b,
        replaces_settled(f, t.subst, blocks_done(f, d, b), 0, 0),
        outs_settled(f, t.outs, t.subst, blocks_done(f, d, b)),
    ensures
        replaces_settled(f, t.seen_from(f, d, b).subst, done, 0, 0),
    decreases f.blocks.len() + 1 - d, f.blocks.len() + 1 - b,
{
    if d > f.blocks.len() {
        blocks_done(f, d, b)
    } else if b >= f.blocks.len() {
        assert(blocks_done(f, d, b) =~= blocks_done(f, d + 1, 0));
        tree_walks(f, t, d + 1, 0)
    } else if depth(f, b) == d {
        tree_block(f, t, blocks_done(f, d, b), b);
        assert(blocks_done(f, d, b).insert(b) =~= blocks_done(f, d, b + 1));
        tree_walks(f, t.block_seen(f, b), d, b + 1)
    } else {
        assert(blocks_done(f, d, b) =~= blocks_done(f, d, b + 1));
        tree_walks(f, t, d, b + 1)
    }
}

/// Sharing computations along dominators keeps a function valid, where the closest dominator of
/// each block comes before it in the code.
pub proof fn sharing_along_dominators_keeps_validity(f: FuncV)
    requires
        f.fault() is None,
        parents_come_first(f),
    ensures
        shared(f, tree_subst(f)).0.fault() is None,
        f.indexed() ==> shared(f, tree_subst(f)).0.indexed(),
{
    verification_finds_the_valid_functions(f);
    let none = Map::<u32, ValueId>::empty();
    let m = tree_subst(f);
    let t = empty_tree(f);
    assert(outs_settled(f, t.outs, t.subst, blocks_done(f, 0, 0)));
    let done = tree_walks(f, t, 0, 0);
    assert forall|k: u32| #[trigger] m.dom().contains(k) implies !f.params.contains(ValueId(k))
        && !m.dom().contains(m[k].0) by {
        let (p, j) = choose|p: int, j: int| #[trigger] replaced_there(f, m, k, p, j);
        values_are_defined_once(f, p, j, p, j, ValueId(k));
    }
    assert forall|k: u32, b: int, i: int|
        #![trigger m.dom().contains(k), has_inst(f, b, i)]
        m.dom().contains(k) && defined_at(f, b, i, ValueId(k)) implies f.blocks[b].insts[i].dests().len()
        == 1 && defined_before(f, b, i, m[k]) by {
        let (p, j) = choose|p: int, j: int| #[trigger] replaced_there(f, m, k, p, j);
        values_are_defined_once(f, p, j, b, i, ValueId(k));
    }
    if m != none {
        substituting_keeps_validity(f, m);
        pruning_keeps_validity(removed(renamed(f, m), m.dom()));
        if f.indexed() {
            assert forall|k: u32| #[trigger] m.dom().contains(k) implies m[k].0 < f.types.len() by {
                let (p, j) = choose|p: int, j: int| #[trigger] replaced_there(f, m, k, p, j);
                assert(has_inst(f, p, j));
                assert(defined_before(f, p, j, m[k]));
                defined_is_in_range(f, p, j, m[k]);
            }
            renaming_keeps_index(f, m);
            removing_keeps_index(renamed(f, m), m.dom());
            pruning_keeps_index(removed(renamed(f, m), m.dom()));
        }
    }
    verification_finds_the_valid_functions(shared(f, m).0);
}

// What sharing inside blocks keeps.

/// There is one entry for each key.
pub proof fn entries_are_counted(m: Map<u32, ValueId>)
    ensures
        m.dom().finite(),
        entries(m) == m.dom().len(),
{
    let q = ascending_ids(m.dom());
    listing_holds_the_members(m.dom());
    assert(q.to_set() =~= m.dom());
    assert(q.no_duplicates());
    q.unique_seq_to_set();
}

/// Every value that is substituted is a first result in the code.
spec fn replaces_results(f: FuncV, m: Map<u32, ValueId>) -> bool {
    forall|k: u32| #[trigger]
        m.dom().contains(k) ==> exists|b: int, i: int| #[trigger] gives(f, any(), b, i, k)
}

proof fn numbering_replaces_results(f: FuncV, n: NumberV, b: int, i: int)
    requires
        0 <= b < f.blocks.len(),
        0 <= i,
        replaces_results(f, n.subst),
    ensures
        replaces_results(f, n.seen_from(f.blocks[b].insts, None, i).subst),
    decreases f.blocks[b].insts.len() - i,
{
    let insts = f.blocks[b].insts;
    if i < insts.len() {
        let m = n.seen(insts[i], None);
        assert(insts[i].renamed(n.subst).dest() == insts[i].dest());
        assert forall|k: u32| #[trigger] m.subst.dom().contains(k) implies exists|c: int, j: int| #[trigger]
            gives(f, any(), c, j, k) by {
            if n.subst.dom().contains(k) {
            } else {
                assert(gives(f, any(), b, i, k));
            }
        }
        numbering_replaces_results(f, m, b, i + 1);
    }
}

proof fn blocks_replace_results(f: FuncV, m: Map<u32, ValueId>, b: int)
    requires
        0 <= b,
        replaces_results(f, m),
    ensures
        replaces_results(f, numbered_from(f, m, b)),
    decreases f.blocks.len() - b,
{
    if b < f.blocks.len() {
        let n = NumberV { subst: m, avail: Seq::empty() };
        numbering_replaces_results(f, n, b, 0);
        blocks_replace_results(f, n.seen_from(f.blocks[b].insts, None, 0).subst, b + 1);
    }
}

/// Blocks that control may go to from `b`.
pub open spec fn successors(b: BlockV) -> Seq<BlockId> {
    match b.term {
        Some(t) => t.targets(),
        None => Seq::empty(),
    }
}

/// Sharing inside blocks keeps the parameters, the result type, the blocks and where each leads.
/// It removes at least as many instructions as it reports, and where it reports none nothing
/// changed.
pub proof fn sharing_in_blocks_removes_what_it_reports(f: FuncV)
    ensures
        ({
            let (g, n) = shared(f, numbered_from(f, Map::empty(), 0));
            &&& g.params == f.params
            &&& g.ret_ty == f.ret_ty
            &&& g.blocks.len() == f.blocks.len()
            &&& forall|b: int|
                0 <= b < f.blocks.len() ==> successors(#[trigger] g.blocks[b]) == successors(f.blocks[b])
            &&& size(g) + n <= size(f)
            &&& n == 0 ==> g == f
        }),
{
    let none = Map::<u32, ValueId>::empty();
    let m = numbered_from(f, none, 0);
    let all = any();
    blocks_replace_results(f, none, 0);
    entries_are_counted(m);
    if m != none {
        let h = renamed(f, m);
        let g = removed(h, m.dom());
        if m.dom().len() == 0 {
            assert(m =~= none);
        }
        renaming_keeps_count(f, m, all, 0);
        assert forall|k: u32| #[trigger] m.dom().contains(k) implies exists|b: int, i: int| #[trigger] gives(
            h,
            all,
            b,
            i,
            k,
        ) by {
            let (b, i) = choose|b: int, i: int| #[trigger] gives(f, any(), b, i, k);
            assert(h.blocks[b].insts[i] == f.blocks[b].insts[i].renamed(m));
            assert(gives(h, all, b, i, k));
        }
        removing_counts(h, m.dom(), all);
        pruning_counts(g, all, 0);
    }
}

} // verus!

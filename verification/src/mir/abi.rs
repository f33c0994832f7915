//! Typed call ABI of dense bodies: arguments in slots `0..arity`, one word back.
//!
//! A body that returns two words has no such ABI.
use super::func::{FuncV, MirFunc};
use super::inst::ValueId;
use super::layout::MirLayout;
use super::ty::MirTy;
use crate::idmap::IdMap;
use crate::il::op::{IlOp, Instruction};
use vstd::prelude::*;

verus! {

/// One-word callee signature.
#[derive(Debug, PartialEq, Eq)]
pub struct DenseAbi {
    pub params: Vec<MirTy>,
    pub ret: MirTy,
}

/// Mathematical form of [`DenseAbi`].
#[verifier::ext_equal]
pub struct AbiV {
    pub params: Seq<MirTy>,
    pub ret: MirTy,
}

impl View for DenseAbi {
    type V = AbiV;

    open spec fn view(&self) -> AbiV {
        AbiV { params: self.params@, ret: self.ret }
    }
}

/// Entry label to callee signature.
pub type DenseCallMap = IdMap<DenseAbi>;

pub open spec fn calls_view(m: Map<u32, DenseAbi>) -> Map<u32, AbiV> {
    Map::new(|k: u32| m.dom().contains(k), |k: u32| m[k]@)
}

/// The view of an optional signature.
pub open spec fn abi_view(o: Option<DenseAbi>) -> Option<AbiV> {
    match o {
        Some(a) => Some(a@),
        None => None,
    }
}

/// Types of the parameters.
pub open spec fn param_types(f: FuncV) -> Seq<MirTy> {
    f.params.map_values(|p: ValueId| f.ty(p))
}

/// Whether every type takes one word.
pub open spec fn all_lanes(tys: Seq<MirTy>) -> bool {
    forall|i: int| 0 <= i < tys.len() ==> (#[trigger] tys[i]).specialized()
}

/// The signature of a function that returns one word.
pub open spec fn func_abi(f: FuncV) -> Option<AbiV> {
    if !(f.ret_layout is Word || f.ret_layout is HeapNiche) {
        None
    } else {
        match f.ret_ty {
            Some(ret) => if ret.specialized() && all_lanes(param_types(f)) {
                Some(AbiV { params: param_types(f), ret })
            } else {
                None
            },
            None => None,
        }
    }
}

// Slots that a body reads first.

/// Slots that an operation reads.
pub open spec fn slots_read(op: IlOp) -> Seq<u32> {
    match op {
        IlOp::Load { slot, .. } | IlOp::LoadReturnSlot { slot, .. } => seq![slot],
        IlOp::BinSlotImm { slot, .. } => seq![slot as u32],
        IlOp::BinSlotSlot { a, b, .. } => seq![a as u32, b as u32],
        IlOp::Byte { byte, .. } => if byte.inst is INC || byte.inst is DEC {
            seq![byte.inc_dec().0]
        } else {
            Seq::empty()
        },
        _ => Seq::empty(),
    }
}

/// Whether one of the first `n` operations stores to the slot.
pub open spec fn stored_before(ops: Seq<IlOp>, slot: u32, n: int) -> bool {
    exists|j: int| 0 <= j < n && #[trigger] stores_slot(ops[j], slot)
}

pub open spec fn stores_slot(op: IlOp, slot: u32) -> bool {
    match op {
        IlOp::StorePop { slot: s, .. } => s == slot,
        _ => false,
    }
}

/// Whether one of the first `n` operations reads the slot before any stores to it.
pub open spec fn live_in_below(ops: Seq<IlOp>, slot: u32, n: int) -> bool {
    exists|i: int|
        0 <= i < n && #[trigger] slots_read(ops[i]).contains(slot) && !stored_before(ops, slot, i)
}

/// Whether the body reads the slot before it stores to it.
pub open spec fn live_in(ops: Seq<IlOp>, slot: u32) -> bool {
    live_in_below(ops, slot, ops.len() as int)
}

/// Whether the slots that the body reads first are those below `n`.
pub open spec fn live_prefix(ops: Seq<IlOp>, n: int) -> bool {
    forall|s: u32| #[trigger] live_in(ops, s) <==> s < n
}

/// Types of the slots from `i` to `n`; none where one is unknown or takes no single word.
pub open spec fn slot_types(slot_ty: Map<u32, MirTy>, n: int, i: int) -> Option<Seq<MirTy>>
    decreases n - i,
{
    if i >= n {
        Some(Seq::empty())
    } else if slot_ty.dom().contains(i as u32) && slot_ty[i as u32].specialized() {
        match slot_types(slot_ty, n, i + 1) {
            Some(rest) => Some(seq![slot_ty[i as u32]] + rest),
            None => None,
        }
    } else {
        None
    }
}

/// Types of the arguments: of the slots `0..n` where those are what the body reads first.
pub open spec fn live_params(ops: Seq<IlOp>, slot_ty: Map<u32, MirTy>) -> Option<Seq<MirTy>> {
    if exists|n: int| 0 <= n <= 0x1_0000_0000 && #[trigger] live_prefix(ops, n) {
        slot_types(
            slot_ty,
            choose|n: int| 0 <= n <= 0x1_0000_0000 && #[trigger] live_prefix(ops, n),
            0,
        )
    } else {
        None
    }
}

/// There is at most one number of arguments.
pub proof fn argument_count_is_unique(ops: Seq<IlOp>, a: int, b: int)
    requires
        0 <= a <= 0x1_0000_0000,
        0 <= b <= 0x1_0000_0000,
        live_prefix(ops, a),
        live_prefix(ops, b),
    ensures
        a == b,
{
    if a < b {
        assert(live_in(ops, a as u32));
    } else if b < a {
        assert(live_in(ops, b as u32));
    }
}

/// What a walk over the operations knows of their slots.
struct SlotWalk {
    stored: IdMap<()>,
    live: IdMap<()>,
}

spec fn walked(w: SlotWalk, ops: Seq<IlOp>, n: int) -> bool {
    &&& forall|s: u32| #[trigger] w.stored@.dom().contains(s) <==> stored_before(ops, s, n)
    &&& forall|s: u32| #[trigger] w.live@.dom().contains(s) <==> live_in_below(ops, s, n)
}

fn read_slots(op: &IlOp) -> (r: Vec<u32>)
    ensures
        r@ == slots_read(*op),
{
    let mut r: Vec<u32> = Vec::new();
    match op {
        IlOp::Load { slot, .. } | IlOp::LoadReturnSlot { slot, .. } => {
            r.push(*slot);
        },
        IlOp::BinSlotImm { slot, .. } => {
            r.push(*slot as u32);
        },
        IlOp::BinSlotSlot { a, b, .. } => {
            r.push(*a as u32);
            r.push(*b as u32);
        },
        IlOp::Byte { byte, .. } => {
            if *byte.bytecode() == Instruction::INC || *byte.bytecode() == Instruction::DEC {
                r.push(byte.inc_dec_parts().0);
            }
        },
        _ => {},
    }
    assert(r@ =~= slots_read(*op));
    r
}

fn walk_op(w: &mut SlotWalk, ops: &[IlOp], i: usize)
    requires
        i < ops@.len(),
        walked(*old(w), ops@, i as int),
    ensures
        walked(*final(w), ops@, i + 1),
{
    let ghost w0 = *w;
    let rs = read_slots(&ops[i]);
    let mut k: usize = 0;
    while k < rs.len()
        invariant
            k <= rs@.len(),
            i < ops@.len(),
            rs@ == slots_read(ops@[i as int]),
            w.stored == w0.stored,
            walked(w0, ops@, i as int),
            forall|s: u32|
                #[trigger] w.live@.dom().contains(s) <==> (w0.live@.dom().contains(s) || (exists|x: int|
                    0 <= x < k && #[trigger] rs@[x] == s) && !w0.stored@.dom().contains(s)),
        decreases rs@.len() - k,
    {
        let ghost l0 = w.live@;
        let s = rs[k];
        if !w.stored.contains_key(&s) {
            w.live.insert(s, ());
        }
        proof {
            assert forall|t: u32|
                #[trigger] w.live@.dom().contains(t) <==> (w0.live@.dom().contains(t) || (exists|x: int|
                    0 <= x < k + 1 && #[trigger] rs@[x] == t) && !w0.stored@.dom().contains(t)) by {
                if t == s {
                    assert(rs@[k as int] == t);
                } else {
                    assert(w.live@.dom().contains(t) == l0.dom().contains(t));
                    if exists|x: int| 0 <= x < k + 1 && #[trigger] rs@[x] == t {
                        let x = choose|x: int| 0 <= x < k + 1 && #[trigger] rs@[x] == t;
                        assert(x < k);
                    }
                }
            }
        }
        k += 1;
    }
    let ghost live1 = w.live@;
    if let IlOp::StorePop { slot, .. } = &ops[i] {
        w.stored.insert(*slot, ());
    }
    proof {
        assert forall|s: u32|
            #[trigger] w.stored@.dom().contains(s) <==> stored_before(ops@, s, i + 1) by {
            assert(w0.stored@.dom().contains(s) <==> stored_before(ops@, s, i as int));
            if stored_before(ops@, s, i as int) {
                let j = choose|j: int| 0 <= j < i && #[trigger] stores_slot(ops@[j], s);
                assert(stores_slot(ops@[j], s));
            }
            if stores_slot(ops@[i as int], s) {
                assert(stored_before(ops@, s, i + 1));
            }
        }
        assert forall|s: u32|
            #[trigger] w.live@.dom().contains(s) <==> live_in_below(ops@, s, i + 1) by {
            assert(w0.live@.dom().contains(s) <==> live_in_below(ops@, s, i as int));
            assert(w0.stored@.dom().contains(s) <==> stored_before(ops@, s, i as int));
            if live_in_below(ops@, s, i as int) {
                let p = choose|p: int|
                    0 <= p < i && #[trigger] slots_read(ops@[p]).contains(s) && !stored_before(
                        ops@,
                        s,
                        p,
                    );
                assert(slots_read(ops@[p]).contains(s));
            }
            if slots_read(ops@[i as int]).contains(s) {
                let x = rs@.index_of(s);
                assert(rs@[x] == s);
            }
            if exists|x: int| 0 <= x < rs@.len() && #[trigger] rs@[x] == s {
                assert(slots_read(ops@[i as int]).contains(s));
            }
        }
    }
}

fn collect_types(slot_ty: &IdMap<MirTy>, n: u64) -> (r: Option<Vec<MirTy>>)
    requires
        n <= 0x1_0000_0000,
    ensures
        (match r {
            Some(v) => Some(v@),
            None => None,
        }) == slot_types(slot_ty@, n as int, 0),
{
    let ghost st = slot_ty@;
    let mut params: Vec<MirTy> = Vec::new();
    let mut i: u64 = 0;
    while i < n
        invariant
            i <= n <= 0x1_0000_0000,
            st == slot_ty@,
            slot_types(st, n as int, 0) == (match slot_types(st, n as int, i as int) {
                Some(rest) => Some(params@ + rest),
                None => None,
            }),
        decreases n - i,
    {
        let ghost p0 = params@;
        match slot_ty.get(&(i as u32)) {
            Some(ty) => {
                let ty = *ty;
                if !ty.is_word_lane() {
                    return None;
                }
                params.push(ty);
                proof {
                    if let Some(rest) = slot_types(st, n as int, i + 1) {
                        assert(params@ + rest =~= p0 + (seq![ty] + rest));
                    }
                }
            },
            None => {
                return None;
            },
        }
        i += 1;
    }
    assert(params@ + Seq::<MirTy>::empty() =~= params@);
    Some(params)
}

/// Types of the arguments of a body: of the slots `0..n` that it reads before it stores to them.
/// None where those are not a prefix, or where a type is unknown or takes no single word.
pub fn live_in_params(ops: &[IlOp], slot_ty: &IdMap<MirTy>) -> (r: Option<Vec<MirTy>>)
    ensures
        (match r {
            Some(v) => Some(v@),
            None => None,
        }) == live_params(ops@, slot_ty@),
{
    let mut w = SlotWalk { stored: IdMap::new(), live: IdMap::new() };
    let mut i: usize = 0;
    assert(walked(w, ops@, 0));
    while i < ops.len()
        invariant
            i <= ops@.len(),
            walked(w, ops@, i as int),
        decreases ops@.len() - i,
    {
        walk_op(&mut w, ops, i);
        i += 1;
    }
    let keys = w.live.keys();
    proof {
        crate::ids::listing_holds_the_members(w.live@.dom());
        assert forall|s: u32| #[trigger] live_in(ops@, s) <==> keys@.contains(s) by {
            assert(w.live@.dom().contains(s) <==> live_in_below(ops@, s, ops@.len() as int));
            assert(keys@.contains(s) <==> w.live@.dom().contains(s));
        }
    }
    let n = keys.len();
    let mut k: usize = 0;
    while k < n
        invariant
            k <= n,
            n == keys@.len(),
            crate::ids::rising(keys@),
            forall|s: u32| #[trigger] live_in(ops@, s) <==> keys@.contains(s),
            forall|x: int| 0 <= x < k ==> #[trigger] keys@[x] == x,
            k <= 0x1_0000_0000,
        decreases n - k,
    {
        if keys[k] as usize != k {
            proof {
                gap_means_no_prefix(ops@, keys@, k as int);
            }
            return None;
        }
        k += 1;
    }
    proof {
        assert(live_prefix(ops@, n as int)) by {
            assert forall|s: u32| #[trigger] live_in(ops@, s) <==> s < n by {
                if s < n {
                    assert(keys@[s as int] == s);
                }
                if keys@.contains(s) {
                    let x = keys@.index_of(s);
                    assert(keys@[x] == x);
                }
            }
        }
        let m = choose|m: int| 0 <= m <= 0x1_0000_0000 && #[trigger] live_prefix(ops@, m);
        argument_count_is_unique(ops@, m, n as int);
    }
    collect_types(slot_ty, n as u64)
}

proof fn gap_means_no_prefix(ops: Seq<IlOp>, keys: Seq<u32>, k: int)
    requires
        crate::ids::rising(keys),
        forall|s: u32| #[trigger] live_in(ops, s) <==> keys.contains(s),
        0 <= k < keys.len(),
        forall|x: int| 0 <= x < k ==> #[trigger] keys[x] == x,
        keys[k] != k,
    ensures
        !exists|n: int| 0 <= n <= 0x1_0000_0000 && #[trigger] live_prefix(ops, n),
{
    if exists|n: int| 0 <= n <= 0x1_0000_0000 && #[trigger] live_prefix(ops, n) {
        let n = choose|n: int| 0 <= n <= 0x1_0000_0000 && #[trigger] live_prefix(ops, n);
        assert(keys.contains(keys[k]));
        assert(live_in(ops, keys[k]));
        assert(keys[k] < n);
        if k > 0 {
            assert(keys[k - 1] < keys[k]);
            assert(keys[k - 1] == k - 1);
        }
        assert(k < keys[k]);
        assert(live_in(ops, k as u32));
        let x = keys.index_of(k as u32);
        if x < k {
            assert(keys[x] == x);
        } else if x > k {
            assert(keys[k] < keys[x]);
        }
    }
}

impl DenseAbi {
    /// The signature of a function that returns one word and takes words.
    pub fn from_func(func: &MirFunc) -> (r: Option<Self>)
        ensures
            abi_view(r) == func_abi(func@),
    {
        if !matches!(func.ret_layout, MirLayout::Word | MirLayout::HeapNiche) {
            return None;
        }
        let ret = match func.ret_ty {
            Some(t) => t,
            None => return None,
        };
        if !ret.is_word_lane() {
            return None;
        }
        let ghost f = func@;
        let mut params: Vec<MirTy> = Vec::new();
        let mut i: usize = 0;
        while i < func.params.len()
            invariant
                i <= func.params@.len(),
                f == func@,
                params@.len() == i,
                forall|k: int|
                    0 <= k < i ==> #[trigger] params@[k] == param_types(f)[k] && params@[k].specialized(),
            decreases func.params@.len() - i,
        {
            let ty = func.ty(func.params[i]);
            if !ty.is_word_lane() {
                assert(!param_types(f)[i as int].specialized());
                return None;
            }
            params.push(ty);
            i += 1;
        }
        assert(params@ =~= param_types(f));
        Some(DenseAbi { params, ret })
    }

    /// The signature of a function; where it declares no parameters, those that its body reads.
    pub fn from_func_and_live_ins(func: &MirFunc, ops: &[IlOp], slot_ty: &IdMap<MirTy>) -> (r: Option<
        Self,
    >)
        ensures
            abi_view(r) == body_abi(func@, ops@, slot_ty@),
    {
        let mut abi = match Self::from_func(func) {
            Some(a) => a,
            None => return None,
        };
        if abi.params.len() == 0 {
            if let Some(params) = live_in_params(ops, slot_ty) {
                abi.params = params;
            }
        }
        Some(abi)
    }
}

/// The signature of a function whose body is `ops`.
pub open spec fn body_abi(f: FuncV, ops: Seq<IlOp>, slot_ty: Map<u32, MirTy>) -> Option<AbiV> {
    match func_abi(f) {
        Some(a) => if a.params.len() == 0 {
            match live_params(ops, slot_ty) {
                Some(params) => Some(AbiV { params, ret: a.ret }),
                None => Some(a),
            }
        } else {
            Some(a)
        },
        None => None,
    }
}

fn copy_types(s: &Vec<MirTy>) -> (r: Vec<MirTy>)
    ensures
        r@ == s@,
{
    let mut r: Vec<MirTy> = Vec::new();
    let mut i: usize = 0;
    while i < s.len()
        invariant
            i <= s@.len(),
            r@ == s@.take(i as int),
        decreases s@.len() - i,
    {
        r.push(s[i]);
        i += 1;
        assert(r@ =~= s@.take(i as int));
    }
    assert(r@ =~= s@);
    r
}

/// Copy of a call map.
pub fn copy_calls(calls: &DenseCallMap) -> (r: DenseCallMap)
    ensures
        calls_view(r@) == calls_view(calls@),
{
    let ks = calls.keys();
    proof {
        crate::ids::listing_holds_the_members(calls@.dom());
    }
    let mut r: DenseCallMap = IdMap::new();
    let mut i: usize = 0;
    while i < ks.len()
        invariant
            i <= ks@.len(),
            forall|k: u32| calls@.dom().contains(k) <==> #[trigger] ks@.contains(k),
            forall|k: u32|
                #[trigger] r@.dom().contains(k) <==> (exists|x: int| 0 <= x < i && #[trigger] ks@[x] == k),
            forall|k: u32|
                #[trigger] r@.dom().contains(k) ==> calls@.dom().contains(k) && r@[k]@ == calls@[k]@,
        decreases ks@.len() - i,
    {
        let k = ks[i];
        assert(ks@.contains(ks@[i as int]));
        if let Some(a) = calls.get(&k) {
            r.insert(k, DenseAbi { params: copy_types(&a.params), ret: a.ret });
        }
        i += 1;
    }
    proof {
        assert forall|k: u32| r@.dom().contains(k) == calls@.dom().contains(k) by {
            if calls@.dom().contains(k) {
                assert(ks@.contains(k));
                assert(ks@[ks@.index_of(k)] == k);
            }
        }
        assert(calls_view(r@) =~= calls_view(calls@));
    }
    r
}

} // verus!

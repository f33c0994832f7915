//! Queries on the instructions of a function.
use super::func::{BlockV, FuncV, MirFunc};
use super::inst::{has_id, BlockId, InstV, MirInst, TermV, Terminator, ValueId};
use vstd::prelude::*;

verus! {

impl FuncV {
    /// Every value, block and target that the function mentions exists, and
    /// block `i` stands at position `i`.
    pub open spec fn indexed(self) -> bool {
        &&& self.entry.0 < self.blocks.len()
        &&& self.blocks.len() <= u32::MAX
        &&& self.types.len() <= u32::MAX
        &&& forall|i: int| 0 <= i < self.params.len() ==> (#[trigger] self.params[i]).0 < self.types.len()
        &&& forall|b: int| 0 <= b < self.blocks.len() ==> self.block_indexed(#[trigger] self.blocks[b], b)
    }

    pub open spec fn block_indexed(self, block: BlockV, b: int) -> bool {
        &&& block.id.0 == b
        &&& forall|i: int| 0 <= i < block.insts.len() ==> self.inst_indexed(#[trigger] block.insts[i])
        &&& block.term is Some ==> self.term_indexed(block.term->0)
    }

    pub open spec fn inst_indexed(self, inst: InstV) -> bool {
        &&& inst.dest().0 < self.types.len()
        &&& forall|k: int| 0 <= k < inst.dests().len() ==> (#[trigger] inst.dests()[k]).0 < self.types.len()
        &&& forall|k: int| 0 <= k < inst.uses().len() ==> (#[trigger] inst.uses()[k]).0 < self.types.len()
    }

    pub open spec fn term_indexed(self, term: TermV) -> bool {
        &&& forall|k: int| 0 <= k < term.targets().len() ==> (#[trigger] term.targets()[k]).0 < self.blocks.len()
        &&& forall|k: int| 0 <= k < term.uses().len() ==> (#[trigger] term.uses()[k]).0 < self.types.len()
    }

    /// Some instruction reads `v`.
    pub open spec fn read_by_inst(self, v: ValueId) -> bool {
        exists|b: int, i: int|
            0 <= b < self.blocks.len() && 0 <= i < self.blocks[b].insts.len() && (
            #[trigger] self.blocks[b].insts[i]).uses().contains(v)
    }

    pub open spec fn param(self, i: int) -> bool {
        exists|k: int| 0 <= k < self.params.len() && (#[trigger] self.params[k]).0 == i
    }

    /// Last definition of `v` among the first `b` blocks.
    pub open spec fn def_below(self, v: ValueId, b: nat) -> Option<(BlockId, nat)>
        decreases b,
    {
        if b == 0 {
            None
        } else {
            match def_in(self.blocks[b - 1].insts, v, self.blocks[b - 1].insts.len()) {
                Some(i) => Some((self.blocks[b - 1].id, i)),
                None => self.def_below(v, (b - 1) as nat),
            }
        }
    }

    /// Block and position of the definition of `v`.
    pub open spec fn def(self, v: ValueId) -> Option<(BlockId, nat)> {
        self.def_below(v, self.blocks.len())
    }

    /// Instruction that defines `v`.
    pub open spec fn def_inst(self, v: ValueId) -> Option<InstV> {
        match self.def(v) {
            Some(p) => Some(self.blocks[p.0.0 as int].insts[p.1 as int]),
            None => None,
        }
    }

    /// Block that `v` is defined in; parameters live in the entry block.
    pub open spec fn home(self, v: ValueId) -> Option<BlockId> {
        match self.def(v) {
            Some(p) => Some(p.0),
            None => if self.param(v.0 as int) {
                Some(self.entry)
            } else {
                None
            },
        }
    }

    /// First instruction from block `b` on whose first result is `d`.
    pub open spec fn first_def(self, d: ValueId, b: nat) -> Option<InstV>
        decreases self.blocks.len() - b,
    {
        if b >= self.blocks.len() {
            None
        } else {
            match first_in(self.blocks[b as int].insts, d, 0) {
                Some(i) => Some(self.blocks[b as int].insts[i as int]),
                None => self.first_def(d, b + 1),
            }
        }
    }
}

/// Last of the first `k` instructions that defines `v`.
pub open spec fn def_in(insts: Seq<InstV>, v: ValueId, k: nat) -> Option<nat>
    decreases k,
{
    if k == 0 {
        None
    } else if insts[k - 1].dests().contains(v) {
        Some((k - 1) as nat)
    } else {
        def_in(insts, v, (k - 1) as nat)
    }
}

/// First instruction from `i` on whose first result is `d`.
pub open spec fn first_in(insts: Seq<InstV>, d: ValueId, i: nat) -> Option<nat>
    decreases insts.len() - i,
{
    if i >= insts.len() {
        None
    } else if insts[i as int].dest() == d {
        Some(i)
    } else {
        first_in(insts, d, i + 1)
    }
}

/// `def_in` finds a position that defines `v`.
pub proof fn def_in_hit(insts: Seq<InstV>, v: ValueId, k: nat)
    requires
        k <= insts.len(),
    ensures
        match def_in(insts, v, k) {
            Some(i) => i < k && insts[i as int].dests().contains(v),
            None => forall|i: int| 0 <= i < k ==> !(#[trigger] insts[i]).dests().contains(v),
        },
    decreases k,
{
    if k > 0 {
        if !insts[k - 1].dests().contains(v) {
            def_in_hit(insts, v, (k - 1) as nat);
        }
    }
}

/// A definition that `def_below` finds is one.
pub proof fn def_below_hit(f: FuncV, v: ValueId, b: nat)
    requires
        b <= f.blocks.len(),
        forall|x: int| 0 <= x < f.blocks.len() ==> (#[trigger] f.blocks[x]).id.0 == x,
    ensures
        match f.def_below(v, b) {
            Some(p) => p.0.0 < b && p.1 < f.blocks[p.0.0 as int].insts.len()
                && f.blocks[p.0.0 as int].insts[p.1 as int].dests().contains(v),
            None => forall|x: int, i: int|
                0 <= x < b && 0 <= i < f.blocks[x].insts.len() ==> !(
                #[trigger] f.blocks[x].insts[i]).dests().contains(v),
        },
    decreases b,
{
    if b > 0 {
        assert(f.blocks[b - 1].id.0 == b - 1);
        def_in_hit(f.blocks[b - 1].insts, v, f.blocks[b - 1].insts.len());
        def_below_hit(f, v, (b - 1) as nat);
        if def_in(f.blocks[b - 1].insts, v, f.blocks[b - 1].insts.len()) is None && f.def_below(v, (b - 1) as nat) is None {
            assert forall|x: int, i: int| 0 <= x < b && 0 <= i < f.blocks[x].insts.len() implies !(
            #[trigger] f.blocks[x].insts[i]).dests().contains(v) by {
                if x == b - 1 {
                    assert(!f.blocks[b - 1].insts[i].dests().contains(v));
                }
            }
        }
    }
}

/// Membership in the operand list.
pub fn reads(inst: &MirInst, v: ValueId) -> (r: bool)
    ensures
        r == inst@.uses().contains(v),
{
    let us = inst.operands();
    has_id(&us, v)
}

/// Membership in the values that a terminator names.
pub fn term_reads(term: &Terminator, v: ValueId) -> (r: bool)
    ensures
        r == term@.uses().contains(v),
{
    let us = term.operands();
    has_id(&us, v)
}

impl MirFunc {
    /// True when some instruction reads `v`.
    pub(crate) fn read_by_inst(&self, v: ValueId) -> (r: bool)
        ensures
            r == self@.read_by_inst(v),
    {
        let mut b: usize = 0;
        while b < self.blocks.len()
            invariant
                b <= self.blocks@.len(),
                forall|x: int, y: int|
                    0 <= x < b && 0 <= y < self@.blocks[x].insts.len() ==> !(
                    #[trigger] self@.blocks[x].insts[y]).uses().contains(v),
            decreases self.blocks@.len() - b,
        {
            let insts = &self.blocks[b].insts;
            let mut i: usize = 0;
            while i < insts.len()
                invariant
                    b < self.blocks@.len(),
                    insts@ == self.blocks@[b as int].insts@,
                    i <= insts@.len(),
                    forall|y: int|
                        0 <= y < i ==> !(#[trigger] self@.blocks[b as int].insts[y]).uses().contains(v),
                decreases insts@.len() - i,
            {
                if reads(&insts[i], v) {
                    assert(self@.blocks[b as int].insts[i as int].uses().contains(v));
                    return true;
                }
                i = i + 1;
            }
            b = b + 1;
        }
        false
    }

    pub(crate) fn is_param(&self, i: usize) -> (r: bool)
        ensures
            r == self@.param(i as int),
    {
        let mut k: usize = 0;
        while k < self.params.len()
            invariant
                k <= self.params@.len(),
                forall|j: int| 0 <= j < k ==> (#[trigger] self.params@[j]).0 != i,
            decreases self.params@.len() - k,
        {
            if self.params[k].index() == i {
                assert(self@.params[k as int].0 == i);
                return true;
            }
            k = k + 1;
        }
        false
    }

    /// Definition positions of all values.
    pub(crate) fn defs(&self) -> (r: Vec<Option<(BlockId, usize)>>)
        requires
            self@.indexed(),
        ensures
            r@.len() == self@.types.len(),
            forall|v: int|
                0 <= v < r@.len() ==> match #[trigger] r@[v] {
                    Some(p) => self@.def(ValueId(v as u32)) == Some((p.0, p.1 as nat)) && p.0.0 < self@.blocks.len()
                        && p.1 < self@.blocks[p.0.0 as int].insts.len(),
                    None => self@.def(ValueId(v as u32)) is None,
                },
    {
        let n = self.types.len();
        let mut r: Vec<Option<(BlockId, usize)>> = Vec::new();
        let mut v: usize = 0;
        while v < n
            invariant
                v <= n,
                n == self@.types.len(),
                n <= u32::MAX,
                self@.indexed(),
                r@.len() == v,
                forall|x: int|
                    0 <= x < r@.len() ==> match #[trigger] r@[x] {
                        Some(p) => self@.def(ValueId(x as u32)) == Some((p.0, p.1 as nat)) && p.0.0 < self@.blocks.len()
                            && p.1 < self@.blocks[p.0.0 as int].insts.len(),
                        None => self@.def(ValueId(x as u32)) is None,
                    },
            decreases n - v,
        {
            let d = self.def_of(ValueId(v as u32));
            r.push(d);
            v = v + 1;
        }
        r
    }

    /// Definition position of one value.
    pub(crate) fn def_of(&self, v: ValueId) -> (r: Option<(BlockId, usize)>)
        requires
            self@.indexed(),
        ensures
            match r {
                Some(p) => self@.def(v) == Some((p.0, p.1 as nat)) && p.0.0 < self@.blocks.len() && p.1
                    < self@.blocks[p.0.0 as int].insts.len() && self@.blocks[p.0.0 as int].insts[p.1 as int].dests().contains(v),
                None => self@.def(v) is None,
            },
    {
        let mut b: usize = self.blocks.len();
        while b > 0
            invariant
                b <= self.blocks@.len(),
                self@.indexed(),
                self@.def(v) == self@.def_below(v, b as nat),
            decreases b,
        {
            let block = &self.blocks[b - 1];
            assert(self@.blocks[b - 1] == block@);
            assert(self@.block_indexed(self@.blocks[b - 1], b - 1));
            let mut k: usize = block.insts.len();
            while k > 0
                invariant
                    0 < b <= self.blocks@.len(),
                    block@ == self@.blocks[b - 1],
                    block@.id.0 == b - 1,
                    k <= block.insts@.len(),
                    self@.def(v) == self@.def_below(v, b as nat),
                    def_in(block@.insts, v, block@.insts.len()) == def_in(block@.insts, v, k as nat),
                decreases k,
            {
                let ds = block.insts[k - 1].dests();
                assert(block@.insts[k - 1] == block.insts@[k - 1]@);
                if has_id(&ds, v) {
                    return Some((block.id, k - 1));
                }
                k = k - 1;
            }
            b = b - 1;
        }
        None
    }
}

} // verus!

//! The flat code buffer that function bodies are emitted into.
//!
//! A position in the emitted code counts instructions; labels take no position.
use vstd::prelude::*;
use vstd::string::*;
use super::op::{no_loc, DebugLoc, IlOp, Label};
use crate::scan::{same, texts};

verus! {

/// Record of one emitted function body.
#[derive(Debug, PartialEq, Eq)]
pub struct IlFunc {
    pub name: String,
    pub entry: Option<Label>,
    /// First emitted position of the body.
    pub code_start: usize,
    /// Position behind the body.
    pub code_end: usize,
    /// Operand height at entry.
    pub entry_sp: u32,
}

/// Record of one emitted function body, with its name as text.
#[verifier::ext_equal]
pub ghost struct FuncRecV {
    pub name: Seq<char>,
    pub entry: Option<Label>,
    pub code_start: nat,
    pub code_end: nat,
    pub entry_sp: u32,
}

impl View for IlFunc {
    type V = FuncRecV;

    open spec fn view(&self) -> FuncRecV {
        FuncRecV {
            name: self.name@,
            entry: self.entry,
            code_start: self.code_start as nat,
            code_end: self.code_end as nat,
            entry_sp: self.entry_sp,
        }
    }
}

/// The records of `v`.
pub open spec fn recs_view(v: Seq<IlFunc>) -> Seq<FuncRecV> {
    Seq::new(v.len(), |i: int| v[i]@)
}

/// Entry positions as natural numbers.
pub open spec fn entries_view(v: Seq<(usize, Label)>) -> Seq<(nat, Label)> {
    Seq::new(v.len(), |i: int| (v[i].0 as nat, v[i].1))
}

/// Emitted code with its function records.
#[derive(Debug)]
pub struct CodeBuf {
    pub(crate) ops: Vec<IlOp>,
    pub(crate) entries: Vec<(usize, Label)>,
    pub(crate) funcs: Vec<IlFunc>,
    pub(crate) next_label: u32,
}

/// Emitted code with its function records.
#[verifier::ext_equal]
pub ghost struct CodeV {
    pub ops: Seq<IlOp>,
    /// Emitted position of each entry label.
    pub entries: Seq<(nat, Label)>,
    pub funcs: Seq<FuncRecV>,
    pub next_label: u32,
}

impl View for CodeBuf {
    type V = CodeV;

    closed spec fn view(&self) -> CodeV {
        CodeV {
            ops: self.ops@,
            entries: entries_view(self.entries@),
            funcs: recs_view(self.funcs@),
            next_label: self.next_label,
        }
    }
}

/// Number of instructions among the operations from `i` on.
pub open spec fn emitted_from(ops: Seq<IlOp>, i: int) -> nat
    decreases ops.len() - i,
{
    if i >= ops.len() {
        0
    } else {
        (if ops[i].emits() {
            1nat
        } else {
            0nat
        }) + emitted_from(ops, i + 1)
    }
}

/// Number of instructions.
pub open spec fn emitted(ops: Seq<IlOp>) -> nat {
    emitted_from(ops, 0)
}

/// Index behind the `n` next instructions from `i` on; the end if there are fewer.
pub open spec fn raw_from(ops: Seq<IlOp>, i: int, n: nat) -> int
    decreases ops.len() - i,
{
    if n == 0 || i >= ops.len() {
        i
    } else {
        raw_from(
            ops,
            i + 1,
            if ops[i].emits() {
                (n - 1) as nat
            } else {
                n
            },
        )
    }
}

/// Where emitted position `pc` begins: directly behind the instruction before it, so that the
/// labels in front of it belong to it.
pub open spec fn raw_pos(ops: Seq<IlOp>, pc: nat) -> int {
    raw_from(ops, 0, pc)
}

/// There are no more instructions than operations.
pub proof fn emitted_is_bounded(ops: Seq<IlOp>, i: int)
    requires
        0 <= i <= ops.len(),
    ensures
        emitted_from(ops, i) <= ops.len() - i,
    decreases ops.len() - i,
{
    if i < ops.len() {
        emitted_is_bounded(ops, i + 1);
    }
}

/// A position lies within the code, and later positions lie further back.
pub proof fn raw_is_ordered(ops: Seq<IlOp>, i: int, m: nat, n: nat)
    requires
        0 <= i <= ops.len(),
        m <= n,
    ensures
        i <= raw_from(ops, i, m) <= raw_from(ops, i, n) <= ops.len(),
    decreases ops.len() - i,
{
    if i < ops.len() && n > 0 {
        let d: nat = if ops[i].emits() {
            1
        } else {
            0
        };
        if m == 0 {
            raw_is_ordered(ops, i + 1, 0, (n - d) as nat);
        } else {
            raw_is_ordered(ops, i + 1, (m - d) as nat, (n - d) as nat);
        }
    }
}

/// Where emitted position `pc` begins in `ops`.
pub fn raw_index(ops: &Vec<IlOp>, pc: usize) -> (r: usize)
    ensures
        r == raw_pos(ops@, pc as nat),
        r <= ops@.len(),
{
    let mut i: usize = 0;
    let mut n = pc;
    while n > 0 && i < ops.len()
        invariant
            i <= ops@.len(),
            raw_pos(ops@, pc as nat) == raw_from(ops@, i as int, n as nat),
        decreases ops@.len() - i,
    {
        if ops[i].emits_code() {
            n -= 1;
        }
        i += 1;
    }
    i
}

/// The operations of the emitted range `start..end`.
pub fn emitting_range_to_raw(ops: &Vec<IlOp>, start: usize, end: usize) -> (r: (usize, usize))
    ensures
        r.0 == raw_pos(ops@, start as nat),
        r.1 == raw_pos(ops@, end as nat),
        r.0 <= ops@.len(),
        r.1 <= ops@.len(),
        start <= end ==> r.0 <= r.1,
{
    proof {
        if start <= end {
            raw_is_ordered(ops@, 0, start as nat, end as nat);
        }
    }
    (raw_index(ops, start), raw_index(ops, end))
}

impl CodeV {
    /// With one more operation at the end.
    pub open spec fn pushed(self, op: IlOp) -> CodeV {
        CodeV { ops: self.ops.push(op), ..self }
    }
}

impl CodeBuf {
    /// An empty buffer.
    pub fn new() -> (r: CodeBuf)
        ensures
            r@ == (CodeV {
                ops: Seq::empty(),
                entries: Seq::empty(),
                funcs: Seq::empty(),
                next_label: 0,
            }),
    {
        let r = CodeBuf { ops: Vec::new(), entries: Vec::new(), funcs: Vec::new(), next_label: 0 };
        assert(entries_view(r.entries@) =~= Seq::empty());
        assert(recs_view(r.funcs@) =~= Seq::empty());
        r
    }

    /// Number of instructions.
    pub fn len(&self) -> (r: usize)
        ensures
            r == emitted(self@.ops),
    {
        let mut i: usize = 0;
        let mut n: usize = 0;
        while i < self.ops.len()
            invariant
                i <= self.ops@.len(),
                n <= i,
                emitted(self.ops@) == n + emitted_from(self.ops@, i as int),
            decreases self.ops@.len() - i,
        {
            if self.ops[i].emits_code() {
                n += 1;
            }
            i += 1;
        }
        n
    }

    pub fn is_empty(&self) -> (r: bool)
        ensures
            r == (emitted(self@.ops) == 0),
    {
        self.len() == 0
    }

    pub fn ops(&self) -> (r: &Vec<IlOp>)
        ensures
            r@ == self@.ops,
    {
        &self.ops
    }

    pub fn funcs(&self) -> (r: &Vec<IlFunc>)
        ensures
            recs_view(r@) == self@.funcs,
    {
        &self.funcs
    }

    pub fn entry_labels(&self) -> (r: &Vec<(usize, Label)>)
        ensures
            entries_view(r@) == self@.entries,
    {
        &self.entries
    }

    pub fn push_op(&mut self, op: IlOp)
        ensures
            final(self)@ == old(self)@.pushed(op),
    {
        self.ops.push(op);
    }

    pub fn push_const(&mut self, imm: i32)
        ensures
            final(self)@ == old(self)@.pushed(IlOp::Const { imm, loc: no_loc() }),
    {
        self.push_op(IlOp::Const { imm, loc: DebugLoc::unknown() });
    }

    pub fn push_pop(&mut self)
        ensures
            final(self)@ == old(self)@.pushed(IlOp::Pop { loc: no_loc() }),
    {
        self.push_op(IlOp::Pop { loc: DebugLoc::unknown() });
    }

    pub fn push_return(&mut self)
        ensures
            final(self)@ == old(self)@.pushed(
                IlOp::Return { loc: no_loc(), ret_words: 1 },
            ),
    {
        self.push_op(IlOp::Return { loc: DebugLoc::unknown(), ret_words: 1 });
    }

    /// Binds a fresh label here and records it as an entry.
    pub fn bind_fresh_entry(&mut self) -> (r: Label)
        requires
            old(self)@.next_label < u32::MAX,
        ensures
            r == Label(old(self)@.next_label),
            final(self)@ == (CodeV {
                ops: old(self)@.ops.push(IlOp::Label(r)),
                entries: old(self)@.entries.push((emitted(old(self)@.ops), r)),
                next_label: (old(self)@.next_label + 1) as u32,
                ..old(self)@
            }),
    {
        let at = self.len();
        let l = Label(self.next_label);
        self.next_label = self.next_label + 1;
        self.ops.push(IlOp::Label(l));
        let ghost entries = entries_view(self.entries@);
        self.entries.push((at, l));
        assert(entries_view(self.entries@) =~= entries.push((at as nat, l)));
        l
    }

    /// Records the body of a function.
    pub fn record_func_with_sp(
        &mut self,
        name: &str,
        entry: Option<Label>,
        code_start: usize,
        code_end: usize,
        entry_sp: u32,
    )
        ensures
            final(self)@ == (CodeV {
                funcs: old(self)@.funcs.push(
                    FuncRecV {
                        name: name@,
                        entry,
                        code_start: code_start as nat,
                        code_end: code_end as nat,
                        entry_sp,
                    },
                ),
                ..old(self)@
            }),
    {
        let ghost funcs = recs_view(self.funcs@);
        let f = IlFunc { name: name.to_owned(), entry, code_start, code_end, entry_sp };
        self.funcs.push(f);
        assert(recs_view(self.funcs@) =~= funcs.push(f@));
    }
}

/// The entries from `i` on after the emitted range `s..e` is gone: those inside it go with it.
pub open spec fn entries_without(v: Seq<(nat, Label)>, s: nat, e: nat, i: int) -> Seq<(nat, Label)>
    decreases v.len() - i,
{
    if i >= v.len() {
        Seq::empty()
    } else {
        (if v[i].0 < s {
            seq![v[i]]
        } else if v[i].0 < e {
            Seq::empty()
        } else {
            seq![((v[i].0 - (e - s)) as nat, v[i].1)]
        }) + entries_without(v, s, e, i + 1)
    }
}

/// The records from `i` on after the emitted range `s..e` is gone: those that overlap it go with
/// it.
pub open spec fn funcs_without(v: Seq<FuncRecV>, s: nat, e: nat, i: int) -> Seq<FuncRecV>
    decreases v.len() - i,
{
    if i >= v.len() {
        Seq::empty()
    } else {
        (if v[i].code_start < e && s < v[i].code_end {
            Seq::empty()
        } else if v[i].code_start >= e && v[i].code_end >= e {
            seq![
                FuncRecV {
                    code_start: (v[i].code_start - (e - s)) as nat,
                    code_end: (v[i].code_end - (e - s)) as nat,
                    ..v[i]
                },
            ]
        } else {
            seq![v[i]]
        }) + funcs_without(v, s, e, i + 1)
    }
}

/// The records from `i` on whose name is in `names`.
pub open spec fn funcs_named(v: Seq<FuncRecV>, names: Seq<Seq<char>>, i: int) -> Seq<FuncRecV>
    decreases v.len() - i,
{
    if i >= v.len() {
        Seq::empty()
    } else {
        (if names.contains(v[i].name) {
            seq![v[i]]
        } else {
            Seq::empty()
        }) + funcs_named(v, names, i + 1)
    }
}

impl CodeV {
    /// Without the emitted range `s..e`.
    pub open spec fn without(self, s: nat, e: nat) -> CodeV {
        let a = raw_pos(self.ops, s);
        let b = raw_pos(self.ops, e);
        if a >= b {
            self
        } else {
            CodeV {
                ops: self.ops.take(a) + self.ops.skip(b),
                entries: entries_without(self.entries, s, e, 0),
                funcs: funcs_without(self.funcs, s, e, 0),
                next_label: self.next_label,
            }
        }
    }
}

fn copy_func(f: &IlFunc, code_start: usize, code_end: usize) -> (r: IlFunc)
    ensures
        r@ == (FuncRecV { code_start: code_start as nat, code_end: code_end as nat, ..f@ }),
{
    IlFunc {
        name: f.name.as_str().to_owned(),
        entry: f.entry,
        code_start,
        code_end,
        entry_sp: f.entry_sp,
    }
}

impl CodeBuf {
    fn remaining_entries(&self, s: usize, e: usize) -> (r: Vec<(usize, Label)>)
        requires
            s <= e,
        ensures
            entries_view(r@) == entries_without(self@.entries, s as nat, e as nat, 0),
    {
        let mut r: Vec<(usize, Label)> = Vec::new();
        let ghost v = self@.entries;
        let mut i: usize = 0;
        assert(entries_view(r@) + entries_without(v, s as nat, e as nat, 0) =~= entries_without(
            v,
            s as nat,
            e as nat,
            0,
        ));
        while i < self.entries.len()
            invariant
                i <= self.entries@.len(),
                s <= e,
                v == entries_view(self.entries@),
                entries_view(r@) + entries_without(v, s as nat, e as nat, i as int)
                    == entries_without(v, s as nat, e as nat, 0),
            decreases self.entries@.len() - i,
        {
            let ghost r0 = entries_view(r@);
            let (pc, l) = self.entries[i];
            assert(v[i as int] == (pc as nat, l));
            if pc < s {
                r.push((pc, l));
                assert(entries_view(r@) =~= r0.push((pc as nat, l)));
            } else if pc >= e {
                r.push((pc - (e - s), l));
                assert(entries_view(r@) =~= r0.push(((pc - (e - s)) as nat, l)));
            }
            assert(entries_view(r@) + entries_without(v, s as nat, e as nat, i + 1) =~= r0
                + entries_without(v, s as nat, e as nat, i as int));
            i += 1;
        }
        assert(entries_view(r@) + entries_without(v, s as nat, e as nat, i as int)
            =~= entries_view(r@));
        r
    }

    fn remaining_funcs(&self, s: usize, e: usize) -> (r: Vec<IlFunc>)
        requires
            s <= e,
        ensures
            recs_view(r@) == funcs_without(self@.funcs, s as nat, e as nat, 0),
    {
        let mut r: Vec<IlFunc> = Vec::new();
        let ghost v = self@.funcs;
        let mut i: usize = 0;
        assert(recs_view(r@) + funcs_without(v, s as nat, e as nat, 0) =~= funcs_without(
            v,
            s as nat,
            e as nat,
            0,
        ));
        while i < self.funcs.len()
            invariant
                i <= self.funcs@.len(),
                s <= e,
                v == recs_view(self.funcs@),
                recs_view(r@) + funcs_without(v, s as nat, e as nat, i as int) == funcs_without(
                    v,
                    s as nat,
                    e as nat,
                    0,
                ),
            decreases self.funcs@.len() - i,
        {
            let ghost r0 = recs_view(r@);
            assert(v[i as int] == self.funcs@[i as int]@);
            let a = self.funcs[i].code_start;
            let b = self.funcs[i].code_end;
            if !(a < e && s < b) {
                let f = if a >= e && b >= e {
                    copy_func(&self.funcs[i], a - (e - s), b - (e - s))
                } else {
                    copy_func(&self.funcs[i], a, b)
                };
                r.push(f);
                assert(recs_view(r@) =~= r0.push(f@));
            }
            assert(recs_view(r@) + funcs_without(v, s as nat, e as nat, i + 1) =~= r0
                + funcs_without(v, s as nat, e as nat, i as int));
            i += 1;
        }
        assert(recs_view(r@) + funcs_without(v, s as nat, e as nat, i as int) =~= recs_view(r@));
        r
    }

    /// Removes the emitted range `s..e`: its operations, its entries, and the records that
    /// overlap it. Everything behind it moves down.
    pub fn remove_emitting_span(&mut self, s: usize, e: usize)
        requires
            s <= e,
        ensures
            final(self)@ == old(self)@.without(s as nat, e as nat),
    {
        let (a, b) = emitting_range_to_raw(&self.ops, s, e);
        if a >= b {
            return;
        }
        let entries = self.remaining_entries(s, e);
        let funcs = self.remaining_funcs(s, e);
        let ghost ops0 = self.ops@;
        let mut ops: Vec<IlOp> = Vec::new();
        let mut i: usize = 0;
        while i < self.ops.len()
            invariant
                i <= self.ops@.len(),
                a <= b <= self.ops@.len(),
                ops@ == (if i <= a {
                    self.ops@.take(i as int)
                } else if i <= b {
                    self.ops@.take(a as int)
                } else {
                    self.ops@.take(a as int) + self.ops@.subrange(b as int, i as int)
                }),
            decreases self.ops@.len() - i,
        {
            if i < a || i >= b {
                ops.push(self.ops[i]);
            }
            i += 1;
            assert(ops@ =~= (if i <= a {
                self.ops@.take(i as int)
            } else if i <= b {
                self.ops@.take(a as int)
            } else {
                self.ops@.take(a as int) + self.ops@.subrange(b as int, i as int)
            }));
        }
        assert(ops@ =~= ops0.take(a as int) + ops0.skip(b as int));
        self.ops = ops;
        self.entries = entries;
        self.funcs = funcs;
    }

    /// Keeps the records whose name is in `names`.
    pub fn retain_funcs(&mut self, names: &Vec<String>)
        ensures
            final(self)@ == (CodeV {
                funcs: funcs_named(old(self)@.funcs, texts(names@), 0),
                ..old(self)@
            }),
    {
        let mut r: Vec<IlFunc> = Vec::new();
        let ghost v = self@.funcs;
        let ghost nv = texts(names@);
        let mut i: usize = 0;
        assert(recs_view(r@) + funcs_named(v, nv, 0) =~= funcs_named(v, nv, 0));
        while i < self.funcs.len()
            invariant
                i <= self.funcs@.len(),
                v == recs_view(self.funcs@),
                nv == texts(names@),
                recs_view(r@) + funcs_named(v, nv, i as int) == funcs_named(v, nv, 0),
            decreases self.funcs@.len() - i,
        {
            let ghost r0 = recs_view(r@);
            assert(v[i as int] == self.funcs@[i as int]@);
            if has_name(names, self.funcs[i].name.as_str()) {
                let f = copy_func(&self.funcs[i], self.funcs[i].code_start, self.funcs[i].code_end);
                r.push(f);
                assert(recs_view(r@) =~= r0.push(f@));
            }
            assert(recs_view(r@) + funcs_named(v, nv, i + 1) =~= r0 + funcs_named(
                v,
                nv,
                i as int,
            ));
            i += 1;
        }
        assert(recs_view(r@) + funcs_named(v, nv, i as int) =~= recs_view(r@));
        self.funcs = r;
    }
}

/// Whether `name` is among `names`.
pub(crate) fn has_name(names: &Vec<String>, name: &str) -> (r: bool)
    ensures
        r == texts(names@).contains(name@),
{
    let ghost nv = texts(names@);
    let mut i: usize = 0;
    while i < names.len()
        invariant
            i <= names@.len(),
            nv == texts(names@),
            forall|k: int| 0 <= k < i ==> nv[k] != name@,
        decreases names@.len() - i,
    {
        assert(nv[i as int] == names@[i as int]@);
        if same(names[i].as_str(), name) {
            return true;
        }
        i += 1;
    }
    false
}

} // verus!

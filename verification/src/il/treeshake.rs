//! Removal of function bodies that nothing reaches.
//!
//! A function is live when it is a root, when the setup code refers to it, or when a live
//! function refers to it. References are entry labels and absolute call positions. The bodies
//! of the other functions are cut out of the code buffer.
use vstd::prelude::*;
use vstd::string::*;
use super::codebuf::{
    emitted, emitting_range_to_raw, entries_view, funcs_named, has_name, raw_from, raw_is_ordered, raw_pos,
    recs_view, CodeBuf, CodeV,
};
use super::op::{Byte, IlOp, Instruction, Label};
use crate::scan::{same, texts};

verus! {

/// Tables of the compiler that the removal reads and updates.
#[derive(Debug)]
pub struct TreeshakeInput {
    /// Function name and emitted entry position; no name twice, and removal keeps it so.
    pub functions: Vec<(String, usize)>,
    /// Function name and entry label.
    pub fn_entry_labels: Vec<(String, Label)>,
    /// Function name and its debug locals.
    pub fn_debug_locals: Vec<(String, Vec<(String, u32)>)>,
    /// Description and entry position of each test.
    pub test_cases: Vec<(String, u32)>,
    /// Names of functions that are always live.
    pub root_names: Vec<String>,
    /// Whether the functions of the tests are roots too.
    pub include_tests: bool,
    /// Where the setup code begins, behind the packed thunks.
    pub preserve_emit_start: Option<usize>,
}

/// The tables, with names as text.
#[verifier::ext_equal]
pub ghost struct TablesV {
    pub functions: Seq<(Seq<char>, nat)>,
    pub labels: Seq<(Seq<char>, Label)>,
    pub locals: Seq<(Seq<char>, Seq<(Seq<char>, u32)>)>,
    pub tests: Seq<(Seq<char>, u32)>,
    pub roots: Seq<Seq<char>>,
    pub include_tests: bool,
    pub preserve: Option<nat>,
}

/// Whether no name occurs twice.
pub open spec fn differ(fs: Seq<(Seq<char>, nat)>) -> bool {
    forall|i: int, j: int| 0 <= i < j < fs.len() ==> (#[trigger] fs[i]).0 != (#[trigger] fs[j]).0
}

impl TablesV {
    /// What holds of the function table: no name stands for two functions.
    pub open spec fn names_differ(self) -> bool {
        differ(self.functions)
    }
}

pub open spec fn functions_view(v: Seq<(String, usize)>) -> Seq<(Seq<char>, nat)> {
    Seq::new(v.len(), |i: int| (v[i].0@, v[i].1 as nat))
}

pub open spec fn labels_view(v: Seq<(String, Label)>) -> Seq<(Seq<char>, Label)> {
    Seq::new(v.len(), |i: int| (v[i].0@, v[i].1))
}

pub open spec fn words_view(v: Seq<(String, u32)>) -> Seq<(Seq<char>, u32)> {
    Seq::new(v.len(), |i: int| (v[i].0@, v[i].1))
}

pub open spec fn locals_view(v: Seq<(String, Vec<(String, u32)>)>) -> Seq<
    (Seq<char>, Seq<(Seq<char>, u32)>),
> {
    Seq::new(v.len(), |i: int| (v[i].0@, words_view(v[i].1@)))
}

pub open spec fn opt_nat(o: Option<usize>) -> Option<nat> {
    match o {
        Some(n) => Some(n as nat),
        None => None,
    }
}

impl View for TreeshakeInput {
    type V = TablesV;

    open spec fn view(&self) -> TablesV {
        TablesV {
            functions: functions_view(self.functions@),
            labels: labels_view(self.fn_entry_labels@),
            locals: locals_view(self.fn_debug_locals@),
            tests: words_view(self.test_cases@),
            roots: texts(self.root_names@),
            include_tests: self.include_tests,
            preserve: opt_nat(self.preserve_emit_start),
        }
    }
}

/// What an operation refers to.
#[derive(Clone, Copy, Debug, PartialEq, Eq, Structural)]
pub enum Target {
    Label(u32),
    Pc(u32),
}

/// The function entry that an instruction names by its position.
pub open spec fn call_target(byte: Byte) -> Option<Target> {
    match byte.inst {
        Instruction::CALL | Instruction::TailCall | Instruction::MakeCoro => Some(
            Target::Pc(byte.call().1),
        ),
        Instruction::CodePtr | Instruction::MakePolyFn => Some(Target::Pc(byte.word())),
        _ => None,
    }
}

/// The function entry that an operation refers to, if any.
pub open spec fn target_of(op: IlOp) -> Option<Target> {
    match op {
        IlOp::Entry { target, .. } => Some(Target::Label(target.0)),
        IlOp::Jump { target, .. } => Some(Target::Label(target.0)),
        IlOp::Byte { byte, .. } => call_target(byte),
        _ => None,
    }
}

fn absolute_call_target(byte: &Byte) -> (r: Option<Target>)
    ensures
        r == call_target(*byte),
{
    match byte.inst {
        Instruction::CALL | Instruction::TailCall | Instruction::MakeCoro => Some(
            Target::Pc(byte.call_parts().1),
        ),
        Instruction::CodePtr | Instruction::MakePolyFn => Some(Target::Pc(byte.operand_u32())),
        _ => None,
    }
}

fn entry_target(op: &IlOp) -> (r: Option<Target>)
    ensures
        r == target_of(*op),
{
    match op {
        IlOp::Entry { target, .. } => Some(Target::Label(target.0)),
        IlOp::Jump { target, .. } => Some(Target::Label(target.0)),
        IlOp::Byte { byte, .. } => absolute_call_target(byte),
        _ => None,
    }
}

/// The smallest position above `pc` among the functions from `i` on.
pub open spec fn next_above(fs: Seq<(Seq<char>, nat)>, pc: nat, i: int) -> Option<nat>
    decreases fs.len() - i,
{
    if i >= fs.len() {
        None
    } else {
        let rest = next_above(fs, pc, i + 1);
        if fs[i].1 <= pc {
            rest
        } else {
            match rest {
                Some(r) => if fs[i].1 < r {
                    Some(fs[i].1)
                } else {
                    rest
                },
                None => Some(fs[i].1),
            }
        }
    }
}

/// The last recorded body of a function of that name among the first `n` records.
pub open spec fn recorded(c: CodeV, name: Seq<char>, n: int) -> Option<(nat, nat)>
    decreases n,
{
    if n <= 0 {
        None
    } else if c.funcs[n - 1].name == name && c.funcs[n - 1].code_start < c.funcs[n - 1].code_end {
        Some((c.funcs[n - 1].code_start, c.funcs[n - 1].code_end))
    } else {
        recorded(c, name, n - 1)
    }
}

/// Everything that liveness depends on.
#[verifier::ext_equal]
pub ghost struct World {
    pub code: CodeV,
    pub tables: TablesV,
}

impl World {
    /// Emitted range of function `i`: its recorded body, or else everything up to the next
    /// function, but not into the setup code. Of functions that begin at one position only the
    /// last has a range.
    pub open spec fn span(self, i: int) -> Option<(nat, nat)> {
        let fs = self.tables.functions;
        match recorded(self.code, fs[i].0, self.code.funcs.len() as int) {
            Some(s) => Some(s),
            None => {
                let start = fs[i].1;
                let shared = exists|j: int| i < j < fs.len() && (#[trigger] fs[j]).1 == start;
                let next = match next_above(fs, start, 0) {
                    Some(n) => n,
                    None => emitted(self.code.ops),
                };
                let end = match self.tables.preserve {
                    Some(p) => if start < p && next > p {
                        p
                    } else {
                        next
                    },
                    None => next,
                };
                if !shared && start < end {
                    Some((start, end))
                } else {
                    None
                }
            },
        }
    }

    /// The function whose range begins at `pc`, looking at the first `n` functions.
    pub open spec fn starting_at(self, pc: nat, n: int) -> Option<int>
        decreases n,
    {
        if n <= 0 {
            None
        } else if self.span(n - 1) is Some && (self.span(n - 1)->0).0 == pc {
            Some(n - 1)
        } else {
            self.starting_at(pc, n - 1)
        }
    }

    /// The name of entry label `l`, looking at the first `n` labels.
    pub open spec fn label_name(self, l: u32, n: int) -> Option<Seq<char>>
        decreases n,
    {
        if n <= 0 {
            None
        } else if self.tables.labels[n - 1].1.0 == l {
            Some(self.tables.labels[n - 1].0)
        } else {
            self.label_name(l, n - 1)
        }
    }

    /// The name of the function of label `l`.
    pub open spec fn named_label(self, l: u32) -> Option<Seq<char>> {
        self.label_name(l, self.tables.labels.len() as int)
    }

    /// The name of the first named entry at `pc` among the entries from `i` on.
    pub open spec fn entry_name(self, pc: nat, i: int) -> Option<Seq<char>>
        decreases self.code.entries.len() - i,
    {
        if i >= self.code.entries.len() {
            None
        } else if self.code.entries[i].0 == pc && self.named_label(self.code.entries[i].1.0) is Some {
            self.named_label(self.code.entries[i].1.0)
        } else {
            self.entry_name(pc, i + 1)
        }
    }

    /// The function of that name among those from `i` on.
    pub open spec fn function_named(self, name: Seq<char>, i: int) -> Option<int>
        decreases self.tables.functions.len() - i,
    {
        if i >= self.tables.functions.len() {
            None
        } else if self.tables.functions[i].0 == name {
            Some(i)
        } else {
            self.function_named(name, i + 1)
        }
    }

    /// The function of that name.
    pub open spec fn lookup(self, name: Option<Seq<char>>) -> Option<int> {
        match name {
            Some(n) => self.function_named(n, 0),
            None => None,
        }
    }

    /// The function that is entered at `pc`.
    pub open spec fn function_at(self, pc: nat) -> Option<int> {
        match self.starting_at(pc, self.tables.functions.len() as int) {
            Some(i) => Some(i),
            None => self.lookup(self.entry_name(pc, 0)),
        }
    }

    /// The function that `t` refers to.
    pub open spec fn resolved(self, t: Option<Target>) -> Option<int> {
        match t {
            Some(Target::Label(l)) => self.lookup(self.named_label(l)),
            Some(Target::Pc(pc)) => self.function_at(pc as nat),
            None => None,
        }
    }

    /// Whether an operation of the emitted range `s..e` refers to function `j`.
    pub open spec fn refers(self, s: nat, e: nat, j: int) -> bool {
        exists|k: int|
            raw_pos(self.code.ops, s) <= k < raw_pos(self.code.ops, e) && self.resolved(
                target_of(#[trigger] self.code.ops[k]),
            ) == Some(j)
    }

    /// Whether function `i` is live before any code is looked at: a root, or a test.
    pub open spec fn rooted(self, i: int) -> bool {
        ||| self.tables.roots.contains(self.tables.functions[i].0)
        ||| self.tables.include_tests && exists|t: int|
            0 <= t < self.tables.tests.len() && self.function_at(
                (#[trigger] self.tables.tests[t]).1 as nat,
            ) == Some(i)
    }

    /// Where the first rooted function among the first `n` begins.
    pub open spec fn first_root(self, n: int) -> Option<nat>
        decreases n,
    {
        if n <= 0 {
            None
        } else {
            let rest = self.first_root(n - 1);
            if self.rooted(n - 1) && self.span(n - 1) is Some {
                let s = (self.span(n - 1)->0).0;
                match rest {
                    Some(r) => if s < r {
                        Some(s)
                    } else {
                        rest
                    },
                    None => Some(s),
                }
            } else {
                rest
            }
        }
    }

    /// End of the setup code: where the first rooted function begins.
    pub open spec fn setup_end(self) -> nat {
        match self.first_root(self.tables.functions.len() as int) {
            Some(s) => s,
            None => 0,
        }
    }

    /// Start of the setup code.
    pub open spec fn setup_start(self) -> nat {
        match self.tables.preserve {
            Some(p) => if p < self.setup_end() {
                p
            } else {
                self.setup_end()
            },
            None => 0,
        }
    }

    /// End of the prologue in front of the packed thunks.
    pub open spec fn prologue_end(self) -> nat {
        if self.setup_start() < 3 {
            self.setup_start()
        } else {
            3
        }
    }

    /// Whether function `i` is live without being called by a function: it is rooted, or the
    /// setup code or the prologue refers to it.
    pub open spec fn seeded(self, i: int) -> bool {
        ||| self.rooted(i)
        ||| self.refers(self.setup_start(), self.setup_end(), i)
        ||| self.refers(0, self.prologue_end(), i)
    }

    /// Whether function `i` refers to function `j`.
    pub open spec fn calls(self, i: int, j: int) -> bool {
        self.span(i) is Some && self.refers((self.span(i)->0).0, (self.span(i)->0).1, j)
    }

    /// Whether function `j` is reached by at most `n` references from a seeded one.
    pub open spec fn live_within(self, n: nat, j: int) -> bool
        decreases n,
    {
        if n == 0 {
            self.seeded(j)
        } else {
            ||| self.live_within((n - 1) as nat, j)
            ||| exists|i: int|
                0 <= i < self.tables.functions.len() && self.live_within((n - 1) as nat, i)
                    && #[trigger] self.calls(i, j)
        }
    }

    /// Whether function `j` is live.
    pub open spec fn live(self, j: int) -> bool {
        exists|n: nat| #[trigger] self.live_within(n, j)
    }

    /// Whether no name stands for two functions.
    pub open spec fn distinct(self) -> bool {
        self.tables.names_differ()
    }

    /// Names of the functions from `i` on that are not live.
    pub open spec fn dead_from(self, i: int) -> Seq<Seq<char>>
        decreases self.tables.functions.len() - i,
    {
        if i >= self.tables.functions.len() {
            Seq::empty()
        } else {
            (if self.live(i) {
                Seq::empty()
            } else {
                seq![self.tables.functions[i].0]
            }) + self.dead_from(i + 1)
        }
    }

    /// Where the first live function at or behind `p` begins, looking at the first `n`.
    pub open spec fn first_live(self, p: nat, n: int) -> Option<nat>
        decreases n,
    {
        if n <= 0 {
            None
        } else {
            let rest = self.first_live(p, n - 1);
            if self.live(n - 1) && self.span(n - 1) is Some && (self.span(n - 1)->0).0 >= p {
                let s = (self.span(n - 1)->0).0;
                match rest {
                    Some(r) => if s < r {
                        Some(s)
                    } else {
                        rest
                    },
                    None => Some(s),
                }
            } else {
                rest
            }
        }
    }

    /// The setup code that is never cut: from the preserved position to the first live function
    /// behind it.
    pub open spec fn kept_gap(self) -> (nat, nat) {
        match self.tables.preserve {
            Some(p) => match self.first_live(p, self.tables.functions.len() as int) {
                Some(s) => (p, s),
                None => (p, p),
            },
            None => (0, 0),
        }
    }

    /// The range `s..e` without the kept gap.
    pub open spec fn cuts(self, s: nat, e: nat) -> Seq<(nat, nat)> {
        let (a, b) = self.kept_gap();
        if b <= a {
            seq![(s, e)]
        } else {
            let front_end = if e < a {
                e
            } else {
                a
            };
            let back_start = if s > b {
                s
            } else {
                b
            };
            (if s < a && s < front_end {
                seq![(s, front_end)]
            } else {
                Seq::empty()
            }) + (if e > b && back_start < e {
                seq![(back_start, e)]
            } else {
                Seq::empty()
            })
        }
    }

    /// The ranges to cut for the dead functions from `i` on, sorted into `acc`.
    pub open spec fn cuts_from(self, i: int, acc: Seq<(nat, nat)>) -> Seq<(nat, nat)>
        decreases self.tables.functions.len() - i,
    {
        if i >= self.tables.functions.len() {
            acc
        } else if self.live(i) || self.span(i) is None {
            self.cuts_from(i + 1, acc)
        } else {
            let s = self.span(i)->0;
            self.cuts_from(i + 1, all_placed(acc, self.cuts(s.0, s.1), 0))
        }
    }
}

/// Where `x` goes in ranges that begin later and later towards the front.
pub open spec fn place(v: Seq<(nat, nat)>, x: (nat, nat), i: int) -> int
    decreases v.len() - i,
{
    if i >= v.len() || v[i].0 <= x.0 {
        i
    } else {
        place(v, x, i + 1)
    }
}

/// The position of a new range lies within the list.
pub proof fn place_in_range(v: Seq<(nat, nat)>, x: (nat, nat), i: int)
    requires
        0 <= i <= v.len(),
    ensures
        i <= place(v, x, i) <= v.len(),
    decreases v.len() - i,
{
    if i < v.len() && v[i].0 > x.0 {
        place_in_range(v, x, i + 1);
    }
}

/// `v` with the ranges `xs` from `i` on at their places.
pub open spec fn all_placed(v: Seq<(nat, nat)>, xs: Seq<(nat, nat)>, i: int) -> Seq<(nat, nat)>
    decreases xs.len() - i,
{
    if i >= xs.len() {
        v
    } else {
        all_placed(v.insert(place(v, xs[i], 0), xs[i]), xs, i + 1)
    }
}

/// A position after the range that ends at `e` has shrunk by `d`.
pub open spec fn moved(pc: nat, e: nat, d: nat) -> nat {
    if pc >= e {
        (pc - d) as nat
    } else {
        pc
    }
}

/// What the cuts change.
#[verifier::ext_equal]
pub ghost struct CutV {
    pub code: CodeV,
    pub functions: Seq<(Seq<char>, nat)>,
    pub tests: Seq<(Seq<char>, u32)>,
    pub shrinks: Seq<(nat, nat)>,
}

impl CutV {
    /// After the range `s..e` is cut.
    pub open spec fn cut(self, s: nat, e: nat) -> CutV {
        let d = (e - s) as nat;
        CutV {
            code: self.code.without(s, e),
            functions: Seq::new(
                self.functions.len(),
                |i: int| (self.functions[i].0, moved(self.functions[i].1, e, d)),
            ),
            tests: Seq::new(
                self.tests.len(),
                |i: int| (self.tests[i].0, moved(self.tests[i].1 as nat, e, d) as u32),
            ),
            shrinks: self.shrinks.push((e, d)),
        }
    }

    /// After the ranges from `i` on are cut, in order.
    pub open spec fn cut_all(self, spans: Seq<(nat, nat)>, i: int) -> CutV
        decreases spans.len() - i,
    {
        if i >= spans.len() {
            self
        } else {
            self.cut(spans[i].0, spans[i].1).cut_all(spans, i + 1)
        }
    }
}

/// The entries of `v` from `i` on whose name is not among `dead`.
pub open spec fn spared<T>(v: Seq<(Seq<char>, T)>, dead: Seq<Seq<char>>, i: int) -> Seq<
    (Seq<char>, T),
>
    decreases v.len() - i,
{
    if i >= v.len() {
        Seq::empty()
    } else {
        (if dead.contains(v[i].0) {
            Seq::empty()
        } else {
            seq![v[i]]
        }) + spared(v, dead, i + 1)
    }
}

/// The tests from `i` on whose function is still there.
pub open spec fn tests_left(
    tests: Seq<(Seq<char>, u32)>,
    functions: Seq<(Seq<char>, nat)>,
    i: int,
) -> Seq<(Seq<char>, u32)>
    decreases tests.len() - i,
{
    if i >= tests.len() {
        Seq::empty()
    } else {
        (if exists|k: int|
            0 <= k < functions.len() && (#[trigger] functions[k]).1 == tests[i].1 as nat {
            seq![tests[i]]
        } else {
            Seq::empty()
        }) + tests_left(tests, functions, i + 1)
    }
}

/// Names of functions.
pub open spec fn names_of(fs: Seq<(Seq<char>, nat)>) -> Seq<Seq<char>> {
    Seq::new(fs.len(), |i: int| fs[i].0)
}

/// Code, tables, number of dropped functions and cuts after the removal.
#[verifier::ext_equal]
pub ghost struct ShakenV {
    pub code: CodeV,
    pub tables: TablesV,
    pub dropped: nat,
    pub shrinks: Seq<(nat, nat)>,
}

impl World {
    /// The outcome of the removal.
    pub open spec fn shaken(self) -> ShakenV {
        let dead = self.dead_from(0);
        if dead.len() == 0 {
            ShakenV { code: self.code, tables: self.tables, dropped: 0, shrinks: Seq::empty() }
        } else {
            let start = CutV {
                code: self.code,
                functions: self.tables.functions,
                tests: self.tables.tests,
                shrinks: Seq::empty(),
            };
            let done = start.cut_all(self.cuts_from(0, Seq::empty()), 0);
            let functions = spared(done.functions, dead, 0);
            ShakenV {
                code: CodeV {
                    funcs: funcs_named(done.code.funcs, names_of(functions), 0),
                    ..done.code
                },
                tables: TablesV {
                    functions,
                    labels: spared(self.tables.labels, dead, 0),
                    locals: spared(self.tables.locals, dead, 0),
                    tests: tests_left(done.tests, functions, 0),
                    ..self.tables
                },
                dropped: dead.len(),
                shrinks: done.shrinks,
            }
        }
    }
}


/// Ranges as natural numbers.
pub open spec fn ranges_view(v: Seq<(usize, usize)>) -> Seq<(nat, nat)> {
    Seq::new(v.len(), |i: int| (v[i].0 as nat, v[i].1 as nat))
}

pub open spec fn opt_range(o: Option<(usize, usize)>) -> Option<(nat, nat)> {
    match o {
        Some(p) => Some((p.0 as nat, p.1 as nat)),
        None => None,
    }
}

pub open spec fn opt_int(o: Option<usize>) -> Option<int> {
    match o {
        Some(n) => Some(n as int),
        None => None,
    }
}

/// Whether `spans` are the ranges of all functions.
pub open spec fn spans_of(w: World, spans: Seq<Option<(usize, usize)>>) -> bool {
    &&& spans.len() == w.tables.functions.len()
    &&& forall|i: int| 0 <= i < spans.len() ==> opt_range(#[trigger] spans[i]) == w.span(i)
}

fn recorded_span(buf: &CodeBuf, name: &str) -> (r: Option<(usize, usize)>)
    ensures
        opt_range(r) == recorded(buf@, name@, buf@.funcs.len() as int),
{
    let funcs = buf.funcs();
    let mut n: usize = funcs.len();
    assert(recs_view(funcs@).len() == funcs@.len());
    while n > 0
        invariant
            n <= funcs@.len(),
            recs_view(funcs@) == buf@.funcs,
            recorded(buf@, name@, buf@.funcs.len() as int) == recorded(buf@, name@, n as int),
        decreases n,
    {
        assert(buf@.funcs[n - 1] == funcs@[n - 1]@);
        let f = &funcs[n - 1];
        if same(f.name.as_str(), name) && f.code_start < f.code_end {
            return Some((f.code_start, f.code_end));
        }
        n -= 1;
    }
    None
}

fn find_next_above(functions: &Vec<(String, usize)>, pc: usize) -> (r: Option<usize>)
    ensures
        opt_nat(r) == next_above(functions_view(functions@), pc as nat, 0),
{
    let ghost fs = functions_view(functions@);
    let mut best: Option<usize> = None;
    let mut i: usize = functions.len();
    while i > 0
        invariant
            i <= functions@.len(),
            fs == functions_view(functions@),
            opt_nat(best) == next_above(fs, pc as nat, i as int),
        decreases i,
    {
        i -= 1;
        assert(fs[i as int].1 == functions@[i as int].1 as nat);
        let at = functions[i].1;
        if at > pc {
            best = match best {
                Some(b) => if at < b {
                    Some(at)
                } else {
                    Some(b)
                },
                None => Some(at),
            };
        }
    }
    best
}

fn shares_start(functions: &Vec<(String, usize)>, i: usize) -> (r: bool)
    requires
        i < functions@.len(),
    ensures
        r == exists|j: int|
            i < j < functions@.len() && (#[trigger] functions_view(functions@)[j]).1
                == functions_view(functions@)[i as int].1,
{
    let ghost fs = functions_view(functions@);
    let n = functions.len();
    let mut j: usize = i + 1;
    while j < n
        invariant
            i < j <= n,
            n == functions@.len(),
            fs == functions_view(functions@),
            forall|k: int| i < k < j ==> (#[trigger] fs[k]).1 != fs[i as int].1,
        decreases functions@.len() - j,
    {
        assert(fs[j as int].1 == functions@[j as int].1 as nat);
        if functions[j].1 == functions[i].1 {
            return true;
        }
        j += 1;
    }
    false
}

fn find_span(buf: &CodeBuf, input: &TreeshakeInput, i: usize) -> (r: Option<(usize, usize)>)
    requires
        i < input.functions@.len(),
    ensures
        opt_range(r) == (World { code: buf@, tables: input@ }).span(i as int),
{
    let ghost w = World { code: buf@, tables: input@ };
    assert(w.tables.functions[i as int] == (
        input.functions@[i as int].0@,
        input.functions@[i as int].1 as nat,
    ));
    match recorded_span(buf, input.functions[i].0.as_str()) {
        Some(s) => Some(s),
        None => {
            let start = input.functions[i].1;
            let next = match find_next_above(&input.functions, start) {
                Some(n) => n,
                None => buf.len(),
            };
            let end = match input.preserve_emit_start {
                Some(p) => if start < p && next > p {
                    p
                } else {
                    next
                },
                None => next,
            };
            if !shares_start(&input.functions, i) && start < end {
                Some((start, end))
            } else {
                None
            }
        },
    }
}

fn find_spans(buf: &CodeBuf, input: &TreeshakeInput) -> (r: Vec<Option<(usize, usize)>>)
    ensures
        spans_of(World { code: buf@, tables: input@ }, r@),
{
    let mut r: Vec<Option<(usize, usize)>> = Vec::new();
    let mut i: usize = 0;
    while i < input.functions.len()
        invariant
            i <= input.functions@.len(),
            r@.len() == i,
            forall|k: int|
                0 <= k < i ==> opt_range(#[trigger] r@[k]) == (World {
                    code: buf@,
                    tables: input@,
                }).span(k),
        decreases input.functions@.len() - i,
    {
        r.push(find_span(buf, input, i));
        i += 1;
    }
    r
}

fn find_function(input: &TreeshakeInput, name: &str, Ghost(w): Ghost<World>) -> (r: Option<usize>)
    requires
        w.tables == input@,
    ensures
        opt_int(r) == w.function_named(name@, 0),
        r is Some ==> r->0 < input.functions@.len(),
{
    let mut i: usize = 0;
    while i < input.functions.len()
        invariant
            i <= input.functions@.len(),
            w.tables == input@,
            w.function_named(name@, 0) == w.function_named(name@, i as int),
        decreases input.functions@.len() - i,
    {
        assert(w.tables.functions[i as int].0 == input.functions@[i as int].0@);
        if same(input.functions[i].0.as_str(), name) {
            return Some(i);
        }
        i += 1;
    }
    None
}

fn find_label_name<'a>(input: &'a TreeshakeInput, l: u32, Ghost(w): Ghost<World>) -> (r: Option<
    &'a str,
>)
    requires
        w.tables == input@,
    ensures
        match r {
            Some(s) => w.named_label(l) == Some(s@),
            None => w.named_label(l) is None,
        },
{
    let mut n: usize = input.fn_entry_labels.len();
    while n > 0
        invariant
            n <= input.fn_entry_labels@.len(),
            w.tables == input@,
            w.named_label(l) == w.label_name(l, n as int),
        decreases n,
    {
        assert(w.tables.labels[n - 1] == (
            input.fn_entry_labels@[n - 1].0@,
            input.fn_entry_labels@[n - 1].1,
        ));
        if input.fn_entry_labels[n - 1].1.0 == l {
            return Some(input.fn_entry_labels[n - 1].0.as_str());
        }
        n -= 1;
    }
    None
}

fn find_function_at(
    buf: &CodeBuf,
    input: &TreeshakeInput,
    spans: &Vec<Option<(usize, usize)>>,
    pc: usize,
) -> (r: Option<usize>)
    requires
        spans_of(World { code: buf@, tables: input@ }, spans@),
    ensures
        opt_int(r) == (World { code: buf@, tables: input@ }).function_at(pc as nat),
        r is Some ==> r->0 < input.functions@.len(),
{
    let ghost w = World { code: buf@, tables: input@ };
    let mut n: usize = spans.len();
    while n > 0
        invariant
            n <= spans@.len(),
            w == (World { code: buf@, tables: input@ }),
            spans_of(w, spans@),
            w.starting_at(pc as nat, w.tables.functions.len() as int) == w.starting_at(
                pc as nat,
                n as int,
            ),
        decreases n,
    {
        assert(opt_range(spans@[n - 1]) == w.span(n - 1));
        if let Some((s, _)) = spans[n - 1] {
            if s == pc {
                return Some(n - 1);
            }
        }
        n -= 1;
    }
    let entries = buf.entry_labels();
    let mut i: usize = 0;
    while i < entries.len()
        invariant
            i <= entries@.len(),
            w == (World { code: buf@, tables: input@ }),
            entries_view(entries@) == w.code.entries,
            w.starting_at(pc as nat, w.tables.functions.len() as int) is None,
            w.entry_name(pc as nat, 0) == w.entry_name(pc as nat, i as int),
        decreases entries@.len() - i,
    {
        assert(w.code.entries[i as int] == (entries@[i as int].0 as nat, entries@[i as int].1));
        if entries[i].0 == pc {
            if let Some(name) = find_label_name(input, entries[i].1.0, Ghost(w)) {
                return find_function(input, name, Ghost(w));
            }
        }
        i += 1;
    }
    None
}

fn resolve_target(
    buf: &CodeBuf,
    input: &TreeshakeInput,
    spans: &Vec<Option<(usize, usize)>>,
    t: Option<Target>,
) -> (r: Option<usize>)
    requires
        spans_of(World { code: buf@, tables: input@ }, spans@),
    ensures
        opt_int(r) == (World { code: buf@, tables: input@ }).resolved(t),
        r is Some ==> r->0 < input.functions@.len(),
{
    let ghost w = World { code: buf@, tables: input@ };
    match t {
        Some(Target::Label(l)) => match find_label_name(input, l, Ghost(w)) {
            Some(name) => find_function(input, name, Ghost(w)),
            None => None,
        },
        Some(Target::Pc(pc)) => find_function_at(buf, input, spans, pc as usize),
        None => None,
    }
}

/// Marks every function that the emitted range `s..e` refers to.
fn mark_range(
    buf: &CodeBuf,
    input: &TreeshakeInput,
    spans: &Vec<Option<(usize, usize)>>,
    s: usize,
    e: usize,
    marks: &mut Vec<bool>,
)
    requires
        spans_of(World { code: buf@, tables: input@ }, spans@),
        old(marks)@.len() == input.functions@.len(),
    ensures
        final(marks)@.len() == old(marks)@.len(),
        forall|j: int|
            0 <= j < final(marks)@.len() ==> #[trigger] final(marks)@[j] == (old(marks)@[j] || (World {
                code: buf@,
                tables: input@,
            }).refers(s as nat, e as nat, j)),
{
    let ghost w = World { code: buf@, tables: input@ };
    let ghost m0 = marks@;
    let ops = buf.ops();
    let (a, b) = emitting_range_to_raw(ops, s, e);
    let mut k: usize = a;
    while k < b
        invariant
            a <= k,
            k <= b || k == a,
            b <= ops@.len(),
            w == (World { code: buf@, tables: input@ }),
            spans_of(w, spans@),
            ops@ == w.code.ops,
            a == raw_pos(ops@, s as nat),
            b == raw_pos(ops@, e as nat),
            marks@.len() == m0.len(),
            m0.len() == input.functions@.len(),
            forall|j: int|
                0 <= j < m0.len() ==> #[trigger] marks@[j] == (m0[j] || exists|x: int|
                    a <= x < k && w.resolved(target_of(#[trigger] w.code.ops[x])) == Some(j)),
        decreases b - k,
    {
        let ghost m1 = marks@;
        let t = entry_target(&ops[k]);
        let callee = resolve_target(buf, input, spans, t);
        match callee {
            Some(j) => {
                marks.set(j, true);
            },
            None => {},
        }
        assert forall|j: int| 0 <= j < m0.len() implies #[trigger] marks@[j] == (m0[j]
            || exists|x: int|
            a <= x < k + 1 && w.resolved(target_of(#[trigger] w.code.ops[x])) == Some(j)) by {
            assert(m1[j] == (m0[j] || exists|x: int|
                a <= x < k && w.resolved(target_of(#[trigger] w.code.ops[x])) == Some(j)));
            if w.resolved(target_of(w.code.ops[k as int])) == Some(j) {
                assert(marks@[j]);
            }
        }
        k += 1;
    }
    assert forall|j: int| 0 <= j < m0.len() implies #[trigger] marks@[j] == (m0[j] || w.refers(
        s as nat,
        e as nat,
        j,
    )) by {}
}


/// Whether `marks` mark exactly the functions that `n` references reach.
pub open spec fn marked_within(w: World, marks: Seq<bool>, n: nat) -> bool {
    &&& marks.len() == w.tables.functions.len()
    &&& forall|i: int| 0 <= i < marks.len() ==> #[trigger] marks[i] == w.live_within(n, i)
}

/// Whether `marks` mark exactly the live functions.
pub open spec fn marked_live(w: World, marks: Seq<bool>) -> bool {
    &&& marks.len() == w.tables.functions.len()
    &&& forall|i: int| 0 <= i < marks.len() ==> #[trigger] marks[i] == w.live(i)
}

/// Number of marks from `i` on that are not set.
pub open spec fn unset(marks: Seq<bool>, i: int) -> nat
    decreases marks.len() - i,
{
    if i >= marks.len() {
        0
    } else {
        (if marks[i] {
            0nat
        } else {
            1nat
        }) + unset(marks, i + 1)
    }
}

proof fn more_marks_leave_fewer_unset(a: Seq<bool>, b: Seq<bool>, i: int)
    requires
        0 <= i,
        a.len() == b.len(),
        forall|k: int| 0 <= k < a.len() && #[trigger] a[k] ==> b[k],
    ensures
        unset(b, i) <= unset(a, i),
        (exists|k: int| i <= k < a.len() && #[trigger] a[k] != b[k]) ==> unset(b, i) < unset(a, i),
    decreases a.len() - i,
{
    if i < a.len() {
        more_marks_leave_fewer_unset(a, b, i + 1);
        assert(a[i] ==> b[i]);
        if exists|k: int| i <= k < a.len() && #[trigger] a[k] != b[k] {
            if a[i] == b[i] {
                let k = choose|k: int| i <= k < a.len() && #[trigger] a[k] != b[k];
                assert(i + 1 <= k);
            }
        }
    }
}

/// Once one more reference reaches nothing new, no number of them does.
proof fn stable_is_live(w: World, n: nat, m: nat)
    requires
        forall|j: int|
            0 <= j < w.tables.functions.len() ==> #[trigger] w.live_within(n + 1, j)
                == w.live_within(n, j),
    ensures
        forall|j: int|
            0 <= j < w.tables.functions.len() && #[trigger] w.live_within(m, j) ==> w.live_within(
                n,
                j,
            ),
    decreases m,
{
    if m == 0 {
        seeds_stay_live(w, n);
    } else {
        stable_is_live(w, n, (m - 1) as nat);
        assert forall|j: int|
            0 <= j < w.tables.functions.len() && #[trigger] w.live_within(m, j) implies w.live_within(
            n,
            j,
        ) by {
            if !w.live_within((m - 1) as nat, j) {
                let i = choose|i: int|
                    0 <= i < w.tables.functions.len() && w.live_within((m - 1) as nat, i)
                        && #[trigger] w.calls(i, j);
                assert(w.live_within(n, i));
                assert(w.live_within(n + 1, j));
            }
        }
    }
}

proof fn seeds_stay_live(w: World, n: nat)
    ensures
        forall|j: int| w.live_within(0, j) ==> #[trigger] w.live_within(n, j),
    decreases n,
{
    if n > 0 {
        seeds_stay_live(w, (n - 1) as nat);
        assert forall|j: int| w.live_within(0, j) implies #[trigger] w.live_within(n, j) by {
            assert(w.live_within((n - 1) as nat, j));
        }
    }
}

/// A seeded function is live.
pub proof fn seeds_are_live(w: World, i: int)
    requires
        w.seeded(i),
    ensures
        w.live(i),
{
    assert(w.live_within(0, i));
}

/// What a live function refers to is live.
pub proof fn callees_of_live_functions_are_live(w: World, i: int, j: int)
    requires
        0 <= i < w.tables.functions.len(),
        w.live(i),
        w.calls(i, j),
    ensures
        w.live(j),
{
    let n = choose|n: nat| #[trigger] w.live_within(n, i);
    assert(w.live_within((n + 1 - 1) as nat, i));
    assert(w.live_within(n + 1, j));
}

/// Only what is needed is live: any set of functions that holds the seeded ones and whatever
/// its members refer to holds every live function.
pub proof fn live_functions_are_the_least(w: World, kept: Set<int>, j: int)
    requires
        forall|i: int| #[trigger] w.seeded(i) ==> kept.contains(i),
        forall|i: int, k: int| kept.contains(i) && #[trigger] w.calls(i, k) ==> kept.contains(k),
        w.live(j),
    ensures
        kept.contains(j),
{
    let n = choose|n: nat| #[trigger] w.live_within(n, j);
    reached_functions_are_kept(w, kept, n, j);
}

proof fn reached_functions_are_kept(w: World, kept: Set<int>, n: nat, j: int)
    requires
        forall|i: int| #[trigger] w.seeded(i) ==> kept.contains(i),
        forall|i: int, k: int| kept.contains(i) && #[trigger] w.calls(i, k) ==> kept.contains(k),
        w.live_within(n, j),
    ensures
        kept.contains(j),
    decreases n,
{
    if n > 0 {
        if w.live_within((n - 1) as nat, j) {
            reached_functions_are_kept(w, kept, (n - 1) as nat, j);
        } else {
            let i = choose|i: int|
                0 <= i < w.tables.functions.len() && w.live_within((n - 1) as nat, i)
                    && #[trigger] w.calls(i, j);
            reached_functions_are_kept(w, kept, (n - 1) as nat, i);
        }
    }
}

fn is_root(
    buf: &CodeBuf,
    input: &TreeshakeInput,
    spans: &Vec<Option<(usize, usize)>>,
    i: usize,
) -> (r: bool)
    requires
        spans_of(World { code: buf@, tables: input@ }, spans@),
        i < input.functions@.len(),
    ensures
        r == (World { code: buf@, tables: input@ }).rooted(i as int),
{
    let ghost w = World { code: buf@, tables: input@ };
    assert(w.tables.functions[i as int].0 == input.functions@[i as int].0@);
    if has_name(&input.root_names, input.functions[i].0.as_str()) {
        return true;
    }
    if !input.include_tests {
        return false;
    }
    let mut t: usize = 0;
    while t < input.test_cases.len()
        invariant
            t <= input.test_cases@.len(),
            w == (World { code: buf@, tables: input@ }),
            w.tables.include_tests,
            spans_of(w, spans@),
            forall|k: int|
                0 <= k < t ==> w.function_at((#[trigger] w.tables.tests[k]).1 as nat) != Some(
                    i as int,
                ),
        decreases input.test_cases@.len() - t,
    {
        assert(w.tables.tests[t as int].1 == input.test_cases@[t as int].1);
        let at = find_function_at(buf, input, spans, input.test_cases[t].1 as usize);
        if let Some(j) = at {
            if j == i {
                return true;
            }
        }
        t += 1;
    }
    false
}

fn find_first_root(
    spans: &Vec<Option<(usize, usize)>>,
    marks: &Vec<bool>,
    Ghost(w): Ghost<World>,
) -> (r: usize)
    requires
        spans_of(w, spans@),
        marks@.len() == spans@.len(),
        forall|i: int| 0 <= i < marks@.len() ==> #[trigger] marks@[i] == w.rooted(i),
    ensures
        r == w.setup_end(),
{
    let mut best: Option<usize> = None;
    let mut n: usize = 0;
    while n < spans.len()
        invariant
            n <= spans@.len(),
            spans_of(w, spans@),
            marks@.len() == spans@.len(),
            forall|i: int| 0 <= i < marks@.len() ==> #[trigger] marks@[i] == w.rooted(i),
            opt_nat(best) == w.first_root(n as int),
        decreases spans@.len() - n,
    {
        assert(opt_range(spans@[n as int]) == w.span(n as int));
        assert(marks@[n as int] == w.rooted(n as int));
        if marks[n] {
            if let Some((s, _)) = spans[n] {
                best = match best {
                    Some(b) => if s < b {
                        Some(s)
                    } else {
                        Some(b)
                    },
                    None => Some(s),
                };
            }
        }
        n += 1;
    }
    match best {
        Some(b) => b,
        None => 0,
    }
}

fn mark_seeds(buf: &CodeBuf, input: &TreeshakeInput, spans: &Vec<Option<(usize, usize)>>) -> (r: Vec<
    bool,
>)
    requires
        spans_of(World { code: buf@, tables: input@ }, spans@),
    ensures
        marked_within(World { code: buf@, tables: input@ }, r@, 0),
{
    let ghost w = World { code: buf@, tables: input@ };
    let mut marks: Vec<bool> = Vec::new();
    let mut i: usize = 0;
    while i < input.functions.len()
        invariant
            i <= input.functions@.len(),
            w == (World { code: buf@, tables: input@ }),
            spans_of(w, spans@),
            marks@.len() == i,
            forall|k: int| 0 <= k < i ==> #[trigger] marks@[k] == w.rooted(k),
        decreases input.functions@.len() - i,
    {
        marks.push(is_root(buf, input, spans, i));
        i += 1;
    }
    let ghost m0 = marks@;
    let setup_end = find_first_root(spans, &marks, Ghost(w));
    let setup_start = match input.preserve_emit_start {
        Some(p) => if p < setup_end {
            p
        } else {
            setup_end
        },
        None => 0,
    };
    let prologue_end = if setup_start < 3 {
        setup_start
    } else {
        3
    };
    mark_range(buf, input, spans, setup_start, setup_end, &mut marks);
    mark_range(buf, input, spans, 0, prologue_end, &mut marks);
    assert forall|k: int| 0 <= k < marks@.len() implies #[trigger] marks@[k] == w.live_within(
        0,
        k,
    ) by {
        assert(m0[k] == w.rooted(k));
    }
    marks
}

/// One round: marks what the marked functions refer to.
fn mark_callees(
    buf: &CodeBuf,
    input: &TreeshakeInput,
    spans: &Vec<Option<(usize, usize)>>,
    marks: &Vec<bool>,
    Ghost(n): Ghost<nat>,
) -> (r: Vec<bool>)
    requires
        spans_of(World { code: buf@, tables: input@ }, spans@),
        marked_within(World { code: buf@, tables: input@ }, marks@, n),
    ensures
        marked_within(World { code: buf@, tables: input@ }, r@, n + 1),
{
    let ghost w = World { code: buf@, tables: input@ };
    let mut next: Vec<bool> = Vec::new();
    let mut k: usize = 0;
    while k < marks.len()
        invariant
            k <= marks@.len(),
            next@ == marks@.take(k as int),
        decreases marks@.len() - k,
    {
        next.push(marks[k]);
        k += 1;
        assert(next@ =~= marks@.take(k as int));
    }
    assert(next@ =~= marks@);
    let mut i: usize = 0;
    while i < marks.len()
        invariant
            i <= marks@.len(),
            w == (World { code: buf@, tables: input@ }),
            spans_of(w, spans@),
            marks@.len() == spans@.len(),
            marks@.len() == input.functions@.len(),
            next@.len() == marks@.len(),
            forall|j: int|
                0 <= j < next@.len() ==> #[trigger] next@[j] == (marks@[j] || exists|x: int|
                    0 <= x < i && marks@[x] && #[trigger] w.calls(x, j)),
        decreases marks@.len() - i,
    {
        let ghost n1 = next@;
        assert(opt_range(spans@[i as int]) == w.span(i as int));
        if marks[i] {
            if let Some((s, e)) = spans[i] {
                mark_range(buf, input, spans, s, e, &mut next);
            }
        }
        assert forall|j: int| 0 <= j < next@.len() implies #[trigger] next@[j] == (marks@[j]
            || exists|x: int| 0 <= x < i + 1 && marks@[x] && #[trigger] w.calls(x, j)) by {
            assert(n1[j] == (marks@[j] || exists|x: int|
                0 <= x < i && marks@[x] && #[trigger] w.calls(x, j)));
            if marks@[i as int] && w.calls(i as int, j) {
                assert(next@[j]);
            }
        }
        i += 1;
    }
    assert forall|j: int| 0 <= j < next@.len() implies #[trigger] next@[j] == w.live_within(
        n + 1,
        j,
    ) by {
        assert(marks@[j] == w.live_within(n, j));
        assert forall|x: int| 0 <= x < marks@.len() implies #[trigger] marks@[x] == w.live_within(
            n,
            x,
        ) by {}
        assert((n + 1 - 1) as nat == n);
        if w.live_within(n + 1, j) && !w.live_within(n, j) {
            let x = choose|x: int|
                0 <= x < w.tables.functions.len() && w.live_within(n, x) && #[trigger] w.calls(
                    x,
                    j,
                );
            assert(marks@[x]);
            assert(0 <= x < marks@.len() && marks@[x] && w.calls(x, j));
        }
    }
    next
}

fn find_live(buf: &CodeBuf, input: &TreeshakeInput, spans: &Vec<Option<(usize, usize)>>) -> (r: Vec<
    bool,
>)
    requires
        spans_of(World { code: buf@, tables: input@ }, spans@),
    ensures
        marked_live(World { code: buf@, tables: input@ }, r@),
{
    let ghost w = World { code: buf@, tables: input@ };
    let mut marks = mark_seeds(buf, input, spans);
    let ghost mut n: nat = 0;
    loop
        invariant
            w == (World { code: buf@, tables: input@ }),
            spans_of(w, spans@),
            marked_within(w, marks@, n),
        decreases unset(marks@, 0),
    {
        let next = mark_callees(buf, input, spans, &marks, Ghost(n));
        let mut same_marks = true;
        let mut k: usize = 0;
        while k < marks.len()
            invariant
                k <= marks@.len(),
                next@.len() == marks@.len(),
                same_marks == (forall|j: int| 0 <= j < k ==> #[trigger] marks@[j] == next@[j]),
            decreases marks@.len() - k,
        {
            if marks[k] != next[k] {
                same_marks = false;
            }
            k += 1;
        }
        if same_marks {
            proof {
                assert forall|j: int|
                    0 <= j < w.tables.functions.len() implies #[trigger] w.live_within(n + 1, j)
                    == w.live_within(n, j) by {
                    assert(marks@[j] == next@[j]);
                }
                assert forall|j: int| 0 <= j < marks@.len() implies #[trigger] marks@[j] == w.live(
                    j,
                ) by {
                    assert(marks@[j] == w.live_within(n, j));
                    if w.live(j) {
                        let m = choose|m: nat| #[trigger] w.live_within(m, j);
                        stable_is_live(w, n, m);
                    }
                }
            }
            return marks;
        }
        proof {
            assert forall|j: int| 0 <= j < marks@.len() && #[trigger] marks@[j] implies next@[j] by {
                assert(marks@[j] == w.live_within(n, j));
                assert(next@[j] == w.live_within(n + 1, j));
                assert((n + 1 - 1) as nat == n);
            }
            more_marks_leave_fewer_unset(marks@, next@, 0);
            n = n + 1;
        }
        marks = next;
    }
}


fn find_dead(input: &TreeshakeInput, live: &Vec<bool>, Ghost(w): Ghost<World>) -> (r: Vec<String>)
    requires
        w.tables == input@,
        marked_live(w, live@),
    ensures
        texts(r@) == w.dead_from(0),
{
    let mut r: Vec<String> = Vec::new();
    let mut i: usize = 0;
    assert(texts(r@) + w.dead_from(0) =~= w.dead_from(0));
    while i < input.functions.len()
        invariant
            i <= input.functions@.len(),
            w.tables == input@,
            marked_live(w, live@),
            texts(r@) + w.dead_from(i as int) == w.dead_from(0),
        decreases input.functions@.len() - i,
    {
        let ghost r0 = texts(r@);
        assert(w.tables.functions[i as int].0 == input.functions@[i as int].0@);
        assert(live@[i as int] == w.live(i as int));
        if !live[i] {
            let name = input.functions[i].0.as_str().to_owned();
            r.push(name);
            assert(texts(r@) =~= r0.push(name@));
        }
        assert(texts(r@) + w.dead_from(i + 1) =~= r0 + w.dead_from(i as int));
        i += 1;
    }
    assert(texts(r@) + w.dead_from(i as int) =~= texts(r@));
    r
}

fn find_kept_gap(
    input: &TreeshakeInput,
    spans: &Vec<Option<(usize, usize)>>,
    live: &Vec<bool>,
    Ghost(w): Ghost<World>,
) -> (r: (usize, usize))
    requires
        w.tables == input@,
        spans_of(w, spans@),
        marked_live(w, live@),
    ensures
        w.kept_gap() == (r.0 as nat, r.1 as nat),
{
    let p = match input.preserve_emit_start {
        Some(p) => p,
        None => return (0, 0),
    };
    let mut best: Option<usize> = None;
    let mut n: usize = 0;
    while n < spans.len()
        invariant
            n <= spans@.len(),
            w.tables == input@,
            spans_of(w, spans@),
            marked_live(w, live@),
            opt_nat(best) == w.first_live(p as nat, n as int),
        decreases spans@.len() - n,
    {
        assert(opt_range(spans@[n as int]) == w.span(n as int));
        assert(live@[n as int] == w.live(n as int));
        if live[n] {
            if let Some((s, _)) = spans[n] {
                if s >= p {
                    best = match best {
                        Some(b) => if s < b {
                            Some(s)
                        } else {
                            Some(b)
                        },
                        None => Some(s),
                    };
                }
            }
        }
        n += 1;
    }
    match best {
        Some(b) => (p, b),
        None => (p, p),
    }
}

/// Whether every range has a length.
pub open spec fn solid(v: Seq<(nat, nat)>) -> bool {
    forall|i: int| 0 <= i < v.len() ==> (#[trigger] v[i]).0 < v[i].1
}

fn place_range(v: &mut Vec<(usize, usize)>, s: usize, e: usize)
    requires
        s < e,
        solid(ranges_view(old(v)@)),
    ensures
        ranges_view(final(v)@) == ranges_view(old(v)@).insert(
            place(ranges_view(old(v)@), (s as nat, e as nat), 0),
            (s as nat, e as nat),
        ),
        solid(ranges_view(final(v)@)),
{
    let ghost rv = ranges_view(v@);
    let ghost x = (s as nat, e as nat);
    let mut i: usize = 0;
    while i < v.len() && v[i].0 > s
        invariant
            i <= v@.len(),
            rv == ranges_view(v@),
            x == (s as nat, e as nat),
            place(rv, x, 0) == place(rv, x, i as int),
        decreases v@.len() - i,
    {
        assert(rv[i as int] == (v@[i as int].0 as nat, v@[i as int].1 as nat));
        i += 1;
    }
    proof {
        if i < v@.len() {
            assert(rv[i as int] == (v@[i as int].0 as nat, v@[i as int].1 as nat));
        }
    }
    v.insert(i, (s, e));
    assert(ranges_view(v@) =~= rv.insert(i as int, x));
    assert forall|k: int| 0 <= k < ranges_view(v@).len() implies (#[trigger] ranges_view(v@)[k]).0
        < ranges_view(v@)[k].1 by {
        if k < i {
            assert(ranges_view(v@)[k] == rv[k]);
        } else if k > i {
            assert(ranges_view(v@)[k] == rv[k - 1]);
        }
    }
}

/// A recorded body has a length.
proof fn recorded_has_length(c: CodeV, name: Seq<char>, n: int)
    requires
        n <= c.funcs.len(),
    ensures
        recorded(c, name, n) matches Some(s) ==> s.0 < s.1,
    decreases n,
{
    if n > 0 {
        recorded_has_length(c, name, n - 1);
    }
}

fn find_cuts(
    input: &TreeshakeInput,
    spans: &Vec<Option<(usize, usize)>>,
    live: &Vec<bool>,
    Ghost(w): Ghost<World>,
) -> (r: Vec<(usize, usize)>)
    requires
        w.tables == input@,
        spans_of(w, spans@),
        marked_live(w, live@),
    ensures
        ranges_view(r@) == w.cuts_from(0, Seq::empty()),
        solid(ranges_view(r@)),
{
    let (a, b) = find_kept_gap(input, spans, live, Ghost(w));
    let mut r: Vec<(usize, usize)> = Vec::new();
    let ghost all = w.cuts_from(0, Seq::empty());
    assert(ranges_view(r@) =~= Seq::empty());
    let mut i: usize = 0;
    while i < spans.len()
        invariant
            i <= spans@.len(),
            w.tables == input@,
            spans_of(w, spans@),
            marked_live(w, live@),
            w.kept_gap() == (a as nat, b as nat),
            all == w.cuts_from(i as int, ranges_view(r@)),
            solid(ranges_view(r@)),
        decreases spans@.len() - i,
    {
        assert(opt_range(spans@[i as int]) == w.span(i as int));
        assert(live@[i as int] == w.live(i as int));
        if !live[i] {
            if let Some((s, e)) = spans[i] {
                let ghost acc = ranges_view(r@);
                let ghost cuts = w.cuts(s as nat, e as nat);
                proof {
                    recorded_has_length(
                        w.code,
                        w.tables.functions[i as int].0,
                        w.code.funcs.len() as int,
                    );
                    reveal_with_fuel(all_placed, 3);
                }
                if b <= a {
                    place_range(&mut r, s, e);
                } else {
                    let front_end = if e < a {
                        e
                    } else {
                        a
                    };
                    let back_start = if s > b {
                        s
                    } else {
                        b
                    };
                    if s < a && s < front_end {
                        place_range(&mut r, s, front_end);
                    }
                    if e > b && back_start < e {
                        place_range(&mut r, back_start, e);
                    }
                }
                assert(ranges_view(r@) == all_placed(acc, cuts, 0));
            }
        }
        i += 1;
    }
    r
}

fn shrink_functions(functions: &mut Vec<(String, usize)>, e: usize, d: usize)
    requires
        d <= e,
    ensures
        functions_view(final(functions)@) == Seq::new(
            old(functions)@.len(),
            |i: int|
                (
                    functions_view(old(functions)@)[i].0,
                    moved(functions_view(old(functions)@)[i].1, e as nat, d as nat),
                ),
        ),
{
    let ghost f0 = functions_view(functions@);
    let mut r: Vec<(String, usize)> = Vec::new();
    let mut i: usize = 0;
    while i < functions.len()
        invariant
            i <= functions@.len(),
            d <= e,
            f0 == functions_view(functions@),
            r@.len() == i,
            forall|k: int|
                0 <= k < i ==> #[trigger] functions_view(r@)[k] == (
                    f0[k].0,
                    moved(f0[k].1, e as nat, d as nat),
                ),
        decreases functions@.len() - i,
    {
        let ghost r0 = functions_view(r@);
        let pc = functions[i].1;
        assert(f0[i as int] == (functions@[i as int].0@, pc as nat));
        let name = functions[i].0.as_str().to_owned();
        let to = if pc >= e {
            pc - d
        } else {
            pc
        };
        r.push((name, to));
        assert(functions_view(r@) =~= r0.push((name@, to as nat)));
        i += 1;
    }
    assert(functions_view(r@) =~= Seq::new(
        f0.len(),
        |k: int| (f0[k].0, moved(f0[k].1, e as nat, d as nat)),
    ));
    *functions = r;
}

fn shrink_tests(tests: &mut Vec<(String, u32)>, e: usize, d: usize)
    requires
        d <= e,
    ensures
        words_view(final(tests)@) == Seq::new(
            old(tests)@.len(),
            |i: int|
                (
                    words_view(old(tests)@)[i].0,
                    moved(words_view(old(tests)@)[i].1 as nat, e as nat, d as nat) as u32,
                ),
        ),
{
    let ghost t0 = words_view(tests@);
    let mut r: Vec<(String, u32)> = Vec::new();
    let mut i: usize = 0;
    while i < tests.len()
        invariant
            i <= tests@.len(),
            d <= e,
            t0 == words_view(tests@),
            r@.len() == i,
            forall|k: int|
                0 <= k < i ==> #[trigger] words_view(r@)[k] == (
                    t0[k].0,
                    moved(t0[k].1 as nat, e as nat, d as nat) as u32,
                ),
        decreases tests@.len() - i,
    {
        let ghost r0 = words_view(r@);
        let pc = tests[i].1;
        assert(t0[i as int] == (tests@[i as int].0@, pc));
        let name = tests[i].0.as_str().to_owned();
        let to = if pc as usize >= e {
            pc - d as u32
        } else {
            pc
        };
        r.push((name, to));
        assert(words_view(r@) =~= r0.push((name@, to)));
        i += 1;
    }
    assert(words_view(r@) =~= Seq::new(
        t0.len(),
        |k: int| (t0[k].0, moved(t0[k].1 as nat, e as nat, d as nat) as u32),
    ));
    *tests = r;
}

fn spare_functions(functions: &mut Vec<(String, usize)>, dead: &Vec<String>)
    ensures
        functions_view(final(functions)@) == spared(
            functions_view(old(functions)@),
            texts(dead@),
            0,
        ),
{
    let ghost v = functions_view(functions@);
    let ghost dv = texts(dead@);
    let mut r: Vec<(String, usize)> = Vec::new();
    let mut i: usize = 0;
    assert(functions_view(r@) + spared(v, dv, 0) =~= spared(v, dv, 0));
    while i < functions.len()
        invariant
            i <= functions@.len(),
            v == functions_view(functions@),
            dv == texts(dead@),
            functions_view(r@) + spared(v, dv, i as int) == spared(v, dv, 0),
        decreases functions@.len() - i,
    {
        let ghost r0 = functions_view(r@);
        assert(v[i as int] == (functions@[i as int].0@, functions@[i as int].1 as nat));
        if !has_name(dead, functions[i].0.as_str()) {
            let name = functions[i].0.as_str().to_owned();
            r.push((name, functions[i].1));
            assert(functions_view(r@) =~= r0.push(v[i as int]));
        }
        assert(functions_view(r@) + spared(v, dv, i + 1) =~= r0 + spared(v, dv, i as int));
        i += 1;
    }
    assert(functions_view(r@) + spared(v, dv, i as int) =~= functions_view(r@));
    *functions = r;
}

fn spare_labels(labels: &mut Vec<(String, Label)>, dead: &Vec<String>)
    ensures
        labels_view(final(labels)@) == spared(labels_view(old(labels)@), texts(dead@), 0),
{
    let ghost v = labels_view(labels@);
    let ghost dv = texts(dead@);
    let mut r: Vec<(String, Label)> = Vec::new();
    let mut i: usize = 0;
    assert(labels_view(r@) + spared(v, dv, 0) =~= spared(v, dv, 0));
    while i < labels.len()
        invariant
            i <= labels@.len(),
            v == labels_view(labels@),
            dv == texts(dead@),
            labels_view(r@) + spared(v, dv, i as int) == spared(v, dv, 0),
        decreases labels@.len() - i,
    {
        let ghost r0 = labels_view(r@);
        assert(v[i as int] == (labels@[i as int].0@, labels@[i as int].1));
        if !has_name(dead, labels[i].0.as_str()) {
            let name = labels[i].0.as_str().to_owned();
            r.push((name, labels[i].1));
            assert(labels_view(r@) =~= r0.push(v[i as int]));
        }
        assert(labels_view(r@) + spared(v, dv, i + 1) =~= r0 + spared(v, dv, i as int));
        i += 1;
    }
    assert(labels_view(r@) + spared(v, dv, i as int) =~= labels_view(r@));
    *labels = r;
}

fn spare_locals(locals: &mut Vec<(String, Vec<(String, u32)>)>, dead: &Vec<String>)
    ensures
        locals_view(final(locals)@) == spared(locals_view(old(locals)@), texts(dead@), 0),
{
    let ghost v = locals_view(locals@);
    let ghost dv = texts(dead@);
    let ghost mut kept: Seq<(Seq<char>, Seq<(Seq<char>, u32)>)> = Seq::empty();
    let ghost mut j: int = 0;
    let mut i: usize = 0;
    proof {
        assert(kept + v.skip(0) =~= v);
        assert(kept + spared(v, dv, 0) =~= spared(v, dv, 0));
    }
    while i < locals.len()
        invariant
            i <= locals@.len(),
            0 <= j <= v.len(),
            i == kept.len(),
            dv == texts(dead@),
            locals_view(locals@) == kept + v.skip(j),
            kept + spared(v, dv, j) == spared(v, dv, 0),
        decreases locals@.len() - i,
    {
        let ghost lv = locals_view(locals@);
        proof {
            assert(lv.len() == locals@.len());
            assert(lv[i as int] == v[j]);
            assert(lv[i as int].0 == locals@[i as int].0@);
        }
        if has_name(dead, locals[i].0.as_str()) {
            let _gone = locals.remove(i);
            proof {
                assert(locals_view(locals@) =~= lv.remove(i as int));
                assert(lv.remove(i as int) =~= kept + v.skip(j + 1));
                assert(kept + spared(v, dv, j + 1) =~= kept + spared(v, dv, j));
                j = j + 1;
            }
        } else {
            proof {
                assert(kept.push(v[j]) + v.skip(j + 1) =~= lv);
                assert(kept.push(v[j]) + spared(v, dv, j + 1) =~= kept + spared(v, dv, j));
                kept = kept.push(v[j]);
                j = j + 1;
            }
            i += 1;
        }
    }
    proof {
        assert(locals_view(locals@).len() == locals@.len());
        assert(v.skip(j).len() == 0);
        assert(j == v.len());
        assert(kept + spared(v, dv, j) =~= kept);
        assert(locals_view(locals@) =~= kept);
    }
}

fn names_list(functions: &Vec<(String, usize)>) -> (r: Vec<String>)
    ensures
        texts(r@) == names_of(functions_view(functions@)),
{
    let mut r: Vec<String> = Vec::new();
    let mut i: usize = 0;
    while i < functions.len()
        invariant
            i <= functions@.len(),
            r@.len() == i,
            forall|k: int| 0 <= k < i ==> (#[trigger] r@[k])@ == functions@[k].0@,
        decreases functions@.len() - i,
    {
        r.push(functions[i].0.as_str().to_owned());
        i += 1;
    }
    assert(texts(r@) =~= names_of(functions_view(functions@)));
    r
}

fn has_entry(functions: &Vec<(String, usize)>, pc: u32) -> (r: bool)
    ensures
        r == exists|k: int|
            0 <= k < functions@.len() && (#[trigger] functions_view(functions@)[k]).1 == pc as nat,
{
    let ghost fs = functions_view(functions@);
    let mut i: usize = 0;
    while i < functions.len()
        invariant
            i <= functions@.len(),
            fs == functions_view(functions@),
            forall|k: int| 0 <= k < i ==> (#[trigger] fs[k]).1 != pc as nat,
        decreases functions@.len() - i,
    {
        assert(fs[i as int].1 == functions@[i as int].1 as nat);
        if functions[i].1 == pc as usize {
            return true;
        }
        i += 1;
    }
    false
}

fn retain_tests(tests: &mut Vec<(String, u32)>, functions: &Vec<(String, usize)>)
    ensures
        words_view(final(tests)@) == tests_left(
            words_view(old(tests)@),
            functions_view(functions@),
            0,
        ),
{
    let ghost v = words_view(tests@);
    let ghost fs = functions_view(functions@);
    let mut r: Vec<(String, u32)> = Vec::new();
    let mut i: usize = 0;
    assert(words_view(r@) + tests_left(v, fs, 0) =~= tests_left(v, fs, 0));
    while i < tests.len()
        invariant
            i <= tests@.len(),
            v == words_view(tests@),
            fs == functions_view(functions@),
            words_view(r@) + tests_left(v, fs, i as int) == tests_left(v, fs, 0),
        decreases tests@.len() - i,
    {
        let ghost r0 = words_view(r@);
        assert(v[i as int] == (tests@[i as int].0@, tests@[i as int].1));
        if has_entry(functions, tests[i].1) {
            let name = tests[i].0.as_str().to_owned();
            r.push((name, tests[i].1));
            assert(words_view(r@) =~= r0.push(v[i as int]));
        }
        assert(words_view(r@) + tests_left(v, fs, i + 1) =~= r0 + tests_left(v, fs, i as int));
        i += 1;
    }
    assert(words_view(r@) + tests_left(v, fs, i as int) =~= words_view(r@));
    *tests = r;
}

/// Removes the bodies of the functions that nothing reaches, with their table entries. Returns
/// how many functions were dropped, and for each cut where it ended and how long it was, so
/// that other tables can be moved along.
pub fn prune_unused_functions(buf: &mut CodeBuf, input: &mut TreeshakeInput) -> (r: (
    usize,
    Vec<(usize, usize)>,
))
    ensures
        (World { code: old(buf)@, tables: old(input)@ }).shaken() == (ShakenV {
            code: final(buf)@,
            tables: final(input)@,
            dropped: r.0 as nat,
            shrinks: ranges_view(r.1@),
        }),
        old(input)@.names_differ() ==> final(input)@.names_differ(),
{
    let ghost w = World { code: buf@, tables: input@ };
    proof {
        if w.distinct() {
            removal_keeps_names_apart(w);
        }
    }
    let spans = find_spans(buf, input);
    let live = find_live(buf, input, &spans);
    let dead = find_dead(input, &live, Ghost(w));
    let mut shrinks: Vec<(usize, usize)> = Vec::new();
    assert(ranges_view(shrinks@) =~= Seq::empty());
    assert(texts(dead@).len() == dead@.len());
    if dead.len() == 0 {
        return (0, shrinks);
    }
    let cuts = find_cuts(input, &spans, &live, Ghost(w));
    let ghost start = CutV {
        code: w.code,
        functions: w.tables.functions,
        tests: w.tables.tests,
        shrinks: Seq::empty(),
    };
    let ghost cv = ranges_view(cuts@);
    let mut i: usize = 0;
    while i < cuts.len()
        invariant
            i <= cuts@.len(),
            cv == ranges_view(cuts@),
            solid(cv),
            input@ == (TablesV {
                functions: functions_view(input.functions@),
                tests: words_view(input.test_cases@),
                ..w.tables
            }),
            start.cut_all(cv, 0) == (CutV {
                code: buf@,
                functions: functions_view(input.functions@),
                tests: words_view(input.test_cases@),
                shrinks: ranges_view(shrinks@),
            }).cut_all(cv, i as int),
        decreases cuts@.len() - i,
    {
        let (s, e) = cuts[i];
        assert(cv[i as int] == (s as nat, e as nat));
        let ghost now = CutV {
            code: buf@,
            functions: functions_view(input.functions@),
            tests: words_view(input.test_cases@),
            shrinks: ranges_view(shrinks@),
        };
        buf.remove_emitting_span(s, e);
        shrink_functions(&mut input.functions, e, e - s);
        shrink_tests(&mut input.test_cases, e, e - s);
        let ghost shrinks0 = ranges_view(shrinks@);
        shrinks.push((e, e - s));
        proof {
            assert(ranges_view(shrinks@) =~= shrinks0.push((e as nat, (e - s) as nat)));
            assert(now.cut(s as nat, e as nat) =~= (CutV {
                code: buf@,
                functions: functions_view(input.functions@),
                tests: words_view(input.test_cases@),
                shrinks: ranges_view(shrinks@),
            }));
        }
        i += 1;
    }
    spare_functions(&mut input.functions, &dead);
    spare_labels(&mut input.fn_entry_labels, &dead);
    spare_locals(&mut input.fn_debug_locals, &dead);
    retain_tests(&mut input.test_cases, &input.functions);
    let names = names_list(&input.functions);
    buf.retain_funcs(&names);
    (dead.len(), shrinks)
}


proof fn cuts_keep_names(c: CutV, spans: Seq<(nat, nat)>, i: int)
    requires
        0 <= i,
    ensures
        names_of(c.cut_all(spans, i).functions) == names_of(c.functions),
    decreases spans.len() - i,
{
    if i < spans.len() {
        let next = c.cut(spans[i].0, spans[i].1);
        cuts_keep_names(next, spans, i + 1);
        assert(names_of(next.functions) =~= names_of(c.functions));
    }
}

proof fn spared_names(v: Seq<(Seq<char>, nat)>, dead: Seq<Seq<char>>, i: int, name: Seq<char>)
    requires
        0 <= i,
    ensures
        names_of(spared(v, dead, i)).contains(name) == (!dead.contains(name) && exists|k: int|
            i <= k < v.len() && (#[trigger] v[k]).0 == name),
    decreases v.len() - i,
{
    if i < v.len() {
        spared_names(v, dead, i + 1, name);
        let head: Seq<(Seq<char>, nat)> = if dead.contains(v[i].0) {
            Seq::empty()
        } else {
            seq![v[i]]
        };
        let rest = spared(v, dead, i + 1);
        let all = spared(v, dead, i);
        assert(all == head + rest);
        assert(names_of(all) =~= names_of(head) + names_of(rest));
        if names_of(all).contains(name) {
            let k = names_of(all).index_of(name);
            if k < head.len() {
                assert(v[i].0 == name);
            } else {
                assert(names_of(rest)[k - head.len()] == name);
                assert(names_of(rest).contains(name));
            }
        }
        if !dead.contains(name) && exists|k: int| i <= k < v.len() && (#[trigger] v[k]).0 == name {
            if v[i].0 == name {
                assert(names_of(all)[0] == name);
            } else {
                assert(names_of(rest).contains(name));
                let k = names_of(rest).index_of(name);
                assert(names_of(all)[k + head.len()] == name);
            }
        }
    } else {
        assert(names_of(spared(v, dead, i)) =~= Seq::empty());
    }
}

proof fn dead_names(w: World, i: int, name: Seq<char>)
    requires
        0 <= i,
    ensures
        w.dead_from(i).contains(name) == exists|k: int|
            i <= k < w.tables.functions.len() && !w.live(k) && (#[trigger] w.tables.functions[k]).0
                == name,
    decreases w.tables.functions.len() - i,
{
    if i < w.tables.functions.len() {
        dead_names(w, i + 1, name);
        let head: Seq<Seq<char>> = if w.live(i) {
            Seq::empty()
        } else {
            seq![w.tables.functions[i].0]
        };
        let rest = w.dead_from(i + 1);
        assert(w.dead_from(i) == head + rest);
        if w.dead_from(i).contains(name) {
            let k = w.dead_from(i).index_of(name);
            if k < head.len() {
                assert(w.tables.functions[i].0 == name);
            } else {
                assert(rest[k - head.len()] == name);
                assert(rest.contains(name));
            }
        }
        if exists|k: int|
            i <= k < w.tables.functions.len() && !w.live(k) && (#[trigger] w.tables.functions[k]).0
                == name {
            if !w.live(i) && w.tables.functions[i].0 == name {
                assert(w.dead_from(i)[0] == name);
            } else {
                assert(rest.contains(name));
                let k = rest.index_of(name);
                assert(w.dead_from(i)[k + head.len()] == name);
            }
        }
    }
}

/// Exactly the live functions stay in the function table.
pub proof fn live_functions_stay(w: World, i: int)
    requires
        w.distinct(),
        0 <= i < w.tables.functions.len(),
    ensures
        names_of(w.shaken().tables.functions).contains(w.tables.functions[i].0) == w.live(i),
{
    let name = w.tables.functions[i].0;
    let dead = w.dead_from(0);
    dead_names(w, 0, name);
    assert(dead.contains(name) == !w.live(i));
    if dead.len() == 0 {
        assert(names_of(w.tables.functions)[i] == name);
    } else {
        let start = CutV {
            code: w.code,
            functions: w.tables.functions,
            tests: w.tables.tests,
            shrinks: Seq::empty(),
        };
        let done = start.cut_all(w.cuts_from(0, Seq::empty()), 0);
        cuts_keep_names(start, w.cuts_from(0, Seq::empty()), 0);
        assert(names_of(done.functions)[i] == name);
        assert(names_of(done.functions).len() == done.functions.len());
        assert(done.functions[i].0 == name);
        spared_names(done.functions, dead, 0, name);
    }
}

proof fn spared_differ(v: Seq<(Seq<char>, nat)>, dead: Seq<Seq<char>>, i: int)
    requires
        0 <= i,
        differ(v),
    ensures
        differ(spared(v, dead, i)),
    decreases v.len() - i,
{
    if i < v.len() {
        spared_differ(v, dead, i + 1);
        let rest = spared(v, dead, i + 1);
        let all = spared(v, dead, i);
        if dead.contains(v[i].0) {
            assert(all =~= rest);
        } else {
            assert(all == seq![v[i]] + rest);
            assert forall|a: int, b: int| 0 <= a < b < all.len() implies (#[trigger] all[a]).0 != (
            #[trigger] all[b]).0 by {
                assert(all[b] == rest[b - 1]);
                if a > 0 {
                    assert(all[a] == rest[a - 1]);
                } else {
                    let name = rest[b - 1].0;
                    assert(names_of(rest)[b - 1] == name);
                    spared_names(v, dead, i + 1, name);
                }
            }
        }
    }
}

/// Where no name stands for two functions, none does after the removal.
pub proof fn removal_keeps_names_apart(w: World)
    requires
        w.distinct(),
    ensures
        w.shaken().tables.names_differ(),
{
    let dead = w.dead_from(0);
    if dead.len() > 0 {
        let start = CutV {
            code: w.code,
            functions: w.tables.functions,
            tests: w.tables.tests,
            shrinks: Seq::empty(),
        };
        let done = start.cut_all(w.cuts_from(0, Seq::empty()), 0);
        cuts_keep_names(start, w.cuts_from(0, Seq::empty()), 0);
        assert(names_of(done.functions).len() == done.functions.len());
        assert forall|i: int, j: int| 0 <= i < j < done.functions.len() implies (
        #[trigger] done.functions[i]).0 != (#[trigger] done.functions[j]).0 by {
            assert(names_of(done.functions)[i] == names_of(w.tables.functions)[i]);
            assert(names_of(done.functions)[j] == names_of(w.tables.functions)[j]);
        }
        spared_differ(done.functions, dead, 0);
    }
}

/// Whether no range meets the gap.
pub open spec fn all_spare(gap: (nat, nat), v: Seq<(nat, nat)>) -> bool {
    forall|k: int|
        0 <= k < v.len() && gap.0 < gap.1 ==> (#[trigger] v[k]).1 <= gap.0 || gap.1 <= v[k].0
}

proof fn placed_ranges_spare_gap(
    gap: (nat, nat),
    v: Seq<(nat, nat)>,
    xs: Seq<(nat, nat)>,
    i: int,
)
    requires
        0 <= i,
        all_spare(gap, v),
        all_spare(gap, xs),
    ensures
        all_spare(gap, all_placed(v, xs, i)),
    decreases xs.len() - i,
{
    if i < xs.len() {
        place_in_range(v, xs[i], 0);
        placed_ranges_spare_gap(gap, v.insert(place(v, xs[i], 0), xs[i]), xs, i + 1);
    }
}

proof fn later_cuts_spare_gap(w: World, i: int, acc: Seq<(nat, nat)>)
    requires
        0 <= i,
        all_spare(w.kept_gap(), acc),
    ensures
        all_spare(w.kept_gap(), w.cuts_from(i, acc)),
    decreases w.tables.functions.len() - i,
{
    if i < w.tables.functions.len() {
        if w.live(i) || w.span(i) is None {
            later_cuts_spare_gap(w, i + 1, acc);
        } else {
            let s = w.span(i)->0;
            placed_ranges_spare_gap(w.kept_gap(), acc, w.cuts(s.0, s.1), 0);
            later_cuts_spare_gap(w, i + 1, all_placed(acc, w.cuts(s.0, s.1), 0));
        }
    }
}

/// No cut meets the setup code between the preserved position and the first live function behind
/// it.
pub proof fn cuts_spare_the_setup_code(w: World)
    ensures
        all_spare(w.kept_gap(), w.cuts_from(0, Seq::empty())),
{
    later_cuts_spare_gap(w, 0, Seq::empty());
}

/// Equal fronts of the code have equal positions.
proof fn positions_in_equal_fronts(x: Seq<IlOp>, y: Seq<IlOp>, i: int, n: nat, front: int)
    requires
        0 <= i <= front <= y.len() <= x.len(),
        x.take(front) == y.take(front),
        raw_from(x, i, n) <= front,
    ensures
        raw_from(y, i, n) == raw_from(x, i, n),
    decreases x.len() - i,
{
    if n > 0 && i < x.len() {
        let m: nat = if x[i].emits() {
            (n - 1) as nat
        } else {
            n
        };
        raw_is_ordered(x, i + 1, 0, m);
        assert(raw_from(x, i, n) == raw_from(x, i + 1, m));
        assert(x[i] == x.take(front)[i] && y[i] == y.take(front)[i]);
        positions_in_equal_fronts(x, y, i + 1, m, front);
        assert(raw_from(y, i, n) == raw_from(y, i + 1, m));
    }
}

/// Whether the ranges come later and later towards the front of the list and do not overlap.
pub open spec fn apart(v: Seq<(nat, nat)>) -> bool {
    &&& forall|i: int| 0 <= i < v.len() ==> (#[trigger] v[i]).0 <= v[i].1
    &&& forall|i: int, j: int| 0 <= i < j < v.len() ==> (#[trigger] v[j]).1 <= (#[trigger] v[i]).0
}

/// The operations `a..b` of `x` stand in `y` from `k` on.
pub open spec fn stand_at(x: Seq<IlOp>, a: int, b: int, y: Seq<IlOp>, k: int) -> bool {
    0 <= k && k + b - a <= y.len() && y.subrange(k, k + b - a) == x.subrange(a, b)
}

proof fn cuts_leave_the_gap(
    ops: Seq<IlOp>,
    gap: (nat, nat),
    c: CutV,
    v: Seq<(nat, nat)>,
    i: int,
    front: int,
    k: int,
) -> (r: int)
    requires
        0 <= i <= v.len(),
        apart(v),
        all_spare(gap, v),
        gap.0 < gap.1,
        0 <= front <= c.code.ops.len() <= ops.len(),
        c.code.ops.take(front) == ops.take(front),
        i > 0 ==> raw_pos(ops, v[i - 1].0) == front,
        i == 0 ==> front == ops.len(),
        stand_at(ops, raw_pos(ops, gap.0), raw_pos(ops, gap.1), c.code.ops, k),
        front <= k || (raw_pos(ops, gap.1) <= front && k == raw_pos(ops, gap.0)),
    ensures
        stand_at(
            ops,
            raw_pos(ops, gap.0),
            raw_pos(ops, gap.1),
            c.cut_all(v, i).code.ops,
            r,
        ),
    decreases v.len() - i,
{
    if i >= v.len() {
        k
    } else {
        let (s, e) = v[i];
        let cur = c.code.ops;
        let ra = raw_pos(ops, gap.0);
        let rb = raw_pos(ops, gap.1);
        let ps = raw_pos(ops, s);
        let pe = raw_pos(ops, e);
        raw_is_ordered(ops, 0, s, e);
        raw_is_ordered(ops, 0, gap.0, gap.1);
        if i > 0 {
            assert(v[i].1 <= v[i - 1].0);
            raw_is_ordered(ops, 0, e, v[i - 1].0);
        }
        positions_in_equal_fronts(ops, cur, 0, s, front);
        positions_in_equal_fronts(ops, cur, 0, e, front);
        if e <= gap.0 {
            raw_is_ordered(ops, 0, e, gap.0);
        } else {
            raw_is_ordered(ops, 0, gap.1, s);
        }
        let next = c.cut(s, e);
        let now = next.code.ops;
        let shift: int = if ps < pe {
            pe - ps
        } else {
            0
        };
        assert(ps < pe ==> now == cur.take(ps) + cur.skip(pe));
        assert(ps >= pe ==> now == cur);
        let q: int = if pe <= k {
            k - shift
        } else {
            k
        };
        assert(now.take(ps) =~= ops.take(ps)) by {
            assert forall|x: int| 0 <= x < ps implies now.take(ps)[x] == ops.take(ps)[x] by {
                assert(cur.take(front)[x] == ops.take(front)[x]);
            }
        }
        assert(now.subrange(q, q + rb - ra) =~= ops.subrange(ra, rb)) by {
            assert forall|x: int| 0 <= x < rb - ra implies now.subrange(q, q + rb - ra)[x] == ops.subrange(
                ra,
                rb,
            )[x] by {
                assert(cur.subrange(k, k + rb - ra)[x] == ops.subrange(ra, rb)[x]);
            }
        }
        cuts_leave_the_gap(ops, gap, next, v, i + 1, ps, q)
    }
}

/// Where the cuts do not overlap, the setup code between the preserved position and the first live
/// function behind it stands in the code after the removal, unchanged and in one piece.
pub proof fn setup_code_survives(w: World) -> (r: int)
    requires
        w.kept_gap().0 < w.kept_gap().1,
        apart(w.cuts_from(0, Seq::empty())),
    ensures
        stand_at(
            w.code.ops,
            raw_pos(w.code.ops, w.kept_gap().0),
            raw_pos(w.code.ops, w.kept_gap().1),
            w.shaken().code.ops,
            r,
        ),
{
    let ops = w.code.ops;
    let gap = w.kept_gap();
    let ra = raw_pos(ops, gap.0);
    raw_is_ordered(ops, 0, gap.0, gap.1);
    if w.dead_from(0).len() == 0 {
        ra
    } else {
        let start = CutV {
            code: w.code,
            functions: w.tables.functions,
            tests: w.tables.tests,
            shrinks: Seq::empty(),
        };
        cuts_spare_the_setup_code(w);
        cuts_leave_the_gap(ops, gap, start, w.cuts_from(0, Seq::empty()), 0, ops.len() as int, ra)
    }
}

} // verus!

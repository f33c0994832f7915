//! Result/Option layouts at call edges, and the source types that pick them.
use vstd::prelude::*;

verus! {

/// How a Result/Option (or arity-2 immediate product) crosses a call edge.
#[derive(Copy, Clone, Debug, PartialEq, Eq, Structural)]
pub enum MirLayout {
    /// One VM value (boxed enum, scalar, or heap word).
    Word,
    /// `CALL`/`RETURN` of width two: `[payload, tag]` or `[a, b]`.
    TwoSlot,
    /// Heap `Option<T>` or heap-heap `Result<T, E>` in one word.
    HeapNiche,
}

impl Default for MirLayout {
    fn default() -> (r: Self)
        ensures
            r == MirLayout::Word,
    {
        MirLayout::Word
    }
}

/// Checked source type, as far as a layout depends on it.
pub enum Ty {
    Con(String),
    Var(u32),
    Fun(Vec<Ty>, Box<Ty>),
    List(Box<Ty>),
    Tuple(Vec<Ty>),
    Record { fields: Vec<(String, Ty)> },
    Array { elem: Box<Ty> },
    Sum { name: String },
    App(Box<Ty>, Vec<Ty>),
    Constructor { name: String, args: Vec<Ty> },
    Existential { name: String },
    Forall { body: Box<Ty> },
    Readonly(Box<Ty>),
    Never,
}

pub const INT: &'static str = "int";

pub const FLOAT: &'static str = "float";

pub const BOOL: &'static str = "bool";

pub const BYTE: &'static str = "byte";

pub const STRING: &'static str = "string";

pub const OPTION: &'static str = "Option";

pub const RESULT: &'static str = "Result";

impl Ty {
    /// The type under any number of `readonly` wrappers.
    pub open spec fn stripped(self) -> Ty
        decreases self,
    {
        match self {
            Ty::Readonly(inner) => inner.stripped(),
            other => other,
        }
    }

    /// `name<args>` in constructor or applied form.
    pub open spec fn applied(self, name: Seq<char>) -> Option<Seq<Ty>> {
        match self.stripped() {
            Ty::Constructor { name: n, args } => if n@ == name {
                Some(args@)
            } else {
                None
            },
            Ty::App(head, args) => match *head {
                Ty::Con(n) => if n@ == name {
                    Some(args@)
                } else {
                    None
                },
                _ => None,
            },
            _ => None,
        }
    }

    /// Scalars that travel in a register word.
    pub open spec fn immediate(self) -> bool {
        match self.stripped() {
            Ty::Con(n) => n@ == INT@ || n@ == FLOAT@ || n@ == BOOL@ || n@ == BYTE@,
            _ => false,
        }
    }

    pub open spec fn option(self) -> bool {
        self.applied(OPTION@) is Some
    }

    pub open spec fn result(self) -> bool {
        self.applied(RESULT@) is Some
    }

    /// A concrete heap object other than a nested Option/Result.
    pub open spec fn ground_heap(self) -> bool {
        &&& !self.immediate()
        &&& !self.option()
        &&& !self.result()
        &&& match self.stripped() {
            Ty::Var(_) | Ty::Fun(_, _) | Ty::Existential { .. } | Ty::Forall { .. } | Ty::Never => false,
            _ => true,
        }
    }

    /// Layout that the call edge uses for a value of this type.
    pub open spec fn layout(self) -> MirLayout {
        match self.stripped() {
            Ty::Tuple(items) => if items@.len() == 2 && items@[0].immediate() && items@[1].immediate() {
                MirLayout::TwoSlot
            } else {
                MirLayout::Word
            },
            _ => match self.applied(OPTION@) {
                Some(args) => if args.len() != 1 {
                    MirLayout::Word
                } else if args[0].immediate() {
                    MirLayout::TwoSlot
                } else if args[0].ground_heap() {
                    MirLayout::HeapNiche
                } else {
                    MirLayout::Word
                },
                None => match self.applied(RESULT@) {
                    Some(args) => if args.len() != 2 {
                        MirLayout::Word
                    } else if args[0].immediate() {
                        MirLayout::TwoSlot
                    } else if args[0].ground_heap() && args[1].ground_heap() {
                        MirLayout::HeapNiche
                    } else {
                        MirLayout::Word
                    },
                    None => MirLayout::Word,
                },
            },
        }
    }
}

fn same_text(a: &String, b: &str) -> (r: bool)
    ensures
        r == (a@ == b@),
{
    let b2 = b.to_owned();
    *a == b2
}

/// Drop `readonly` wrappers.
pub fn strip_readonly(ty: &Ty) -> (r: &Ty)
    ensures
        *r == ty.stripped(),
        !(*r is Readonly),
    decreases *ty,
{
    match ty {
        Ty::Readonly(inner) => strip_readonly(inner),
        _ => ty,
    }
}

/// Arguments of `name<..>`, when `ty` is such an application.
fn applied_args<'a>(ty: &'a Ty, name: &str) -> (r: Option<&'a Vec<Ty>>)
    ensures
        match r {
            Some(args) => ty.applied(name@) == Some(args@),
            None => ty.applied(name@) is None,
        },
{
    match strip_readonly(ty) {
        Ty::Constructor { name: n, args } => if same_text(n, name) {
            Some(args)
        } else {
            None
        },
        Ty::App(head, args) => match &**head {
            Ty::Con(n) => if same_text(n, name) {
                Some(args)
            } else {
                None
            },
            _ => None,
        },
        _ => None,
    }
}

/// `Option<t>`.
pub fn option_ty(t: Ty) -> (r: Ty)
    ensures
        r matches Ty::Constructor { name, args } && name@ == OPTION@ && args@ == seq![t],
{
    let mut args: Vec<Ty> = Vec::new();
    args.push(t);
    assert(args@ =~= seq![t]);
    Ty::Constructor { name: OPTION.to_owned(), args }
}

/// `Result<ok, err>`.
pub fn result_ty(ok: Ty, err: Ty) -> (r: Ty)
    ensures
        r matches Ty::Constructor { name, args } && name@ == RESULT@ && args@ == seq![ok, err],
{
    let mut args: Vec<Ty> = Vec::new();
    args.push(ok);
    args.push(err);
    assert(args@ =~= seq![ok, err]);
    Ty::Constructor { name: RESULT.to_owned(), args }
}

fn is_immediate(ty: &Ty) -> (r: bool)
    ensures
        r == ty.immediate(),
{
    match strip_readonly(ty) {
        Ty::Con(n) => same_text(n, INT) || same_text(n, FLOAT) || same_text(n, BOOL) || same_text(
            n,
            BYTE,
        ),
        _ => false,
    }
}

/// Ground heap object, not a nested Option/Result (those stay boxed).
pub fn is_ground_heap(ty: &Ty) -> (r: bool)
    ensures
        r == ty.ground_heap(),
{
    if is_immediate(ty) || applied_args(ty, OPTION).is_some() || applied_args(ty, RESULT).is_some() {
        return false;
    }
    match strip_readonly(ty) {
        Ty::Var(_) | Ty::Fun(_, _) | Ty::Existential { .. } | Ty::Forall { .. } | Ty::Never => false,
        _ => true,
    }
}

impl MirLayout {
    pub open spec fn word_count(self) -> nat {
        if self is TwoSlot {
            2
        } else {
            1
        }
    }

    /// Words that the layout takes on the operand stack.
    pub fn words(self) -> (r: u8)
        ensures
            r == self.word_count(),
    {
        match self {
            MirLayout::TwoSlot => 2,
            MirLayout::Word | MirLayout::HeapNiche => 1,
        }
    }

    /// One-word heap/niche layout. Two-slot is a pair, not this.
    pub fn is_heap_word(self) -> (r: bool)
        ensures
            r == (self is HeapNiche),
    {
        matches!(self, MirLayout::HeapNiche)
    }

    /// Name used in messages.
    pub fn as_str(self) -> (r: &'static str)
        ensures
            r@ == (match self {
                MirLayout::Word => "word"@,
                MirLayout::TwoSlot => "twoslot"@,
                MirLayout::HeapNiche => "heap_niche"@,
            }),
    {
        match self {
            MirLayout::Word => "word",
            MirLayout::TwoSlot => "twoslot",
            MirLayout::HeapNiche => "heap_niche",
        }
    }

    /// Builtin Option/Result and arity-2 immediate products only. User payload
    /// enums stay [`MirLayout::Word`].
    pub fn from_coil_ty(ty: &Ty) -> (r: Self)
        ensures
            r == ty.layout(),
    {
        if let Ty::Tuple(items) = strip_readonly(ty) {
            if items.len() == 2 && is_immediate(&items[0]) && is_immediate(&items[1]) {
                return MirLayout::TwoSlot;
            }
            return MirLayout::Word;
        }
        if let Some(args) = applied_args(ty, OPTION) {
            if args.len() != 1 {
                return MirLayout::Word;
            }
            if is_immediate(&args[0]) {
                return MirLayout::TwoSlot;
            }
            if is_ground_heap(&args[0]) {
                return MirLayout::HeapNiche;
            }
            return MirLayout::Word;
        }
        if let Some(args) = applied_args(ty, RESULT) {
            if args.len() != 2 {
                return MirLayout::Word;
            }
            if is_immediate(&args[0]) {
                return MirLayout::TwoSlot;
            }
            if is_ground_heap(&args[0]) && is_ground_heap(&args[1]) {
                return MirLayout::HeapNiche;
            }
            return MirLayout::Word;
        }
        MirLayout::Word
    }
}

/// Wrapping a type in `readonly` never changes its layout.
pub proof fn readonly_keeps_layout(ty: Ty)
    ensures
        Ty::Readonly(Box::new(ty)).layout() == ty.layout(),
{
}

} // verus!

//! Host natives that the middle end knows, and their SSA edge types.
//!
//! Math, packed linear algebra and `simd_axpy_reduce` have precise types. Every
//! other native is an edge of `i64` words.
//!
//! A host table is a list of rows in which row `i` has id `i`. The functions here take one, and a
//! function in SSA form carries one for its host calls. A native without a row is no edge.
use super::inst::same_str;
use super::ty::MirTy;
use vstd::prelude::*;

verus! {

/// What a native may do besides computing its result.
#[derive(Copy, Clone, Debug, PartialEq, Eq, Structural)]
pub enum HostEffect {
    Pure,
    Io,
    Host,
    Gc,
}

/// Row of the host table.
#[derive(Copy, Clone, Debug, PartialEq, Eq)]
pub struct HostNative {
    pub id: u16,
    pub name: &'static str,
    pub arity: u8,
    pub effect: HostEffect,
}

/// Whether each row of a host table stands at its id.
pub open spec fn numbered(rows: Seq<HostNative>) -> bool {
    forall|i: int| 0 <= i < rows.len() ==> (#[trigger] rows[i]).id == i
}

/// Mathematical form of [`HostNative`].
pub struct NativeV {
    pub id: u16,
    pub name: Seq<char>,
    pub arity: u8,
    pub effect: HostEffect,
}

pub const PACKED_DOT_ID: u16 = 87;

pub const PACKED_MATMUL_ID: u16 = 88;

pub const PACKED_MATRIX_ZIP_ID: u16 = 89;

pub const PACKED_MATRIX_NEG_ID: u16 = 90;

pub const PACKED_VEC_ARITH_ID: u16 = 91;

pub const MATH_SIN_ID: u16 = 102;

pub const MATH_POW_ID: u16 = 110;

pub const CLOCK_MONO_NANOS_ID: u16 = 111;

pub const CLOCK_SLEEP_MS_ID: u16 = 112;

pub const MATH_ATAN_ID: u16 = 125;

pub const MATH_TANH_ID: u16 = 135;

pub const SIMD_AXPY_REDUCE_ID: u16 = 136;

pub const RESULT_UNIT_PROBE_ID: u16 = 137;

impl View for HostNative {
    type V = NativeV;

    open spec fn view(&self) -> NativeV {
        NativeV { id: self.id, name: self.name@, arity: self.arity, effect: self.effect }
    }
}

/// What stands at place `id` of the table.
pub open spec fn place_in(rows: Seq<HostNative>, id: u16) -> Option<NativeV> {
    if id < rows.len() {
        Some(rows[id as int]@)
    } else {
        None
    }
}

/// The row of native `id`. A row that does not stand at its id is none.
pub open spec fn row_in(rows: Seq<HostNative>, id: u16) -> Option<NativeV> {
    if id < rows.len() && rows[id as int].id == id {
        Some(rows[id as int]@)
    } else {
        None
    }
}

/// A copy of a host table.
pub(crate) fn copy_rows(rows: &Vec<HostNative>) -> (r: Vec<HostNative>)
    ensures
        r@ == rows@,
{
    let mut r: Vec<HostNative> = Vec::new();
    let mut i: usize = 0;
    while i < rows.len()
        invariant
            i <= rows@.len(),
            r@ == rows@.take(i as int),
        decreases rows@.len() - i,
    {
        r.push(rows[i]);
        i = i + 1;
        assert(r@ =~= rows@.take(i as int));
    }
    assert(rows@.take(i as int) =~= rows@);
    r
}

/// Row of native `id`.
pub fn host_native(rows: &Vec<HostNative>, id: u16) -> (r: Option<HostNative>)
    ensures
        match r {
            Some(n) => n.id == id && row_in(rows@, id) == Some(n@),
            None => row_in(rows@, id) is None,
        },
{
    let i = id as usize;
    if i < rows.len() && rows[i].id == id {
        Some(rows[i])
    } else {
        None
    }
}

fn native_at(rows: &Vec<HostNative>, id: u16) -> (r: Option<HostNative>)
    ensures
        match r {
            Some(n) => place_in(rows@, id) == Some(n@),
            None => place_in(rows@, id) is None,
        },
{
    let i = id as usize;
    if i < rows.len() {
        Some(rows[i])
    } else {
        None
    }
}

/// Id of the first row called `name`.
pub open spec fn native_named(rows: Seq<HostNative>, name: Seq<char>) -> Option<u16> {
    first_named(rows, name, 0)
}

/// Id of the first row from `from` on that is called `name`.
pub open spec fn first_named(rows: Seq<HostNative>, name: Seq<char>, from: int) -> Option<u16>
    decreases rows.len() - from,
{
    if from >= rows.len() {
        None
    } else if rows[from].name@ == name {
        Some(rows[from].id)
    } else {
        first_named(rows, name, from + 1)
    }
}

fn find_native(rows: &Vec<HostNative>, name: &str) -> (r: Option<u16>)
    ensures
        r == native_named(rows@, name@),
{
    let mut i: usize = 0;
    while i < rows.len()
        invariant
            i <= rows@.len(),
            native_named(rows@, name@) == first_named(rows@, name@, i as int),
        decreases rows@.len() - i,
    {
        if same_str(rows[i].name, name) {
            return Some(rows[i].id);
        }
        i = i + 1;
    }
    None
}

/// Typed host edge.
#[derive(Debug, PartialEq, Eq)]
pub struct HostSpec {
    pub id: u16,
    pub name: &'static str,
    pub args: Vec<MirTy>,
    pub ret: MirTy,
}

/// Mathematical form of [`HostSpec`].
#[verifier::ext_equal]
pub struct HostSpecV {
    pub id: u16,
    pub name: Seq<char>,
    pub args: Seq<MirTy>,
    pub ret: MirTy,
}

impl View for HostSpec {
    type V = HostSpecV;

    open spec fn view(&self) -> HostSpecV {
        HostSpecV { id: self.id, name: self.name@, args: self.args@, ret: self.ret }
    }
}

/// `n` parameters of one type.
pub open spec fn repeat_ty(n: nat, ty: MirTy) -> Seq<MirTy> {
    Seq::new(n, |i: int| ty)
}

fn repeated(n: u8, ty: MirTy) -> (r: Vec<MirTy>)
    ensures
        r@ == repeat_ty(n as nat, ty),
{
    let mut r: Vec<MirTy> = Vec::new();
    let mut i: u8 = 0;
    while i < n
        invariant
            i <= n,
            r@ == repeat_ty(i as nat, ty),
        decreases n - i,
    {
        r.push(ty);
        i = i + 1;
        assert(r@ =~= repeat_ty(i as nat, ty));
    }
    r
}

pub open spec fn math_id(id: u16) -> bool {
    MATH_SIN_ID <= id <= MATH_POW_ID || MATH_ATAN_ID <= id <= MATH_TANH_ID
}

/// Precise argument and result types of a native of that arity that has them.
pub open spec fn precise(id: u16, arity: u8) -> Option<(Seq<MirTy>, MirTy)> {
    if math_id(id) {
        if arity == 1 || arity == 2 {
            Some((repeat_ty(arity as nat, MirTy::F64), MirTy::F64))
        } else {
            None
        }
    } else if id == SIMD_AXPY_REDUCE_ID {
        Some((seq![MirTy::I64, MirTy::F64, MirTy::F64, MirTy::F64, MirTy::F64], MirTy::F64))
    } else if id == PACKED_DOT_ID {
        Some((repeat_ty(3, MirTy::I64), MirTy::F64))
    } else if id == PACKED_MATMUL_ID || id == PACKED_MATRIX_ZIP_ID || id == PACKED_VEC_ARITH_ID {
        Some((repeat_ty(3, MirTy::I64), MirTy::I64))
    } else if id == PACKED_MATRIX_NEG_ID {
        Some((repeat_ty(2, MirTy::I64), MirTy::I64))
    } else {
        None
    }
}

/// Edge with precise types of native `id` with row `n`.
pub open spec fn precise_edge_of(id: u16, n: NativeV) -> Option<HostSpecV> {
    match precise(id, n.arity) {
        Some(t) => Some(HostSpecV { id, name: n.name, args: t.0, ret: t.1 }),
        None => None,
    }
}

/// Edge of a native with precise types.
pub open spec fn precise_edge(rows: Seq<HostNative>, id: u16) -> Option<HostSpecV> {
    match place_in(rows, id) {
        Some(n) => precise_edge_of(id, n),
        None => None,
    }
}

/// Edge of a native: precise types, or up to six `i64` words.
pub open spec fn edge(rows: Seq<HostNative>, id: u16) -> Option<HostSpecV> {
    match precise_edge(rows, id) {
        Some(s) => Some(s),
        None => match row_in(rows, id) {
            Some(n) => if n.arity <= 6 {
                Some(HostSpecV { id, name: n.name, args: repeat_ty(n.arity as nat, MirTy::I64), ret: MirTy::I64 })
            } else {
                None
            },
            None => None,
        },
    }
}

/// View of an optional edge.
pub open spec fn edge_view(s: Option<HostSpec>) -> Option<HostSpecV> {
    match s {
        Some(s) => Some(s@),
        None => None,
    }
}

/// Precise types for math, packed linear algebra and axpy.
pub fn host_spec(rows: &Vec<HostNative>, id: u16) -> (r: Option<HostSpec>)
    ensures
        edge_view(r) == precise_edge(rows@, id),
{
    match native_at(rows, id) {
        Some(n) => precise_spec(id, n),
        None => None,
    }
}

fn precise_spec(id: u16, n: HostNative) -> (r: Option<HostSpec>)
    ensures
        edge_view(r) == precise_edge_of(id, n@),
{
    if (MATH_SIN_ID <= id && id <= MATH_POW_ID) || (MATH_ATAN_ID <= id && id <= MATH_TANH_ID) {
        if n.arity != 1 && n.arity != 2 {
            return None;
        }
        return Some(HostSpec { id, name: n.name, args: repeated(n.arity, MirTy::F64), ret: MirTy::F64 });
    }
    if id == SIMD_AXPY_REDUCE_ID {
        let mut args: Vec<MirTy> = Vec::new();
        args.push(MirTy::I64);
        args.push(MirTy::F64);
        args.push(MirTy::F64);
        args.push(MirTy::F64);
        args.push(MirTy::F64);
        assert(args@ =~= seq![MirTy::I64, MirTy::F64, MirTy::F64, MirTy::F64, MirTy::F64]);
        return Some(HostSpec { id, name: n.name, args, ret: MirTy::F64 });
    }
    if id == PACKED_DOT_ID {
        return Some(HostSpec { id, name: n.name, args: repeated(3, MirTy::I64), ret: MirTy::F64 });
    }
    if id == PACKED_MATMUL_ID || id == PACKED_MATRIX_ZIP_ID || id == PACKED_VEC_ARITH_ID {
        return Some(HostSpec { id, name: n.name, args: repeated(3, MirTy::I64), ret: MirTy::I64 });
    }
    if id == PACKED_MATRIX_NEG_ID {
        return Some(HostSpec { id, name: n.name, args: repeated(2, MirTy::I64), ret: MirTy::I64 });
    }
    None
}

pub fn host_spec_by_name(rows: &Vec<HostNative>, name: &str) -> (r: Option<HostSpec>)
    ensures
        edge_view(r) == (match native_named(rows@, name@) {
            Some(id) => precise_edge(rows@, id),
            None => None,
        }),
{
    match find_native(rows, name) {
        Some(id) => host_spec(rows, id),
        None => None,
    }
}

/// Type of a host call in SSA form. `None` if the id is unknown or the native
/// takes too many words.
pub fn host_edge_spec(rows: &Vec<HostNative>, id: u16) -> (r: Option<HostSpec>)
    ensures
        edge_view(r) == edge(rows@, id),
{
    if let Some(s) = host_spec(rows, id) {
        return Some(s);
    }
    match host_native(rows, id) {
        Some(n) => if n.arity > 6 {
            None
        } else {
            Some(HostSpec { id, name: n.name, args: repeated(n.arity, MirTy::I64), ret: MirTy::I64 })
        },
        None => None,
    }
}

pub open spec fn bytes_host(rows: Seq<HostNative>, id: u16) -> bool {
    match place_in(rows, id) {
        Some(n) => n.name == "from_bytes"@ || n.name == "to_bytes"@,
        None => false,
    }
}

/// String-bytes natives (`from_bytes` / `to_bytes`).
pub fn is_i4_bytes_host(rows: &Vec<HostNative>, id: u16) -> (r: bool)
    ensures
        r == bytes_host(rows@, id),
{
    match native_at(rows, id) {
        Some(n) => same_str(n.name, "from_bytes") || same_str(n.name, "to_bytes"),
        None => false,
    }
}

/// Any typed native may sit in a dense body.
pub fn dense_host_ok(rows: &Vec<HostNative>, id: u16) -> (r: bool)
    ensures
        r == (edge(rows@, id) is Some),
{
    host_edge_spec(rows, id).is_some()
}

pub fn host_edge_spec_by_name(rows: &Vec<HostNative>, name: &str) -> (r: Option<HostSpec>)
    ensures
        edge_view(r) == (match native_named(rows@, name@) {
            Some(id) => edge(rows@, id),
            None => None,
        }),
{
    match find_native(rows, name) {
        Some(id) => host_edge_spec(rows, id),
        None => None,
    }
}

/// Ids with precise types.
pub open spec fn allowlisted(id: u16) -> bool {
    PACKED_DOT_ID <= id <= PACKED_VEC_ARITH_ID || math_id(id) || id == SIMD_AXPY_REDUCE_ID
}

/// Ascending, and holding exactly the allowlisted ids below `upto`.
pub open spec fn lists_allowed(s: Seq<u16>, upto: u16) -> bool {
    &&& forall|i: int, j: int| 0 <= i < j < s.len() ==> s[i] < s[j]
    &&& forall|i: int| 0 <= i < s.len() ==> allowlisted(#[trigger] s[i]) && s[i] < upto
    &&& forall|id: u16| allowlisted(id) && id < upto ==> s.contains(id)
}

/// Packed linear algebra, math and `simd_axpy_reduce`, in ascending order.
pub fn allowlisted_host_ids() -> (r: Vec<u16>)
    ensures
        lists_allowed(r@, 256),
{
    let mut r: Vec<u16> = Vec::new();
    let mut id: u16 = 0;
    while id < 256
        invariant
            id <= 256,
            lists_allowed(r@, id),
        decreases 256 - id,
    {
        let ghost r0 = r@;
        if (PACKED_DOT_ID <= id && id <= PACKED_VEC_ARITH_ID) || (MATH_SIN_ID <= id && id <= MATH_POW_ID) || (
        MATH_ATAN_ID <= id && id <= MATH_TANH_ID) || id == SIMD_AXPY_REDUCE_ID {
            r.push(id);
            assert(r@[r0.len() as int] == id);
        }
        id = id + 1;
        assert forall|x: u16| allowlisted(x) && x < id implies r@.contains(x) by {
            if x < id - 1 {
                let k = choose|k: int| 0 <= k < r0.len() && r0[k] == x;
                assert(r@[k] == x);
            }
        }
    }
    r
}

/// Words that a native with precise types takes, where its id fixes them.
pub open spec fn fixed_arity(id: u16) -> Option<u8> {
    if id == SIMD_AXPY_REDUCE_ID {
        Some(5)
    } else if id == PACKED_MATRIX_NEG_ID {
        Some(2)
    } else if PACKED_DOT_ID <= id <= PACKED_VEC_ARITH_ID {
        Some(3)
    } else {
        None
    }
}

/// A native has a precise edge exactly if it is allowlisted, the table holds it and, for math, it
/// takes one or two words. The edge has the native's id and name.
pub proof fn allowlisted_edges_are_typed(rows: Seq<HostNative>, id: u16)
    ensures
        (precise_edge(rows, id) is Some) == (allowlisted(id) && id < rows.len() && (math_id(id) ==> (
        rows[id as int].arity == 1 || rows[id as int].arity == 2))),
        precise_edge(rows, id) matches Some(s) ==> {
            &&& s.id == id
            &&& s.name == rows[id as int].name@
            &&& s.args.len() == (match fixed_arity(id) {
                Some(n) => n,
                None => rows[id as int].arity,
            })
            &&& edge(rows, id) == Some(s)
        },
{
}

/// Every native of up to six words is a typed edge that takes as many words as the native does.
pub proof fn narrow_natives_are_edges(rows: Seq<HostNative>, id: u16)
    requires
        numbered(rows),
        id < rows.len(),
        rows[id as int].arity <= 6,
        fixed_arity(id) matches Some(n) ==> rows[id as int].arity == n,
    ensures
        edge(rows, id) is Some,
        edge(rows, id)->0.name == rows[id as int].name@,
        edge(rows, id)->0.args.len() == rows[id as int].arity,
{
}

} // verus!

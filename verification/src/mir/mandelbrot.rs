//! The inner loop of a Mandelbrot set in SSA form.
use super::builder::MirError;
use super::func::{
    arg_blocks, edges_to, first_misphi, hits, insts_view, preds_upto, BlockV, FuncV, MirBlock, MirFunc,
};
use super::host_allow::HostNative;
use super::inst::{BlockId, InstV, MirBinOp, MirCmpOp, MirConst, MirInst, TermV, Terminator, ValueId};
use super::instcombine::F64_TWO;
use super::layout::MirLayout;
use super::ty::MirTy;
use vstd::prelude::*;

verus! {

/// Bits of 4.
pub const F64_FOUR: u64 = 0x4010_0000_0000_0000;

pub open spec fn value_bin(d: u32, op: MirBinOp, ty: MirTy, l: u32, r: u32) -> InstV {
    InstV::Bin { dest: ValueId(d), op, ty, lhs: ValueId(l), rhs: ValueId(r) }
}

pub open spec fn value_phi(d: u32, ty: MirTy, first: u32, next: u32) -> InstV {
    InstV::Phi {
        dest: ValueId(d),
        ty,
        args: seq![(BlockId(0), ValueId(first)), (BlockId(3), ValueId(next))],
    }
}

/// The blocks of the loop: entry, head, body, update, exit. Parameters are `zr`, `zi`, `cr`, `ci`
/// and the limit; the head's phis are `zr`, `zi` and the count.
pub open spec fn mandelbrot_blocks() -> Seq<BlockV> {
    seq![
        BlockV {
            id: BlockId(0),
            insts: seq![InstV::Const { dest: ValueId(5), c: MirConst::I64(0) }],
            term: Some(TermV::Jump { dest: BlockId(1) }),
        },
        BlockV {
            id: BlockId(1),
            insts: seq![
                value_phi(6, MirTy::F64, 0, 16),
                value_phi(7, MirTy::F64, 1, 20),
                value_phi(8, MirTy::I64, 5, 22),
                InstV::Cmp {
                    dest: ValueId(9),
                    op: MirCmpOp::Lt,
                    ty: MirTy::I64,
                    lhs: ValueId(8),
                    rhs: ValueId(4),
                },
            ],
            term: Some(
                TermV::Br { cond: ValueId(9), taken: BlockId(2), not_taken: BlockId(4) },
            ),
        },
        BlockV {
            id: BlockId(2),
            insts: seq![
                value_bin(10, MirBinOp::Mul, MirTy::F64, 6, 6),
                value_bin(11, MirBinOp::Mul, MirTy::F64, 7, 7),
                value_bin(12, MirBinOp::Add, MirTy::F64, 10, 11),
                InstV::Const { dest: ValueId(13), c: MirConst::F64(F64_FOUR) },
                InstV::Cmp {
                    dest: ValueId(14),
                    op: MirCmpOp::Gt,
                    ty: MirTy::F64,
                    lhs: ValueId(12),
                    rhs: ValueId(13),
                },
            ],
            term: Some(
                TermV::Br { cond: ValueId(14), taken: BlockId(4), not_taken: BlockId(3) },
            ),
        },
        BlockV {
            id: BlockId(3),
            insts: seq![
                value_bin(15, MirBinOp::Sub, MirTy::F64, 10, 11),
                value_bin(16, MirBinOp::Add, MirTy::F64, 15, 2),
                InstV::Const { dest: ValueId(17), c: MirConst::F64(F64_TWO) },
                value_bin(18, MirBinOp::Mul, MirTy::F64, 17, 6),
                value_bin(19, MirBinOp::Mul, MirTy::F64, 18, 7),
                value_bin(20, MirBinOp::Add, MirTy::F64, 19, 3),
                InstV::Const { dest: ValueId(21), c: MirConst::I64(1) },
                value_bin(22, MirBinOp::Add, MirTy::I64, 8, 21),
            ],
            term: Some(TermV::Jump { dest: BlockId(1) }),
        },
        BlockV {
            id: BlockId(4),
            insts: Seq::empty(),
            term: Some(TermV::Return { lo: Some(ValueId(8)), hi: None }),
        },
    ]
}

/// Types of the values. The last is a join of equal counts that gave way to the count.
pub open spec fn mandelbrot_types() -> Seq<MirTy> {
    Seq::new(
        24,
        |v: int|
            if v == 4 || v == 5 || v == 8 || v == 21 || v == 22 || v == 23 {
                MirTy::I64
            } else if v == 9 || v == 14 {
                MirTy::Bool
            } else {
                MirTy::F64
            },
    )
}

/// The function.
pub open spec fn mandelbrot() -> FuncV {
    FuncV {
        name: "mandel_inner"@,
        params: Seq::new(5, |i: int| ValueId(i as u32)),
        ret_ty: Some(MirTy::I64),
        ret_hi_ty: None,
        ret_layout: MirLayout::Word,
        entry: BlockId(0),
        blocks: mandelbrot_blocks(),
        types: mandelbrot_types(),
        slot_env: Map::empty(),
        gc_roots: Seq::empty(),
        debug_slots: Map::empty(),
        deopt_sites: Seq::empty(),
        locs: Map::empty(),
        term_locs: Map::empty(),
        hosts: Seq::empty(),
    }
}

/// The values before `n` are defined.
spec fn upto(n: int) -> Seq<bool> {
    Seq::new(24, |v: int| v < n)
}

proof fn parameters_are_defined(i: nat)
    requires
        i <= 5,
    ensures
        mandelbrot().params_check(upto(i as int), i) == Ok::<Seq<bool>, Seq<char>>(upto(5)),
    decreases 5 - i,
{
    if i < 5 {
        assert(upto(i as int).update(i as int, true) =~= upto(i as int + 1));
        parameters_are_defined(i + 1);
    }
}

/// An instruction in place: it defines the next value from earlier ones.
spec fn in_place(b: nat, i: nat, non_phi: bool, n: u32) -> bool {
    let f = mandelbrot();
    let inst = f.blocks[b as int].insts[i as int];
    &&& b < f.blocks.len()
    &&& i < f.blocks[b as int].insts.len()
    &&& inst.dests() == seq![ValueId(n)]
    &&& n < 24
    &&& inst.phi() ==> !non_phi
    &&& f.inst_fault(inst, f.preds(b)) is None
    &&& inst.phi() || (inst.uses().len() <= 2 && forall|k: int|
        0 <= k < inst.uses().len() ==> (#[trigger] inst.uses()[k]).0 <= n)
}

proof fn next_value(b: nat, i: nat, non_phi: bool, n: u32)
    requires
        in_place(b, i, non_phi, n),
    ensures
        mandelbrot().insts_check(b, i, non_phi, upto(n as int)) == mandelbrot().insts_check(
            b,
            i + 1,
            non_phi || !mandelbrot().blocks[b as int].insts[i as int].phi(),
            upto(n + 1),
        ),
{
    let f = mandelbrot();
    let inst = f.blocks[b as int].insts[i as int];
    let ds = inst.dests();
    reveal_with_fuel(FuncV::define, 2);
    assert(upto(n as int).update(n as int, true) =~= upto(n + 1));
    assert(f.define(upto(n as int), ds, 0) == Ok::<Seq<bool>, Seq<char>>(upto(n + 1)));
    if !inst.phi() {
        reveal_with_fuel(FuncV::first_undefined, 3);
        assert(f.first_undefined(upto(n + 1), inst.uses(), 0) is None);
    }
}

proof fn head_joins_two_edges()
    ensures
        mandelbrot().preds(1) == seq![BlockId(0), BlockId(3)],
{
    let bs = mandelbrot_blocks();
    reveal_with_fuel(preds_upto, 6);
    reveal_with_fuel(hits, 3);
    assert(edges_to(bs[0], 1) =~= seq![BlockId(0)]);
    assert(edges_to(bs[1], 1) =~= Seq::empty());
    assert(edges_to(bs[2], 1) =~= Seq::empty());
    assert(edges_to(bs[3], 1) =~= seq![BlockId(3)]);
    assert(edges_to(bs[4], 1) =~= Seq::empty());
    assert(preds_upto(bs, 5, 1) =~= seq![BlockId(0), BlockId(3)]);
}

proof fn head_phi_fits(d: u32, ty: MirTy, first: u32, next: u32)
    requires
        mandelbrot().ty(ValueId(d)) == ty,
        mandelbrot().ty(ValueId(first)) == ty,
        mandelbrot().ty(ValueId(next)) == ty,
        ty.specialized(),
    ensures
        mandelbrot().inst_fault(value_phi(d, ty, first, next), mandelbrot().preds(1)) is None,
{
    head_joins_two_edges();
    let args = seq![(BlockId(0), ValueId(first)), (BlockId(3), ValueId(next))];
    assert(arg_blocks(args) =~= seq![BlockId(0), BlockId(3)]);
    reveal_with_fuel(first_misphi, 3);
}

proof fn head_checks()
    ensures
        mandelbrot().insts_check(1, 0, false, upto(6)) == Ok::<Seq<bool>, Seq<char>>(upto(10)),
{
    head_phi_fits(6, MirTy::F64, 0, 16);
    head_phi_fits(7, MirTy::F64, 1, 20);
    head_phi_fits(8, MirTy::I64, 5, 22);
    next_value(1, 0, false, 6);
    next_value(1, 1, false, 7);
    next_value(1, 2, false, 8);
    next_value(1, 3, false, 9);
}

proof fn body_checks()
    ensures
        mandelbrot().insts_check(2, 0, false, upto(10)) == Ok::<Seq<bool>, Seq<char>>(upto(15)),
{
    next_value(2, 0, false, 10);
    next_value(2, 1, true, 11);
    next_value(2, 2, true, 12);
    next_value(2, 3, true, 13);
    next_value(2, 4, true, 14);
}

proof fn update_checks()
    ensures
        mandelbrot().insts_check(3, 0, false, upto(15)) == Ok::<Seq<bool>, Seq<char>>(upto(23)),
{
    next_value(3, 0, false, 15);
    next_value(3, 1, true, 16);
    next_value(3, 2, true, 17);
    next_value(3, 3, true, 18);
    next_value(3, 4, true, 19);
    next_value(3, 5, true, 20);
    next_value(3, 6, true, 21);
    next_value(3, 7, true, 22);
}

proof fn exit_passes()
    ensures
        mandelbrot().blocks_check(4, upto(23)) is None,
{
    assert(mandelbrot().blocks_check(5, upto(23)) is None);
}

proof fn update_passes()
    ensures
        mandelbrot().blocks_check(3, upto(15)) is None,
{
    update_checks();
    exit_passes();
    reveal_with_fuel(FuncV::first_missing, 2);
}

proof fn body_passes()
    ensures
        mandelbrot().blocks_check(2, upto(10)) is None,
{
    body_checks();
    update_passes();
    reveal_with_fuel(FuncV::first_missing, 3);
}

proof fn head_passes()
    ensures
        mandelbrot().blocks_check(1, upto(6)) is None,
{
    head_checks();
    body_passes();
    reveal_with_fuel(FuncV::first_missing, 3);
}

/// The loop passes verification.
#[verifier::spinoff_prover]
pub proof fn mandelbrot_is_valid()
    ensures
        mandelbrot().fault() is None,
{
    assert(Seq::new(24, |i: int| false) =~= upto(0));
    parameters_are_defined(0);
    next_value(0, 0, false, 5);
    head_passes();
    reveal_with_fuel(FuncV::first_missing, 2);
    assert(mandelbrot().blocks_check(0, upto(5)) is None);
}

fn bin(d: u32, op: MirBinOp, ty: MirTy, l: u32, r: u32) -> (i: MirInst)
    ensures
        i@ == value_bin(d, op, ty, l, r),
{
    MirInst::Bin { dest: ValueId(d), op, ty, lhs: ValueId(l), rhs: ValueId(r) }
}

fn phi(d: u32, ty: MirTy, first: u32, next: u32) -> (i: MirInst)
    ensures
        i@ == value_phi(d, ty, first, next),
{
    let mut args: Vec<(BlockId, ValueId)> = Vec::new();
    args.push((BlockId(0), ValueId(first)));
    args.push((BlockId(3), ValueId(next)));
    assert(args@ =~= seq![(BlockId(0), ValueId(first)), (BlockId(3), ValueId(next))]);
    MirInst::Phi { dest: ValueId(d), ty, args }
}

fn constant(d: u32, c: MirConst) -> (i: MirInst)
    ensures
        i@ == (InstV::Const { dest: ValueId(d), c }),
{
    MirInst::Const { dest: ValueId(d), c }
}

fn block(id: u32, insts: Vec<MirInst>, term: Terminator) -> (b: MirBlock)
    ensures
        b@ == (BlockV { id: BlockId(id), insts: insts_view(insts@), term: Some(term@) }),
{
    MirBlock { id: BlockId(id), insts, term: Some(term) }
}

fn entry_block() -> (b: MirBlock)
    ensures
        b@ == mandelbrot_blocks()[0],
{
    let mut v: Vec<MirInst> = Vec::new();
    v.push(constant(5, MirConst::I64(0)));
    assert(insts_view(v@) =~= mandelbrot_blocks()[0].insts);
    block(0, v, Terminator::Jump { dest: BlockId(1) })
}

fn head_block() -> (b: MirBlock)
    ensures
        b@ == mandelbrot_blocks()[1],
{
    let mut v: Vec<MirInst> = Vec::new();
    v.push(phi(6, MirTy::F64, 0, 16));
    v.push(phi(7, MirTy::F64, 1, 20));
    v.push(phi(8, MirTy::I64, 5, 22));
    v.push(
        MirInst::Cmp {
            dest: ValueId(9),
            op: MirCmpOp::Lt,
            ty: MirTy::I64,
            lhs: ValueId(8),
            rhs: ValueId(4),
        },
    );
    assert(insts_view(v@) =~= mandelbrot_blocks()[1].insts);
    block(1, v, Terminator::Br { cond: ValueId(9), taken: BlockId(2), not_taken: BlockId(4) })
}

fn body_block() -> (b: MirBlock)
    ensures
        b@ == mandelbrot_blocks()[2],
{
    let mut v: Vec<MirInst> = Vec::new();
    v.push(bin(10, MirBinOp::Mul, MirTy::F64, 6, 6));
    v.push(bin(11, MirBinOp::Mul, MirTy::F64, 7, 7));
    v.push(bin(12, MirBinOp::Add, MirTy::F64, 10, 11));
    v.push(constant(13, MirConst::F64(F64_FOUR)));
    v.push(
        MirInst::Cmp {
            dest: ValueId(14),
            op: MirCmpOp::Gt,
            ty: MirTy::F64,
            lhs: ValueId(12),
            rhs: ValueId(13),
        },
    );
    assert(insts_view(v@) =~= mandelbrot_blocks()[2].insts);
    block(2, v, Terminator::Br { cond: ValueId(14), taken: BlockId(4), not_taken: BlockId(3) })
}

fn update_block() -> (b: MirBlock)
    ensures
        b@ == mandelbrot_blocks()[3],
{
    let mut v: Vec<MirInst> = Vec::new();
    v.push(bin(15, MirBinOp::Sub, MirTy::F64, 10, 11));
    v.push(bin(16, MirBinOp::Add, MirTy::F64, 15, 2));
    v.push(constant(17, MirConst::F64(F64_TWO)));
    v.push(bin(18, MirBinOp::Mul, MirTy::F64, 17, 6));
    v.push(bin(19, MirBinOp::Mul, MirTy::F64, 18, 7));
    v.push(bin(20, MirBinOp::Add, MirTy::F64, 19, 3));
    v.push(constant(21, MirConst::I64(1)));
    v.push(bin(22, MirBinOp::Add, MirTy::I64, 8, 21));
    assert(insts_view(v@) =~= mandelbrot_blocks()[3].insts);
    block(3, v, Terminator::Jump { dest: BlockId(1) })
}

fn exit_block() -> (b: MirBlock)
    ensures
        b@ == mandelbrot_blocks()[4],
{
    let v: Vec<MirInst> = Vec::new();
    assert(insts_view(v@) =~= mandelbrot_blocks()[4].insts);
    block(4, v, Terminator::Return { lo: Some(ValueId(8)), hi: None })
}

/// The inner iteration `z = z*z + c`: counts up to a limit while `z` stays within the circle.
pub fn mandelbrot_inner_loop() -> (r: Result<MirFunc, MirError>)
    ensures
        r matches Ok(f) && f@ == mandelbrot() && f@.fault() is None,
{
    let rows: Vec<HostNative> = Vec::new();
    let mut f = MirFunc::new("mandel_inner", &rows);
    let mut i: u32 = 0;
    while i < 5
        invariant
            i <= 5,
            f@ == (FuncV {
                params: f@.params,
                ..super::func::empty_func("mandel_inner"@, Seq::empty())
            }),
            f.params@.len() == i,
            forall|k: int| 0 <= k < i ==> #[trigger] f.params@[k] == ValueId(k as u32),
        decreases 5 - i,
    {
        f.params.push(ValueId(i));
        i += 1;
    }
    let mut v: u32 = 0;
    while v < 24
        invariant
            v <= 24,
            i == 5,
            f@ == (FuncV {
                params: f@.params,
                types: f@.types,
                ..super::func::empty_func("mandel_inner"@, Seq::empty())
            }),
            f.params@.len() == i,
            forall|k: int| 0 <= k < i ==> #[trigger] f.params@[k] == ValueId(k as u32),
            f.types@.len() == v,
            forall|k: int| 0 <= k < v ==> #[trigger] f.types@[k] == mandelbrot_types()[k],
        decreases 24 - v,
    {
        let ty = if v == 4 || v == 5 || v == 8 || v >= 21 {
            MirTy::I64
        } else if v == 9 || v == 14 {
            MirTy::Bool
        } else {
            MirTy::F64
        };
        f.types.push(ty);
        v += 1;
    }
    f.ret_ty = Some(MirTy::I64);
    let mut blocks: Vec<MirBlock> = Vec::new();
    blocks.push(entry_block());
    blocks.push(head_block());
    blocks.push(body_block());
    blocks.push(update_block());
    blocks.push(exit_block());
    f.blocks = blocks;
    assert(f@.blocks =~= mandelbrot_blocks());
    assert(f@.params =~= mandelbrot().params);
    assert(f@.types =~= mandelbrot_types());
    assert(f@ =~= mandelbrot());
    proof {
        mandelbrot_is_valid();
    }
    Ok(f)
}

} // verus!

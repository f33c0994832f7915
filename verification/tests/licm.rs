//! Code that leaves loops.
use compiler::mir::dom::natural_loops;
use compiler::mir::func::MirFunc;
use compiler::mir::host_allow::{HostEffect, HostNative, CLOCK_MONO_NANOS_ID, MATH_SIN_ID};
use compiler::mir::licm::licm;
use compiler::mir::{
    BlockId, LocalId, MirBinOp, MirBuilder, MirCastKind, MirCmpOp, MirConst, MirInst, MirTy,
};
use std::collections::HashSet;

fn f64c(x: f64) -> MirConst {
    MirConst::F64(x.to_bits())
}

/// The natives that the tests name, in a table as long as their ids need.
fn hosts() -> Vec<HostNative> {
    let mut rows: Vec<HostNative> = (0..138)
        .map(|id| HostNative { id, name: "", arity: 0, effect: HostEffect::Host })
        .collect();
    for (id, name, arity, effect) in [
        (6, "write", 2, HostEffect::Io),
        (10, "from_bytes", 1, HostEffect::Io),
        (11, "to_bytes", 1, HostEffect::Io),
        (87, "packed_dot", 3, HostEffect::Pure),
        (88, "packed_matmul", 3, HostEffect::Pure),
        (89, "packed_matrix_zip", 3, HostEffect::Pure),
        (90, "packed_matrix_neg", 2, HostEffect::Pure),
        (91, "packed_vec_arith", 3, HostEffect::Pure),
        (100, "gc_collect", 0, HostEffect::Gc),
        (102, "math_sin", 1, HostEffect::Pure),
        (103, "math_cos", 1, HostEffect::Pure),
        (104, "math_tan", 1, HostEffect::Pure),
        (105, "math_sqrt", 1, HostEffect::Pure),
        (106, "math_exp", 1, HostEffect::Pure),
        (107, "math_ln", 1, HostEffect::Pure),
        (108, "math_floor", 1, HostEffect::Pure),
        (109, "math_ceil", 1, HostEffect::Pure),
        (110, "math_pow", 2, HostEffect::Pure),
        (111, "clock_mono_nanos", 0, HostEffect::Host),
        (112, "clock_sleep_ms", 1, HostEffect::Host),
        (125, "math_atan", 1, HostEffect::Pure),
        (126, "math_atan2", 2, HostEffect::Pure),
        (127, "math_asin", 1, HostEffect::Pure),
        (128, "math_acos", 1, HostEffect::Pure),
        (129, "math_log2", 1, HostEffect::Pure),
        (130, "math_log10", 1, HostEffect::Pure),
        (131, "math_round", 1, HostEffect::Pure),
        (132, "math_trunc", 1, HostEffect::Pure),
        (133, "math_sinh", 1, HostEffect::Pure),
        (134, "math_cosh", 1, HostEffect::Pure),
        (135, "math_tanh", 1, HostEffect::Pure),
        (136, "simd_axpy_reduce", 5, HostEffect::Pure),
        (137, "result_unit_probe", 0, HostEffect::Host),
    ] {
        rows[usize::from(id)] = HostNative { id, name, arity, effect };
    }
    rows
}

fn count_bin_in(func: &MirFunc, blocks: &HashSet<BlockId>, op: MirBinOp) -> usize {
    func.blocks
        .iter()
        .filter(|b| blocks.contains(&b.id))
        .flat_map(|b| b.insts.iter())
        .filter(|i| matches!(i, MirInst::Bin { op: o, .. } if *o == op))
        .count()
}

fn count_const_in(func: &MirFunc, blocks: &HashSet<BlockId>) -> usize {
    func.blocks
        .iter()
        .filter(|b| blocks.contains(&b.id))
        .flat_map(|b| b.insts.iter())
        .filter(|i| matches!(i, MirInst::Const { .. }))
        .count()
}

fn loop_blocks(func: &MirFunc) -> HashSet<BlockId> {
    natural_loops(func)
        .into_iter()
        .map(|lp| {
            let blocks: HashSet<BlockId> = (0..lp.blocks.len())
                .filter(|b| lp.blocks[*b])
                .map(|b| BlockId(b as u32))
                .collect();
            blocks
        })
        .min_by_key(|blocks| blocks.len())
        .unwrap_or_default()
}

#[test]
fn hoists_invariant_fdiv_and_const() {
    let mut b = MirBuilder::new("licm", &Vec::new());
    let scale = b.add_param(MirTy::F64).unwrap();
    let n = b.add_param(MirTy::I64).unwrap();
    const I: LocalId = LocalId(0);
    const S: LocalId = LocalId(1);
    let i0 = b.ins_const(MirConst::I64(0)).unwrap();
    let s0 = b.ins_const(f64c(0.0)).unwrap();
    b.def_local(I, i0).unwrap();
    b.def_local(S, s0).unwrap();
    let header = b.create_block();
    let body = b.create_block();
    let exit = b.create_block();
    b.jump(header).unwrap();

    b.switch_to_block(header);
    let i = b.use_local(I, MirTy::I64).unwrap();
    let cond = b.ins_cmp(MirCmpOp::Lt, i, n).unwrap();
    b.branch(cond, body, exit).unwrap();

    b.switch_to_block(body);
    let one_f = b.ins_const(f64c(1.0)).unwrap();
    let inv = b.ins_binop(MirBinOp::Div, one_f, scale).unwrap();
    let xf = b
        .ins_cast(MirCastKind::IntToFloat, MirTy::F64, i)
        .unwrap();
    let term = b.ins_binop(MirBinOp::Mul, inv, xf).unwrap();
    let s = b.use_local(S, MirTy::F64).unwrap();
    let s1 = b.ins_binop(MirBinOp::Add, s, term).unwrap();
    let one = b.ins_const(MirConst::I64(1)).unwrap();
    let i1 = b.ins_binop(MirBinOp::Add, i, one).unwrap();
    b.def_local(S, s1).unwrap();
    b.def_local(I, i1).unwrap();
    b.jump(header).unwrap();

    b.switch_to_block(exit);
    let s_out = b.use_local(S, MirTy::F64).unwrap();
    b.set_ret_ty(MirTy::F64);
    b.ret(Some(s_out)).unwrap();

    let mut f = b.finish().unwrap();
    f.verify().unwrap();
    let before = loop_blocks(&f);
    assert_eq!(count_bin_in(&f, &before, MirBinOp::Div), 1);
    assert!(count_const_in(&f, &before) >= 1);

    assert!(licm(&mut f) >= 1);
    f.verify().unwrap();
    let after = loop_blocks(&f);
    assert_eq!(
        count_bin_in(&f, &after, MirBinOp::Div),
        0,
        "invariant fdiv must leave the loop"
    );
    assert_eq!(
        count_bin_in(&f, &after, MirBinOp::Mul),
        1,
        "variant mul stays"
    );
}

#[test]
fn does_not_hoist_variant_mul() {
    let mut b = MirBuilder::new("var", &Vec::new());
    let n = b.add_param(MirTy::I64).unwrap();
    const I: LocalId = LocalId(0);
    let i0 = b.ins_const(MirConst::I64(0)).unwrap();
    b.def_local(I, i0).unwrap();
    let header = b.create_block();
    let body = b.create_block();
    let exit = b.create_block();
    b.jump(header).unwrap();
    b.switch_to_block(header);
    let i = b.use_local(I, MirTy::I64).unwrap();
    let cond = b.ins_cmp(MirCmpOp::Lt, i, n).unwrap();
    b.branch(cond, body, exit).unwrap();
    b.switch_to_block(body);
    let two = b.ins_const(MirConst::I64(2)).unwrap();
    let m = b.ins_binop(MirBinOp::Mul, i, two).unwrap();
    let one = b.ins_const(MirConst::I64(1)).unwrap();
    let i1 = b.ins_binop(MirBinOp::Add, m, one).unwrap();
    b.def_local(I, i1).unwrap();
    b.jump(header).unwrap();
    b.switch_to_block(exit);
    b.set_ret_ty(MirTy::I64);
    b.ret(Some(i)).unwrap();
    let mut f = b.finish().unwrap();
    licm(&mut f);
    f.verify().unwrap();
    let lp = loop_blocks(&f);
    assert_eq!(count_bin_in(&f, &lp, MirBinOp::Mul), 1);
}

fn count_host_in(func: &MirFunc, blocks: &HashSet<BlockId>, id: u16) -> usize {
    func.blocks
        .iter()
        .filter(|b| blocks.contains(&b.id))
        .flat_map(|b| b.insts.iter())
        .filter(|i| matches!(i, MirInst::HostInvoke { native_id, .. } if *native_id == id))
        .count()
}

#[test]
fn hoists_invariant_math_host() {
    let mut b = MirBuilder::new("math", &hosts());
    let n = b.add_param(MirTy::I64).unwrap();
    const I: LocalId = LocalId(0);
    const S: LocalId = LocalId(1);
    let i0 = b.ins_const(MirConst::I64(0)).unwrap();
    let s0 = b.ins_const(f64c(0.0)).unwrap();
    b.def_local(I, i0).unwrap();
    b.def_local(S, s0).unwrap();
    let header = b.create_block();
    let body = b.create_block();
    let exit = b.create_block();
    b.jump(header).unwrap();
    b.switch_to_block(header);
    let i = b.use_local(I, MirTy::I64).unwrap();
    let cond = b.ins_cmp(MirCmpOp::Lt, i, n).unwrap();
    b.branch(cond, body, exit).unwrap();
    b.switch_to_block(body);
    let x = b.ins_const(f64c(1.0)).unwrap();
    let s_host = b.ins_host_invoke(MATH_SIN_ID, vec![x]).unwrap();
    let s = b.use_local(S, MirTy::F64).unwrap();
    let s1 = b.ins_binop(MirBinOp::Add, s, s_host).unwrap();
    let one = b.ins_const(MirConst::I64(1)).unwrap();
    let i1 = b.ins_binop(MirBinOp::Add, i, one).unwrap();
    b.def_local(S, s1).unwrap();
    b.def_local(I, i1).unwrap();
    b.jump(header).unwrap();
    b.switch_to_block(exit);
    let s_out = b.use_local(S, MirTy::F64).unwrap();
    b.set_ret_ty(MirTy::F64);
    b.ret(Some(s_out)).unwrap();
    let mut f = b.finish().unwrap();
    assert!(licm(&mut f) >= 1);
    f.verify().unwrap();
    let after = loop_blocks(&f);
    assert_eq!(
        count_host_in(&f, &after, MATH_SIN_ID),
        0,
        "pure math HostInvoke may hoist"
    );
}

#[test]
fn does_not_hoist_impure_clock_host() {
    let mut b = MirBuilder::new("clk", &hosts());
    b.allow_effects = true;
    let n = b.add_param(MirTy::I64).unwrap();
    const I: LocalId = LocalId(0);
    const S: LocalId = LocalId(1);
    let i0 = b.ins_const(MirConst::I64(0)).unwrap();
    let s0 = b.ins_const(MirConst::I64(0)).unwrap();
    b.def_local(I, i0).unwrap();
    b.def_local(S, s0).unwrap();
    let header = b.create_block();
    let body = b.create_block();
    let exit = b.create_block();
    b.jump(header).unwrap();
    b.switch_to_block(header);
    let i = b.use_local(I, MirTy::I64).unwrap();
    let cond = b.ins_cmp(MirCmpOp::Lt, i, n).unwrap();
    b.branch(cond, body, exit).unwrap();
    b.switch_to_block(body);
    let t = b
        .ins_host_invoke(CLOCK_MONO_NANOS_ID, vec![])
        .unwrap();
    let s = b.use_local(S, MirTy::I64).unwrap();
    let s1 = b.ins_binop(MirBinOp::Add, s, t).unwrap();
    let one = b.ins_const(MirConst::I64(1)).unwrap();
    let i1 = b.ins_binop(MirBinOp::Add, i, one).unwrap();
    b.def_local(S, s1).unwrap();
    b.def_local(I, i1).unwrap();
    b.jump(header).unwrap();
    b.switch_to_block(exit);
    let s_out = b.use_local(S, MirTy::I64).unwrap();
    b.set_ret_ty(MirTy::I64);
    b.ret(Some(s_out)).unwrap();
    let mut f = b.finish().unwrap();
    assert!(f.has_impure_host());
    assert!(f
        .blocks
        .iter()
        .flat_map(|bl| bl.insts.iter())
        .any(|i| i.is_effect_barrier(&f.hosts)));
    licm(&mut f);
    f.verify().unwrap();
    let after = loop_blocks(&f);
    assert_eq!(
        count_host_in(&f, &after, CLOCK_MONO_NANOS_ID),
        1,
        "impure clock HostInvoke must stay in the loop"
    );
}

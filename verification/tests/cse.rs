//! Sharing of equal computations.
use compiler::mir::cse::{cse, gvn};
use compiler::mir::func::MirFunc;
use compiler::mir::{MirBinOp, MirBuilder, MirCmpOp, MirConst, MirInst, MirTy};

fn f64c(x: f64) -> MirConst {
    MirConst::F64(x.to_bits())
}

fn count_bin(func: &MirFunc, op: MirBinOp) -> usize {
    func.blocks
        .iter()
        .flat_map(|b| b.insts.iter())
        .filter(|i| matches!(i, MirInst::Bin { op: o, .. } if *o == op))
        .count()
}

#[test]
fn cse_same_block_fdiv() {
    let mut b = MirBuilder::new("div", &Vec::new());
    let x = b.add_param(MirTy::F64).unwrap();
    let y = b.add_param(MirTy::F64).unwrap();
    let a = b.ins_binop(MirBinOp::Div, x, y).unwrap();
    let c = b.ins_binop(MirBinOp::Div, x, y).unwrap();
    let p = b.ins_binop(MirBinOp::Mul, a, c).unwrap();
    b.set_ret_ty(MirTy::F64);
    b.ret(Some(p)).unwrap();
    let mut f = b.finish().unwrap();
    assert_eq!(count_bin(&f, MirBinOp::Div), 2);
    assert!(cse(&mut f) >= 1);
    f.verify().unwrap();
    assert_eq!(count_bin(&f, MirBinOp::Div), 1);
    assert_eq!(count_bin(&f, MirBinOp::Mul), 1);
}

#[test]
fn cse_commutes_mul() {
    let mut b = MirBuilder::new("mul", &Vec::new());
    let x = b.add_param(MirTy::F64).unwrap();
    let y = b.add_param(MirTy::F64).unwrap();
    let a = b.ins_binop(MirBinOp::Mul, x, y).unwrap();
    let c = b.ins_binop(MirBinOp::Mul, y, x).unwrap();
    let s = b.ins_binop(MirBinOp::Add, a, c).unwrap();
    b.set_ret_ty(MirTy::F64);
    b.ret(Some(s)).unwrap();
    let mut f = b.finish().unwrap();
    assert!(cse(&mut f) >= 1);
    f.verify().unwrap();
    assert_eq!(count_bin(&f, MirBinOp::Mul), 1);
}

#[test]
fn cse_does_not_commute_div() {
    let mut b = MirBuilder::new("div_order", &Vec::new());
    let x = b.add_param(MirTy::F64).unwrap();
    let y = b.add_param(MirTy::F64).unwrap();
    let a = b.ins_binop(MirBinOp::Div, x, y).unwrap();
    let c = b.ins_binop(MirBinOp::Div, y, x).unwrap();
    let s = b.ins_binop(MirBinOp::Add, a, c).unwrap();
    b.set_ret_ty(MirTy::F64);
    b.ret(Some(s)).unwrap();
    let mut f = b.finish().unwrap();
    assert_eq!(cse(&mut f), 0);
    f.verify().unwrap();
    assert_eq!(count_bin(&f, MirBinOp::Div), 2);
}

#[test]
fn cse_const_and_dce() {
    let mut b = MirBuilder::new("k", &Vec::new());
    let _x = b.add_param(MirTy::I64).unwrap();
    let c0 = b.ins_const(MirConst::I64(1)).unwrap();
    let c1 = b.ins_const(MirConst::I64(1)).unwrap();
    let s = b.ins_binop(MirBinOp::Add, c0, c1).unwrap();
    b.set_ret_ty(MirTy::I64);
    b.ret(Some(s)).unwrap();
    let mut f = b.finish().unwrap();
    assert!(cse(&mut f) >= 1);
    f.verify().unwrap();
    let consts = f
        .blocks
        .iter()
        .flat_map(|bl| bl.insts.iter())
        .filter(|i| matches!(i, MirInst::Const { .. }))
        .count();
    assert_eq!(consts, 1);
}

#[test]
fn gvn_reuses_dominating_fdiv() {
    let mut b = MirBuilder::new("dom", &Vec::new());
    let x = b.add_param(MirTy::F64).unwrap();
    let y = b.add_param(MirTy::F64).unwrap();
    let t = b.create_block();
    let e = b.create_block();
    let q = b.ins_binop(MirBinOp::Div, x, y).unwrap();
    let z = b.ins_const(f64c(0.0)).unwrap();
    let c = b.ins_cmp(MirCmpOp::Gt, x, z).unwrap();
    b.branch(c, t, e).unwrap();
    b.switch_to_block(t);
    let q2 = b.ins_binop(MirBinOp::Div, x, y).unwrap();
    b.set_ret_ty(MirTy::F64);
    b.ret(Some(q2)).unwrap();
    b.switch_to_block(e);
    b.ret(Some(q)).unwrap();
    let mut f = b.finish().unwrap();
    assert_eq!(count_bin(&f, MirBinOp::Div), 2);
    assert!(gvn(&mut f) >= 1);
    f.verify().unwrap();
    assert_eq!(count_bin(&f, MirBinOp::Div), 1);
}

#[test]
fn pre_hoists_diamond_fdiv() {
    let mut b = MirBuilder::new("pre", &Vec::new());
    let x = b.add_param(MirTy::F64).unwrap();
    let y = b.add_param(MirTy::F64).unwrap();
    let t = b.create_block();
    let e = b.create_block();
    let z = b.ins_const(f64c(0.0)).unwrap();
    let c = b.ins_cmp(MirCmpOp::Gt, x, z).unwrap();
    b.branch(c, t, e).unwrap();
    b.switch_to_block(t);
    let q1 = b.ins_binop(MirBinOp::Div, x, y).unwrap();
    b.set_ret_ty(MirTy::F64);
    b.ret(Some(q1)).unwrap();
    b.switch_to_block(e);
    let q2 = b.ins_binop(MirBinOp::Div, x, y).unwrap();
    b.ret(Some(q2)).unwrap();
    let mut f = b.finish().unwrap();
    assert_eq!(count_bin(&f, MirBinOp::Div), 2);
    assert!(gvn(&mut f) >= 1);
    f.verify().unwrap();
    assert_eq!(count_bin(&f, MirBinOp::Div), 1);
    let fork_divs = f.blocks[0]
        .insts
        .iter()
        .filter(|i| {
            matches!(
                i,
                MirInst::Bin {
                    op: MirBinOp::Div,
                    ..
                }
            )
        })
        .count();
    assert_eq!(fork_divs, 1, "PRE must hoist fdiv onto the fork");
}

#[test]
fn pre_refuses_int_div() {
    let mut b = MirBuilder::new("idiv", &Vec::new());
    let x = b.add_param(MirTy::I64).unwrap();
    let y = b.add_param(MirTy::I64).unwrap();
    let t = b.create_block();
    let e = b.create_block();
    let z = b.ins_const(MirConst::I64(0)).unwrap();
    let c = b.ins_cmp(MirCmpOp::Gt, x, z).unwrap();
    b.branch(c, t, e).unwrap();
    b.switch_to_block(t);
    let q1 = b.ins_binop(MirBinOp::Div, x, y).unwrap();
    b.set_ret_ty(MirTy::I64);
    b.ret(Some(q1)).unwrap();
    b.switch_to_block(e);
    let q2 = b.ins_binop(MirBinOp::Div, x, y).unwrap();
    b.ret(Some(q2)).unwrap();
    let mut f = b.finish().unwrap();
    assert_eq!(gvn(&mut f), 0);
    f.verify().unwrap();
    assert_eq!(count_bin(&f, MirBinOp::Div), 2);
}

#[test]
fn pre_does_not_hoist_one_arm() {
    let mut b = MirBuilder::new("one", &Vec::new());
    let x = b.add_param(MirTy::F64).unwrap();
    let y = b.add_param(MirTy::F64).unwrap();
    let t = b.create_block();
    let e = b.create_block();
    let z = b.ins_const(f64c(0.0)).unwrap();
    let c = b.ins_cmp(MirCmpOp::Gt, x, z).unwrap();
    b.branch(c, t, e).unwrap();
    b.switch_to_block(t);
    let q1 = b.ins_binop(MirBinOp::Div, x, y).unwrap();
    b.set_ret_ty(MirTy::F64);
    b.ret(Some(q1)).unwrap();
    b.switch_to_block(e);
    b.ret(Some(x)).unwrap();
    let mut f = b.finish().unwrap();
    assert_eq!(gvn(&mut f), 0);
    f.verify().unwrap();
    assert_eq!(count_bin(&f, MirBinOp::Div), 1);
}

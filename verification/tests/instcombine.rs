//! Rewrites of arithmetic.
use compiler::mir::func::MirFunc;
use compiler::mir::instcombine::instcombine;
use compiler::mir::{MirBinOp, MirBuilder, MirCmpOp, MirConst, MirInst, MirTy, Terminator};

fn f64c(x: f64) -> MirConst {
    MirConst::F64(x.to_bits())
}

fn count_bin(func: &MirFunc, op: MirBinOp) -> usize {
    func.blocks
        .iter()
        .flat_map(|b| b.insts.iter())
        .filter(|i| matches!(i, MirInst::Bin { op: o, .. } if *o == op))
        .count()
}

#[test]
fn f64_identity_on_binop_result() {
    let mut b = MirBuilder::new("id", &Vec::new());
    let x = b.add_param(MirTy::F64).unwrap();
    let y = b.add_param(MirTy::F64).unwrap();
    let s = b.ins_binop(MirBinOp::Add, x, y).unwrap();
    let one = b.ins_const(f64c(1.0)).unwrap();
    let z = b.ins_const(f64c(0.0)).unwrap();
    let t = b.ins_binop(MirBinOp::Mul, s, one).unwrap();
    let u = b.ins_binop(MirBinOp::Add, t, z).unwrap();
    b.set_ret_ty(MirTy::F64);
    b.ret(Some(u)).unwrap();
    let mut f = b.finish().unwrap();
    assert_eq!(count_bin(&f, MirBinOp::Mul), 1);
    assert_eq!(count_bin(&f, MirBinOp::Add), 2);
    assert!(instcombine(&mut f, &Vec::new()) >= 1);
    f.verify().unwrap();
    assert_eq!(count_bin(&f, MirBinOp::Mul), 0);
    assert_eq!(count_bin(&f, MirBinOp::Add), 1);
}

#[test]
fn i64_add_zero_and_const_fold() {
    let mut b = MirBuilder::new("i", &Vec::new());
    let x = b.add_param(MirTy::I64).unwrap();
    let two = b.ins_const(MirConst::I64(2)).unwrap();
    let three = b.ins_const(MirConst::I64(3)).unwrap();
    let k = b.ins_binop(MirBinOp::Mul, two, three).unwrap();
    let s = b.ins_binop(MirBinOp::Add, x, k).unwrap();
    let z = b.ins_const(MirConst::I64(0)).unwrap();
    let t = b.ins_binop(MirBinOp::Add, s, z).unwrap();
    b.set_ret_ty(MirTy::I64);
    b.ret(Some(t)).unwrap();
    let mut f = b.finish().unwrap();
    assert!(instcombine(&mut f, &Vec::new()) >= 1);
    f.verify().unwrap();
    assert_eq!(count_bin(&f, MirBinOp::Mul), 0);
    assert_eq!(count_bin(&f, MirBinOp::Add), 1);
}

#[test]
fn mul2_sees_const_in_other_block() {
    let mut b = MirBuilder::new("pre", &Vec::new());
    let x = b.add_param(MirTy::F64).unwrap();
    let two = b.ins_const(f64c(2.0)).unwrap();
    let body = b.create_block();
    b.jump(body).unwrap();
    b.switch_to_block(body);
    let p = b.ins_binop(MirBinOp::Mul, x, two).unwrap();
    b.set_ret_ty(MirTy::F64);
    b.ret(Some(p)).unwrap();
    let mut f = b.finish().unwrap();
    assert!(instcombine(&mut f, &Vec::new()) >= 1);
    f.verify().unwrap();
    assert_eq!(count_bin(&f, MirBinOp::Mul), 0);
    assert_eq!(count_bin(&f, MirBinOp::Add), 1);
}

#[test]
fn i32_mul2_is_add() {
    let mut b = MirBuilder::new("sr", &Vec::new());
    let x = b.add_param(MirTy::I32).unwrap();
    let two = b.ins_const(MirConst::I32(2)).unwrap();
    let p = b.ins_binop(MirBinOp::Mul, two, x).unwrap();
    b.set_ret_ty(MirTy::I32);
    b.ret(Some(p)).unwrap();
    let mut f = b.finish().unwrap();
    assert!(instcombine(&mut f, &Vec::new()) >= 1);
    f.verify().unwrap();
    assert_eq!(count_bin(&f, MirBinOp::Mul), 0);
    assert_eq!(count_bin(&f, MirBinOp::Add), 1);
}

#[test]
fn const_cmp_folds_branch() {
    let mut b = MirBuilder::new("br", &Vec::new());
    let x = b.add_param(MirTy::F64).unwrap();
    let four = b.ins_const(f64c(4.0)).unwrap();
    let two = b.ins_const(f64c(2.0)).unwrap();
    let cond = b.ins_cmp(MirCmpOp::Gt, four, two).unwrap();
    let yes = b.create_block();
    let no = b.create_block();
    b.branch(cond, yes, no).unwrap();
    b.switch_to_block(yes);
    b.set_ret_ty(MirTy::F64);
    b.ret(Some(x)).unwrap();
    b.switch_to_block(no);
    let z = b.ins_const(f64c(0.0)).unwrap();
    b.ret(Some(z)).unwrap();
    let mut f = b.finish().unwrap();
    assert!(instcombine(&mut f, &Vec::new()) >= 1);
    f.verify().unwrap();
    assert!(
        f.blocks.iter().any(|bl| matches!(bl.term, Some(Terminator::Jump { .. }))),
        "const-true compare must become a goto"
    );
    assert!(
        !f.blocks.iter().any(|bl| {
            bl.insts
                .iter()
                .any(|i| matches!(i, MirInst::Cmp { .. }))
        }),
        "folded compare is dead"
    );
}

#[test]
fn refuses_float_mul_zero() {
    let mut b = MirBuilder::new("nan", &Vec::new());
    let x = b.add_param(MirTy::F64).unwrap();
    let z = b.ins_const(f64c(0.0)).unwrap();
    let p = b.ins_binop(MirBinOp::Mul, x, z).unwrap();
    b.set_ret_ty(MirTy::F64);
    b.ret(Some(p)).unwrap();
    let mut f = b.finish().unwrap();
    assert_eq!(instcombine(&mut f, &Vec::new()), 0);
    f.verify().unwrap();
    assert_eq!(count_bin(&f, MirBinOp::Mul), 1);
}

#[test]
fn refuses_div_by_zero() {
    let mut b = MirBuilder::new("div0", &Vec::new());
    let two = b.ins_const(MirConst::I64(2)).unwrap();
    let z = b.ins_const(MirConst::I64(0)).unwrap();
    let q = b.ins_binop(MirBinOp::Div, two, z).unwrap();
    b.set_ret_ty(MirTy::I64);
    b.ret(Some(q)).unwrap();
    let mut f = b.finish().unwrap();
    assert_eq!(instcombine(&mut f, &Vec::new()), 0);
    f.verify().unwrap();
    assert_eq!(count_bin(&f, MirBinOp::Div), 1);
}

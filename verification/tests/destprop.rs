//! Forwarding of phis whose inputs agree.
use compiler::mir::{
    destprop, BlockId, MirBinOp, MirBlock, MirCmpOp, MirConst, MirFunc, MirInst, MirTy, Terminator,
    ValueId,
};

fn func(name: &str, params: u32, types: Vec<MirTy>, blocks: Vec<MirBlock>) -> MirFunc {
    let mut f = MirFunc::new(name, &Vec::new());
    f.params = (0..params).map(ValueId).collect();
    f.ret_ty = Some(MirTy::F64);
    f.types = types;
    f.blocks = blocks;
    f
}

fn block(id: u32, insts: Vec<MirInst>, term: Terminator) -> MirBlock {
    MirBlock { id: BlockId(id), insts, term: Some(term) }
}

fn bin(dest: u32, op: MirBinOp, ty: MirTy, lhs: u32, rhs: u32) -> MirInst {
    MirInst::Bin { dest: ValueId(dest), op, ty, lhs: ValueId(lhs), rhs: ValueId(rhs) }
}

fn compare(dest: u32, ty: MirTy, op: MirCmpOp, lhs: u32, rhs: u32) -> MirInst {
    MirInst::Cmp { dest: ValueId(dest), op, ty, lhs: ValueId(lhs), rhs: ValueId(rhs) }
}

fn phi(dest: u32, ty: MirTy, args: &[(u32, u32)]) -> MirInst {
    let args = args.iter().map(|a| (BlockId(a.0), ValueId(a.1))).collect();
    MirInst::Phi { dest: ValueId(dest), ty, args }
}

fn jump(to: u32) -> Terminator {
    Terminator::Jump { dest: BlockId(to) }
}

fn brif(cond: u32, t: u32, e: u32) -> Terminator {
    Terminator::Br { cond: ValueId(cond), taken: BlockId(t), not_taken: BlockId(e) }
}

fn ret(v: u32) -> Terminator {
    Terminator::Return { lo: Some(ValueId(v)), hi: None }
}

fn count_phi(func: &MirFunc) -> usize {
    func.blocks
        .iter()
        .flat_map(|b| b.insts.iter())
        .filter(|i| i.is_phi())
        .count()
}

fn count_bin(func: &MirFunc, op: MirBinOp) -> usize {
    func.blocks
        .iter()
        .flat_map(|b| b.insts.iter())
        .filter(|i| matches!(i, MirInst::Bin { op: o, .. } if *o == op))
        .count()
}

#[test]
fn forwards_same_value_phi() {
    let mut f = func("copy", 2, vec![MirTy::F64, MirTy::F64, MirTy::Bool, MirTy::F64, MirTy::F64], vec![
        block(0, vec![compare(2, MirTy::F64, MirCmpOp::Gt, 0, 1)], brif(2, 1, 2)),
        block(1, vec![], jump(3)),
        block(2, vec![], jump(3)),
        block(3, vec![phi(3, MirTy::F64, &[(1, 0), (2, 0)]), bin(4, MirBinOp::Mul, MirTy::F64, 3, 1)], ret(4)),
    ]);
    f.verify().unwrap();
    assert_eq!(count_phi(&f), 1);
    assert!(destprop(&mut f) >= 1);
    f.verify().unwrap();
    assert_eq!(count_phi(&f), 0);
    assert_eq!(count_bin(&f, MirBinOp::Mul), 1);
    let mul = f
        .blocks
        .iter()
        .flat_map(|b| b.insts.iter())
        .find_map(|i| match i {
            MirInst::Bin {
                op: MirBinOp::Mul,
                lhs,
                rhs,
                ..
            } => Some((*lhs, *rhs)),
            _ => None,
        })
        .unwrap();
    assert_eq!(mul, (f.params[0], f.params[1]));
}

#[test]
fn loop_invariant_self_phi_forwards() {
    let mut f = func("inv", 2, vec![
        MirTy::F64, MirTy::I64, MirTy::F64, MirTy::I64, MirTy::I64, MirTy::I64, MirTy::Bool, MirTy::F64,
    ], vec![
        block(0, vec![], jump(1)),
        block(1, vec![
            phi(2, MirTy::F64, &[(0, 0), (2, 2)]),
            phi(3, MirTy::I64, &[(0, 1), (2, 4)]),
            MirInst::Const { dest: ValueId(5), c: MirConst::I64(0) },
            compare(6, MirTy::I64, MirCmpOp::Lt, 3, 5),
        ], brif(6, 2, 3)),
        block(2, vec![bin(4, MirBinOp::Add, MirTy::I64, 3, 3)], jump(1)),
        block(3, vec![bin(7, MirBinOp::Mul, MirTy::F64, 2, 2)], ret(7)),
    ]);
    f.verify().unwrap();
    assert!(destprop(&mut f) >= 1);
    f.verify().unwrap();
    let fphi = f
        .blocks
        .iter()
        .flat_map(|b| b.insts.iter())
        .filter(|i| matches!(i, MirInst::Phi { ty, .. } if *ty == MirTy::F64))
        .count();
    assert_eq!(fphi, 0, "invariant copy φ must fold");
    assert_eq!(
        f.blocks
            .iter()
            .flat_map(|b| b.insts.iter())
            .filter(|i| matches!(i, MirInst::Phi { .. }))
            .count(),
        1,
        "disagreeing i64 latch stays"
    );
}

#[test]
fn refuses_disagreeing_phi() {
    let mut f = func("keep", 2, vec![MirTy::F64, MirTy::F64, MirTy::Bool, MirTy::F64], vec![
        block(0, vec![compare(2, MirTy::F64, MirCmpOp::Gt, 0, 1)], brif(2, 1, 2)),
        block(1, vec![], jump(3)),
        block(2, vec![], jump(3)),
        block(3, vec![phi(3, MirTy::F64, &[(1, 0), (2, 1)])], ret(3)),
    ]);
    f.verify().unwrap();
    assert_eq!(destprop(&mut f), 0);
    f.verify().unwrap();
    assert_eq!(count_phi(&f), 1);
}

#[test]
fn chain_of_trivial_phis() {
    let mut f = func("chain", 1, vec![MirTy::F64, MirTy::F64, MirTy::F64, MirTy::F64], vec![
        block(0, vec![], jump(1)),
        block(1, vec![phi(1, MirTy::F64, &[(0, 0)])], jump(2)),
        block(2, vec![phi(2, MirTy::F64, &[(1, 1)]), bin(3, MirBinOp::Mul, MirTy::F64, 2, 0)], ret(3)),
    ]);
    f.verify().unwrap();
    assert!(destprop(&mut f) >= 1);
    f.verify().unwrap();
    assert_eq!(count_phi(&f), 0);
    let mul = f
        .blocks
        .iter()
        .flat_map(|b| b.insts.iter())
        .find_map(|i| match i {
            MirInst::Bin {
                op: MirBinOp::Mul,
                lhs,
                rhs,
                ..
            } => Some((*lhs, *rhs)),
            _ => None,
        })
        .unwrap();
    assert_eq!(mul, (f.params[0], f.params[0]));
}

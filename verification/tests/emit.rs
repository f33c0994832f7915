//! Code for branches and rebuilt values.
use compiler::il::op::{IlJumpKind, IlOp, Instruction, Label};
use compiler::mir::{
    emit_dense, emit_lir, BlockId, MirBinOp, MirBlock, MirCmpOp, MirConst, MirFunc, MirInst, MirTy,
    Terminator, ValueId,
};

fn func(types: Vec<MirTy>, blocks: Vec<MirBlock>) -> MirFunc {
    let mut f = MirFunc::new("emit", &Vec::new());
    f.params = vec![ValueId(0), ValueId(1)];
    f.ret_ty = Some(MirTy::F64);
    f.types = types;
    f.blocks = blocks;
    f
}

fn block(id: u32, insts: Vec<MirInst>, term: Terminator) -> MirBlock {
    MirBlock { id: BlockId(id), insts, term: Some(term) }
}

fn bin(dest: u32, op: MirBinOp, lhs: u32, rhs: u32) -> MirInst {
    MirInst::Bin { dest: ValueId(dest), op, ty: MirTy::F64, lhs: ValueId(lhs), rhs: ValueId(rhs) }
}

fn ret(v: u32) -> Terminator {
    Terminator::Return { lo: Some(ValueId(v)), hi: None }
}

fn is_goto(op: &IlOp) -> bool {
    matches!(op, IlOp::Jump { kind: IlJumpKind::Unconditional, .. })
}

/// The operation in front of the label that the first conditional jump goes to.
fn before_false_side(code: &[IlOp]) -> &IlOp {
    let target = code
        .iter()
        .find_map(|op| match op {
            IlOp::Jump { kind: IlJumpKind::JumpIfFalse, target, .. } => Some(*target),
            _ => None,
        })
        .unwrap();
    let at = code.iter().position(|op| *op == IlOp::Label(target)).unwrap();
    &code[at - 1]
}

/// Both sides of the branch reach block 1, the true side directly.
fn joined(types: Vec<MirTy>, insts: Vec<MirInst>, branch: Terminator) -> MirFunc {
    func(types, vec![
        block(0, insts, branch),
        block(
            1,
            vec![MirInst::Phi {
                dest: ValueId(3),
                ty: MirTy::F64,
                args: vec![(BlockId(0), ValueId(1)), (BlockId(2), ValueId(4))],
            }],
            ret(3),
        ),
        block(
            2,
            vec![MirInst::Const { dest: ValueId(4), c: MirConst::F64(0) }],
            Terminator::Jump { dest: BlockId(1) },
        ),
    ])
}

#[test]
fn true_sides_with_copies_jump_over_the_false_side() {
    let f = MirTy::F64;
    let less = MirInst::Cmp {
        dest: ValueId(2),
        op: MirCmpOp::Lt,
        ty: f,
        lhs: ValueId(0),
        rhs: ValueId(1),
    };
    let branch = || Terminator::Br { cond: ValueId(2), taken: BlockId(1), not_taken: BlockId(2) };
    let g = joined(vec![f, f, MirTy::Bool, f, f], vec![less], branch());
    g.verify().unwrap();
    let code = emit_lir(&g, Some(Label(0)), &mut Vec::new(), false).unwrap();
    assert!(is_goto(before_false_side(&code)));
    let code = emit_dense(&g, Some(Label(0)), &mut Vec::new(), false).unwrap();
    assert!(is_goto(before_false_side(&code)));
}

#[test]
fn matches_with_copies_jump_over_the_false_side() {
    let f = MirTy::F64;
    let branch = Terminator::JumpIfMatch {
        scrutinee: ValueId(0),
        tag: 0,
        payloads: vec![],
        taken: BlockId(1),
        not_taken: BlockId(2),
    };
    let g = joined(vec![MirTy::NicheOpt, f, MirTy::Bool, f, f], vec![], branch);
    let code = emit_dense(&g, Some(Label(0)), &mut Vec::new(), false).unwrap();
    assert!(is_goto(before_false_side(&code)));
}

fn position(code: &[IlOp], want: Instruction) -> usize {
    code.iter()
        .position(|op| match op {
            IlOp::Bin { op, .. } | IlOp::BinSlotSlot { op, .. } => *op == want,
            _ => false,
        })
        .unwrap()
}

#[test]
fn operands_behind_their_reader_are_rebuilt() {
    let f = MirTy::F64;
    let g = func(vec![f, f, f, f], vec![block(
        0,
        vec![bin(2, MirBinOp::Mul, 3, 1), bin(3, MirBinOp::Add, 0, 1)],
        ret(2),
    )]);
    assert!(g.verify().is_err());
    let code = emit_lir(&g, Some(Label(0)), &mut Vec::new(), false).unwrap();
    assert!(position(&code, Instruction::ADDF) < position(&code, Instruction::MULF));
    let call = MirInst::Call {
        dest: ValueId(4),
        dest_hi: None,
        target: Label(0),
        args: vec![ValueId(2), ValueId(1)],
    };
    let g = func(vec![f, f, f, f, f], vec![block(
        0,
        vec![bin(2, MirBinOp::Mul, 3, 1), bin(3, MirBinOp::Add, 0, 1), call],
        ret(4),
    )]);
    let code = emit_dense(&g, Some(Label(0)), &mut Vec::new(), false).unwrap();
    assert!(position(&code, Instruction::ADDF) < position(&code, Instruction::MULF));
}

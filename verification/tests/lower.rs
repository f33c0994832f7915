//! Stack code to SSA form.
use compiler::il::op::{Byte, DebugLoc, IlJumpKind, IlOp, Instruction, Label};
use compiler::mir::{
    try_lower_numeric, LowerError, LowerHints, MirAllocKind, MirGcKind, MirInst, MirTy,
};

fn loc() -> DebugLoc {
    DebugLoc::unknown()
}

#[test]
fn lowering_smoke_int_loop() {
    // i = 0; while i < n { i = i + 1 } ; return i
    let ops = vec![
        IlOp::Const { imm: 0, loc: loc() },
        IlOp::StorePop {
            slot: 0,
            loc: loc(),
        },
        IlOp::Label(Label(0)),
        IlOp::Load {
            slot: 0,
            loc: loc(),
        },
        IlOp::Load {
            slot: 1,
            loc: loc(),
        },
        IlOp::Bin {
            op: Instruction::LE,
            loc: loc(),
        },
        IlOp::Jump {
            kind: IlJumpKind::JumpIfFalse,
            target: Label(1),
            loc: loc(),
            hint: Default::default(),
        },
        IlOp::Load {
            slot: 0,
            loc: loc(),
        },
        IlOp::Const { imm: 1, loc: loc() },
        IlOp::Bin {
            op: Instruction::ADD,
            loc: loc(),
        },
        IlOp::StorePop {
            slot: 0,
            loc: loc(),
        },
        IlOp::Jump {
            kind: IlJumpKind::Unconditional,
            target: Label(0),
            loc: loc(),
            hint: Default::default(),
        },
        IlOp::Label(Label(1)),
        IlOp::Load {
            slot: 0,
            loc: loc(),
        },
        IlOp::Return {
            loc: loc(),
            ret_words: 1,
        },
    ];
    let mut hints = LowerHints::new("counted", &Vec::new());
    hints.slot_ty.insert(0, MirTy::I64);
    hints.slot_ty.insert(1, MirTy::I64);
    let f = try_lower_numeric(&ops, &hints).expect("lower");
    f.verify().unwrap();
    assert!(
        f.blocks.iter().any(|b| b.insts.iter().any(|i| i.is_phi())),
        "loop header should carry an i64 phi"
    );
}

#[test]
fn lowering_alloc_array_is_visible() {
    let loc = loc();
    let ops = vec![
        IlOp::Label(Label(0)),
        IlOp::Const { imm: 1, loc },
        IlOp::MakeArray { arity: 1, loc },
        IlOp::Return {
            loc,
            ret_words: 1,
        },
    ];
    let mut hints = LowerHints::new("arr", &Vec::new());
    hints.allow_alloc = true;
    let f = try_lower_numeric(&ops, &hints).expect("lower alloc");
    f.verify().unwrap();
    assert!(f.has_gc_edge());
    assert!(f.blocks.iter().any(|b| {
        b.insts
            .iter()
            .any(|i| matches!(i, MirInst::Alloc { kind: MirAllocKind::Array, .. }))
    }));
    assert!(f.blocks.iter().any(|b| {
        b.insts
            .iter()
            .any(|i| matches!(i, MirInst::GcBarrier { kind: MirGcKind::Safepoint, .. }))
    }));
    assert_eq!(f.ret_ty, Some(MirTy::HeapRef));
}

#[test]
fn lowering_refuses_getfield() {
    let ops = vec![IlOp::GetField { loc: loc() }];
    let err = try_lower_numeric(&ops, &LowerHints::new("cls", &Vec::new())).unwrap_err();
    assert!(matches!(err, LowerError::Refused(_)));
}

#[test]
fn lowering_refuses_format_and_string() {
    let loc = loc();
    let err =
        try_lower_numeric(&[IlOp::String { idx: 0, loc }], &LowerHints::new("s", &Vec::new())).unwrap_err();
    assert!(matches!(err, LowerError::Refused(ref m) if m.contains("I4")));
    let err = try_lower_numeric(
        &[IlOp::Byte {
            byte: Byte::new(Instruction::FORMAT).with_operand_u32(1),
            loc,
        }],
        &LowerHints::new("fmt", &Vec::new()),
    )
    .unwrap_err();
    assert!(matches!(err, LowerError::Refused(ref m) if m.contains("format")));
}

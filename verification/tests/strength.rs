//! Products of loop counters.
use compiler::il::op::{Byte, DebugLoc, IlJumpKind, IlOp, Instruction, Label};
use compiler::il::strength::strength_reduce;

fn loc() -> DebugLoc {
    DebugLoc::unknown()
}

fn counted_mul_loop() -> Vec<IlOp> {
    vec![
        IlOp::Const { imm: 0, loc: loc() },
        IlOp::StorePop { slot: 0, loc: loc() },
        IlOp::Const { imm: 10, loc: loc() },
        IlOp::StorePop { slot: 1, loc: loc() },
        IlOp::Const { imm: 3, loc: loc() },
        IlOp::StorePop { slot: 2, loc: loc() },
        IlOp::Jump {
            kind: IlJumpKind::Unconditional,
            target: Label(0),
            loc: loc(),
            hint: Default::default(),
        },
        IlOp::Label(Label(0)),
        IlOp::Load { slot: 0, loc: loc() },
        IlOp::Load { slot: 1, loc: loc() },
        IlOp::Bin {
            op: Instruction::LE,
            loc: loc(),
        },
        IlOp::Jump {
            kind: IlJumpKind::JumpIfFalse,
            target: Label(1),
            loc: loc(),
            hint: Default::default(),
        },
        IlOp::Load { slot: 0, loc: loc() },
        IlOp::Load { slot: 2, loc: loc() },
        IlOp::Bin {
            op: Instruction::MUL,
            loc: loc(),
        },
        IlOp::Pop { loc: loc() },
        IlOp::Load { slot: 0, loc: loc() },
        IlOp::Const { imm: 1, loc: loc() },
        IlOp::Bin {
            op: Instruction::ADD,
            loc: loc(),
        },
        IlOp::StorePop { slot: 0, loc: loc() },
        IlOp::Jump {
            kind: IlJumpKind::Unconditional,
            target: Label(0),
            loc: loc(),
            hint: Default::default(),
        },
        IlOp::Label(Label(1)),
        IlOp::Halt { loc: loc() },
    ]
}

fn body_muls(ops: &[IlOp]) -> usize {
    let header = ops
        .iter()
        .position(|op| matches!(op, IlOp::Label(Label(0))))
        .unwrap();
    let latch = ops
        .iter()
        .rposition(|op| {
            matches!(
                op,
                IlOp::Jump {
                    kind: IlJumpKind::Unconditional,
                    target: Label(0),
                    ..
                }
            )
        })
        .unwrap();
    ops[header..latch]
        .iter()
        .filter(|op| matches!(op, IlOp::Bin { op: Instruction::MUL, .. }))
        .count()
}

#[test]
fn reduces_iv_times_invariant() {
    let mut ops = counted_mul_loop();
    let mut pool = Vec::new();
    assert_eq!(strength_reduce(&mut ops, &mut pool, None), 1);
    assert_eq!(body_muls(&ops), 0, "i*c must leave the loop body");
    assert!(
        ops.iter()
            .any(|op| matches!(op, IlOp::Bin { op: Instruction::ADD, .. })),
        "recurrence should add the stride product"
    );
}

#[test]
fn refuses_host_invoke() {
    let mut ops = counted_mul_loop();
    ops.insert(
        15,
        IlOp::HostInvoke {
            arity: 0,
            layout: 0,
            loc: loc(),
        },
    );
    let before_len = ops.len();
    let mut pool = Vec::new();
    assert_eq!(strength_reduce(&mut ops, &mut pool, None), 0);
    assert_eq!(ops.len(), before_len);
    assert_eq!(body_muls(&ops), 1);
}

#[test]
fn refuses_array_push() {
    let mut ops = counted_mul_loop();
    ops.insert(15, IlOp::byte(Byte::new(Instruction::ArrayPush)));
    let mut pool = Vec::new();
    assert_eq!(strength_reduce(&mut ops, &mut pool, None), 0);
    assert_eq!(body_muls(&ops), 1);
}

#[test]
fn refuses_non_additive_iv() {
    let mut ops = counted_mul_loop();
    // Replace i += 1 with i = i * 2.
    let add_at = ops
        .iter()
        .position(|op| matches!(op, IlOp::Bin { op: Instruction::ADD, .. }))
        .unwrap();
    ops[add_at] = IlOp::Bin {
        op: Instruction::MUL,
        loc: loc(),
    };
    let mut pool = Vec::new();
    assert_eq!(strength_reduce(&mut ops, &mut pool, None), 0);
}

#[test]
fn refuses_float_cast_of_iv() {
    // Recurrence of `i as float` is not IEEE-equal to the original cast.
    let mut ops = vec![
        IlOp::Const { imm: 0, loc: loc() },
        IlOp::StorePop { slot: 0, loc: loc() },
        IlOp::Const { imm: 4, loc: loc() },
        IlOp::StorePop { slot: 1, loc: loc() },
        IlOp::Jump {
            kind: IlJumpKind::Unconditional,
            target: Label(0),
            loc: loc(),
            hint: Default::default(),
        },
        IlOp::Label(Label(0)),
        IlOp::Load { slot: 0, loc: loc() },
        IlOp::Load { slot: 1, loc: loc() },
        IlOp::Bin {
            op: Instruction::LE,
            loc: loc(),
        },
        IlOp::Jump {
            kind: IlJumpKind::JumpIfFalse,
            target: Label(1),
            loc: loc(),
            hint: Default::default(),
        },
        IlOp::Load { slot: 0, loc: loc() },
        IlOp::byte(Byte::new(Instruction::CastIntToFloat)),
        IlOp::Pop { loc: loc() },
        IlOp::Load { slot: 0, loc: loc() },
        IlOp::Const { imm: 1, loc: loc() },
        IlOp::Bin {
            op: Instruction::ADD,
            loc: loc(),
        },
        IlOp::StorePop { slot: 0, loc: loc() },
        IlOp::Jump {
            kind: IlJumpKind::Unconditional,
            target: Label(0),
            loc: loc(),
            hint: Default::default(),
        },
        IlOp::Label(Label(1)),
        IlOp::Halt { loc: loc() },
    ];
    let mut pool = Vec::new();
    assert_eq!(strength_reduce(&mut ops, &mut pool, None), 0);
}

#[test]
fn reduces_bin_slot_imm_mul() {
    let mut ops = vec![
        IlOp::Const { imm: 0, loc: loc() },
        IlOp::StorePop { slot: 0, loc: loc() },
        IlOp::Const { imm: 8, loc: loc() },
        IlOp::StorePop { slot: 1, loc: loc() },
        IlOp::Jump {
            kind: IlJumpKind::Unconditional,
            target: Label(0),
            loc: loc(),
            hint: Default::default(),
        },
        IlOp::Label(Label(0)),
        IlOp::Load { slot: 0, loc: loc() },
        IlOp::Load { slot: 1, loc: loc() },
        IlOp::Bin {
            op: Instruction::LE,
            loc: loc(),
        },
        IlOp::Jump {
            kind: IlJumpKind::JumpIfFalse,
            target: Label(1),
            loc: loc(),
            hint: Default::default(),
        },
        IlOp::BinSlotImm {
            op: Instruction::MUL,
            slot: 0,
            imm: 5,
            loc: loc(),
        },
        IlOp::Pop { loc: loc() },
        IlOp::BinSlotImm {
            op: Instruction::ADD,
            slot: 0,
            imm: 1,
            loc: loc(),
        },
        IlOp::StorePop { slot: 0, loc: loc() },
        IlOp::Jump {
            kind: IlJumpKind::Unconditional,
            target: Label(0),
            loc: loc(),
            hint: Default::default(),
        },
        IlOp::Label(Label(1)),
        IlOp::Halt { loc: loc() },
    ];
    let mut pool = Vec::new();
    assert_eq!(strength_reduce(&mut ops, &mut pool, None), 1);
    let header = ops
        .iter()
        .position(|op| matches!(op, IlOp::Label(Label(0))))
        .unwrap();
    let latch = ops
        .iter()
        .rposition(|op| {
            matches!(
                op,
                IlOp::Jump {
                    kind: IlJumpKind::Unconditional,
                    target: Label(0),
                    ..
                }
            )
        })
        .unwrap();
    assert!(
        !ops[header..latch].iter().any(|op| matches!(
            op,
            IlOp::BinSlotImm {
                op,
                ..
            } if *op == Instruction::MUL
        )),
        "BinSlotImm MUL of the IV must leave the loop body"
    );
}

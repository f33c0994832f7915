//! Which bodies are lifted.
use compiler::il::op::{DebugLoc, EntryKind, IlJumpKind, IlOp, Instruction, Label};
use compiler::mir::entry::{
    lir_eligible, lir_eligible_with, lir_refuse, lir_refuse_with, LirRefuse,
};

fn loc() -> DebugLoc {
    DebugLoc::unknown()
}

#[test]
fn i8_one_word_bitor_is_lir_eligible() {
    let loc = loc();
    let ops = [
        IlOp::Label(Label(0)),
        IlOp::Load { slot: 0, loc },
        IlOp::Const { imm: 1, loc },
        IlOp::Bin {
            op: Instruction::BITOR,
            loc,
        },
        IlOp::Return { loc, ret_words: 1 },
    ];
    assert_eq!(lir_refuse(&ops, &[]), None);
    assert!(lir_eligible(&ops, &[]));
}

#[test]
fn i8_plain_if_diamond_is_lir_eligible() {
    let loc = loc();
    let ops = [
        IlOp::Label(Label(0)),
        IlOp::Load { slot: 0, loc },
        IlOp::Load { slot: 1, loc },
        IlOp::Bin {
            op: Instruction::LE,
            loc,
        },
        IlOp::Jump {
            kind: IlJumpKind::JumpIfFalse,
            target: Label(1),
            loc,
            hint: Default::default(),
        },
        IlOp::Load { slot: 0, loc },
        IlOp::Return { loc, ret_words: 1 },
        IlOp::Label(Label(1)),
        IlOp::Load { slot: 1, loc },
        IlOp::Return { loc, ret_words: 1 },
    ];
    assert_eq!(lir_refuse(&ops, &[]), None);
    assert!(lir_eligible(&ops, &[]));
}

#[test]
fn i8_store_loop_is_lir_eligible() {
    let loc = loc();
    let ops = [
        IlOp::Jump {
            kind: IlJumpKind::Unconditional,
            target: Label(0),
            loc,
            hint: Default::default(),
        },
        IlOp::Label(Label(0)),
        IlOp::Const { imm: 1, loc },
        IlOp::StorePop { slot: 2, loc },
        IlOp::Jump {
            kind: IlJumpKind::Unconditional,
            target: Label(0),
            loc,
            hint: Default::default(),
        },
    ];
    assert_eq!(lir_refuse(&ops, &[]), None);
    assert!(lir_eligible(&ops, &[]));
}

#[test]
fn i8_tiny_let_is_lir_eligible() {
    let loc = loc();
    let ops = [
        IlOp::Const { imm: 42, loc },
        IlOp::StorePop { slot: 0, loc },
        IlOp::Load { slot: 0, loc },
        IlOp::Return { loc, ret_words: 1 },
    ];
    assert_eq!(lir_refuse(&ops, &[]), None);
    assert!(lir_eligible(&ops, &[]));
}

#[test]
fn i2_boxed_overlap_arity0_is_lir_eligible() {
    let loc = loc();
    let ops = [
        IlOp::Load { slot: 0, loc },
        IlOp::Jump {
            kind: IlJumpKind::JumpIfMatch { tag: 2, arity: 0 },
            target: Label(1),
            loc,
            hint: Default::default(),
        },
        IlOp::Return { loc, ret_words: 1 },
    ];
    assert_eq!(lir_refuse(&ops, &[]), None);
    assert!(lir_eligible(&ops, &[]));
}

#[test]
fn i8_call_and_host_stay_fuse_il() {
    let loc = loc();
    let call = [IlOp::Entry {
        kind: EntryKind::Call,
        arity: 1,
        target: Label(1),
        loc,
        ret_words: 1,
    }];
    assert_eq!(lir_refuse(&call, &[]), Some(LirRefuse::Call));
    let host = [IlOp::HostInvoke {
        arity: 0,
        layout: 0,
        loc,
    }];
    assert_eq!(lir_refuse(&host, &[]), Some(LirRefuse::Host));
}

#[test]
fn s2c_mapped_alloc_is_lir_eligible() {
    let loc = loc();
    let ops = [
        IlOp::Label(Label(0)),
        IlOp::Load { slot: 0, loc },
        IlOp::Load { slot: 1, loc },
        IlOp::MakeArray { arity: 2, loc },
        IlOp::Return { loc, ret_words: 1 },
    ];
    assert_eq!(lir_refuse(&ops, &[]), Some(LirRefuse::Alloc));
    assert_eq!(lir_refuse_with(&ops, &[], true), None);
    assert!(lir_eligible_with(&ops, &[], true));
}

#[test]
fn i8_heap_index_is_lir_eligible() {
    let loc = loc();
    let ops = [
        IlOp::Load { slot: 0, loc },
        IlOp::Load { slot: 1, loc },
        IlOp::Index { loc },
        IlOp::Return { loc, ret_words: 1 },
    ];
    assert_eq!(lir_refuse(&ops, &[]), None);
    assert!(lir_eligible(&ops, &[]));
}

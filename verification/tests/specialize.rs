//! Costs of bodies.
use compiler::il::op::{Byte, DebugLoc, IlOp, Instruction};
use compiler::mir::specialize::{emit_cost, residual_heap_box};

fn loc() -> DebugLoc {
    DebugLoc::unknown()
}

#[test]
fn residual_make_counts_as_boxed() {
    let ops = [IlOp::MakeArray { arity: 2, loc: loc() }];
    assert!(residual_heap_box(&ops));
    let native = [IlOp::byte(
        Byte::new(Instruction::DenseMake).with_dense_abc(0, 1, 2, 3),
    )];
    assert!(!residual_heap_box(&native));
}

#[test]
fn emit_cost_weights_load_store_above_dense() {
    let boxed = [
        IlOp::Load { slot: 0, loc: loc() },
        IlOp::Load { slot: 1, loc: loc() },
        IlOp::Index { loc: loc() },
        IlOp::StorePop { slot: 2, loc: loc() },
    ];
    let native = [IlOp::byte(
        Byte::new(Instruction::DenseIndex).with_dense_abc(0, 2, 0, 1),
    )];
    assert!(emit_cost(&native) < emit_cost(&boxed));
    assert!(emit_cost(&native) <= emit_cost(&boxed));
}

#[test]
fn emit_cost_weights_seek_by_frame_size() {
    let small = [IlOp::byte(
        Byte::new(Instruction::Seek).with_operand_u32(8),
    )];
    let large = [IlOp::byte(
        Byte::new(Instruction::Seek).with_operand_u32(80),
    )];
    assert!(emit_cost(&large) > emit_cost(&small));
}

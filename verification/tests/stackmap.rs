//! Collector maps.
use compiler::il::op::{Byte, DebugLoc, IlOp, Instruction, Label};
use compiler::mir::stackmap::{bind_drafts, encode_draft, try_build_draft, DraftFrameMap};
use compiler::mir::{
    LocalId, MirAllocKind, MirBuilder, MirCmpOp, MirConst, MirGcKind, MirTy,
};

fn loc() -> DebugLoc {
    DebugLoc::unknown()
}

#[test]
fn draft_keeps_live_heap_slot() {
    let mut b = MirBuilder::new("keep", &Vec::new());
    let xs = b.add_param(MirTy::HeapRef).unwrap();
    b.def_local(LocalId(0), xs).unwrap();
    let n = b.ins_const(MirConst::I64(1)).unwrap();
    let a = b.ins_alloc(MirAllocKind::Array, vec![n]).unwrap();
    let g = b.ins_gc_barrier(MirGcKind::Safepoint, vec![a]).unwrap();
    let _ = b.ins_cmp(MirCmpOp::Eq, xs, a).unwrap();
    b.ret(Some(g)).unwrap();
    let f = b.finish().unwrap();
    let draft = encode_draft(&f).expect("draft");
    assert_eq!(draft.sites.len(), 1);
    assert!(
        draft.sites[0].contains(&0),
        "slot 0: {:?}",
        draft.sites[0]
    );
}

#[test]
fn try_build_draft_from_il_keep_slot() {
    let loc = loc();
    let ops = vec![
        IlOp::Label(Label(0)),
        IlOp::Const { imm: 1, loc },
        IlOp::MakeArray { arity: 1, loc },
        IlOp::StorePop { slot: 1, loc },
        IlOp::Load { slot: 0, loc },
        IlOp::Return { loc, ret_words: 1 },
    ];
    let draft = try_build_draft(&ops, "keep", 1, &[], &[], &Vec::new()).expect("map");
    assert_eq!(draft.name, "keep");
    assert_eq!(draft.sites.len(), 1);
    assert!(
        draft.sites[0].contains(&0),
        "live param slot: {:?}",
        draft.sites[0]
    );
}

#[test]
fn bind_pairs_alloc_pc() {
    let draft = DraftFrameMap {
        name: "keep".into(),
        sites: vec![vec![0]],
        frame_slots: vec![0],
    };
    let bytecode = vec![
        Byte::new(Instruction::CONST).with_const_inline(1),
        Byte::new(Instruction::MakeArray).with_operand_u32(1),
        Byte::new(Instruction::RETURN),
    ];
    let maps = bind_drafts(&[draft], &bytecode, &[("keep".into(), 0)]);
    assert_eq!(maps.len(), 1);
    assert_eq!(maps[0].safepoints[0].pc, 1);
    assert_eq!(maps[0].safepoints[0].slots, vec![0]);
    assert_eq!(maps[0].frame_slots, vec![0]);
}

#[test]
fn try_build_draft_from_array_push() {
    let loc = loc();
    let ops = vec![
        IlOp::Label(Label(0)),
        IlOp::Load { slot: 0, loc },
        IlOp::Const { imm: 1, loc },
        IlOp::byte(Byte::new(Instruction::ArrayPush)),
        IlOp::StorePop { slot: 0, loc },
        IlOp::Load { slot: 0, loc },
        IlOp::Return { loc, ret_words: 1 },
    ];
    let draft = try_build_draft(&ops, "grow", 1, &[], &[], &Vec::new()).expect("map");
    assert_eq!(draft.sites.len(), 1);
    assert!(
        draft.sites[0].contains(&0),
        "live vec slot: {:?}",
        draft.sites[0]
    );
}

#[test]
fn try_build_draft_from_init_typed_setfield() {
    let loc = loc();
    let ops = vec![
        IlOp::Label(Label(0)),
        IlOp::byte(
            Byte::new(Instruction::InitTyped)
                .with_init_typed(1, 2),
        ),
        IlOp::StorePop { slot: 0, loc },
        IlOp::Const { imm: 3, loc },
        IlOp::Load { slot: 0, loc },
        IlOp::SetField {
            index: Some(0),
            loc,
        },
        IlOp::Pop { loc },
        IlOp::Const { imm: 4, loc },
        IlOp::Load { slot: 0, loc },
        IlOp::SetField {
            index: Some(1),
            loc,
        },
        IlOp::Pop { loc },
        IlOp::Load { slot: 0, loc },
        IlOp::Return { loc, ret_words: 1 },
    ];
    let draft = try_build_draft(&ops, "ctor", 0, &[], &[], &Vec::new()).expect("D1 maps");
    assert_eq!(draft.sites.len(), 1);
    assert!(
        draft.sites[0].contains(&0),
        "InitTyped object slot: {:?}",
        draft.sites[0]
    );
}

#[test]
fn try_build_draft_from_init_typed_getfield() {
    let loc = loc();
    let ops = vec![
        IlOp::Label(Label(0)),
        IlOp::byte(
            Byte::new(Instruction::InitTyped)
                .with_init_typed(1, 1),
        ),
        IlOp::StorePop { slot: 0, loc },
        IlOp::Load { slot: 0, loc },
        IlOp::String { idx: 0, loc },
        IlOp::GetField { loc },
        IlOp::StorePop { slot: 1, loc },
        IlOp::Load { slot: 0, loc },
        IlOp::Return { loc, ret_words: 1 },
    ];
    let draft = try_build_draft(&ops, "get", 0, &[], &[], &Vec::new()).expect("D1 maps");
    assert_eq!(draft.sites.len(), 1);
    assert!(
        draft.sites[0].contains(&0),
        "live object across GetField: {:?}",
        draft.sites[0]
    );
}

#[test]
fn bind_pairs_dense_make_and_array_push() {
    let draft = DraftFrameMap {
        name: "grow".into(),
        sites: vec![vec![0], vec![0]],
        frame_slots: vec![0],
    };
    let bytecode = vec![
        Byte::new(Instruction::DenseMake).with_dense_abc(0, 1, 1, 2),
        Byte::new(Instruction::DenseArrayPush).with_dense_abc(0, 0, 0, 1),
    ];
    let maps = bind_drafts(&[draft], &bytecode, &[("grow".into(), 0)]);
    assert_eq!(maps.len(), 1);
    assert_eq!(maps[0].safepoints.len(), 2);
    assert_eq!(maps[0].safepoints[0].pc, 0);
    assert_eq!(maps[0].safepoints[1].pc, 1);
}

#[test]
fn try_build_draft_from_format_keeps_live_slot() {
    let loc = loc();
    let ops = vec![
        IlOp::Label(Label(0)),
        IlOp::String { idx: 0, loc },
        IlOp::Load { slot: 0, loc },
        IlOp::byte(Byte::new(Instruction::FORMAT).with_operand_u32(1)),
        IlOp::StorePop { slot: 1, loc },
        IlOp::Load { slot: 0, loc },
        IlOp::Return { loc, ret_words: 1 },
    ];
    let draft = try_build_draft(&ops, "fmt", 1, &[], &[], &Vec::new()).expect("map");
    assert_eq!(draft.sites.len(), 1);
    assert!(
        draft.sites[0].contains(&0),
        "live string slot: {:?}",
        draft.sites[0]
    );
}

#[test]
fn bind_pairs_format_pc() {
    let draft = DraftFrameMap {
        name: "fmt".into(),
        sites: vec![vec![0]],
        frame_slots: vec![0],
    };
    let bytecode = vec![
        Byte::new(Instruction::STRING).with_operand_u32(0),
        Byte::new(Instruction::FORMAT).with_operand_u32(1),
        Byte::new(Instruction::RETURN),
    ];
    let maps = bind_drafts(&[draft], &bytecode, &[("fmt".into(), 0)]);
    assert_eq!(maps.len(), 1);
    assert_eq!(maps[0].safepoints[0].pc, 1);
    assert_eq!(maps[0].safepoints[0].slots, vec![0]);
}

#[test]
fn numeric_body_has_no_draft() {
    let loc = loc();
    let ops = vec![
        IlOp::Label(Label(0)),
        IlOp::Const { imm: 1, loc },
        IlOp::Return { loc, ret_words: 1 },
    ];
    assert!(try_build_draft(&ops, "n", 0, &[], &[], &Vec::new()).is_none());
}

//! SSA construction.
use compiler::mir::{
    LocalId, MirAllocKind, MirBuilder, MirCmpOp, MirConst, MirGcKind, MirInst, MirTy,
};

#[test]
fn builder_smoke_diamond() {
    let mut b = MirBuilder::new("diamond", &Vec::new());
    let x = b.add_param(MirTy::I64).unwrap();
    b.def_local(LocalId(0), x).unwrap();
    let entry = b.entry();
    let then_b = b.create_block();
    let else_b = b.create_block();
    let join = b.create_block();

    b.switch_to_block(entry);
    let zero = b.ins_const(MirConst::I64(0)).unwrap();
    let c = b.ins_cmp(MirCmpOp::Lt, x, zero).unwrap();
    b.branch(c, then_b, else_b).unwrap();

    b.switch_to_block(then_b);
    let one = b.ins_const(MirConst::I64(1)).unwrap();
    b.def_local(LocalId(0), one).unwrap();
    b.jump(join).unwrap();

    b.switch_to_block(else_b);
    let two = b.ins_const(MirConst::I64(2)).unwrap();
    b.def_local(LocalId(0), two).unwrap();
    b.jump(join).unwrap();

    b.switch_to_block(join);
    let y = b.use_local(LocalId(0), MirTy::I64).unwrap();
    b.ret(Some(y)).unwrap();

    let f = b.finish().unwrap();
    assert!(
        f.block(join)
            .insts
            .iter()
            .any(|i| matches!(i, MirInst::Phi { .. })),
        "join must have a phi: {f:?}"
    );
    f.verify().unwrap();
}

#[test]
fn refuses_class_shaped_value_param() {
    let mut b = MirBuilder::new("no_class", &Vec::new());
    assert!(b.add_param(MirTy::Value).is_err());
}

#[test]
fn accepts_heapref_and_niche_params() {
    for ty in [MirTy::HeapRef, MirTy::NicheOpt, MirTy::NicheRes] {
        let mut b = MirBuilder::new("href", &Vec::new());
        let p = b.add_param(ty).unwrap();
        b.ret(Some(p)).unwrap();
        let f = b.finish().unwrap();
        assert_eq!(f.ty(p), ty);
        assert_eq!(f.ret_ty, Some(ty));
        assert_eq!(f.ret_layout, ty.layout());
    }
}

#[test]
fn alloc_then_safepoint_is_heapref() {
    let mut b = MirBuilder::new("mk", &Vec::new());
    let n = b.ins_const(MirConst::I64(1)).unwrap();
    let a = b.ins_alloc(MirAllocKind::Array, vec![n]).unwrap();
    let g = b.ins_gc_barrier(MirGcKind::Safepoint, vec![a]).unwrap();
    b.ret(Some(g)).unwrap();
    let f = b.finish().unwrap();
    assert_eq!(f.ty(a), MirTy::HeapRef);
    assert_eq!(f.ty(g), MirTy::HeapRef);
    assert!(f.blocks.iter().any(|bl| {
        bl.insts
            .iter()
            .any(|i| matches!(i, MirInst::Alloc { .. }) && i.is_gc_edge())
    }));
    assert!(f.has_gc_edge());
}

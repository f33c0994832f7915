//! Reuse of arrays that were stored to.
use compiler::mir::sroa::sroa;
use compiler::mir::{
    LocalId, MirAllocKind, MirBuilder, MirConst, MirGcKind, MirInst, MirTy,
};

#[test]
fn reuses_array_after_storeindex() {
    let mut b = MirBuilder::new("pack", &Vec::new());
    let i = b.add_param(MirTy::I64).unwrap();
    let z = b.ins_const(MirConst::I64(0)).unwrap();
    let a0 = b.ins_alloc(MirAllocKind::Array, vec![z, z, z]).unwrap();
    let g0 = b
        .ins_gc_barrier(MirGcKind::Safepoint, vec![a0])
        .unwrap();
    let _st = b.ins_store_index(g0, i, i, false).unwrap();
    let a1 = b.ins_alloc(MirAllocKind::Array, vec![z, z, z]).unwrap();
    let g1 = b
        .ins_gc_barrier(MirGcKind::Safepoint, vec![a1])
        .unwrap();
    let v = b.ins_index(g1, i, MirTy::I64, false).unwrap();
    b.set_ret_ty(MirTy::I64);
    b.ret(Some(v)).unwrap();
    let mut func = b.finish().unwrap();
    assert!(sroa(&mut func) >= 1);
    let allocs = func
        .blocks
        .iter()
        .flat_map(|bl| bl.insts.iter())
        .filter(|i| matches!(i, MirInst::Alloc { .. }))
        .count();
    assert_eq!(allocs, 1, "second Alloc must die; {func:?}");
}

#[test]
fn sibling_alloc_after_store_stays_fresh() {
    let mut b = MirBuilder::new("zip", &Vec::new());
    let i = b.add_param(MirTy::I64).unwrap();
    let z = b.ins_const(MirConst::I64(0)).unwrap();
    let a0 = b.ins_alloc(MirAllocKind::Array, vec![z, z]).unwrap();
    let _st = b.ins_store_index(a0, i, i, false).unwrap();
    let _keep = b.ins_const(MirConst::I64(1)).unwrap();
    let a1 = b.ins_alloc(MirAllocKind::Array, vec![z, z]).unwrap();
    let v = b.ins_index(a1, i, MirTy::I64, false).unwrap();
    b.set_ret_ty(MirTy::I64);
    b.ret(Some(v)).unwrap();
    let mut func = b.finish().unwrap();
    let _ = sroa(&mut func);
    let allocs = func
        .blocks
        .iter()
        .flat_map(|bl| bl.insts.iter())
        .filter(|i| matches!(i, MirInst::Alloc { .. }))
        .count();
    assert_eq!(allocs, 2, "later zip must not reuse mutated a; {func:?}");
}

#[test]
fn object_barrier_does_not_alias_string_intern() {
    let mut b = MirBuilder::new("box", &Vec::new());
    let intern = b.ins_string(0).unwrap();
    b.def_local(LocalId(0), intern).unwrap();
    let val = b.ins_const(MirConst::I64(1)).unwrap();
    let obj = b
        .ins_alloc(
            MirAllocKind::Object {
                type_id: 1,
                nfields: 1,
            },
            Vec::new(),
        )
        .unwrap();
    let live = b
        .ins_gc_barrier(MirGcKind::Safepoint, vec![obj])
        .unwrap();
    let _st = b
        .ins_heap_field_store(live, val, None, Some(0))
        .unwrap();
    b.set_ret_ty(MirTy::I64);
    b.ret(Some(val)).unwrap();
    let mut func = b.finish().unwrap();
    let barrier_roots: Vec<_> = func
        .blocks
        .iter()
        .flat_map(|bl| bl.insts.iter())
        .find_map(|i| match i {
            MirInst::GcBarrier { roots, .. } => Some(roots.clone()),
            _ => None,
        })
        .expect("gc barrier");
    assert_eq!(
        barrier_roots.first().copied(),
        Some(intern),
        "intern sorts first among live roots; {func:?}"
    );
    let _ = sroa(&mut func);
    let mut intern_id = None;
    let mut alloc_id = None;
    let mut store_obj = None;
    for inst in func.blocks.iter().flat_map(|bl| bl.insts.iter()) {
        match inst {
            MirInst::String { dest, .. } => intern_id = Some(*dest),
            MirInst::Alloc { dest, .. } => alloc_id = Some(*dest),
            MirInst::HeapFieldStore { object, .. } => store_obj = Some(*object),
            _ => {}
        }
    }
    let alloc_id = alloc_id.expect("object alloc");
    let store_obj = store_obj.expect("field store");
    if let Some(intern_id) = intern_id {
        assert_ne!(
            store_obj, intern_id,
            "barrier dest must not become intern; {func:?}"
        );
    }
    assert_eq!(
        store_obj, alloc_id,
        "field object is the instance; {func:?}"
    );
}

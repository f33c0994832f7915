//! Live heap words at allocations.
use compiler::il::op::{Byte, DebugLoc, IlOp, Instruction, Label};
use compiler::mir::gc::{refuse_reason, refuses_alloc};
use compiler::mir::{
    try_lower_numeric, LocalId, LowerHints, MirAllocKind, MirBuilder, MirCmpOp, MirConst, MirFunc,
    MirGcKind, MirInst, MirTy, ValueId,
};

fn loc() -> DebugLoc {
    DebugLoc::unknown()
}

fn alloc_and_barrier(f: &MirFunc) -> (ValueId, ValueId, Vec<ValueId>) {
    let mut obj = None;
    let mut barrier = None;
    let mut roots = Vec::new();
    for b in &f.blocks {
        for i in &b.insts {
            match i {
                MirInst::Alloc { dest, .. } if obj.is_none() => obj = Some(*dest),
                MirInst::GcBarrier { dest, roots: r, .. } if barrier.is_none() => {
                    barrier = Some(*dest);
                    roots = r.clone();
                }
                _ => {}
            }
        }
    }
    (obj.expect("alloc"), barrier.expect("barrier"), roots)
}

#[test]
fn make_and_init_are_alloc_barriers() {
    let loc = loc();
    assert_eq!(
        refuse_reason(&IlOp::MakeArray { arity: 1, loc }),
        Some("heap/aggregate")
    );
    assert_eq!(
        refuse_reason(&IlOp::MakeTuple { arity: 2, loc }),
        Some("heap/aggregate")
    );
    assert_eq!(
        refuse_reason(&IlOp::MakeEnum {
            tag: 0,
            arity: 1,
            loc,
        }),
        Some("heap/aggregate")
    );
    assert_eq!(
        refuse_reason(&IlOp::Byte {
            byte: Byte::new(Instruction::InitTyped).with_operand_u32(1),
            loc,
        }),
        Some("heap/alloc")
    );
    assert!(!refuses_alloc(&IlOp::Const { imm: 1, loc }));
    assert_eq!(
        refuse_reason(&IlOp::byte(Byte::new(Instruction::ArrayPush))),
        Some("heap/grow")
    );
    assert_eq!(
        refuse_reason(&IlOp::byte(Byte::new(Instruction::DenseArrayPush))),
        Some("heap/grow")
    );
    assert_eq!(
        refuse_reason(&IlOp::byte(
            Byte::new(Instruction::FORMAT).with_operand_u32(1)
        )),
        Some("heap/format")
    );
    assert!(!refuses_alloc(&IlOp::byte(
        Byte::new(Instruction::FORMAT).with_operand_u32(0)
    )));
    assert_eq!(
        refuse_reason(&IlOp::byte(Byte::new(Instruction::STRINGIFY))),
        Some("heap/format")
    );
}

#[test]
fn roots_include_new_object_when_returned() {
    let mut b = MirBuilder::new("mk", &Vec::new());
    let n = b.ins_const(MirConst::I64(1)).unwrap();
    let a = b.ins_alloc(MirAllocKind::Array, vec![n]).unwrap();
    let g = b.ins_gc_barrier(MirGcKind::Safepoint, vec![a]).unwrap();
    b.ret(Some(g)).unwrap();
    let f = b.finish().unwrap();
    f.verify().unwrap();
    let (obj, _g, roots) = alloc_and_barrier(&f);
    assert!(roots.contains(&obj), "new object in roots: {roots:?}");
    assert_eq!(roots.len(), 1);
    let side = f.live_roots_at(obj).expect("alloc sidecar");
    assert!(side.values.contains(&obj));
}

#[test]
fn roots_include_live_heap_param_across_barrier() {
    let mut b = MirBuilder::new("keep", &Vec::new());
    let xs = b.add_param(MirTy::HeapRef).unwrap();
    b.def_local(LocalId(0), xs).unwrap();
    let n = b.ins_const(MirConst::I64(1)).unwrap();
    let a = b.ins_alloc(MirAllocKind::Array, vec![n]).unwrap();
    let g = b.ins_gc_barrier(MirGcKind::Safepoint, vec![a]).unwrap();
    let eq = b.ins_cmp(MirCmpOp::Eq, xs, a).unwrap();
    let _ = eq;
    b.ret(Some(g)).unwrap();
    let f = b.finish().unwrap();
    f.verify().unwrap();
    let (obj, _g, roots) = alloc_and_barrier(&f);
    assert!(roots.contains(&obj), "{roots:?}");
    assert!(roots.contains(&xs), "live heap param: {roots:?}");
    let side = f.live_roots_at(_g).expect("barrier sidecar");
    assert!(side.values.contains(&xs) && side.values.contains(&obj));
    assert!(
        side.slots.iter().any(|s| s.0 == 0),
        "slot 0: {:?}",
        side.slots
    );
}

#[test]
fn dead_heap_param_is_not_a_root() {
    let mut b = MirBuilder::new("dead", &Vec::new());
    let unused = b.add_param(MirTy::HeapRef).unwrap();
    let n = b.ins_const(MirConst::I64(1)).unwrap();
    let a = b.ins_alloc(MirAllocKind::Array, vec![n]).unwrap();
    let g = b.ins_gc_barrier(MirGcKind::Safepoint, vec![a]).unwrap();
    b.ret(Some(g)).unwrap();
    let f = b.finish().unwrap();
    let (_obj, _g, roots) = alloc_and_barrier(&f);
    assert!(!roots.contains(&unused), "dead param in roots: {roots:?}");
}

#[test]
fn second_barrier_keeps_prior_live_object() {
    let mut b = MirBuilder::new("two", &Vec::new());
    let n1 = b.ins_const(MirConst::I64(1)).unwrap();
    let a = b.ins_alloc(MirAllocKind::Array, vec![n1]).unwrap();
    let _g1 = b.ins_gc_barrier(MirGcKind::Safepoint, vec![a]).unwrap();
    let n2 = b.ins_const(MirConst::I64(2)).unwrap();
    let c = b.ins_alloc(MirAllocKind::Array, vec![n2]).unwrap();
    let g2 = b.ins_gc_barrier(MirGcKind::Safepoint, vec![c]).unwrap();
    let _eq = b.ins_cmp(MirCmpOp::Eq, a, c).unwrap();
    b.ret(Some(g2)).unwrap();
    let f = b.finish().unwrap();
    f.verify().unwrap();
    let mut barriers = f.blocks.iter().flat_map(|bl| {
        bl.insts.iter().filter_map(|i| match i {
            MirInst::GcBarrier { dest, roots, .. } => Some((*dest, roots.clone())),
            _ => None,
        })
    });
    let (_g1, r1) = barriers.next().expect("g1");
    let (_g2, r2) = barriers.next().expect("g2");
    assert!(r1.contains(&a) && !r1.contains(&c), "first: {r1:?}");
    assert!(r2.contains(&a) && r2.contains(&c), "second: {r2:?}");
}

#[test]
fn il_lower_roots_new_object_and_live_slot() {
    let loc = loc();
    let ops = vec![
        IlOp::Label(Label(0)),
        IlOp::Const { imm: 1, loc },
        IlOp::MakeArray { arity: 1, loc },
        IlOp::StorePop { slot: 1, loc },
        IlOp::Load { slot: 0, loc },
        IlOp::Load { slot: 1, loc },
        IlOp::Bin {
            op: Instruction::EQ,
            loc,
        },
        IlOp::Return { loc, ret_words: 1 },
    ];
    let mut hints = LowerHints::new("keep_slot", &Vec::new());
    hints.allow_alloc = true;
    hints.param_count = 1;
    hints.slot_ty.insert(0, MirTy::HeapRef);
    hints.slot_ty.insert(1, MirTy::HeapRef);
    let f = try_lower_numeric(&ops, &hints).expect("lower");
    f.verify().unwrap();
    let xs = f.params[0];
    let (obj, g, roots) = alloc_and_barrier(&f);
    assert!(roots.contains(&obj), "new object: {roots:?}");
    assert!(roots.contains(&xs), "live slot/param: {roots:?}");
    let side = f.live_roots_at(g).expect("barrier sidecar");
    assert!(
        side.slots.iter().any(|s| s.0 == 0),
        "IL slot 0: {:?}",
        side.slots
    );
}

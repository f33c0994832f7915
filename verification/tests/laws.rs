//! Laws of the passes on given functions.
use compiler::il::codebuf::CodeBuf;
use compiler::il::op::{IlOp, Label};
use compiler::il::treeshake::{prune_unused_functions, TreeshakeInput};
use compiler::mir::effects::{host_effects, host_may_hoist};
use compiler::mir::gc::fill_live_roots;
use compiler::mir::host_allow::{host_edge_spec, host_spec, HostEffect, HostNative};
use compiler::mir::rewrite::dce;
use compiler::mir::{
    cse, destprop, gvn, licm, mandelbrot_inner_loop, BlockId, LocalId, MirAllocKind, MirBinOp,
    MirBlock, MirBuilder, MirCmpOp, MirConst, MirFunc, MirGcKind, MirInst, MirTy, Terminator,
    ValueId,
};

fn func(params: u32, types: Vec<MirTy>, blocks: Vec<MirBlock>) -> MirFunc {
    let mut f = MirFunc::new("law", &Vec::new());
    f.params = (0..params).map(ValueId).collect();
    f.ret_ty = Some(MirTy::F64);
    f.types = types;
    f.blocks = blocks;
    f
}

fn block(id: u32, insts: Vec<MirInst>, term: Terminator) -> MirBlock {
    MirBlock { id: BlockId(id), insts, term: Some(term) }
}

fn bin(dest: u32, op: MirBinOp, lhs: u32, rhs: u32) -> MirInst {
    MirInst::Bin { dest: ValueId(dest), op, ty: MirTy::F64, lhs: ValueId(lhs), rhs: ValueId(rhs) }
}

fn less(dest: u32, lhs: u32, rhs: u32) -> MirInst {
    MirInst::Cmp {
        dest: ValueId(dest),
        op: MirCmpOp::Lt,
        ty: MirTy::F64,
        lhs: ValueId(lhs),
        rhs: ValueId(rhs),
    }
}

fn phi(dest: u32, args: &[(u32, u32)]) -> MirInst {
    let args = args.iter().map(|a| (BlockId(a.0), ValueId(a.1))).collect();
    MirInst::Phi { dest: ValueId(dest), ty: MirTy::F64, args }
}

fn jump(to: u32) -> Terminator {
    Terminator::Jump { dest: BlockId(to) }
}

fn fork(cond: u32, t: u32, e: u32) -> Terminator {
    Terminator::Br { cond: ValueId(cond), taken: BlockId(t), not_taken: BlockId(e) }
}

fn ret(v: u32) -> Terminator {
    Terminator::Return { lo: Some(ValueId(v)), hi: None }
}

fn size(f: &MirFunc) -> usize {
    f.blocks.iter().map(|b| b.insts.len()).sum()
}

fn phis(f: &MirFunc) -> usize {
    f.blocks.iter().flat_map(|b| b.insts.iter()).filter(|i| i.is_phi()).count()
}

const F: MirTy = MirTy::F64;

#[test]
fn inner_loop_passes_verification() {
    let f = mandelbrot_inner_loop().unwrap();
    f.verify().unwrap();
}

#[test]
fn sharing_keeps_blocks_and_removes_what_it_reports() {
    let make = || {
        func(2, vec![F, F, F, F, F, F, F], vec![
            block(
                0,
                vec![
                    bin(2, MirBinOp::Add, 0, 1),
                    bin(3, MirBinOp::Add, 1, 0),
                    bin(4, MirBinOp::Mul, 2, 3),
                    bin(5, MirBinOp::Mul, 3, 2),
                    bin(6, MirBinOp::Sub, 4, 5),
                ],
                jump(1),
            ),
            block(1, vec![], ret(6)),
        ])
    };
    let mut f = make();
    f.verify().unwrap();
    let before = size(&f);
    let n = cse(&mut f);
    assert_eq!(n, 2);
    assert!(size(&f) + n <= before);
    assert_eq!(f.params, make().params);
    assert_eq!(f.blocks.len(), 2);
    assert_eq!(f.blocks[0].term, Some(jump(1)));
    f.verify().unwrap();
    let again = size(&f);
    assert_eq!(cse(&mut f), 0);
    assert_eq!(size(&f), again);
}

fn two_phis() -> MirFunc {
    func(2, vec![F, F, MirTy::Bool, F, F, F], vec![
        block(0, vec![less(2, 0, 1)], fork(2, 1, 2)),
        block(1, vec![], jump(3)),
        block(2, vec![], jump(3)),
        block(
            3,
            vec![
                phi(3, &[(1, 0), (2, 0)]),
                phi(4, &[(1, 0), (2, 1)]),
                bin(5, MirBinOp::Add, 3, 4),
            ],
            ret(5),
        ),
    ])
}

#[test]
fn forwarding_reports_the_phis_that_went() {
    let mut f = two_phis();
    f.verify().unwrap();
    let before = phis(&f);
    let n = destprop(&mut f);
    assert_eq!(n, 1);
    assert_eq!(phis(&f) + n, before);
    f.verify().unwrap();
}

#[test]
fn forwarding_keeps_disagreeing_phis_and_settles() {
    let mut f = two_phis();
    destprop(&mut f);
    assert_eq!(f.blocks[3].insts[0], phi(4, &[(1, 0), (2, 1)]));
    let mut g = two_phis();
    destprop(&mut g);
    assert_eq!(destprop(&mut g), 0);
    assert_eq!(f, g);
}

fn allocating() -> MirFunc {
    let mut b = MirBuilder::new("gc", &Vec::new());
    let x = b.add_param(MirTy::HeapRef).unwrap();
    b.set_ret_ty(MirTy::HeapRef);
    let o = b.ins_alloc(MirAllocKind::Array, vec![x]).unwrap();
    b.ins_gc_barrier(MirGcKind::Safepoint, vec![]).unwrap();
    let p = b.ins_alloc(MirAllocKind::Tuple, vec![o]).unwrap();
    b.ret(Some(p)).unwrap();
    b.finish().unwrap()
}

#[test]
fn rows_list_each_edge_once() {
    let mut f = allocating();
    fill_live_roots(&mut f);
    let edges: Vec<ValueId> = f.blocks[0]
        .insts
        .iter()
        .filter(|i| matches!(i, MirInst::Alloc { .. } | MirInst::GcBarrier { .. }))
        .map(|i| i.dest())
        .collect();
    let rows: Vec<ValueId> = f.gc_roots.iter().map(|r| r.at).collect();
    assert_eq!(rows, edges);
    for r in &f.gc_roots {
        assert!(r.values.windows(2).all(|w| w[0].0 < w[1].0));
        assert!(r.values.iter().all(|v| f.ty(*v) == MirTy::HeapRef));
        assert!(!r.values.contains(&edges[1]));
    }
    assert!(f.gc_roots[0].values.contains(&edges[0]));
    assert!(f.gc_roots[1].values.contains(&edges[0]));
    let barrier = f.blocks[0].insts.iter().find_map(|i| match i {
        MirInst::GcBarrier { roots, .. } => Some(roots.clone()),
        _ => None,
    });
    assert_eq!(barrier.unwrap(), f.gc_roots[1].values);
}

#[test]
fn recording_roots_again_changes_nothing() {
    let mut f = allocating();
    fill_live_roots(&mut f);
    let mut g = allocating();
    fill_live_roots(&mut g);
    fill_live_roots(&mut g);
    assert_eq!(f, g);
}

fn joined(agree: bool, seals: u32) -> (MirFunc, ValueId) {
    let mut b = MirBuilder::new("join", &Vec::new());
    let x = b.add_param(F).unwrap();
    let y = b.add_param(F).unwrap();
    b.set_ret_ty(F);
    let (left, right, join) = (b.create_block(), b.create_block(), b.create_block());
    let cond = b.ins_cmp(MirCmpOp::Lt, x, y).unwrap();
    b.branch(cond, left, right).unwrap();
    b.seal_block(left);
    b.seal_block(right);
    b.switch_to_block(join);
    let v = b.use_local(LocalId(7), F).unwrap();
    b.switch_to_block(right);
    b.def_local(LocalId(7), if agree { x } else { y }).unwrap();
    b.jump(join).unwrap();
    b.switch_to_block(left);
    b.def_local(LocalId(7), x).unwrap();
    b.jump(join).unwrap();
    for _ in 0..seals {
        b.seal_block(join);
    }
    b.switch_to_block(join);
    b.ret(Some(v)).unwrap();
    (b.finish().unwrap(), v)
}

#[test]
fn sealing_gives_waiting_phis_their_arguments_in_block_order() {
    let (f, v) = joined(false, 1);
    f.verify().unwrap();
    assert_eq!(
        f.blocks[3].insts,
        vec![MirInst::Phi {
            dest: v,
            ty: F,
            args: vec![(BlockId(1), ValueId(0)), (BlockId(2), ValueId(1))],
        }]
    );
}

#[test]
fn sealing_removes_waiting_phis_of_one_value() {
    let (f, _) = joined(true, 1);
    assert_eq!(phis(&f), 0);
    assert_eq!(f.blocks[3].term, Some(ret(0)));
}

#[test]
fn sealing_twice_changes_nothing() {
    assert_eq!(joined(false, 1).0, joined(false, 2).0);
    assert_eq!(joined(true, 1).0, joined(true, 2).0);
}

#[test]
fn forks_that_share_stay_valid() {
    let mut f = func(2, vec![F, F, MirTy::Bool, F, F, F, F, F], vec![
        block(0, vec![less(2, 0, 1)], fork(2, 1, 2)),
        block(1, vec![bin(3, MirBinOp::Div, 0, 1), bin(4, MirBinOp::Add, 3, 0)], jump(3)),
        block(2, vec![bin(5, MirBinOp::Div, 0, 1), bin(6, MirBinOp::Sub, 5, 1)], jump(3)),
        block(3, vec![phi(7, &[(1, 4), (2, 6)])], ret(7)),
    ]);
    f.verify().unwrap();
    assert_eq!(gvn(&mut f), 2);
    f.verify().unwrap();
    assert!(matches!(
        f.blocks[0].insts.last(),
        Some(MirInst::Bin { op: MirBinOp::Div, .. })
    ));
}

#[test]
fn hoisting_to_a_jump_stays_valid() {
    let mut f = func(2, vec![F, F, F, F, F, MirTy::Bool], vec![
        block(0, vec![], jump(1)),
        block(
            1,
            vec![
                phi(2, &[(0, 0), (1, 4)]),
                bin(3, MirBinOp::Mul, 0, 1),
                bin(4, MirBinOp::Add, 2, 3),
                less(5, 4, 1),
            ],
            fork(5, 1, 2),
        ),
        block(2, vec![], ret(4)),
    ]);
    f.verify().unwrap();
    assert_eq!(licm(&mut f), 1);
    assert_eq!(f.blocks[0].insts, vec![bin(3, MirBinOp::Mul, 0, 1)]);
    f.verify().unwrap();
}

#[test]
fn verified_functions_go_through_every_pass() {
    let mut f = two_phis();
    f.verify().unwrap();
    cse(&mut f);
    gvn(&mut f);
    licm(&mut f);
    destprop(&mut f);
    f.verify().unwrap();
}

#[test]
fn removal_spares_setup_code_and_keeps_names_apart() {
    let mut buf = CodeBuf::new();
    let mut functions: Vec<(String, usize)> = Vec::new();
    let mut labels: Vec<(String, Label)> = Vec::new();
    for name in ["first", "second"] {
        functions.push((name.into(), buf.len()));
        labels.push((name.into(), buf.bind_fresh_entry()));
        buf.push_const(0);
        buf.push_return();
    }
    let preserve = buf.len();
    buf.push_const(5);
    buf.push_const(6);
    let main_pc = buf.len();
    functions.push(("main".into(), main_pc));
    labels.push(("main".into(), buf.bind_fresh_entry()));
    buf.push_const(1);
    buf.push_return();
    let mut input = TreeshakeInput {
        functions,
        fn_entry_labels: labels,
        fn_debug_locals: Vec::new(),
        test_cases: Vec::new(),
        root_names: vec!["main".into()],
        include_tests: false,
        preserve_emit_start: Some(preserve),
    };
    let (dropped, cuts) = prune_unused_functions(&mut buf, &mut input);
    assert_eq!(dropped, 2);
    for (end, len) in cuts {
        assert!(end <= preserve || main_pc <= end - len);
    }
    assert_eq!(buf.len(), 4);
    let at = buf.ops().iter().position(|op| matches!(op, IlOp::Const { imm: 5, .. })).unwrap();
    assert!(matches!(buf.ops()[at + 1], IlOp::Const { imm: 6, .. }));
    assert_eq!(input.functions, vec![(String::from("main"), 2)]);
}

#[test]
fn host_tables_type_every_narrow_native() {
    let row = |id: u16, name: &'static str, arity: u8, effect: HostEffect| HostNative {
        id,
        name,
        arity,
        effect,
    };
    let rows = vec![
        row(0, "open", 2, HostEffect::Io),
        row(1, "wide", 7, HostEffect::Host),
        row(2, "six", 6, HostEffect::Pure),
        row(3, "packed_sum", 1, HostEffect::Pure),
    ];
    assert!(host_edge_spec(&Vec::new(), 0).is_none());
    let open = host_edge_spec(&rows, 0).unwrap();
    assert_eq!((open.id, open.name, open.ret), (0, "open", MirTy::I64));
    assert_eq!(open.args, vec![MirTy::I64, MirTy::I64]);
    assert!(host_spec(&rows, 0).is_none());
    assert!(host_edge_spec(&rows, 1).is_none());
    assert_eq!(host_edge_spec(&rows, 2).unwrap().args.len(), 6);
    assert!(host_edge_spec(&rows, 4).is_none());
    assert!(host_effects(&rows, 0).io);
    assert!(host_effects(&rows, 4).unknown);
    assert!(host_may_hoist(&rows, 2));
    assert!(!host_may_hoist(&rows, 3));
    assert!(!host_may_hoist(&rows, 0));
}

#[test]
fn constants_of_the_front_hold_back_the_guarantee_only() {
    let mut f = func(1, vec![F, F, F, F, F, MirTy::Bool], vec![
        block(0, vec![MirInst::Const { dest: ValueId(1), c: MirConst::F64(0) }], jump(1)),
        block(
            1,
            vec![
                phi(2, &[(0, 0), (1, 4)]),
                bin(3, MirBinOp::Mul, 1, 1),
                bin(4, MirBinOp::Add, 2, 3),
                less(5, 4, 0),
            ],
            fork(5, 1, 2),
        ),
        block(2, vec![], ret(4)),
    ]);
    f.verify().unwrap();
    assert_eq!(licm(&mut f), 1);
    assert_eq!(f.blocks[0].insts[0], bin(3, MirBinOp::Mul, 1, 1));
}

#[test]
fn functions_carry_their_host_table() {
    let rows = vec![
        HostNative { id: 0, name: "open", arity: 1, effect: HostEffect::Io },
        HostNative { id: 1, name: "hash", arity: 1, effect: HostEffect::Pure },
    ];
    let mut bare = MirBuilder::new("bare", &Vec::new());
    bare.allow_effects = true;
    let y = bare.add_param(MirTy::I64).unwrap();
    assert!(bare.ins_host_invoke(1, vec![y]).is_err());
    let mut b = MirBuilder::new("host", &rows);
    b.allow_effects = true;
    let x = b.add_param(MirTy::I64).unwrap();
    b.set_ret_ty(MirTy::I64);
    let unused = b.ins_host_invoke(1, vec![x]).unwrap();
    let opened = b.ins_host_invoke(0, vec![x]).unwrap();
    b.ret(Some(x)).unwrap();
    let mut f = b.finish().unwrap();
    f.verify().unwrap();
    assert!(f.has_impure_host());
    dce(&mut f);
    let left: Vec<ValueId> = f.blocks[0].insts.iter().map(|i| i.dest()).collect();
    assert!(left.contains(&opened) && !left.contains(&unused));
    f.hosts = Vec::new();
    assert!(f.verify().is_err());
}

/// A loop that is sealed behind two reads; its end gives the first local `sum` or the second local.
fn two_waiting(swap: bool) -> (MirFunc, ValueId, ValueId, ValueId, ValueId) {
    let mut b = MirBuilder::new("two", &Vec::new());
    let x = b.add_param(F).unwrap();
    let y = b.add_param(F).unwrap();
    b.def_local(LocalId(0), x).unwrap();
    b.def_local(LocalId(1), y).unwrap();
    let (header, body, exit) = (b.create_block(), b.create_block(), b.create_block());
    b.jump(header).unwrap();
    b.switch_to_block(header);
    let p = b.use_local(LocalId(0), F).unwrap();
    let q = b.use_local(LocalId(1), F).unwrap();
    let c = b.ins_cmp(MirCmpOp::Lt, p, q).unwrap();
    b.branch(c, body, exit).unwrap();
    b.seal_block(body);
    b.switch_to_block(body);
    let sum = b.ins_binop(MirBinOp::Add, p, q).unwrap();
    b.def_local(LocalId(0), if swap { q } else { sum }).unwrap();
    b.jump(header).unwrap();
    b.seal_block(header);
    b.switch_to_block(header);
    let first = b.use_local(LocalId(0), F).unwrap();
    let second = b.use_local(LocalId(1), F).unwrap();
    assert_eq!((first, second), (p, y));
    b.switch_to_block(exit);
    b.seal_block(exit);
    b.set_ret_ty(F);
    b.ret(Some(p)).unwrap();
    (b.finish().unwrap(), p, x, y, sum)
}

#[test]
fn waiting_phis_get_the_values_of_their_local() {
    let (f, p, x, _, sum) = two_waiting(false);
    assert_eq!(phis(&f), 1);
    assert_eq!(
        f.blocks[1].insts[0],
        MirInst::Phi { dest: p, ty: F, args: vec![(BlockId(0), x), (BlockId(2), sum)] }
    );
    let (f, p, x, y, _) = two_waiting(true);
    assert_eq!(phis(&f), 1);
    assert_eq!(
        f.blocks[1].insts[0],
        MirInst::Phi { dest: p, ty: F, args: vec![(BlockId(0), x), (BlockId(2), y)] }
    );
}

#[test]
fn phis_whose_values_came_to_one_late_stay() {
    let mut b = MirBuilder::new("late", &Vec::new());
    let x = b.add_param(F).unwrap();
    b.def_local(LocalId(0), x).unwrap();
    b.def_local(LocalId(1), x).unwrap();
    let (header, exit) = (b.create_block(), b.create_block());
    b.jump(header).unwrap();
    b.switch_to_block(header);
    let p = b.use_local(LocalId(0), F).unwrap();
    let q = b.use_local(LocalId(1), F).unwrap();
    let c = b.ins_cmp(MirCmpOp::Lt, p, q).unwrap();
    b.def_local(LocalId(0), q).unwrap();
    b.branch(c, header, exit).unwrap();
    b.seal_block(header);
    b.seal_block(exit);
    b.switch_to_block(exit);
    b.set_ret_ty(F);
    b.ret(Some(p)).unwrap();
    let f = b.finish().unwrap();
    assert_eq!(
        f.blocks[1].insts[0],
        MirInst::Phi { dest: p, ty: F, args: vec![(BlockId(0), x), (BlockId(1), x)] }
    );
}

//! Passes over SSA form, and what they rest on.
use compiler::mir::dom::{dominators, natural_loops};
use compiler::mir::effects::{host_is_pure, host_may_hoist};
use compiler::mir::host_allow::{
    allowlisted_host_ids, host_edge_spec, host_native, HostEffect, HostNative, CLOCK_MONO_NANOS_ID,
    MATH_SIN_ID, PACKED_DOT_ID,
};
use compiler::mir::instcombine::{float_requests, FloatOp};
use compiler::mir::layout::{option_ty, MirLayout, Ty, INT};
use compiler::mir::moves::resolve_parallel;
use compiler::mir::regs::assign_regs;
use compiler::mir::rewrite::dce;
use compiler::mir::{
    cse, destprop, gvn, instcombine, licm, mandelbrot_inner_loop, sroa, BlockId, LocalId,
    MirAllocKind, MirBinOp, MirBlock, MirBuilder, MirCmpOp, MirConst, MirFunc, MirInst, MirTy,
    Terminator, ValueId,
};

fn f64_of(x: f64) -> MirConst {
    MirConst::F64(x.to_bits())
}

/// The natives that the tests name, in a table as long as their ids need.
fn hosts() -> Vec<HostNative> {
    let mut rows: Vec<HostNative> = (0..138)
        .map(|id| HostNative { id, name: "", arity: 0, effect: HostEffect::Host })
        .collect();
    for (id, name, arity, effect) in [
        (6, "write", 2, HostEffect::Io),
        (10, "from_bytes", 1, HostEffect::Io),
        (11, "to_bytes", 1, HostEffect::Io),
        (87, "packed_dot", 3, HostEffect::Pure),
        (88, "packed_matmul", 3, HostEffect::Pure),
        (89, "packed_matrix_zip", 3, HostEffect::Pure),
        (90, "packed_matrix_neg", 2, HostEffect::Pure),
        (91, "packed_vec_arith", 3, HostEffect::Pure),
        (100, "gc_collect", 0, HostEffect::Gc),
        (102, "math_sin", 1, HostEffect::Pure),
        (103, "math_cos", 1, HostEffect::Pure),
        (104, "math_tan", 1, HostEffect::Pure),
        (105, "math_sqrt", 1, HostEffect::Pure),
        (106, "math_exp", 1, HostEffect::Pure),
        (107, "math_ln", 1, HostEffect::Pure),
        (108, "math_floor", 1, HostEffect::Pure),
        (109, "math_ceil", 1, HostEffect::Pure),
        (110, "math_pow", 2, HostEffect::Pure),
        (111, "clock_mono_nanos", 0, HostEffect::Host),
        (112, "clock_sleep_ms", 1, HostEffect::Host),
        (125, "math_atan", 1, HostEffect::Pure),
        (126, "math_atan2", 2, HostEffect::Pure),
        (127, "math_asin", 1, HostEffect::Pure),
        (128, "math_acos", 1, HostEffect::Pure),
        (129, "math_log2", 1, HostEffect::Pure),
        (130, "math_log10", 1, HostEffect::Pure),
        (131, "math_round", 1, HostEffect::Pure),
        (132, "math_trunc", 1, HostEffect::Pure),
        (133, "math_sinh", 1, HostEffect::Pure),
        (134, "math_cosh", 1, HostEffect::Pure),
        (135, "math_tanh", 1, HostEffect::Pure),
        (136, "simd_axpy_reduce", 5, HostEffect::Pure),
        (137, "result_unit_probe", 0, HostEffect::Host),
    ] {
        rows[usize::from(id)] = HostNative { id, name, arity, effect };
    }
    rows
}

fn insts(f: &MirFunc) -> Vec<&MirInst> {
    f.blocks.iter().flat_map(|b| b.insts.iter()).collect()
}

#[test]
fn joins_are_least_upper_bounds() {
    let all = [MirTy::I64, MirTy::F64, MirTy::HeapRef, MirTy::Value, MirTy::Bottom];
    for a in all {
        for b in all {
            let j = a.join(b);
            assert!(a.le(j) && b.le(j));
            for c in all {
                assert!(!(a.le(c) && b.le(c)) || j.le(c));
            }
        }
    }
    assert_eq!(MirTy::I64.join(MirTy::F64), MirTy::Value);
    assert_eq!(MirTy::Bottom.join(MirTy::F64), MirTy::F64);
}

#[test]
fn readonly_types_have_the_same_layout() {
    let t = option_ty(Ty::Con(INT.into()));
    assert_eq!(MirLayout::from_coil_ty(&t), MirLayout::TwoSlot);
    assert_eq!(MirLayout::from_coil_ty(&Ty::Readonly(Box::new(t))), MirLayout::TwoSlot);
}

#[test]
fn allowlisted_hosts_have_typed_edges() {
    let rows = hosts();
    for id in allowlisted_host_ids() {
        let edge = host_edge_spec(&rows, id).expect("edge");
        let native = host_native(&rows, id).expect("native");
        assert_eq!(edge.id, id);
        assert_eq!(edge.args.len() as u32, u32::from(native.arity));
    }
}

#[test]
fn hosts_that_move_are_pure() {
    let rows = hosts();
    for id in 0..300u16 {
        assert!(!host_may_hoist(&rows, id) || host_is_pure(&rows, id));
    }
    assert!(host_may_hoist(&rows, MATH_SIN_ID));
    assert!(host_is_pure(&rows, PACKED_DOT_ID) && !host_may_hoist(&rows, PACKED_DOT_ID));
    assert!(!host_is_pure(&rows, CLOCK_MONO_NANOS_ID));
    assert!(!host_is_pure(&rows, 299));
}

#[test]
fn sequenced_moves_act_at_once() {
    let cases: Vec<Vec<(u8, u8)>> = vec![
        vec![],
        vec![(0, 1), (1, 0)],
        vec![(0, 1), (1, 2), (2, 0)],
        vec![(0, 1), (2, 1), (1, 3)],
        vec![(1, 0), (2, 1), (3, 2)],
        vec![(4, 4), (0, 4)],
    ];
    for moves in cases {
        let mut want: Vec<i32> = (0..10).collect();
        for &(d, s) in &moves {
            want[d as usize] = i32::from(s);
        }
        let mut got: Vec<i32> = (0..10).collect();
        for (d, s) in resolve_parallel(moves.clone(), 9) {
            got[d as usize] = got[s as usize];
        }
        assert_eq!(got[..9], want[..9], "{moves:?}");
    }
}

#[test]
fn slots_are_given_out_once() {
    let mut b = MirBuilder::new("s", &Vec::new());
    let x = b.add_param(MirTy::I64).unwrap();
    let y = b.ins_binop(MirBinOp::Add, x, x).unwrap();
    let z = b.ins_binop(MirBinOp::Mul, y, x).unwrap();
    b.set_ret_ty(MirTy::I64);
    b.ret(Some(z)).unwrap();
    let f = b.finish().unwrap();
    let (regs, free) = assign_regs(&f, &vec![true; 3], "full").unwrap();
    assert_eq!(regs, vec![0, 1, 2]);
    assert_eq!(free, 3);
    let many = vec![true; 300];
    let mut f = MirFunc::new("m", &Vec::new());
    f.types = vec![MirTy::I64; 300];
    assert_eq!(
        assign_regs(&f, &many, "full").unwrap_err().message(),
        "numeric MIR refused: full"
    );
}

fn diamond() -> MirFunc {
    let mut b = MirBuilder::new("d", &Vec::new());
    let x = b.add_param(MirTy::I64).unwrap();
    let y = b.add_param(MirTy::I64).unwrap();
    let t = b.create_block();
    let e = b.create_block();
    let j = b.create_block();
    let c = b.ins_cmp(MirCmpOp::Lt, x, y).unwrap();
    let a = b.ins_binop(MirBinOp::Add, x, y).unwrap();
    b.branch(c, t, e).unwrap();
    b.switch_to_block(t);
    let p = b.ins_binop(MirBinOp::Add, x, y).unwrap();
    b.def_local(LocalId(0), p).unwrap();
    b.jump(j).unwrap();
    b.switch_to_block(e);
    b.def_local(LocalId(0), a).unwrap();
    b.jump(j).unwrap();
    b.switch_to_block(j);
    let r = b.use_local(LocalId(0), MirTy::I64).unwrap();
    b.set_ret_ty(MirTy::I64);
    b.ret(Some(r)).unwrap();
    b.finish().unwrap()
}

#[test]
fn blocks_dominate_what_is_reached_through_them() {
    let f = diamond();
    let dom = dominators(&f);
    assert_eq!(dom[0], vec![true, true, true, true]);
    assert_eq!(dom[1], vec![false, true, false, false]);
    assert_eq!(dom[3], vec![false, false, false, true]);
    assert!(natural_loops(&f).is_empty());
    let m = mandelbrot_inner_loop().unwrap();
    let loops = natural_loops(&m);
    assert_eq!(loops.len(), 1);
    assert_eq!(loops[0].header, BlockId(1));
    assert_eq!(loops[0].blocks, vec![false, true, true, true, false]);
}

#[test]
fn repeated_sums_over_blocks_collapse() {
    let mut f = diamond();
    assert_eq!(insts(&f).iter().filter(|i| matches!(i, MirInst::Bin { .. })).count(), 2);
    assert!(gvn(&mut f) >= 1);
    f.verify().unwrap();
    let bins = insts(&f).iter().filter(|i| matches!(i, MirInst::Bin { .. })).count();
    assert_eq!(bins, 1);
    destprop(&mut f);
    f.verify().unwrap();
    assert!(!insts(&f).iter().any(|i| i.is_phi()));
}

#[test]
fn passes_leave_a_settled_function_alone() {
    let mut f = mandelbrot_inner_loop().unwrap();
    let before = mandelbrot_inner_loop().unwrap();
    assert_eq!(cse(&mut f), 0);
    assert_eq!(destprop(&mut f), 0);
    assert_eq!(sroa(&mut f), 0);
    assert_eq!(f, before);
}

#[test]
fn mandelbrot_is_what_the_builder_makes() {
    let mut b = MirBuilder::new("mandel_inner", &Vec::new());
    let zr0 = b.add_param(MirTy::F64).unwrap();
    let zi0 = b.add_param(MirTy::F64).unwrap();
    let cr = b.add_param(MirTy::F64).unwrap();
    let ci = b.add_param(MirTy::F64).unwrap();
    let max_iter = b.add_param(MirTy::I64).unwrap();
    let iter0 = b.ins_const(MirConst::I64(0)).unwrap();
    let (l_zr, l_zi, l_it) = (LocalId(0), LocalId(1), LocalId(2));
    let header = b.create_block();
    let body = b.create_block();
    let update = b.create_block();
    let exit = b.create_block();
    b.def_local(l_zr, zr0).unwrap();
    b.def_local(l_zi, zi0).unwrap();
    b.def_local(l_it, iter0).unwrap();
    b.jump(header).unwrap();
    b.switch_to_block(header);
    let zr = b.use_local(l_zr, MirTy::F64).unwrap();
    let zi = b.use_local(l_zi, MirTy::F64).unwrap();
    let iter = b.use_local(l_it, MirTy::I64).unwrap();
    let cont = b.ins_cmp(MirCmpOp::Lt, iter, max_iter).unwrap();
    b.branch(cont, body, exit).unwrap();
    b.switch_to_block(body);
    let zr2 = b.ins_binop(MirBinOp::Mul, zr, zr).unwrap();
    let zi2 = b.ins_binop(MirBinOp::Mul, zi, zi).unwrap();
    let mag = b.ins_binop(MirBinOp::Add, zr2, zi2).unwrap();
    let four = b.ins_const(f64_of(4.0)).unwrap();
    let escaped = b.ins_cmp(MirCmpOp::Gt, mag, four).unwrap();
    b.branch(escaped, exit, update).unwrap();
    b.switch_to_block(update);
    let tr0 = b.ins_binop(MirBinOp::Sub, zr2, zi2).unwrap();
    let tr = b.ins_binop(MirBinOp::Add, tr0, cr).unwrap();
    let two = b.ins_const(f64_of(2.0)).unwrap();
    let t0 = b.ins_binop(MirBinOp::Mul, two, zr).unwrap();
    let t1 = b.ins_binop(MirBinOp::Mul, t0, zi).unwrap();
    let zi_n = b.ins_binop(MirBinOp::Add, t1, ci).unwrap();
    let one = b.ins_const(MirConst::I64(1)).unwrap();
    let iter_n = b.ins_binop(MirBinOp::Add, iter, one).unwrap();
    b.def_local(l_zr, tr).unwrap();
    b.def_local(l_zi, zi_n).unwrap();
    b.def_local(l_it, iter_n).unwrap();
    b.jump(header).unwrap();
    b.switch_to_block(exit);
    let out = b.use_local(l_it, MirTy::I64).unwrap();
    b.set_ret_ty(MirTy::I64);
    b.ret(Some(out)).unwrap();
    let built = b.finish().unwrap();
    let ready = mandelbrot_inner_loop().unwrap();
    assert_eq!(ready, built);
    assert_eq!(ready.verify(), Ok(()));
}

fn folded(op: MirBinOp, x: i64, y: i64) -> Option<MirConst> {
    let mut b = MirBuilder::new("k", &Vec::new());
    let p = b.ins_const(MirConst::I64(x)).unwrap();
    let q = b.ins_const(MirConst::I64(y)).unwrap();
    let r = b.ins_binop(op, p, q).unwrap();
    b.set_ret_ty(MirTy::I64);
    b.ret(Some(r)).unwrap();
    let mut f = b.finish().unwrap();
    instcombine(&mut f, &Vec::new());
    f.verify().unwrap();
    let last = match f.blocks[0].term {
        Some(Terminator::Return { lo: Some(v), .. }) => v,
        _ => return None,
    };
    insts(&f).into_iter().find_map(|i| match i {
        MirInst::Const { dest, c } if *dest == last => Some(*c),
        _ => None,
    })
}

#[test]
fn integer_constants_fold() {
    assert_eq!(folded(MirBinOp::Add, i64::MAX, 1), Some(MirConst::I64(i64::MIN)));
    assert_eq!(folded(MirBinOp::Sub, 3, 5), Some(MirConst::I64(-2)));
    assert_eq!(folded(MirBinOp::Mul, -4, 6), Some(MirConst::I64(-24)));
    assert_eq!(folded(MirBinOp::Div, -7, 2), Some(MirConst::I64(-3)));
    assert_eq!(folded(MirBinOp::Rem, -7, 2), Some(MirConst::I64(-1)));
    assert_eq!(folded(MirBinOp::Div, 7, 0), None);
    assert_eq!(folded(MirBinOp::BitAnd, 12, 10), Some(MirConst::I64(8)));
    assert_eq!(folded(MirBinOp::BitOr, 12, 10), Some(MirConst::I64(14)));
    assert_eq!(folded(MirBinOp::Xor, 12, 10), Some(MirConst::I64(6)));
    assert_eq!(folded(MirBinOp::Shl, 1, 63), Some(MirConst::I64(i64::MIN)));
    assert_eq!(folded(MirBinOp::Shl, 1, 64), None);
    assert_eq!(folded(MirBinOp::Shr, -8, 1), Some(MirConst::I64(-4)));
}

#[test]
fn neutral_operands_give_the_other_back() {
    for (op, k) in [
        (MirBinOp::Add, 0),
        (MirBinOp::Sub, 0),
        (MirBinOp::Mul, 1),
        (MirBinOp::Div, 1),
        (MirBinOp::BitOr, 0),
        (MirBinOp::BitAnd, -1),
        (MirBinOp::Shl, 0),
    ] {
        let mut b = MirBuilder::new("id", &Vec::new());
        let x = b.add_param(MirTy::I64).unwrap();
        let c = b.ins_const(MirConst::I64(k)).unwrap();
        let r = b.ins_binop(op, x, c).unwrap();
        b.set_ret_ty(MirTy::I64);
        b.ret(Some(r)).unwrap();
        let mut f = b.finish().unwrap();
        assert!(instcombine(&mut f, &Vec::new()) >= 1);
        assert_eq!(
            f.blocks[0].term,
            Some(Terminator::Return { lo: Some(x), hi: None }),
            "{op:?}"
        );
    }
}

#[test]
fn floats_fold_with_the_results_they_ask_for() {
    let mut b = MirBuilder::new("f", &Vec::new());
    let p = b.ins_const(f64_of(1.5)).unwrap();
    let q = b.ins_const(f64_of(2.5)).unwrap();
    let r = b.ins_binop(MirBinOp::Mul, p, q).unwrap();
    b.set_ret_ty(MirTy::F64);
    b.ret(Some(r)).unwrap();
    let mut f = b.finish().unwrap();
    assert_eq!(instcombine(&mut f, &Vec::new()), 0);
    let want = FloatOp::Bin {
        op: MirBinOp::Mul,
        ty: MirTy::F64,
        a: 1.5f64.to_bits(),
        b: 2.5f64.to_bits(),
    };
    assert_eq!(float_requests(&f), vec![want]);
    assert!(instcombine(&mut f, &vec![(want, 3.75f64.to_bits())]) >= 1);
    f.verify().unwrap();
    assert!(float_requests(&f).is_empty());
    assert!(insts(&f)
        .iter()
        .any(|i| matches!(i, MirInst::Const { c, .. } if *c == f64_of(3.75))));
}

#[test]
fn code_that_nothing_needs_goes() {
    let mut b = MirBuilder::new("dead", &Vec::new());
    let x = b.add_param(MirTy::I64).unwrap();
    let y = b.ins_binop(MirBinOp::Add, x, x).unwrap();
    let _unused = b.ins_binop(MirBinOp::Mul, y, y).unwrap();
    b.set_ret_ty(MirTy::I64);
    b.ret(Some(y)).unwrap();
    let mut f = b.finish().unwrap();
    dce(&mut f);
    f.verify().unwrap();
    assert_eq!(f.blocks[0].insts.len(), 1);
    assert_eq!(f.blocks[0].insts[0].dest(), y);
}

#[test]
fn hoisted_code_lands_in_front_of_the_loop() {
    let mut b = MirBuilder::new("h", &Vec::new());
    let a = b.add_param(MirTy::I64).unwrap();
    let n = b.add_param(MirTy::I64).unwrap();
    let i0 = b.ins_const(MirConst::I64(0)).unwrap();
    b.def_local(LocalId(0), i0).unwrap();
    let header = b.create_block();
    let body = b.create_block();
    let exit = b.create_block();
    b.jump(header).unwrap();
    b.switch_to_block(header);
    let i = b.use_local(LocalId(0), MirTy::I64).unwrap();
    let c = b.ins_cmp(MirCmpOp::Lt, i, n).unwrap();
    b.branch(c, body, exit).unwrap();
    b.switch_to_block(body);
    let inv = b.ins_binop(MirBinOp::Mul, a, a).unwrap();
    let next = b.ins_binop(MirBinOp::Add, i, inv).unwrap();
    b.def_local(LocalId(0), next).unwrap();
    b.jump(header).unwrap();
    b.switch_to_block(exit);
    b.set_ret_ty(MirTy::I64);
    b.ret(Some(i)).unwrap();
    let mut f = b.finish().unwrap();
    assert!(licm(&mut f) >= 1);
    f.verify().unwrap();
    let lp = &natural_loops(&f)[0];
    for blk in &f.blocks {
        let holds = blk.insts.iter().any(|x| x.dest() == inv);
        assert!(!holds || !lp.blocks[blk.id.index()]);
    }
    assert!(f.blocks.iter().any(|blk| blk.insts.iter().any(|x| x.dest() == inv)));
}

#[test]
fn unused_allocations_go_and_used_ones_stay() {
    let mut b = MirBuilder::new("a", &Vec::new());
    let x = b.add_param(MirTy::I64).unwrap();
    let kept = b.ins_alloc(MirAllocKind::Array, vec![x]).unwrap();
    b.set_ret_ty(MirTy::HeapRef);
    b.ret(Some(kept)).unwrap();
    let mut f = b.finish().unwrap();
    sroa(&mut f);
    f.verify().unwrap();
    assert!(insts(&f).iter().any(|i| matches!(i, MirInst::Alloc { .. })));
}

fn block(id: u32, insts: Vec<MirInst>, term: Option<Terminator>) -> MirBlock {
    MirBlock { id: BlockId(id), insts, term }
}

fn faulty(types: Vec<MirTy>, params: Vec<u32>, blocks: Vec<MirBlock>) -> String {
    let mut f = MirFunc::new("bad", &Vec::new());
    f.types = types;
    f.params = params.into_iter().map(ValueId).collect();
    f.blocks = blocks;
    f.verify().unwrap_err()
}

#[test]
fn verification_names_what_is_wrong() {
    let ret = |v: u32| Some(Terminator::Return { lo: Some(ValueId(v)), hi: None });
    let none = Some(Terminator::Return { lo: None, hi: None });
    let add = |d: u32, a: u32, b: u32| MirInst::Bin {
        dest: ValueId(d),
        op: MirBinOp::Add,
        ty: MirTy::I64,
        lhs: ValueId(a),
        rhs: ValueId(b),
    };
    let name = |v: u32| ValueId(v).name();
    assert_eq!(faulty(vec![], vec![], vec![]), "function has no blocks");
    assert_eq!(
        faulty(vec![], vec![], vec![block(1, vec![], none.clone())]),
        "block id mismatch at 0"
    );
    assert_eq!(
        faulty(vec![], vec![], vec![block(0, vec![], None)]),
        format!("{} has no terminator", BlockId(0).name())
    );
    assert_eq!(
        faulty(vec![], vec![0], vec![block(0, vec![], none.clone())]),
        format!("param {} has no type", name(0))
    );
    assert_eq!(
        faulty(
            vec![MirTy::I64; 3],
            vec![0],
            vec![block(0, vec![add(2, 0, 1), add(1, 0, 0)], ret(1))]
        ),
        format!("{} uses undefined {}", name(2), name(1))
    );
    assert_eq!(
        faulty(vec![MirTy::I64, MirTy::F64], vec![0, 1], vec![block(0, vec![add(1, 0, 0)], ret(1))]),
        format!("value {} defined twice", name(1))
    );
    assert_eq!(
        faulty(vec![MirTy::I64, MirTy::F64], vec![0], vec![block(0, vec![add(1, 0, 0)], ret(1))]),
        format!("{} binop dest type", name(1))
    );
    assert_eq!(
        faulty(
            vec![MirTy::I64],
            vec![0],
            vec![block(0, vec![], Some(Terminator::Jump { dest: BlockId(4) }))]
        ),
        format!("{} jumps to missing {}", BlockId(0).name(), BlockId(4).name())
    );
    assert_eq!(
        faulty(
            vec![MirTy::I64],
            vec![0],
            vec![block(
                0,
                vec![],
                Some(Terminator::Br { cond: ValueId(0), taken: BlockId(0), not_taken: BlockId(0) })
            )]
        ),
        format!("br cond {} is {}", name(0), MirTy::I64.as_str())
    );
}

#[test]
fn valid_functions_stay_valid() {
    let passes: Vec<fn(&mut MirFunc)> = vec![
        |f| drop(cse(f)),
        |f| drop(destprop(f)),
        |f| drop(sroa(f)),
        |f| drop(instcombine(f, &Vec::new())),
        |f| drop(gvn(f)),
        |f| drop(licm(f)),
        dce,
    ];
    for pass in passes {
        for make in [diamond, || mandelbrot_inner_loop().unwrap()] {
            let mut f = make();
            assert_eq!(f.verify(), Ok(()));
            pass(&mut f);
            assert_eq!(f.verify(), Ok(()));
        }
    }
}

#[test]
fn forwarding_twice_finds_nothing() {
    let mut f = diamond();
    gvn(&mut f);
    assert!(destprop(&mut f) >= 1);
    assert_eq!(destprop(&mut f), 0);
}

#[test]
fn equal_work_in_a_block_is_shared() {
    let mut b = MirBuilder::new("e", &Vec::new());
    let x = b.add_param(MirTy::I64).unwrap();
    let y = b.add_param(MirTy::I64).unwrap();
    let p = b.ins_binop(MirBinOp::Add, x, y).unwrap();
    let q = b.ins_binop(MirBinOp::Add, y, x).unwrap();
    let r = b.ins_binop(MirBinOp::Mul, p, q).unwrap();
    b.set_ret_ty(MirTy::I64);
    b.ret(Some(r)).unwrap();
    let mut f = b.finish().unwrap();
    assert_eq!(cse(&mut f), 1);
    assert_eq!(f.verify(), Ok(()));
    assert_eq!(f.blocks[0].insts.len(), 2);
    assert_eq!(f.blocks[0].insts[1].operands(), vec![p, p]);
}

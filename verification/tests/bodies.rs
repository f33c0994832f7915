//! Bodies on their way through SSA form.
use compiler::idmap::IdMap;
use compiler::il::op::{Byte, DebugLoc, EntryKind, IlJumpKind, IlOp, Instruction, Label};
use compiler::mir::abi::DenseAbi;
use compiler::mir::deopt::{encode_draft, fill_deopt_maps};
use compiler::mir::entry::{lir_eligible_with, lir_refuse_with};
use compiler::mir::func::DeoptSite;
use compiler::mir::host_allow::{HostEffect, HostNative, SIMD_AXPY_REDUCE_ID};
use compiler::mir::infer::{
    has_alloc_inside_loop, has_alloc_only_after_loops, has_back_edge, has_heap_index, infer_numeric,
    infer_numeric_with, infer_stack_map,
};
use compiler::mir::instcombine::FloatOp;
use compiler::mir::pack::try_axpy_pack;
use compiler::mir::specialize::{emit_cost, folding_requests};
use compiler::mir::stackmap::has_real_maps;
use compiler::mir::{
    bind_drafts, emit_dense, emit_lir, lir_refuse, try_build_draft, try_lower_abi_body,
    try_lower_numeric, try_specialize_body, DenseCallMap, DraftFrameMap, LirRefuse, LocalId,
    LowerError, LowerHints, MirBinOp, MirBuilder, MirCmpOp, MirConst, MirDeoptKind, MirFunc,
    MirInst, MirTy, ValueId,
};

fn loc() -> DebugLoc {
    DebugLoc::unknown()
}

fn ret() -> IlOp {
    IlOp::Return { loc: loc(), ret_words: 1 }
}

fn load(slot: u32) -> IlOp {
    IlOp::Load { slot, loc: loc() }
}

fn store(slot: u32) -> IlOp {
    IlOp::StorePop { slot, loc: loc() }
}

fn bin(op: Instruction) -> IlOp {
    IlOp::Bin { op, loc: loc() }
}

fn jump(kind: IlJumpKind, target: u32) -> IlOp {
    IlOp::Jump { kind, target: Label(target), loc: loc(), hint: Default::default() }
}

#[test]
fn every_wall_has_its_reason() {
    let byte = |b: Byte| IlOp::byte(b);
    let cases = vec![
        (IlOp::MakeArray { arity: 0, loc: loc() }, LirRefuse::Alloc),
        (
            IlOp::Entry {
                kind: EntryKind::Call,
                arity: 0,
                target: Label(0),
                loc: loc(),
                ret_words: 1,
            },
            LirRefuse::Call,
        ),
        (IlOp::PrologueJmp { target: Label(0), loc: loc() }, LirRefuse::Call),
        (IlOp::HostInvoke { arity: 0, layout: 0, loc: loc() }, LirRefuse::Host),
        (IlOp::GetField { loc: loc() }, LirRefuse::HeapField),
        (IlOp::LoadField { slot: 0, loc: loc() }, LirRefuse::HeapField),
        (IlOp::BoxValue { loc: loc() }, LirRefuse::Box),
        (jump(IlJumpKind::JumpIfMatch { tag: 0, arity: 2 }, 0), LirRefuse::Match),
        (byte(Byte::new(Instruction::Unpack).with_operand_u32(2)), LirRefuse::Unpack),
    ];
    for (op, why) in cases {
        assert_eq!(lir_refuse(&[load(0), op, ret()], &[]), Some(why));
    }
    assert_eq!(lir_refuse(&[load(0), ret()], &[]), None);
    assert_eq!(
        lir_refuse(&[jump(IlJumpKind::JumpIfMatch { tag: 0, arity: 1 }, 0)], &[]),
        None
    );
}

#[test]
fn maps_lift_the_allocation_wall_alone() {
    let ops = [IlOp::MakeArray { arity: 0, loc: loc() }, IlOp::BoxValue { loc: loc() }];
    assert_eq!(lir_refuse_with(&ops, &[], false), Some(LirRefuse::Alloc));
    assert_eq!(lir_refuse_with(&ops, &[], true), Some(LirRefuse::Box));
    assert!(lir_eligible_with(&ops[..1], &[], true));
}

#[test]
fn resume_maps_name_live_locals() {
    let mut func = MirFunc::new("r", &Vec::new());
    func.params.push(ValueId(0));
    func.types = vec![MirTy::I64, MirTy::I64];
    func.deopt_sites.push(DeoptSite {
        kind: MirDeoptKind::Stop,
        at: None,
        loc: loc(),
        slots: vec![(LocalId(0), ValueId(0)), (LocalId(3), ValueId(1))],
    });
    let whole = encode_draft(&func, &[4, 5], &[false, true]);
    assert!(whole.complete);
    assert_eq!(whole.sites[0].il_slots, vec![0, 3]);
    assert_eq!(whole.sites[0].regs, vec![4, 5]);
    let partial = encode_draft(&func, &[4, 5], &[false, false]);
    assert!(!partial.complete);
    assert_eq!(partial.sites[0].regs, vec![4]);
}

#[test]
fn debugger_edges_are_recorded() {
    let mut b = MirBuilder::new("e", &Vec::new());
    let x = b.add_param(MirTy::I64).unwrap();
    b.def_local(LocalId(2), x).unwrap();
    b.set_ret_ty(MirTy::I64);
    b.ret(Some(x)).unwrap();
    let mut f = b.finish().unwrap();
    f.debug_slots.insert(2, x);
    fill_deopt_maps(&mut f);
    assert_eq!(f.deopt_sites.len(), 1);
    assert_eq!(f.deopt_sites[0].kind, MirDeoptKind::Stop);
    assert_eq!(f.deopt_sites[0].slots, vec![(LocalId(2), x)]);
}

#[test]
fn maps_that_do_not_fit_the_code_are_left_out() {
    let draft = DraftFrameMap { name: "f".into(), sites: vec![vec![0], vec![0]], frame_slots: vec![0] };
    let code = vec![
        Byte::new(Instruction::MakeArray).with_operand_u32(0),
        Byte::new(Instruction::RETURN),
    ];
    assert!(bind_drafts(&[draft], &code, &[("f".into(), 0)]).is_empty());
}

#[test]
fn map_types_cover_text_and_fields() {
    let none: IdMap<MirTy> = IdMap::new();
    let ops = vec![
        IlOp::String { idx: 0, loc: loc() },
        load(0),
        IlOp::byte(Byte::new(Instruction::FORMAT).with_operand_u32(1)),
        store(1),
        ret(),
    ];
    let types = infer_stack_map(&ops, 0, 1, &none, &Vec::new()).unwrap();
    assert_eq!(types.slot_ty.get(&1), Some(&MirTy::HeapRef));
    let message = |r: Result<compiler::mir::infer::Inferred, LowerError>| r.err().unwrap().message();
    assert_eq!(
        message(infer_stack_map(&ops[2..3], 0, 0, &none, &Vec::new())),
        "numeric MIR refused: format stack"
    );
    assert_eq!(
        message(infer_stack_map(&[IlOp::GetField { loc: loc() }], 0, 0, &none, &Vec::new())),
        "numeric MIR refused: field stack"
    );
    assert_eq!(
        message(infer_stack_map(&[IlOp::byte(Byte::new(Instruction::ArrayPush))], 0, 0, &none, &Vec::new())),
        "numeric MIR refused: ArrayPush stack"
    );
    let set = vec![
        load(0),
        load(1),
        IlOp::SetField { index: Some(0), loc: loc() },
        IlOp::Pop { loc: loc() },
        ret(),
    ];
    let types = infer_stack_map(&set, 0, 2, &none, &Vec::new()).unwrap();
    assert_eq!(types.slot_ty.get(&1), Some(&MirTy::HeapRef));
    assert_eq!(types.slot_ty.get(&0), Some(&MirTy::I64));
}

fn loop_around(body: Vec<IlOp>, after: Vec<IlOp>) -> Vec<IlOp> {
    let mut ops = vec![
        IlOp::Label(Label(0)),
        load(0),
        load(1),
        bin(Instruction::LE),
        jump(IlJumpKind::JumpIfFalse, 1),
    ];
    ops.extend(body);
    ops.push(jump(IlJumpKind::Unconditional, 0));
    ops.push(IlOp::Label(Label(1)));
    ops.extend(after);
    ops.push(ret());
    ops
}

#[test]
fn shapes_of_bodies() {
    let make = IlOp::MakeArray { arity: 0, loc: loc() };
    let inside = loop_around(vec![make, IlOp::Pop { loc: loc() }], vec![load(0)]);
    let behind = loop_around(vec![], vec![make]);
    assert!(has_back_edge(&inside) && has_back_edge(&behind));
    assert!(has_alloc_inside_loop(&inside) && !has_alloc_inside_loop(&behind));
    assert!(!has_alloc_only_after_loops(&inside) && has_alloc_only_after_loops(&behind));
    assert!(!has_back_edge(&[load(0), ret()]));
    assert!(has_heap_index(&[load(0), load(1), IlOp::Index { loc: loc() }]));
    assert!(!has_heap_index(&[load(0)]));
}

#[test]
fn straight_code_needs_enough_work() {
    let ops = [load(0), load(1), bin(Instruction::ADD), ret()];
    assert_eq!(
        infer_numeric(&ops, 0, 2, &Vec::new()).err().unwrap().message(),
        "numeric MIR refused: straight-line work 1 < 8"
    );
    assert!(dense(&ops, "f", &mut Vec::new(), &Vec::new(), &Vec::new()).is_none());
}

/// Dense code of a body with two parameters, without strength reduction or vectorization.
fn dense(
    ops: &[IlOp],
    name: &str,
    pool: &mut Vec<u64>,
    table: &Vec<(FloatOp, u64)>,
    hosts: &Vec<HostNative>,
) -> Option<(Vec<IlOp>, DenseAbi)> {
    let calls = DenseCallMap::new();
    try_specialize_body(
        ops,
        name,
        2,
        pool,
        &calls,
        None,
        table,
        hosts,
        |f: MirFunc| f,
        |_: &MirFunc, _: Option<Label>, p: &Vec<u64>| (None, p.clone()),
    )
}

fn summing_loop() -> Vec<IlOp> {
    let mut ops = vec![
        IlOp::ConstPool { idx: 0, loc: loc() },
        store(2),
    ];
    ops.extend(loop_around(
        vec![
            load(2),
            IlOp::ConstPool { idx: 1, loc: loc() },
            bin(Instruction::ADDF),
            store(2),
            load(0),
            IlOp::Const { imm: 1, loc: loc() },
            bin(Instruction::ADD),
            store(0),
        ],
        vec![load(2)],
    ));
    ops
}

#[test]
fn float_loops_become_dense() {
    let ops = summing_loop();
    let mut pool = vec![0.0f64.to_bits(), 1.5f64.to_bits()];
    let (code, abi) = dense(&ops, "sum", &mut pool, &Vec::new(), &Vec::new()).expect("dense");
    assert_eq!(abi.params, vec![MirTy::I64, MirTy::I64]);
    assert_eq!(abi.ret, MirTy::F64);
    assert!(code.iter().any(|op| matches!(
        op,
        IlOp::Byte { byte, .. } if *byte.bytecode() == Instruction::DenseBin
    )));
    assert!(!code.iter().any(|op| matches!(op, IlOp::Bin { op: Instruction::ADDF, .. })));
}

#[test]
fn bodies_ask_for_float_results_before_they_fold() {
    let mut ops = vec![
        IlOp::ConstPool { idx: 0, loc: loc() },
        IlOp::ConstPool { idx: 0, loc: loc() },
        bin(Instruction::MULF),
        store(2),
    ];
    ops.extend(loop_around(
        vec![
            load(2),
            IlOp::ConstPool { idx: 0, loc: loc() },
            bin(Instruction::ADDF),
            store(2),
            load(0),
            IlOp::Const { imm: 1, loc: loc() },
            bin(Instruction::ADD),
            store(0),
        ],
        vec![load(2)],
    ));
    let pool = vec![1.5f64.to_bits()];
    let calls = DenseCallMap::new();
    let hosts = Vec::new();
    let mut table = Vec::new();
    let requests = folding_requests(&ops, "k", 2, &pool, &calls, &table, &hosts);
    assert_eq!(requests.len(), 1);
    table.push((requests[0], 2.25f64.to_bits()));
    assert!(folding_requests(&ops, "k", 2, &pool, &calls, &table, &hosts).is_empty());
    let mut plain = pool.clone();
    let mut with = pool.clone();
    let a = dense(&ops, "k", &mut plain, &Vec::new(), &hosts).expect("dense");
    let b = dense(&ops, "k", &mut with, &table, &hosts).expect("dense");
    assert!(with.contains(&2.25f64.to_bits()));
    assert!(!plain.contains(&2.25f64.to_bits()));
    assert!(emit_cost(&b.0) <= emit_cost(&a.0));
}

#[test]
fn one_word_signatures_only() {
    let mut b = MirBuilder::new("w", &Vec::new());
    let x = b.add_param(MirTy::F64).unwrap();
    b.set_ret_ty(MirTy::F64);
    b.ret(Some(x)).unwrap();
    let f = b.finish().unwrap();
    let abi = DenseAbi::from_func(&f).unwrap();
    assert_eq!((abi.params, abi.ret), (vec![MirTy::F64], MirTy::F64));
    let mut g = MirFunc::new("n", &Vec::new());
    g.ret_ty = None;
    assert!(DenseAbi::from_func(&g).is_none());
}

fn axpy(trips: Option<i64>) -> MirFunc {
    let mut b = MirBuilder::new("axpy", &Vec::new());
    let n = b.add_param(MirTy::I64).unwrap();
    let a = b.add_param(MirTy::F64).unwrap();
    let x0 = b.add_param(MirTy::F64).unwrap();
    let dx = b.add_param(MirTy::F64).unwrap();
    let y = b.add_param(MirTy::F64).unwrap();
    let bound = match trips {
        Some(t) => b.ins_const(MirConst::I64(t)).unwrap(),
        None => n,
    };
    let (l_i, l_s, l_x) = (LocalId(0), LocalId(1), LocalId(2));
    let zero = b.ins_const(MirConst::I64(0)).unwrap();
    let fzero = b.ins_const(MirConst::F64(0)).unwrap();
    b.def_local(l_i, zero).unwrap();
    b.def_local(l_s, fzero).unwrap();
    b.def_local(l_x, x0).unwrap();
    let header = b.create_block();
    let body = b.create_block();
    let exit = b.create_block();
    b.jump(header).unwrap();
    b.switch_to_block(header);
    let i = b.use_local(l_i, MirTy::I64).unwrap();
    let s = b.use_local(l_s, MirTy::F64).unwrap();
    let x = b.use_local(l_x, MirTy::F64).unwrap();
    let c = b.ins_cmp(MirCmpOp::Lt, i, bound).unwrap();
    b.branch(c, body, exit).unwrap();
    b.switch_to_block(body);
    let m = b.ins_binop(MirBinOp::Mul, a, x).unwrap();
    let t = b.ins_binop(MirBinOp::Add, s, m).unwrap();
    let s1 = b.ins_binop(MirBinOp::Add, t, y).unwrap();
    let x1 = b.ins_binop(MirBinOp::Add, x, dx).unwrap();
    let one = b.ins_const(MirConst::I64(1)).unwrap();
    let i1 = b.ins_binop(MirBinOp::Add, i, one).unwrap();
    b.def_local(l_s, s1).unwrap();
    b.def_local(l_x, x1).unwrap();
    b.def_local(l_i, i1).unwrap();
    b.jump(header).unwrap();
    b.switch_to_block(exit);
    b.set_ret_ty(MirTy::F64);
    b.ret(Some(s)).unwrap();
    b.finish().unwrap()
}

#[test]
fn axpy_loops_become_one_host_call() {
    let mut pool = Vec::new();
    let ops = try_axpy_pack(&axpy(None), Some(Label(7)), &mut pool).expect("packed");
    assert_eq!(
        ops,
        vec![
            IlOp::Label(Label(7)),
            IlOp::Const { imm: i32::from(SIMD_AXPY_REDUCE_ID), loc: loc() },
            load(0),
            load(1),
            load(2),
            load(3),
            load(4),
            IlOp::HostInvoke { arity: 5, layout: 0, loc: loc() },
            ret(),
        ]
    );
    assert!(pool.is_empty());
}

#[test]
fn short_axpy_loops_are_kept() {
    assert!(try_axpy_pack(&axpy(Some(7)), None, &mut Vec::new()).is_none());
    assert!(try_axpy_pack(&axpy(Some(8)), None, &mut Vec::new()).is_some());
}

fn sum_of_params() -> MirFunc {
    let mut b = MirBuilder::new("add", &Vec::new());
    let x = b.add_param(MirTy::I64).unwrap();
    let y = b.add_param(MirTy::I64).unwrap();
    let z = b.ins_binop(MirBinOp::Add, x, y).unwrap();
    b.set_ret_ty(MirTy::I64);
    b.ret(Some(z)).unwrap();
    b.finish().unwrap()
}

#[test]
fn dense_code_adds_in_slots() {
    let mut pool = Vec::new();
    let code = emit_dense(&sum_of_params(), Some(Label(0)), &mut pool, false).unwrap();
    assert_eq!(code[0], IlOp::Label(Label(0)));
    let adds = code
        .iter()
        .filter(|op| matches!(op, IlOp::Byte { byte, .. } if *byte.bytecode() == Instruction::DenseBin))
        .count();
    assert_eq!(adds, 1);
    assert!(pool.is_empty());
}

#[test]
fn stack_code_adds_on_the_stack() {
    let mut pool = Vec::new();
    let code = emit_lir(&sum_of_params(), Some(Label(0)), &mut pool, false).unwrap();
    let adds = code
        .iter()
        .filter(|op| matches!(op, IlOp::Bin { op: Instruction::ADD, .. } | IlOp::BinSlotSlot { op: Instruction::ADD, .. }))
        .count();
    assert_eq!(adds, 1);
}

#[test]
fn lifted_bodies_keep_their_values() {
    let ops = vec![
        IlOp::Label(Label(0)),
        load(0),
        load(1),
        bin(Instruction::MUL),
        store(2),
        load(2),
        ret(),
    ];
    let mut pool = Vec::new();
    if let Some(out) = try_lower_abi_body(&ops, "f", 2, &mut pool, &Vec::new()) {
        assert!(out.iter().any(|op| matches!(
            op,
            IlOp::Bin { op: Instruction::MUL, .. } | IlOp::BinSlotSlot { op: Instruction::MUL, .. }
        )));
    }
    let f = try_lower_numeric(&ops, &typed_hints()).unwrap();
    assert!(f.blocks.iter().flat_map(|b| b.insts.iter()).any(|i| matches!(
        i,
        MirInst::Bin { op: MirBinOp::Mul, lhs: ValueId(0), rhs: ValueId(1), .. }
    )));
}

fn typed_hints() -> LowerHints {
    let mut h = LowerHints::new("f", &Vec::new());
    for slot in 0..3 {
        h.slot_ty.insert(slot, MirTy::I64);
    }
    h.param_count = 2;
    h
}

#[test]
fn lowering_refuses_what_it_does_not_know() {
    let refusal = |ops: &[IlOp]| try_lower_numeric(ops, &typed_hints()).err().unwrap().message();
    assert_eq!(
        refusal(&[IlOp::GetField { loc: loc() }, ret()]),
        "numeric MIR refused: non-numeric IL (classes/heap/calls stay on Value)"
    );
    assert_eq!(
        refusal(&[IlOp::byte(Byte::new(Instruction::NOT)), ret()]),
        "numeric MIR refused: not stack"
    );
}

#[test]
fn bodies_without_allocation_have_no_map() {
    assert!(try_build_draft(&[load(0), ret()], "f", 1, &[], &[], &Vec::new()).is_none());
    assert!(!has_real_maps(&[load(0), ret()], "f", 1, &[], &[], &Vec::new()));
}

#[test]
fn host_tables_type_calls_of_bodies() {
    let mut ops = vec![
        IlOp::Const { imm: 1, loc: loc() },
        load(0),
        IlOp::HostInvoke { arity: 1, layout: 0, loc: loc() },
        store(3),
    ];
    ops.extend(summing_loop());
    let calls = DenseCallMap::new();
    let rows = vec![
        HostNative { id: 0, name: "open", arity: 2, effect: HostEffect::Io },
        HostNative { id: 1, name: "hash", arity: 1, effect: HostEffect::Host },
    ];
    assert!(infer_numeric_with(&ops, 2, 2, &calls, &Vec::new()).is_err());
    let types = infer_numeric_with(&ops, 2, 2, &calls, &rows).unwrap();
    assert_eq!(types.slot_ty.get(&3), Some(&MirTy::I64));
    let mut hints = LowerHints::new("host", &Vec::new());
    hints.slot_ty = types.slot_ty;
    hints.pool = vec![0, 0];
    hints.pool_ty = types.pool_ty;
    hints.param_count = 2;
    hints.allow_effects = true;
    assert!(try_lower_numeric(&ops, &hints).is_err());
    hints.hosts = rows;
    let f = try_lower_numeric(&ops, &hints).unwrap();
    f.verify().unwrap();
    assert_eq!(f.hosts.len(), 2);
}

#[test]
fn host_tables_reach_collector_maps() {
    let ops = vec![
        IlOp::Const { imm: 1, loc: loc() },
        load(0),
        IlOp::HostInvoke { arity: 1, layout: 0, loc: loc() },
        store(1),
        load(1),
        IlOp::MakeArray { arity: 1, loc: loc() },
        store(2),
        load(2),
        ret(),
    ];
    let rows = vec![
        HostNative { id: 0, name: "open", arity: 2, effect: HostEffect::Io },
        HostNative { id: 1, name: "hash", arity: 1, effect: HostEffect::Host },
    ];
    assert!(has_real_maps(&ops, "f", 1, &[], &[], &rows));
    assert!(!has_real_maps(&ops, "f", 1, &[], &[], &Vec::new()));
}

#[test]
fn bodies_take_what_their_passes_give() {
    let ops = summing_loop();
    let calls = DenseCallMap::new();
    let mut pool = vec![0.0f64.to_bits(), 1.5f64.to_bits()];
    let (code, _) = try_specialize_body(
        &ops,
        "sum",
        2,
        &mut pool,
        &calls,
        Some(Label(3)),
        &Vec::new(),
        &Vec::new(),
        |f: MirFunc| f,
        |_: &MirFunc, l: Option<Label>, _: &Vec<u64>| (Some(vec![IlOp::Label(l.unwrap())]), vec![9]),
    )
    .expect("vector code");
    assert_eq!((code, pool), (vec![IlOp::Label(Label(3))], vec![9]));
    let mut pool = vec![0.0f64.to_bits(), 1.5f64.to_bits()];
    let refused = try_specialize_body(
        &ops,
        "sum",
        2,
        &mut pool,
        &calls,
        None,
        &Vec::new(),
        &Vec::new(),
        |f: MirFunc| {
            let mut f = f;
            f.ret_ty = None;
            f
        },
        |_: &MirFunc, _: Option<Label>, p: &Vec<u64>| (None, p.clone()),
    );
    assert!(refused.is_none());
}

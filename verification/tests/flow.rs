//! Numbers that flow through stack code, and the code buffer.
use compiler::il::codebuf::{emitting_range_to_raw, raw_index, CodeBuf};
use compiler::il::flow::{analyze_cfg, apply, shift, Effect, Site, Tell};
use compiler::il::loops::{find_loop, insert_preheader_ops, stored_in_loop};
use compiler::il::op::{Byte, DebugLoc, EntryKind, IlJumpKind, IlOp, Instruction, Label};
use compiler::il::sp::{byte_stack_delta, stack_delta};
use compiler::il::strength::{strength_reduce, PureCallCtx};
use compiler::il::tell::{analyze_il_at, call_result_delta, signed_arity_delta};

fn loc() -> DebugLoc {
    DebugLoc::unknown()
}

fn jump(target: u32) -> IlOp {
    IlOp::Jump {
        kind: IlJumpKind::Unconditional,
        target: Label(target),
        loc: loc(),
        hint: Default::default(),
    }
}

fn step(d: i32) -> Site {
    Site { fall: Effect::Delta(d), branch: Effect::Terminator, target: None, stops: false }
}

#[test]
fn shifts_stay_in_range() {
    assert_eq!(shift(3, -5), 0);
    assert_eq!(shift(u32::MAX, 1), u32::MAX);
    assert_eq!(shift(3, 4), 7);
}

#[test]
fn effects_change_the_number() {
    let k = Tell::Known(4);
    assert_eq!(apply(k, Effect::Delta(-1)), Some(Tell::Known(3)));
    assert_eq!(apply(k, Effect::DeltaThenFloor(-1, 9)), Some(Tell::Known(9)));
    assert_eq!(apply(k, Effect::DeltaThenFloor(-1, 2)), Some(Tell::Known(3)));
    assert_eq!(apply(Tell::Unknown, Effect::SetTo(2)), Some(Tell::Known(2)));
    assert_eq!(apply(k, Effect::Terminator), None);
    assert_eq!(apply(k, Effect::Unknown), Some(Tell::Unknown));
    assert_eq!(apply(Tell::Unknown, Effect::Delta(1)), Some(Tell::Unknown));
}

#[test]
fn numbers_are_those_of_every_path() {
    // 0: +1, 1: branch to 3 with +2, else +1, 2: +1, 3: end
    let split = Site {
        fall: Effect::Delta(1),
        branch: Effect::Delta(2),
        target: Some(3),
        stops: false,
    };
    let end = Site { fall: Effect::Terminator, branch: Effect::Terminator, target: None, stops: true };
    let told = analyze_cfg(&vec![step(1), split, step(1), end], 0, 5);
    assert_eq!(
        told,
        vec![Tell::Known(5), Tell::Known(6), Tell::Known(7), Tell::Known(8)]
    );
    let told = analyze_cfg(&vec![step(1), split, step(0), end], 0, 5);
    assert_eq!(told[3], Tell::Unknown);
    let told = analyze_cfg(&vec![end, step(1)], 0, 0);
    assert_eq!(told, vec![Tell::Known(0), Tell::Unknown]);
}

#[test]
fn store_pairs_go_below_the_cursor_only() {
    let ops = vec![
        IlOp::Const { imm: 1, loc: loc() },
        IlOp::StorePop { slot: 3, loc: loc() },
        IlOp::Return { loc: loc(), ret_words: 1 },
    ];
    assert!(!analyze_il_at(&ops, 3).can_remove_one_value_store(0, 3));
    assert!(analyze_il_at(&ops, 4).can_remove_one_value_store(0, 3));
    assert!(!analyze_il_at(&ops, 4).can_remove_one_value_store(9, 3));
}

#[test]
fn call_and_match_deltas() {
    assert_eq!(call_result_delta(3, false), -2);
    assert_eq!(call_result_delta(3, true), -1);
    assert_eq!(signed_arity_delta(0), -1);
    assert_eq!(signed_arity_delta(2), 1);
}

#[test]
fn operand_heights() {
    assert_eq!(stack_delta(&IlOp::Load { slot: 0, loc: loc() }), Some(1));
    assert_eq!(stack_delta(&IlOp::SetField { index: None, loc: loc() }), Some(-2));
    assert_eq!(stack_delta(&IlOp::MakeArray { arity: 3, loc: loc() }), Some(-2));
    assert_eq!(stack_delta(&IlOp::HostInvoke { arity: 2, layout: 0, loc: loc() }), Some(-2));
    assert_eq!(stack_delta(&IlOp::Return { loc: loc(), ret_words: 1 }), None);
    assert_eq!(
        byte_stack_delta(&Byte::new(Instruction::STORE).with_load_store_packed(2, 0, 1, 0)),
        Some(-2)
    );
    assert_eq!(byte_stack_delta(&Byte::new(Instruction::FORMAT).with_operand_u32(2)), Some(-2));
    assert_eq!(byte_stack_delta(&Byte::new(Instruction::Seek).with_operand_u32(2)), None);
}

#[test]
fn positions_skip_labels() {
    let ops = vec![
        IlOp::Label(Label(0)),
        IlOp::Const { imm: 1, loc: loc() },
        IlOp::Label(Label(1)),
        IlOp::Pop { loc: loc() },
    ];
    assert_eq!(raw_index(&ops, 0), 0);
    assert_eq!(raw_index(&ops, 1), 2);
    assert_eq!(raw_index(&ops, 2), 4);
    assert_eq!(emitting_range_to_raw(&ops, 1, 2), (2, 4));
}

#[test]
fn removing_a_span_moves_what_follows() {
    let mut buf = CodeBuf::new();
    assert!(buf.is_empty());
    let a = buf.bind_fresh_entry();
    buf.push_const(1);
    buf.push_return();
    let b = buf.bind_fresh_entry();
    buf.push_const(2);
    buf.push_return();
    buf.record_func_with_sp("a", Some(a), 0, 2, 0);
    buf.record_func_with_sp("b", Some(b), 2, 4, 3);
    buf.remove_emitting_span(0, 2);
    assert_eq!(buf.len(), 2);
    assert_eq!(buf.entry_labels(), &vec![(0, b)]);
    assert_eq!(buf.funcs().len(), 1);
    assert_eq!(buf.funcs()[0].name, "b");
    assert_eq!((buf.funcs()[0].code_start, buf.funcs()[0].code_end), (0, 2));
}

fn counted() -> Vec<IlOp> {
    vec![
        IlOp::Const { imm: 0, loc: loc() },
        IlOp::StorePop { slot: 0, loc: loc() },
        jump(0),
        IlOp::Label(Label(0)),
        IlOp::Load { slot: 0, loc: loc() },
        IlOp::Load { slot: 1, loc: loc() },
        IlOp::Bin { op: Instruction::LE, loc: loc() },
        IlOp::Jump {
            kind: IlJumpKind::JumpIfFalse,
            target: Label(1),
            loc: loc(),
            hint: Default::default(),
        },
        IlOp::Load { slot: 0, loc: loc() },
        IlOp::Load { slot: 2, loc: loc() },
        IlOp::Bin { op: Instruction::MUL, loc: loc() },
        IlOp::Pop { loc: loc() },
        IlOp::Load { slot: 0, loc: loc() },
        IlOp::Const { imm: 1, loc: loc() },
        IlOp::Bin { op: Instruction::ADD, loc: loc() },
        IlOp::StorePop { slot: 0, loc: loc() },
        jump(0),
        IlOp::Label(Label(1)),
        IlOp::Halt { loc: loc() },
    ]
}

#[test]
fn loops_are_found_at_their_label() {
    let ops = counted();
    let lp = find_loop(&ops, 3).expect("loop");
    assert!(stored_in_loop(&ops, &lp, 0));
    assert!(!stored_in_loop(&ops, &lp, 2));
    assert!(find_loop(&ops, 17).is_none());
}

#[test]
fn preheader_code_runs_before_the_loop_only() {
    let ops = counted();
    let pre = vec![IlOp::Const { imm: 9, loc: loc() }, IlOp::Pop { loc: loc() }];
    let out = insert_preheader_ops(&ops, 3, Label(0), &pre);
    assert_eq!(out.len(), ops.len() + 2);
    let at = out.iter().position(|o| matches!(o, IlOp::Const { imm: 9, .. })).unwrap();
    let head = out.iter().position(|o| *o == IlOp::Label(Label(0))).unwrap();
    assert!(at < head);
}

/// Runs stack code; slots 1 and 2 hold the bound and the factor. Returns what was popped.
fn run(ops: &[IlOp], bound: i64, factor: i64) -> Vec<i64> {
    let mut slots = vec![0i64; 16];
    slots[1] = bound;
    slots[2] = factor;
    let mut stack: Vec<i64> = Vec::new();
    let mut seen = Vec::new();
    let mut pc = 0;
    let at = |l: Label| ops.iter().position(|o| *o == IlOp::Label(l)).unwrap();
    loop {
        match ops[pc] {
            IlOp::Label(_) => {}
            IlOp::Load { slot, .. } => stack.push(slots[slot as usize]),
            IlOp::StorePop { slot, .. } => slots[slot as usize] = stack.pop().unwrap(),
            IlOp::Const { imm, .. } => stack.push(i64::from(imm)),
            IlOp::Pop { .. } => seen.push(stack.pop().unwrap()),
            IlOp::Bin { op, .. } => {
                let b = stack.pop().unwrap();
                let a = stack.pop().unwrap();
                stack.push(match op {
                    Instruction::ADD => a.wrapping_add(b),
                    Instruction::SUB => a.wrapping_sub(b),
                    Instruction::MUL => a.wrapping_mul(b),
                    Instruction::LE => i64::from(a < b),
                    other => panic!("{other:?}"),
                });
            }
            IlOp::Jump { kind: IlJumpKind::Unconditional, target, .. } => pc = at(target),
            IlOp::Jump { kind: IlJumpKind::JumpIfFalse, target, .. } => {
                if stack.pop().unwrap() == 0 {
                    pc = at(target);
                }
            }
            IlOp::Halt { .. } => return seen,
            other => panic!("{other:?}"),
        }
        pc += 1;
    }
}

#[test]
fn reduced_loops_compute_the_same_products() {
    for (bound, factor) in [(0, 3), (1, 3), (7, -2), (5, i64::MAX)] {
        let mut ops = counted();
        let before = run(&ops, bound, factor);
        let mut pool = vec![1];
        assert_eq!(strength_reduce(&mut ops, &mut pool, None), 1);
        assert_eq!(pool, vec![1]);
        assert_eq!(run(&ops, bound, factor), before);
    }
}

#[test]
fn calls_of_pure_functions_are_no_barrier() {
    let mut ops = counted();
    let call = IlOp::Entry {
        kind: EntryKind::Call,
        arity: 0,
        target: Label(7),
        loc: loc(),
        ret_words: 1,
    };
    ops.insert(12, call);
    ops.insert(13, IlOp::Pop { loc: loc() });
    let mut kept = ops.clone();
    assert_eq!(strength_reduce(&mut kept, &mut Vec::new(), None), 0);
    assert_eq!(kept, ops);
    let purity = PureCallCtx { pure_entries: vec![Label(7)] };
    assert_eq!(strength_reduce(&mut ops, &mut Vec::new(), Some(&purity)), 1);
}

#[test]
fn short_code_is_left_alone() {
    let mut ops = counted();
    ops.truncate(7);
    let before = ops.clone();
    assert_eq!(strength_reduce(&mut ops, &mut Vec::new(), None), 0);
    assert_eq!(ops, before);
}

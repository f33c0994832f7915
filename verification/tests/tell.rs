//! Store cursors of stack code.
use compiler::il::flow::{shift, Tell};
use compiler::il::op::{Byte, DebugLoc, EntryKind, IlJumpKind, IlOp, Instruction, Label};
use compiler::il::sp;
use compiler::il::tell::{
    analyze_at, analyze_il_at, call_result_delta, diff_il_against_bytecode, entry_call_tell_after,
    il_fn_raw_range, is_modelled, signed_arity_delta, store_pop_tell_after,
};

fn store(slot: u32) -> Byte {
    Byte::new(Instruction::STORE).with_load_store_slot(slot)
}

fn cursors(code: &[Byte]) -> Vec<Option<u32>> {
    analyze_at(code, &[], 0, 0)
        .tell_in
        .iter()
        .map(|t| t.known())
        .collect()
}

#[test]
fn store_raises_cursor_above_the_written_slot() {
    // CONST; STORE 5 → cursor 6, not 0: the store protects slots 0..=5.
    let code = vec![
        Byte::new(Instruction::CONST).with_const_inline(1),
        store(5),
        Byte::new(Instruction::NOOP),
    ];
    assert_eq!(cursors(&code), vec![Some(0), Some(1), Some(6)]);
}

/// After `CONST; STORE 5` with height 1, tell is 6 and sp is 0.
/// Same ops, different quantities — do not unify.
#[test]
fn store_floor_is_not_operand_height() {
    let loc = DebugLoc::unknown();
    let ops = vec![
        IlOp::Const { imm: 1, loc },
        IlOp::StorePop { slot: 5, loc },
        IlOp::Return { loc, ret_words: 1 },
    ];
    let tell = analyze_il_at(&ops, 0);
    let sp = sp::analyze(&ops);
    assert_eq!(tell.tell_before(1).known(), Some(1));
    assert_eq!(tell.tell_before(2).known(), Some(6));
    assert_eq!(sp.sp_before(1), Tell::Known(1));
    assert_eq!(sp.sp_before(2), Tell::Known(0));
}

/// STORE floor persists across `CALL 0` (`tell` 6 then `+1` → 7). Nested
/// CALL still resets operand height to 1. Using either number for the
/// other pass is a hang or a silent clobber.
#[test]
fn store_floor_then_call_leaves_tell_above_sp() {
    let loc = DebugLoc::unknown();
    let ops = vec![
        IlOp::Const { imm: 1, loc },
        IlOp::StorePop { slot: 5, loc },
        IlOp::Entry {
            kind: EntryKind::Call,
            arity: 0,
            target: Label(0),
            loc,
        ret_words: 1,
    },
        IlOp::Return { loc, ret_words: 1 },
    ];
    let tell = analyze_il_at(&ops, 0);
    let sp = sp::analyze(&ops);
    assert_eq!(tell.tell_before(2).known(), Some(6));
    assert_eq!(tell.tell_before(3).known(), Some(7));
    assert_eq!(sp.sp_before(2), Tell::Known(0));
    assert_eq!(sp.sp_before(3), Tell::Known(1));
}

/// Discriminator: leftover height + STORE floor. Relative `sp` would be
/// `3 + 1 = 4` after `CALL 0`; absolute reset is 1. Tell stays relative
/// (`9 + 1 = 10`). Same Call, two different arithmetic models.
#[test]
fn store_floor_then_call_with_leftover_height_splits_relative_vs_absolute() {
    let loc = DebugLoc::unknown();
    let ops = vec![
        IlOp::Const { imm: 1, loc },
        IlOp::StorePop { slot: 5, loc },
        IlOp::Const { imm: 2, loc },
        IlOp::Const { imm: 3, loc },
        IlOp::Const { imm: 4, loc },
        IlOp::Entry {
            kind: EntryKind::Call,
            arity: 0,
            target: Label(0),
            loc,
        ret_words: 1,
    },
        IlOp::Return { loc, ret_words: 1 },
    ];
    let tell = analyze_il_at(&ops, 0);
    let sp = sp::analyze(&ops);
    assert_eq!(tell.tell_before(5).known(), Some(9));
    assert_eq!(tell.tell_before(6).known(), Some(10));
    assert_eq!(sp.sp_before(5), Tell::Known(3));
    assert_eq!(sp.sp_before(6), Tell::Known(1));
    assert_ne!(
        sp.sp_before(6).known(),
        Some(4),
        "must not apply tell's relative 1-arity to operand height"
    );
}

/// `MakeCoro` shares Call's tell delta and SP absolute reset after a STORE floor.
#[test]
fn store_floor_then_make_coro_leaves_tell_above_sp() {
    let loc = DebugLoc::unknown();
    let ops = vec![
        IlOp::Const { imm: 1, loc },
        IlOp::StorePop { slot: 5, loc },
        IlOp::Entry {
            kind: EntryKind::MakeCoro,
            arity: 0,
            target: Label(0),
            loc,
        ret_words: 1,
    },
        IlOp::Return { loc, ret_words: 1 },
    ];
    let tell = analyze_il_at(&ops, 0);
    let sp = sp::analyze(&ops);
    assert_eq!(tell.tell_before(2).known(), Some(6));
    assert_eq!(tell.tell_before(3).known(), Some(7));
    assert_eq!(sp.sp_before(2), Tell::Known(0));
    assert_eq!(sp.sp_before(3), Tell::Known(1));
}

/// `Seek` re-anchors tell but fails closed for `sp` — another non-unifiable pair.
#[test]
fn seek_sets_tell_but_poisons_operand_height() {
    let loc = DebugLoc::unknown();
    let ops = vec![
        IlOp::Const { imm: 1, loc },
        IlOp::Const { imm: 2, loc },
        IlOp::byte(Byte::new(Instruction::Seek).with_operand_u32(4)),
        IlOp::Return { loc, ret_words: 1 },
    ];
    let tell = analyze_il_at(&ops, 0);
    let sp = sp::analyze(&ops);
    assert_eq!(tell.tell_before(2).known(), Some(2));
    assert_eq!(tell.tell_before(3).known(), Some(4));
    assert_eq!(sp.sp_before(2), Tell::Known(2));
    assert_eq!(sp.sp_before(3), Tell::Unknown);
}

#[test]
fn store_to_a_low_slot_does_not_lower_the_cursor() {
    // Height returns to 3, but the floor of 1 must not pull the cursor down.
    let code = vec![
        Byte::new(Instruction::CONST).with_const_inline(1),
        Byte::new(Instruction::CONST).with_const_inline(2),
        Byte::new(Instruction::CONST).with_const_inline(3),
        Byte::new(Instruction::CONST).with_const_inline(4),
        store(0),
        Byte::new(Instruction::NOOP),
    ];
    assert_eq!(cursors(&code).last().copied().unwrap(), Some(3));
}

#[test]
fn pop_lowers_the_cursor_below_a_previous_store_floor() {
    // Cursor is not monotone: POP moves it back below the store's floor.
    let code = vec![
        Byte::new(Instruction::CONST).with_const_inline(1),
        store(4),                                           // cursor -> 5
        Byte::new(Instruction::CONST).with_const_inline(2), // -> 6
        Byte::new(Instruction::POP),                        // -> 5
        Byte::new(Instruction::NOOP),
    ];
    assert_eq!(cursors(&code).last().copied().unwrap(), Some(5));
}

#[test]
fn seek_sets_the_cursor_absolutely() {
    let code = vec![
        Byte::new(Instruction::CONST).with_const_inline(1),
        store(9),
        Byte::new(Instruction::Seek).with_operand_u32(2),
        Byte::new(Instruction::NOOP),
    ];
    assert_eq!(cursors(&code).last().copied().unwrap(), Some(2));
}

#[test]
fn call_pops_args_and_pushes_one_result() {
    // Frame base is `tell - arity`; the return seeks back and pushes.
    let code = vec![
        Byte::new(Instruction::CONST).with_const_inline(1),
        Byte::new(Instruction::CONST).with_const_inline(2),
        Byte::new(Instruction::CALL).with_call_packed(2, 40),
        Byte::new(Instruction::NOOP),
    ];
    assert_eq!(cursors(&code).last().copied().unwrap(), Some(1));
}

#[test]
fn entry_tell_seeds_the_argument_slots() {
    let code = vec![
        Byte::new(Instruction::LOAD).with_load_store_slot(0),
        Byte::new(Instruction::NOOP),
    ];
    let info = analyze_at(&code, &[], 0, 3);
    assert_eq!(info.tell_before(0).known(), Some(3));
    assert_eq!(info.tell_before(1).known(), Some(4));
}

#[test]
fn symbolic_il_store_pair_proof_requires_existing_cursor_floor() {
    let loc = DebugLoc::unknown();
    let ops = vec![
        IlOp::Const { imm: 1, loc },
        IlOp::StorePop { slot: 5, loc },
        IlOp::Return { loc, ret_words: 1 },
    ];

    let low = analyze_il_at(&ops, 0);
    assert!(!low.can_remove_one_value_store(0, 5));

    let high = analyze_il_at(&ops, 6);
    assert!(high.can_remove_one_value_store(0, 5));
}

/// Symbolic JMPF joins both edges with the same post-pop cursor.
#[test]
fn symbolic_il_jump_if_false_joins_both_edges() {
    let loc = DebugLoc::unknown();
    let ops = vec![
        IlOp::Const { imm: 1, loc },
        IlOp::Jump {
            kind: IlJumpKind::JumpIfFalse,
            target: Label(0),
            loc,
            hint: Default::default(),
        },
        IlOp::Return { loc, ret_words: 1 },
        IlOp::Label(Label(0)),
        IlOp::Return { loc, ret_words: 1 },
    ];
    let info = analyze_il_at(&ops, 0);
    // Const → 1; JMPF pops → 0 on fall-through and taken.
    assert_eq!(info.tell_before(2).known(), Some(0));
    assert_eq!(info.tell_before(3).known(), Some(0));
}

/// `Entry{Call}` must agree with the bytecode `CALL` rule: `-arity + 1`.
#[test]
fn symbolic_il_call_pops_args_and_pushes_one_result() {
    let loc = DebugLoc::unknown();
    let ops = vec![
        IlOp::Load { slot: 0, loc },
        IlOp::Load { slot: 1, loc },
        IlOp::Load { slot: 2, loc },
        IlOp::Entry {
            kind: EntryKind::Call,
            arity: 3,
            target: Label(0),
            loc,
        ret_words: 1,
    },
        IlOp::Return { loc, ret_words: 1 },
    ];
    let info = analyze_il_at(&ops, 3);
    assert_eq!(info.tell_before(3).known(), Some(6));
    assert_eq!(info.tell_before(4).known(), Some(4));
}

/// Arity 0 is the sharpest case:
/// a zero-arg call must still push one result (`delta = +1`).
#[test]
fn symbolic_il_call_arity_zero_pushes_one() {
    let loc = DebugLoc::unknown();
    let ops = vec![
        IlOp::Entry {
            kind: EntryKind::Call,
            arity: 0,
            target: Label(0),
            loc,
        ret_words: 1,
    },
        IlOp::Return { loc, ret_words: 1 },
    ];
    let info = analyze_il_at(&ops, 2);
    assert_eq!(info.tell_before(0).known(), Some(2));
    assert_eq!(info.tell_before(1).known(), Some(3));
}

/// `ReturnPair` leaves payload+tag; codegen boxes with `PairToHeap` immediately
/// after the call. Cursor after CALL is `seed + 2 - arity`, then `-1` for the box.
#[test]
fn call_then_pair_to_heap_pushes_two_then_boxes() {
    let loc = DebugLoc::unknown();
    for arity in [0u32, 2] {
        let seed = arity + 3;
        let after_call = shift(seed, call_result_delta(arity, true));
        let after_box = shift(after_call, -1);
        let code = vec![
            Byte::new(Instruction::CALL).with_call_packed(arity, 0),
            Byte::new(Instruction::PairToHeap),
            Byte::new(Instruction::RETURN),
        ];
        let bc = analyze_at(&code, &[], 0, seed);
        assert_eq!(
            bc.tell_before(1).known(),
            Some(after_call),
            "bytecode CALL arity {arity} before PairToHeap"
        );
        assert_eq!(
            bc.tell_before(2).known(),
            Some(after_box),
            "bytecode PairToHeap arity {arity}"
        );

        let ops = vec![
            IlOp::Entry {
                kind: EntryKind::Call,
                arity,
                target: Label(0),
                loc,
            ret_words: 1,
    },
            IlOp::byte(Byte::new(Instruction::PairToHeap)),
            IlOp::Return { loc, ret_words: 1 },
        ];
        let il = analyze_il_at(&ops, seed);
        assert_eq!(il.tell_before(1).known(), Some(after_call));
        assert_eq!(il.tell_before(2).known(), Some(after_box));
    }
    // Unary CALL (no PairToHeap) is unchanged.
    let unary = vec![
        Byte::new(Instruction::CALL).with_call_packed(0, 0),
        Byte::new(Instruction::RETURN),
    ];
    assert_eq!(
        analyze_at(&unary, &[], 0, 2).tell_before(1).known(),
        Some(3)
    );
}

/// IL after-cursor must match
/// bytecode CALL, and must *not* match JumpIfMatch's `arity - 1`.
#[test]
fn entry_call_tell_after_matches_bytecode_not_signed_arity_delta() {
    for arity in [0u32, 2, 3] {
        let seed = arity + 2;
        let (il, bc) = entry_call_tell_after(arity, seed);
        let call = shift(seed, call_result_delta(arity, false));
        let jim = shift(seed, signed_arity_delta(arity));
        assert_eq!(bc.known(), Some(call), "bytecode CALL arity {arity}");
        assert_eq!(il, bc, "IL Entry{{Call}} arity {arity} must match CALL");
        assert_ne!(
            il.known(),
            Some(jim),
            "Entry{{Call}} arity {arity} must not use JumpIfMatch's arity-1"
        );
    }
}

#[test]
fn store_pop_tell_after_matches_bytecode_store() {
    let (il, bc) = store_pop_tell_after(5, 0);
    assert_eq!(bc.known(), Some(6));
    assert_eq!(il, bc);
    let (il, bc) = store_pop_tell_after(0, 3);
    // pop then floor at 1, so cursor stays 3
    assert_eq!(il, bc);
    assert_eq!(il.known(), Some(3));
}

/// Diff the operations of a call and a store against their instructions.
#[test]
fn diff_il_against_lowered_bytecode_agrees_on_call_and_store() {
    let loc = DebugLoc::unknown();
    let ops = vec![
        IlOp::Label(Label(0)),
        IlOp::Const { imm: 1, loc },
        IlOp::StorePop { slot: 0, loc },
        IlOp::Entry {
            kind: EntryKind::Call,
            arity: 0,
            target: Label(0),
            loc,
        ret_words: 1,
    },
        IlOp::Return { loc, ret_words: 1 },
    ];
    let pool: Vec<u64> = vec![];
    let bytecode = vec![
        Byte::new(Instruction::CONST).with_const_inline(1),
        store(0),
        Byte::new(Instruction::CALL).with_call_packed(0, 0),
        Byte::new(Instruction::RETURN),
    ];
    let pre_to_post: Vec<Option<usize>> = vec![Some(0), Some(1), Some(2), Some(3)];
    let ranges = vec![("f".to_string(), 0, bytecode.len())];
    let seeds = vec![(0usize, 1u32)];
    let report = diff_il_against_bytecode(
        &ops,
        &pre_to_post,
        &bytecode,
        &pool,
        &ranges,
        &seeds,
    );
    assert!(report.mismatches.is_empty(), "{:?}", report.mismatches);
    assert!(report.saw_call && report.saw_store);
    assert!(report.known > 0);
}

/// Leading and trailing labels around a fn body must stay in the IL slice so
/// intra-body jumps still resolve when diffing a single function range.
#[test]
fn il_fn_raw_range_includes_surrounding_labels() {
    let loc = DebugLoc::unknown();
    let ops = vec![
        IlOp::Label(Label(9)),
        IlOp::Const { imm: 1, loc },
        IlOp::Jump {
            kind: IlJumpKind::Unconditional,
            target: Label(1),
            loc,
            hint: Default::default(),
        },
        IlOp::Label(Label(1)),
        IlOp::Return { loc, ret_words: 1 },
        IlOp::Label(Label(8)),
    ];
    let bytecode = vec![
        Byte::new(Instruction::CONST).with_const_inline(1),
        Byte::new(Instruction::JMP).with_operand_u32(2),
        Byte::new(Instruction::RETURN),
    ];
    let pre_to_post: Vec<Option<usize>> = vec![Some(0), Some(1), Some(2)];
    let (start, end) =
        il_fn_raw_range(&ops, &pre_to_post, 0, bytecode.len()).expect("range");
    assert_eq!(start, 0, "leading Label must be included");
    assert_eq!(end, ops.len(), "trailing Label must be included");
    assert!(matches!(ops[start], IlOp::Label(_) | IlOp::JoinLabel(_)));
    assert!(matches!(ops[end - 1], IlOp::Label(_) | IlOp::JoinLabel(_)));
}

/// Fused windows share one post-PC; only the window head is compared.
/// Dropping that skip would diff Return's post-Const cursor against the
/// fused ConstReturnImm *entry* cursor.
#[test]
fn diff_il_skips_fused_window_tails_sharing_post_pc() {
    let loc = DebugLoc::unknown();
    let ops = vec![IlOp::Const { imm: 7, loc }, IlOp::Return { loc, ret_words: 1 }];
    let pool: Vec<u64> = vec![];
    let bytecode = vec![Byte::new(Instruction::ConstReturnImm).with_const_inline(7)];
    let pre_to_post: Vec<Option<usize>> = vec![Some(0), Some(0)];
    assert_eq!(bytecode.len(), 1, "Const;Return must fuse");
    assert_eq!(
        pre_to_post[0],
        pre_to_post[1],
        "both pre indices must map to the fused PC"
    );
    let ranges = vec![("f".to_string(), 0, bytecode.len())];
    let seeds = vec![(0usize, 0u32)];
    let report = diff_il_against_bytecode(
        &ops,
        &pre_to_post,
        &bytecode,
        &pool,
        &ranges,
        &seeds,
    );
    assert!(report.mismatches.is_empty(), "{:?}", report.mismatches);
    assert_eq!(report.checked, 1, "only the fused window head is checked");
    assert_eq!(report.known, 1);
}

/// Fail-closed: IL Known that disagrees with bytecode Known is recorded.
#[test]
fn diff_il_records_known_mismatch_when_call_arity_diverges() {
    let loc = DebugLoc::unknown();
    let mut ops = vec![
        IlOp::Entry {
            kind: EntryKind::Call,
            arity: 0,
            target: Label(0),
            loc,
        ret_words: 1,
    },
        IlOp::Return { loc, ret_words: 1 },
                IlOp::Label(Label(0)),
    ];
    let pool: Vec<u64> = vec![];
    let bytecode = vec![
        Byte::new(Instruction::CALL).with_call_packed(0, 2),
        Byte::new(Instruction::RETURN),
    ];
    let pre_to_post: Vec<Option<usize>> = vec![Some(0), Some(1)];
    // Same layout / map, but IL effect now uses arity 2 (`1-2`) while BC is arity 0 (`+1`).
    ops[0] = IlOp::Entry {
        kind: EntryKind::Call,
        arity: 2,
        target: Label(0),
        loc,
    ret_words: 1,
    };
    let ranges = vec![("f".to_string(), 0, bytecode.len())];
    let seeds = vec![(0usize, 3u32)];
    let report = diff_il_against_bytecode(
        &ops,
        &pre_to_post,
        &bytecode,
        &pool,
        &ranges,
        &seeds,
    );
    assert!(
        !report.mismatches.is_empty(),
        "arity divergence must be reported"
    );
    assert!(report.saw_call);
    // tell_before at Call is the shared seed; the diverge shows on the next PC.
    assert!(
        report
            .mismatches
            .iter()
            .any(|m| m.contains("il=2") && m.contains("bytecode=4")),
        "expected post-Call cursor 2 vs 4 (seed 3, arity 2 vs 0); got {:?}",
        report.mismatches
    );
}

/// Missing entry seeds skip the function rather than panicking or vacuous-checking.
#[test]
fn diff_il_skips_ranges_without_entry_seeds() {
    let loc = DebugLoc::unknown();
    let ops = vec![IlOp::Const { imm: 1, loc }, IlOp::Return { loc, ret_words: 1 }];
    let pool: Vec<u64> = vec![];
    let bytecode = vec![Byte::new(Instruction::ConstReturnImm).with_const_inline(1)];
    let pre_to_post: Vec<Option<usize>> = vec![Some(0), Some(0)];
    let ranges = vec![("f".to_string(), 0, bytecode.len())];
    let seeds: Vec<(usize, u32)> = Vec::new();
    let report = diff_il_against_bytecode(
        &ops,
        &pre_to_post,
        &bytecode,
        &pool,
        &ranges,
        &seeds,
    );
    assert_eq!(report.checked, 0);
    assert!(report.mismatches.is_empty());
}

/// Bytecode JumpIfMatch taken edge is Unknown; IL may still be Known — not a mismatch.
#[test]
fn diff_il_allows_il_known_where_bytecode_taken_edge_is_unknown() {
    let loc = DebugLoc::unknown();
    let ops = vec![
        IlOp::Jump {
            kind: IlJumpKind::JumpIfMatch { tag: 0, arity: 2 },
            target: Label(0),
            loc,
            hint: Default::default(),
        },
        IlOp::Return { loc, ret_words: 1 },
        IlOp::Label(Label(0)),
        IlOp::Return { loc, ret_words: 1 },
    ];
    let pool: Vec<u64> = vec![2];
    let bytecode = vec![
        Byte::new(Instruction::JumpIfMatch).with_match(0, 0),
        Byte::new(Instruction::RETURN),
        Byte::new(Instruction::RETURN),
    ];
    let pre_to_post: Vec<Option<usize>> = vec![Some(0), Some(1), Some(2)];
    let ranges = vec![("f".to_string(), 0, bytecode.len())];
    let seeds = vec![(0usize, 3u32)];
    let report = diff_il_against_bytecode(
        &ops,
        &pre_to_post,
        &bytecode,
        &pool,
        &ranges,
        &seeds,
    );
    assert!(report.mismatches.is_empty(), "{:?}", report.mismatches);
    assert!(
        report.known > 0,
        "IL Known on fall-through / taken must still count"
    );
}

/// `MakeCoro` shares `call_arity_delta` with `Call` — keep them locked together.
#[test]
fn symbolic_il_make_coro_matches_call_delta() {
    let loc = DebugLoc::unknown();
    for arity in [0u32, 1, 3] {
        let call = vec![
            IlOp::Entry {
                kind: EntryKind::Call,
                arity,
                target: Label(0),
                loc,
            ret_words: 1,
    },
            IlOp::Return { loc, ret_words: 1 },
        ];
        let coro = vec![
            IlOp::Entry {
                kind: EntryKind::MakeCoro,
                arity,
                target: Label(0),
                loc,
            ret_words: 1,
    },
            IlOp::Return { loc, ret_words: 1 },
        ];
        let entry = arity + 1;
        let after_call = analyze_il_at(&call, entry).tell_before(1).known();
        let after_coro = analyze_il_at(&coro, entry).tell_before(1).known();
        assert_eq!(
            after_call, after_coro,
            "MakeCoro arity {arity} must match Call"
        );
        assert_eq!(
            after_call,
            Some(entry + 1 - arity),
            "Call/MakeCoro arity {arity}"
        );
    }
}

/// Unlike bytecode JumpIfMatch, IL carries arity so the taken edge is modelled.
#[test]
fn symbolic_il_jump_if_match_models_taken_edge_with_arity() {
    let loc = DebugLoc::unknown();
    let ops = vec![
        IlOp::Jump {
            kind: IlJumpKind::JumpIfMatch { tag: 0, arity: 2 },
            target: Label(0),
            loc,
            hint: Default::default(),
        },
        IlOp::Return { loc, ret_words: 1 },
        IlOp::Label(Label(0)),
        IlOp::Return { loc, ret_words: 1 },
    ];
    let info = analyze_il_at(&ops, 3);
    // Fall-through keeps cursor; taken edge applies arity-1 (= +1) → 4.
    assert_eq!(info.tell_before(1).known(), Some(3));
    assert_eq!(info.tell_before(2).known(), Some(4));
}

/// The cursor is genuinely not a per-PC constant: a loop that stores to a
/// higher slot each pass reaches its header with a different cursor on the
/// back edge than on first entry, so `Unknown` there is correct rather than a
/// modelling gap. Consumers should therefore reason about the *change* a
/// rewrite makes to the cursor, not its absolute value.
#[test]
fn loop_header_cursor_is_unknown_when_the_body_stores_higher() {
    let code = vec![
        Byte::new(Instruction::JMP).with_operand_u32(1), // preheader
        // header
        Byte::new(Instruction::CONST).with_const_inline(1),
        store(7), // body raises the cursor to 8
        Byte::new(Instruction::JMP).with_operand_u32(1),
    ];
    let info = analyze_at(&code, &[], 0, 0);
    // First entry arrives with 0, the back edge with 8.
    assert_eq!(info.tell_before(1), Tell::Unknown);
}

#[test]
fn disagreeing_predecessors_poison() {
    // Fall-through arrives with 1, the back-branch with 0.
    let code = vec![
        Byte::new(Instruction::CONST).with_const_inline(1),
        Byte::new(Instruction::JMPF).with_operand_u32(3),
        Byte::new(Instruction::CONST).with_const_inline(2),
        Byte::new(Instruction::NOOP),
    ];
    let info = analyze_at(&code, &[], 0, 0);
    assert_eq!(info.tell_before(3), Tell::Unknown);
}

#[test]
fn unmodelled_opcode_poisons_downstream() {
    let code = vec![
        Byte::new(Instruction::FfiInvoke).with_operand_u32(0),
        Byte::new(Instruction::NOOP),
    ];
    let info = analyze_at(&code, &[], 0, 0);
    assert_eq!(info.tell_before(0).known(), Some(0));
    assert_eq!(info.tell_before(1), Tell::Unknown);
}

/// Packed multi-slot STORE floors to `max(slot) + 1`, not the first slot.
#[test]
fn packed_store_floors_to_the_highest_written_slot() {
    let code = vec![
        Byte::new(Instruction::CONST).with_const_inline(1),
        Byte::new(Instruction::CONST).with_const_inline(2),
        Byte::new(Instruction::STORE).with_load_store_packed(2, 3, 7, 0),
        Byte::new(Instruction::NOOP),
    ];
    // Two consts → cursor 2; pop 2 then floor at 8.
    assert_eq!(cursors(&code).last().copied().unwrap(), Some(8));
}

/// Fused `BinSlotSlotStore` has no stack traffic but still protects `dest`.
#[test]
fn bin_slot_slot_store_raises_cursor_without_stack_delta() {
    let code = vec![
        Byte::new(Instruction::BinSlotSlotStore).with_bin_slot_slot_store(
            Instruction::BITAND,
            0,
            1,
            5,
        ),
        Byte::new(Instruction::NOOP),
    ];
    assert_eq!(cursors(&code), vec![Some(0), Some(6)]);
}

/// Dest lives in the pool high half — a wrong decode silently under-floors.
#[test]
fn bin_slot_imm_store_floors_from_pool_dest() {
    let pool = vec![(5u64 << 32) | 1];
    let code = vec![
        Byte::new(Instruction::BinSlotImmStore).with_pooled(Instruction::ADD, 0, 0, 0),
        Byte::new(Instruction::NOOP),
    ];
    let info = analyze_at(&code, &pool, 0, 0);
    assert_eq!(info.tell_before(1).known(), Some(6));
    assert!(is_modelled(&code[0], &pool));
}

#[test]
fn bin_slot_imm_store_with_missing_pool_entry_is_unmodelled() {
    let code = vec![
        Byte::new(Instruction::BinSlotImmStore).with_pooled(Instruction::ADD, 0, 0, 0),
        Byte::new(Instruction::NOOP),
    ];
    let info = analyze_at(&code, &[], 0, 0);
    assert!(!is_modelled(&code[0], &[]));
    assert_eq!(info.tell_before(1), Tell::Unknown);
}

#[test]
fn unpack_pushes_payload_arity_minus_scrutinee() {
    let code = vec![
        Byte::new(Instruction::CONST).with_const_inline(1),
        Byte::new(Instruction::Unpack).with_operand_u32(2),
        Byte::new(Instruction::NOOP),
    ];
    // cursor 1 → pop 1 + push 2 → 2
    assert_eq!(cursors(&code).last().copied().unwrap(), Some(2));
}

/// Taken edge is intentionally unmodelled: payload arity is runtime-only.
#[test]
fn jump_if_match_fallthrough_keeps_cursor_taken_edge_unknown() {
    let pool = vec![2u64];
    let jim = Byte::new(Instruction::JumpIfMatch).with_match(0, 0);
    assert!(!is_modelled(&jim, &pool));
    let code = vec![
        jim,
        Byte::new(Instruction::NOOP),
        Byte::new(Instruction::NOOP),
    ];
    let info = analyze_at(&code, &pool, 0, 3);
    assert_eq!(info.tell_before(1).known(), Some(3));
    assert_eq!(info.tell_before(2), Tell::Unknown);
}

#[test]
fn return_terminator_blocks_fallthrough() {
    let code = vec![
        Byte::new(Instruction::CONST).with_const_inline(1),
        Byte::new(Instruction::RETURN),
        Byte::new(Instruction::NOOP),
    ];
    let info = analyze_at(&code, &[], 0, 0);
    assert_eq!(info.tell_before(2), Tell::Unknown);
}

/// Absolute `Seek` re-anchors a poisoned path so later stores stay usable.
#[test]
fn seek_recovers_known_cursor_after_unknown() {
    let code = vec![
        Byte::new(Instruction::FfiInvoke).with_operand_u32(0),
        Byte::new(Instruction::Seek).with_operand_u32(4),
        Byte::new(Instruction::NOOP),
    ];
    let info = analyze_at(&code, &[], 0, 0);
    assert_eq!(info.tell_before(1), Tell::Unknown);
    assert_eq!(info.tell_before(2).known(), Some(4));
}

/// Fused jmpf forms pack the target in the pool high half — must join both edges.
#[test]
fn bin_slot_imm_jmpf_joins_fallthrough_and_taken_with_same_cursor() {
    let pool = vec![2u64 << 32];
    let code = vec![
        Byte::new(Instruction::BinSlotImmJmpf).with_pooled(Instruction::LE, 0, 0, 0),
        Byte::new(Instruction::NOOP),
        Byte::new(Instruction::NOOP),
    ];
    let info = analyze_at(&code, &pool, 0, 1);
    assert!(is_modelled(&code[0], &pool));
    assert_eq!(info.tell_before(1).known(), Some(1));
    assert_eq!(info.tell_before(2).known(), Some(1));
}

#[test]
fn bin_slot_slot_jmpf_joins_both_edges() {
    let pool = vec![2u64 << 32];
    let code = vec![
        Byte::new(Instruction::BinSlotSlotJmpf).with_pooled(Instruction::AND, 0, 0, 0),
        Byte::new(Instruction::NOOP),
        Byte::new(Instruction::NOOP),
    ];
    let info = analyze_at(&code, &pool, 0, 2);
    assert_eq!(info.tell_before(1).known(), Some(2));
    assert_eq!(info.tell_before(2).known(), Some(2));
}

//! Removal of functions that nothing calls.
use compiler::il::codebuf::CodeBuf;
use compiler::il::op::{Byte, DebugLoc, EntryKind, IlOp, Instruction, Label};
use compiler::il::treeshake::{prune_unused_functions, TreeshakeInput};

fn entry(input: &TreeshakeInput, name: &str) -> Option<usize> {
    input.functions.iter().find(|f| f.0 == name).map(|f| f.1)
}

#[test]
fn prunes_unreferenced_thunk_keeps_main() {
    let mut buf = CodeBuf::new();
    let mut functions: Vec<(String, usize)> = Vec::new();
    let mut labels: Vec<(String, Label)> = Vec::new();

    let dead_l = buf.bind_fresh_entry();
    let dead_pc = 0usize;
    functions.push(("Hash__unit__hash".into(), dead_pc));
    labels.push(("Hash__unit__hash".into(), dead_l));
    buf.push_const(0);
    buf.push_return();

    let main_pc = buf.len();
    let main_l = buf.bind_fresh_entry();
    functions.push(("main".into(), main_pc));
    labels.push(("main".into(), main_l));
    buf.push_const(1);
    buf.push_return();

    let mut input = TreeshakeInput {
        functions,
        fn_entry_labels: labels,
        fn_debug_locals: Vec::new(),
        test_cases: Vec::new(),
        root_names: vec!["main".into()],
        include_tests: false,
        preserve_emit_start: None,
    };
    let (dropped, _) = prune_unused_functions(&mut buf, &mut input);
    assert_eq!(dropped, 1);
    assert!(entry(&input, "main").is_some());
    assert!(!entry(&input, "Hash__unit__hash").is_some());
    assert_eq!(entry(&input, "main"), Some(0));
    assert_eq!(buf.len(), 2); // CONST; RETURN
}

#[test]
fn keeps_callee_of_main() {
    let mut buf = CodeBuf::new();
    let mut functions: Vec<(String, usize)> = Vec::new();
    let mut labels: Vec<(String, Label)> = Vec::new();

    let foo_pc = buf.len();
    let foo_l = buf.bind_fresh_entry();
    functions.push(("foo".into(), foo_pc));
    labels.push(("foo".into(), foo_l));
    buf.push_const(7);
    buf.push_return();

    let main_pc = buf.len();
    let main_l = buf.bind_fresh_entry();
    functions.push(("main".into(), main_pc));
    labels.push(("main".into(), main_l));
    buf.push_op(IlOp::Entry {
        kind: EntryKind::Call,
        arity: 0,
        target: foo_l,
        loc: DebugLoc::unknown(),
        ret_words: 1,
    });
    buf.push_pop();
    buf.push_return();

    let mut input = TreeshakeInput {
        functions,
        fn_entry_labels: labels,
        fn_debug_locals: Vec::new(),
        test_cases: Vec::new(),
        root_names: vec!["main".into()],
        include_tests: false,
        preserve_emit_start: None,
    };
    let (dropped, _) = prune_unused_functions(&mut buf, &mut input);
    assert_eq!(dropped, 0);
    assert!(entry(&input, "foo").is_some());
    assert!(entry(&input, "main").is_some());
}

#[test]
fn preserves_static_init_gap_between_thunk_and_main() {
    let mut buf = CodeBuf::new();
    let mut functions: Vec<(String, usize)> = Vec::new();
    let mut labels: Vec<(String, Label)> = Vec::new();

    // Packed builtin thunk; without preserve_emit_start its span would
    // swallow the interstitial setup ops through main's entry PC.
    let dead_l = buf.bind_fresh_entry();
    functions.push(("Hash__unit__hash".into(), 0usize));
    labels.push(("Hash__unit__hash".into(), dead_l));
    buf.push_const(0);
    buf.push_return();

    let preserve = buf.len();
    buf.push_const(11); // static-init / setup payload that must survive
    buf.push_pop();

    let main_pc = buf.len();
    let main_l = buf.bind_fresh_entry();
    functions.push(("main".into(), main_pc));
    labels.push(("main".into(), main_l));
    buf.push_const(1);
    buf.push_return();

    let mut input = TreeshakeInput {
        functions,
        fn_entry_labels: labels,
        fn_debug_locals: Vec::new(),
        test_cases: Vec::new(),
        root_names: vec!["main".into()],
        include_tests: false,
        preserve_emit_start: Some(preserve),
    };
    let (dropped, _) = prune_unused_functions(&mut buf, &mut input);
    assert_eq!(dropped, 1);
    assert!(!entry(&input, "Hash__unit__hash").is_some());
    assert!(entry(&input, "main").is_some());
    assert!(
        buf.ops()
            .iter()
            .any(|op| matches!(op, IlOp::Const { imm: 11, .. })),
        "static-init CONST must survive thunk shake"
    );
    assert_eq!(entry(&input, "main"), Some(2)); // setup CONST;POP then main
}

#[test]
fn include_tests_roots_test_case_fn() {
    let mut buf = CodeBuf::new();
    let mut functions: Vec<(String, usize)> = Vec::new();
    let mut labels: Vec<(String, Label)> = Vec::new();

    let test_pc = buf.len();
    let test_l = buf.bind_fresh_entry();
    functions.push(("test_add".into(), test_pc));
    labels.push(("test_add".into(), test_l));
    buf.push_const(3);
    buf.push_return();

    let main_pc = buf.len();
    let main_l = buf.bind_fresh_entry();
    functions.push(("main".into(), main_pc));
    labels.push(("main".into(), main_l));
    buf.push_const(1);
    buf.push_return();

    let mut input = TreeshakeInput {
        functions,
        fn_entry_labels: labels,
        fn_debug_locals: Vec::new(),
        test_cases: vec![("add".into(), test_pc as u32)],
        root_names: vec!["main".into()],
        include_tests: true,
        preserve_emit_start: None,
    };
    let (dropped, _) = prune_unused_functions(&mut buf, &mut input);
    assert_eq!(dropped, 0);
    assert!(entry(&input, "test_add").is_some());
    assert_eq!(input.test_cases.len(), 1);
}

#[test]
fn absolute_call_byte_keeps_callee() {
    let mut buf = CodeBuf::new();
    let mut functions: Vec<(String, usize)> = Vec::new();
    let mut labels: Vec<(String, Label)> = Vec::new();

    let foo_pc = buf.len();
    let foo_l = buf.bind_fresh_entry();
    functions.push(("foo".into(), foo_pc));
    labels.push(("foo".into(), foo_l));
    buf.push_const(7);
    buf.push_return();

    let main_pc = buf.len();
    let main_l = buf.bind_fresh_entry();
    functions.push(("main".into(), main_pc));
    labels.push(("main".into(), main_l));
    buf.push_op(IlOp::byte(
        Byte::new(Instruction::CALL).with_call_packed(0, foo_pc as u32),
    ));
    buf.push_pop();
    buf.push_return();

    let mut input = TreeshakeInput {
        functions,
        fn_entry_labels: labels,
        fn_debug_locals: Vec::new(),
        test_cases: Vec::new(),
        root_names: vec!["main".into()],
        include_tests: false,
        preserve_emit_start: None,
    };
    let (dropped, _) = prune_unused_functions(&mut buf, &mut input);
    assert_eq!(dropped, 0);
    assert!(entry(&input, "foo").is_some());
    assert!(entry(&input, "main").is_some());
}

#[test]
fn retains_live_func_entry_sp_metadata() {
    let mut buf = CodeBuf::new();
    let mut functions: Vec<(String, usize)> = Vec::new();
    let mut labels: Vec<(String, Label)> = Vec::new();

    let dead_l = buf.bind_fresh_entry();
    functions.push(("dead".into(), 0usize));
    labels.push(("dead".into(), dead_l));
    buf.push_const(0);
    buf.push_return();
    buf.record_func_with_sp("dead", Some(dead_l), 0, 2, 1);

    let main_pc = buf.len();
    let main_l = buf.bind_fresh_entry();
    functions.push(("main".into(), main_pc));
    labels.push(("main".into(), main_l));
    buf.push_const(1);
    buf.push_return();
    buf.record_func_with_sp("main", Some(main_l), main_pc, main_pc + 2, 4);

    let mut input = TreeshakeInput {
        functions,
        fn_entry_labels: labels,
        fn_debug_locals: Vec::new(),
        test_cases: Vec::new(),
        root_names: vec!["main".into()],
        include_tests: false,
        preserve_emit_start: None,
    };
    let _ = prune_unused_functions(&mut buf, &mut input);
    assert_eq!(buf.funcs().len(), 1);
    assert_eq!(buf.funcs()[0].name, "main");
    assert_eq!(buf.funcs()[0].entry_sp, 4);
}

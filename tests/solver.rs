use checker::smt_solver::{apply_ops, SolverOp, Combined, ModelParam, SmtParam, SmtParamValue, SmtResult, SmtSolver, SolverStub};

#[test]
fn stub_solve_is_undefined() {
    let mut stub = SolverStub::new();
    assert_eq!(stub.solve(), SmtResult::Undefined);
}

#[test]
fn stub_solve_expression_is_undefined_and_leaves_solve_alone() {
    let mut stub = SolverStub::default();
    let before = stub.solve();
    assert_eq!(stub.solve_expression(&7), SmtResult::Undefined);
    assert_eq!(stub.solve(), before);
}

#[test]
fn stub_translation_and_diagnostics() {
    let stub = SolverStub::new();
    assert_eq!(stub.get_as_smt_predicate(&"x > 1"), 0);
    assert_eq!(stub.invert_predicate(&5), 0);
    assert!(stub.get_model_params(&"x > 1").is_empty());
    assert_eq!(stub.as_debug_string(&3), "not implemented");
    assert_eq!(stub.get_model_as_string(), "not implemented");
    assert_eq!(stub.get_solver_state_as_string(), "not implemented");
}

#[test]
fn stub_nests_a_thousand_contexts() {
    let mut stub = SolverStub::new();
    for i in 0..1000usize {
        stub.set_backtrack_position();
        stub.assert_predicate(&i);
    }
    for _ in 0..1000usize {
        stub.backtrack();
    }
    stub.reset();
    assert_eq!(stub.solve(), SmtResult::Undefined);
}

#[test]
fn value_text_of_each_kind() {
    assert_eq!(SmtParamValue::Bool { val: true }.to_text(), "true");
    assert_eq!(SmtParamValue::Bool { val: false }.to_text(), "false");
    assert_eq!(SmtParamValue::Numeral { val: 42 }.to_text(), "42");
    assert_eq!(SmtParamValue::Numeral { val: 0 }.to_text(), "0");
    assert_eq!(SmtParamValue::Numeral { val: -7 }.to_text(), "-7");
    assert_eq!(SmtParamValue::Numeral { val: 1234567890 }.to_text(), "1234567890");
    assert_eq!(SmtParamValue::Unknown.to_text(), "_");
}

#[test]
fn value_text_of_extreme_numerals() {
    assert_eq!(SmtParamValue::Numeral { val: i128::MIN }.to_text(), i128::MIN.to_string());
    assert_eq!(SmtParamValue::Numeral { val: i128::MAX }.to_text(), i128::MAX.to_string());
}

#[test]
fn model_param_accessors() {
    let p = ModelParam::new("x".to_string(), Some(3), SmtParamValue::Numeral { val: 5 }, Some("let x = 5;".to_string()));
    assert_eq!(p.get_name(), "x");
    assert_eq!(p.get_path(), Some(3));
    assert_eq!(p.get_val(), SmtParamValue::Numeral { val: 5 });
    assert_eq!(p.get_initializer(), Some("let x = 5;".to_string()));
    assert_eq!(p.get_debug_string(), "x");
}

#[test]
fn combined_from_path_index() {
    let c: Combined<u8, u8, u8, u8> = Combined::from(4usize);
    assert!(matches!(c, Combined::Path { val: 4 }));
}

#[test]
fn stub_replays_a_balanced_sequence() {
    let mut stub = SolverStub::new();
    let ops = vec![
        SolverOp::Push,
        SolverOp::Assert(1usize),
        SolverOp::Push,
        SolverOp::Assert(2usize),
        SolverOp::Pop,
        SolverOp::Assert(3usize),
        SolverOp::Pop,
    ];
    apply_ops(&mut stub, &ops);
    assert_eq!(stub.solve(), SmtResult::Undefined);
    assert_eq!(stub.solve_expression(&4), SmtResult::Undefined);
}

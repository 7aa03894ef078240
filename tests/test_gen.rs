use std::collections::HashMap;

use checker::access_path::PathArena;
use checker::emit::{make_constructor_function, output_function_testcases, output_testcase};
use checker::smt_solver::{ModelParam, SmtParamValue, SmtResult};
use checker::names::sanitize_function_name;
use checker::test_gen::{FuncArg, FuncTestCaseInfo, ResolvedParam, TestGen, TestGenError, Testcase};

fn num(name: &str, path: usize, val: i128) -> ModelParam {
    ModelParam::new(name.to_string(), Some(path), SmtParamValue::Numeral { val }, None)
}

fn strings(items: &[&str]) -> Vec<String> {
    items.iter().map(|s| s.to_string()).collect()
}

const STUB_BODY: &str = "{\n        todo!(\"Make an instance of this struct using the given params.\")\n    }\n\n";

#[test]
fn plain_integer_argument_is_passed_directly() {
    let mut paths = PathArena::new();
    let p1 = paths.add_parameter(1);
    let mut gen: TestGen<()> = TestGen::new("out".to_string());
    let r = gen.add_test("f", (), &vec![num("x", p1, 42)], &strings(&["i32"]), &paths, &strings(&["i32"]), &HashMap::new());
    assert_eq!(r, Ok(()));
    let units = gen.output_units();
    assert_eq!(units.len(), 1);
    assert_eq!(units[0].file_name, "f_tests.rs");
    let expected = "\n#[cfg(test)]\nmod f_tests {\n    use super::*;\n\n    #[test]\n    fn test_0() {\n        let x: i32 = 42;\n\n\n        f(42);\n    }\n\n}\n";
    assert_eq!(units[0].contents, expected);
    assert!(!units[0].contents.contains("construct_"));
}

#[test]
fn composite_argument_gets_constructor_stub() {
    let mut paths = PathArena::new();
    let p1 = paths.add_parameter(1);
    let a = paths.add_qualified(p1, "a".to_string());
    let b = paths.add_qualified(p1, "b".to_string());
    let mut names = HashMap::new();
    names.insert(1usize, "s".to_string());
    let mut gen: TestGen<u32> = TestGen::new("out".to_string());
    let both = vec![num("a", a, 3), ModelParam::new("b".to_string(), Some(b), SmtParamValue::Bool { val: true }, None)];
    assert_eq!(gen.add_test("g", 1, &both, &strings(&["i32", "bool"]), &paths, &strings(&["S"]), &names), Ok(()));
    assert_eq!(gen.add_test("g", 2, &vec![num("a", a, 5)], &strings(&["i32"]), &paths, &strings(&["S"]), &names), Ok(()));
    let units = gen.output_units();
    assert_eq!(units.len(), 1);
    let stub = format!("    fn construct_s(a: Option<i32>, b: Option<bool>) -> S{}", STUB_BODY);
    let test0 = "    #[test]\n    fn test_0() {\n        let a: i32 = 3;\n        let b: bool = true;\n\n        let s: S = construct_s(Some(a), Some(b));\n\n        g(s);\n    }\n\n";
    let test1 = "    #[test]\n    fn test_1() {\n        let a: i32 = 5;\n\n        let s: S = construct_s(Some(a), None);\n\n        g(s);\n    }\n\n";
    let expected = format!("\n#[cfg(test)]\nmod g_tests {{\n    use super::*;\n\n{}{}{}}}\n", stub, test0, test1);
    assert_eq!(units[0].contents, expected);
    assert_eq!(units[0].contents.matches("fn construct_s").count(), 1);
}

#[test]
fn first_resolution_of_a_field_is_kept() {
    let mut paths = PathArena::new();
    let p1 = paths.add_parameter(1);
    let a = paths.add_qualified(p1, "a".to_string());
    let mut names = HashMap::new();
    names.insert(1usize, "s".to_string());
    let mut gen: TestGen<()> = TestGen::new("out".to_string());
    assert_eq!(gen.add_test("h", (), &vec![num("a", a, 1)], &strings(&["i32"]), &paths, &strings(&["S"]), &names), Ok(()));
    assert_eq!(gen.add_test("h", (), &vec![num("a", a, 2)], &strings(&["u8"]), &paths, &strings(&["S"]), &names), Ok(()));
    let text = &gen.output_units()[0].contents;
    assert!(text.contains("fn construct_s(a: Option<i32>) -> S"));
    assert!(!text.contains("Option<u8>"));
    assert!(text.contains("        let a: u8 = 2;\n"));
}

#[test]
fn identical_runs_emit_identical_output() {
    fn run() -> Vec<(String, String)> {
        let mut paths = PathArena::new();
        let p1 = paths.add_parameter(1);
        let p2 = paths.add_parameter(2);
        let f = paths.add_qualified(p2, "f".to_string());
        let mut gen: TestGen<()> = TestGen::new("out".to_string());
        let types = strings(&["i64", "T"]);
        gen.add_test("m::zeta", (), &vec![num("x", p1, -1), num("f", f, 9)], &strings(&["i64", "u16"]), &paths, &types, &HashMap::new()).unwrap();
        gen.add_test("alpha", (), &vec![num("x", p1, 7)], &strings(&["i64"]), &paths, &types, &HashMap::new()).unwrap();
        gen.add_test("m::zeta", (), &vec![num("x", p1, 3)], &strings(&["i64"]), &paths, &types, &HashMap::new()).unwrap();
        gen.output_units().into_iter().map(|u| (u.file_name, u.contents)).collect()
    }
    let first = run();
    let second = run();
    assert_eq!(first, second);
    assert_eq!(first.len(), 2);
    assert_eq!(first[0].0, "alpha_tests.rs");
    assert_eq!(first[1].0, "m_zeta_tests.rs");
    assert!(first[1].1.contains("        m::zeta(-1, param_2);\n"));
    assert!(first[1].1.contains("        let param_2: T = construct_param_2(Some(f));\n"));
    assert!(first[1].1.contains("        let param_2: T = construct_param_2(None);\n"));
}

#[test]
fn undefined_result_records_nothing() {
    let mut paths = PathArena::new();
    let p1 = paths.add_parameter(1);
    let mut gen: TestGen<()> = TestGen::new("out".to_string());
    let params = vec![num("x", p1, 1)];
    for result in [SmtResult::Undefined, SmtResult::Unsatisfiable] {
        let r = gen.record_solution(result, "f", (), &params, &strings(&["i32"]), &paths, &strings(&["i32"]), &HashMap::new());
        assert_eq!(r, Ok(false));
        assert_eq!(gen.function_count(), 0);
        assert!(gen.output_units().is_empty());
    }
    let r = gen.record_solution(SmtResult::Satisfiable, "f", (), &params, &strings(&["i32"]), &paths, &strings(&["i32"]), &HashMap::new());
    assert_eq!(r, Ok(true));
    assert_eq!(gen.function_count(), 1);
}

#[test]
fn each_error_leaves_state_unchanged() {
    let mut paths = PathArena::new();
    let p1 = paths.add_parameter(1);
    let p3 = paths.add_parameter(3);
    let other = paths.add_other("local".to_string());
    let q = paths.add_qualified(other, "f".to_string());
    let mut gen: TestGen<()> = TestGen::new("out".to_string());
    let args = strings(&["i32"]);
    let none = HashMap::new();
    assert_eq!(gen.add_test("f", (), &vec![num("x", p1, 1)], &strings(&[]), &paths, &args, &none), Err(TestGenError::TypeCountMismatch));
    let missing = vec![ModelParam::new("x".to_string(), None, SmtParamValue::Unknown, None)];
    assert_eq!(gen.add_test("f", (), &missing, &args, &paths, &args, &none), Err(TestGenError::MissingPath));
    assert_eq!(gen.add_test("f", (), &vec![num("x", 99, 1)], &args, &paths, &args, &none), Err(TestGenError::UnknownPath));
    assert_eq!(gen.add_test("f", (), &vec![num("x", q, 1)], &args, &paths, &args, &none), Err(TestGenError::RootNotParameter));
    assert_eq!(gen.add_test("f", (), &vec![num("x", p3, 1)], &args, &paths, &args, &none), Err(TestGenError::OrdinalOutOfRange));
    assert_eq!(gen.function_count(), 0);
    assert_eq!(gen.test_output_dir(), "out");
}

#[test]
fn arguments_default_to_param_names() {
    let mut paths = PathArena::new();
    let p2 = paths.add_parameter(2);
    let mut gen: TestGen<()> = TestGen::new("out".to_string());
    let mut names = HashMap::new();
    names.insert(2usize, "count".to_string());
    gen.add_test("k", (), &vec![ModelParam::new("c".to_string(), Some(p2), SmtParamValue::Unknown, None)], &strings(&["u8"]), &paths, &strings(&["bool", "u8"]), &names).unwrap();
    let text = &gen.output_units()[0].contents;
    assert!(text.contains("        let c: u8 = _;\n"));
    assert!(text.contains("        k(param_1, _);\n"));
}

#[test]
fn sanitizes_paths_and_dots() {
    assert_eq!(sanitize_function_name("a::b.c"), "a_b_c");
    assert_eq!(sanitize_function_name("plain"), "plain");
    assert_eq!(sanitize_function_name(""), "");
}

#[test]
fn emitters_on_hand_built_groups() {
    let p = ResolvedParam { name: "v".to_string(), rendered_type: "u8".to_string(), value_string: "3".to_string(), param_ordinal: None, related_to: 1 };
    let arg = FuncArg { rendered_type: "W".to_string(), name: "w".to_string(), ordinal: 1, related_to: vec![p.copy()] };
    assert_eq!(make_constructor_function(&arg), format!("    fn construct_w(v: Option<u8>) -> W{}", STUB_BODY));
    let tc = Testcase { abstract_val: (), param_list: vec![p.copy()] };
    let group = FuncTestCaseInfo { func_name: "q".to_string(), param_map: vec![p], testcases: vec![], args: vec![arg], func_name_raw: "q".to_string() };
    let expected = "    #[test]\n    fn test_12() {\n        let v: u8 = 3;\n\n        let w: W = construct_w(Some(v));\n\n        q(w);\n    }\n\n";
    assert_eq!(output_testcase(12, &group, &tc), expected);
    let unit = output_function_testcases(&group);
    assert_eq!(unit, format!("\n#[cfg(test)]\nmod q_tests {{\n    use super::*;\n\n    fn construct_w(v: Option<u8>) -> W{}}}\n", STUB_BODY));
}

#[test]
fn assignment_without_parameters_calls_with_argument_names() {
    let paths = PathArena::new();
    let mut gen: TestGen<()> = TestGen::new("out".to_string());
    let params: Vec<ModelParam> = vec![];
    assert_eq!(gen.add_test("n::m", (), &params, &vec![], &paths, &strings(&["u8"]), &HashMap::new()), Ok(()));
    let units = gen.output_units();
    assert_eq!(units[0].file_name, "n_m_tests.rs");
    let expected = "\n#[cfg(test)]\nmod n_m_tests {\n    use super::*;\n\n    #[test]\n    fn test_0() {\n\n\n        n::m(param_1);\n    }\n\n}\n";
    assert_eq!(units[0].contents, expected);
}

#[test]
fn calls_for_different_functions_commute() {
    fn run(f_first: bool) -> Vec<(String, String)> {
        let mut paths = PathArena::new();
        let p1 = paths.add_parameter(1);
        let f = paths.add_qualified(p1, "f".to_string());
        let mut gen: TestGen<()> = TestGen::new("out".to_string());
        let none = HashMap::new();
        let fields = vec![num("f", f, 4)];
        let direct = vec![num("x", p1, 8)];
        if f_first {
            gen.add_test("a::f", (), &fields, &strings(&["u8"]), &paths, &strings(&["S"]), &none).unwrap();
            gen.add_test("b", (), &direct, &strings(&["i32"]), &paths, &strings(&["i32"]), &none).unwrap();
        } else {
            gen.add_test("b", (), &direct, &strings(&["i32"]), &paths, &strings(&["i32"]), &none).unwrap();
            gen.add_test("a::f", (), &fields, &strings(&["u8"]), &paths, &strings(&["S"]), &none).unwrap();
        }
        gen.output_units().into_iter().map(|u| (u.file_name, u.contents)).collect()
    }
    assert_eq!(run(true), run(false));
    assert_eq!(run(true)[0].0, "a_f_tests.rs");
}

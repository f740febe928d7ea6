//! End-to-end behavior: parse a program, lower it, and evaluate the lowered
//! module with a small floating-point interpreter.

use foolang::ast::is_chain;
use foolang::codegen::LlvmGenerator;
use foolang::ir::{Inst, Module, SemanticError};
use foolang::parse::parser;

/// Evaluates one instruction body against the given parameter values,
/// returning every value the body defines.
fn eval_body(m: &Module, body: &[Inst], args: &[f64]) -> Vec<f64> {
    let mut vals: Vec<f64> = Vec::new();
    for inst in body {
        let v = match inst {
            Inst::Param(i) => args[*i],
            Inst::Const(d) => d.parse::<f64>().unwrap(),
            Inst::Add(a, b) => vals[*a] + vals[*b],
            Inst::Sub(a, b) => vals[*a] - vals[*b],
            Inst::Mul(a, b) => vals[*a] * vals[*b],
            Inst::Div(a, b) => vals[*a] / vals[*b],
            Inst::Neg(a) => -vals[*a],
            Inst::Call(name, argids) => {
                let f = m.functions.iter().find(|f| &f.name == name).unwrap();
                let fargs: Vec<f64> = argids.iter().map(|i| vals[*i]).collect();
                let out = eval_body(m, &f.body, &fargs);
                out[f.ret]
            }
        };
        vals.push(v);
    }
    vals
}

/// Parses, lowers and evaluates a whole program.
fn run_program(src: &str) -> Result<f64, SemanticError> {
    let ast = parser(src.as_bytes()).expect("program should parse");
    assert!(is_chain(&ast));
    let m = LlvmGenerator::generate(&ast)?;
    let vals = eval_body(&m, &m.main_body, &[]);
    Ok(vals[m.result])
}

#[test]
fn precedence_product_binds_tighter() {
    assert_eq!(run_program("2 + 3 * 4").unwrap(), 14.0);
}

#[test]
fn precedence_parens_override() {
    assert_eq!(run_program("(2 + 3) * 4").unwrap(), 20.0);
}

#[test]
fn unary_double_negation_folds() {
    assert_eq!(run_program("--5").unwrap(), 5.0);
}

#[test]
fn unary_single_negation() {
    assert_eq!(run_program("-5").unwrap(), -5.0);
}

#[test]
fn division_is_float_division() {
    assert_eq!(run_program("7 / 2").unwrap(), 3.5);
}

#[test]
fn left_associative_subtraction() {
    assert_eq!(run_program("10 - 4 - 3").unwrap(), 3.0);
}

#[test]
fn let_shadowing_sees_prior_binding() {
    assert_eq!(run_program("let x = 1; let x = x + 1; x").unwrap(), 2.0);
}

#[test]
fn fn_body_cannot_see_outer_let() {
    let err = run_program("let x = 1; fn f y = x + y; f(2)").unwrap_err();
    assert_eq!(err, SemanticError::UndefinedVariable("x".to_string()));
}

#[test]
fn undefined_variable_reported() {
    let err = run_program("nope").unwrap_err();
    assert_eq!(err, SemanticError::UndefinedVariable("nope".to_string()));
}

#[test]
fn duplicate_function_rejected_before_lowering_second_body() {
    // the second body reads an undefined variable: were it lowered first,
    // the error would be UndefinedVariable, not DuplicateFunction
    let err = run_program("fn f x = x; fn f y = w; 1").unwrap_err();
    assert_eq!(err, SemanticError::DuplicateFunction("f".to_string()));
}

#[test]
fn arity_mismatch_reports_expected_and_got() {
    let err = run_program("fn g a b = a + b; g(1)").unwrap_err();
    assert_eq!(err, SemanticError::ArityMismatch("g".to_string(), 2, 1));
}

#[test]
fn unknown_call_reported() {
    let err = run_program("f(1)").unwrap_err();
    assert_eq!(err, SemanticError::UndefinedFunction("f".to_string()));
}

#[test]
fn call_of_entry_function_yields_no_value() {
    // the implicit entry function is in the table from the start, takes no
    // arguments, and produces no value a call could use
    let err = run_program("main()").unwrap_err();
    assert_eq!(err, SemanticError::CallFailed);
}

#[test]
fn function_call_evaluates() {
    assert_eq!(run_program("let x = 1 + 2; fn double n = n * 2; double(x)").unwrap(), 6.0);
}

#[test]
fn zero_parameter_function() {
    assert_eq!(run_program("fn three = 3; three()").unwrap(), 3.0);
}

#[test]
fn trailing_comma_in_call_arguments() {
    assert_eq!(run_program("fn id a = a; id(5,)").unwrap(), 5.0);
}

#[test]
fn function_result_flows_through_let() {
    assert_eq!(run_program("fn f y = y * y; let z = f(3); z + 1").unwrap(), 10.0);
}

#[test]
fn later_function_may_call_earlier_one() {
    assert_eq!(run_program("fn f a = a + 1; fn g b = f(b) * 2; g(4)").unwrap(), 10.0);
}

#[test]
fn declarations_after_terminal_expression_are_rejected() {
    // the grammar ends a program at its terminal expression, so text
    // following it is a syntax error, and nothing of it is ever lowered
    assert!(parser(b"let x = 1; x; let y = 2; y").is_err());
}

#[test]
fn walk_ends_at_first_non_declaration() {
    // the entry body holds exactly the one constant the terminal needs:
    // nothing past the terminal expression is ever lowered
    let ast = parser(b"let x = 1; x").unwrap();
    assert!(is_chain(&ast));
    let m = LlvmGenerator::generate(&ast).unwrap();
    assert_eq!(m.main_body, vec![Inst::Const("1".to_string())]);
    assert_eq!(m.result, 0);
    assert!(m.functions.is_empty());
}

#[test]
fn lowering_is_deterministic() {
    let ast = parser(b"fn f a = a * a; f(2) + 1").unwrap();
    let m1 = LlvmGenerator::generate(&ast).unwrap();
    let m2 = LlvmGenerator::generate(&ast).unwrap();
    assert_eq!(m1, m2);
}

//! Faults: every failure of parsing, resolution and execution surfaces as
//! its own condition.

use turtle_logo::ast::{Arg, Expr, Token};
use turtle_logo::error::Error;
use turtle_logo::registry::Functions;
use turtle_logo::resolver::wrap_fn_call;
use turtle_logo::turtle::{run, Trace, Turtle, CALL_DEPTH_LIMIT};

#[test]
fn missing_operand_is_expected_value() {
    assert!(matches!(run("forward"), Err(Error::ExpectedValue)));
    assert!(matches!(run("forward 1 +"), Err(Error::ExpectedValue)));
}

#[test]
fn unknown_word_is_expected_value() {
    assert!(matches!(run("xyzzy"), Err(Error::ExpectedValue)));
}

#[test]
fn open_bracket_without_close_is_unmatched() {
    assert!(matches!(run("repeat 2 [ forward 5"), Err(Error::UnmatchedBracket)));
}

#[test]
fn repeat_without_block_is_rejected() {
    assert!(matches!(run("repeat 2 forward 5"), Err(Error::ExpectedBlock)));
    assert!(matches!(run("if 1 < 2 stop"), Err(Error::ExpectedBlock)));
}

#[test]
fn bad_comparison_operator_is_rejected() {
    assert!(matches!(run("if 1 = 2 [ stop ]"), Err(Error::InvalidComparison)));
}

#[test]
fn definition_without_body_is_malformed() {
    assert!(matches!(run("to f end"), Err(Error::MalformedDefinition)));
    assert!(matches!(run("to f :a :b end"), Err(Error::MalformedDefinition)));
}

#[test]
fn unknown_procedure_is_rejected_by_resolution() {
    let tokens = vec![Token::FnLabel(String::from("nope"))];
    let fns = Functions::new();
    assert!(matches!(wrap_fn_call(&tokens, &fns), Err(Error::UnknownProcedure)));
}

#[test]
fn too_few_arguments_is_rejected() {
    let input = "to pair :a :b forward :a end pair 1";
    assert!(matches!(run(input), Err(Error::InsufficientArguments)));
    let empty = "to pair :a :b forward :a end pair";
    assert!(matches!(run(empty), Err(Error::InsufficientArguments)));
}

#[test]
fn surviving_parameter_faults_at_evaluation() {
    let input = "to f forward :x end f";
    assert!(matches!(run(input), Err(Error::UnresolvedParameter)));
}

#[test]
fn repeat_body_must_be_a_block_at_execution() {
    let token = Token::Repeat(
        Box::new(Expr::Arg(Arg::Val(2.0f64.to_bits()))),
        Box::new(Token::Stop),
    );
    let mut turtle = Turtle::new();
    let mut trace = Trace::new();
    let fns = Functions::new();
    let r = turtle.execute(&token, &mut trace, &fns, CALL_DEPTH_LIMIT);
    assert_eq!(r, Err(Error::NotABlock));
}

#[test]
fn leftover_expression_faults_at_execution() {
    assert!(matches!(run("forward 5 3"), Err(Error::UnresolvedStatement)));
}

#[test]
fn runaway_recursion_is_cut_off() {
    assert!(matches!(run("to f f end f"), Err(Error::RecursionLimit)));
}

#[test]
fn division_by_zero_is_not_a_fault() {
    let (_, trace) = run("forward 1 / 0").unwrap();
    assert_eq!(trace.moves()[0].distance, f64::INFINITY.to_bits());
    let (turtle, _) = run("turn 0 / 0").unwrap();
    assert!(f64::from_bits(turtle.angle).is_nan());
}

#[test]
fn fault_descriptions_are_nonempty() {
    assert!(!Error::ExpectedValue.describe().is_empty());
    assert!(!Error::RecursionLimit.describe().is_empty());
}

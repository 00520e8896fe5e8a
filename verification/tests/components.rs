//! The pieces on their own: the lexer, the expression parser, the
//! statement parser, substitution, evaluation and the procedure registry.

use turtle_logo::ast::{Arg, Bindings, Expr, LogExpr, Token, substitute_expr};
use turtle_logo::error::Error;
use turtle_logo::lexer::simplify;
use turtle_logo::parser::{parse, parse_expr, parse_tokens};
use turtle_logo::registry::{Fun, Functions};

#[test]
fn simplify_separates_glyphs() {
    assert_eq!(simplify("a*b"), "a * b");
    assert_eq!(simplify("2/4"), "2 / 4");
    assert_eq!(simplify("[x]"), " [ x ] ");
    assert_eq!(simplify("a\nb"), "a b");
    assert_eq!(simplify("plain"), "plain");
}

fn words(text: &str) -> Vec<String> {
    simplify(text).split_whitespace().map(String::from).collect()
}

#[test]
fn expression_parser_folds_immediately() {
    let input = words("2 + 3 * 4");
    let (expr, cursor) = parse_expr(&input, 0).unwrap();
    assert_eq!(cursor, 5);
    assert_eq!(expr.evaluate(), Ok(20.0f64.to_bits()));
}

#[test]
fn expression_parser_stops_at_foreign_word() {
    let input = words("1 + 2 forward");
    let (expr, cursor) = parse_expr(&input, 0).unwrap();
    assert_eq!(cursor, 3);
    assert_eq!(expr.evaluate(), Ok(3.0f64.to_bits()));
}

#[test]
fn expression_parser_rejects_missing_operand() {
    let input = words("forward");
    assert!(matches!(parse_expr(&input, 0), Err(Error::ExpectedValue)));
}

#[test]
fn statement_parser_stops_at_closing_bracket() {
    let input = words("forward 1 ] forward 2");
    let labels: Vec<String> = Vec::new();
    let (tokens, cursor) = parse_tokens(&input, 0, &labels).unwrap();
    assert_eq!(tokens.len(), 1);
    assert_eq!(cursor, 2);
}

#[test]
fn declared_names_become_placeholders() {
    let input = words("probe 5");
    let labels = vec![String::from("probe")];
    let (tokens, _) = parse_tokens(&input, 0, &labels).unwrap();
    assert_eq!(tokens.len(), 2);
    assert!(matches!(tokens[0], Token::FnLabel(_)));
    assert!(matches!(tokens[1], Token::Expression(_)));
}

#[test]
fn parse_resolves_calls() {
    let (commands, fns) = parse("to square :length repeat 4 [ forward :length turn 90 ] end square 100").unwrap();
    assert_eq!(commands.len(), 1);
    match &commands[0] {
        Token::FnCall(label, args) => {
            assert_eq!(label, "square");
            assert_eq!(args.len(), 1);
        },
        _ => panic!("expected a resolved call"),
    }
    assert!(fns.contains(&String::from("square")));
}

#[test]
fn substitution_replaces_bound_parameters_only() {
    let mut env = Bindings::new();
    env.push(String::from(":x"), 7.0f64.to_bits());
    let bound = substitute_expr(&Expr::Arg(Arg::Param(String::from(":x"))), &env);
    assert_eq!(bound.evaluate(), Ok(7.0f64.to_bits()));
    let free = substitute_expr(&Expr::Arg(Arg::Param(String::from(":y"))), &env);
    assert_eq!(free.evaluate(), Err(Error::UnresolvedParameter));
}

#[test]
fn comparison_evaluates_to_a_value() {
    let le = LogExpr::Less(
        Box::new(Expr::Arg(Arg::Val(1.0f64.to_bits()))),
        Box::new(Expr::Arg(Arg::Val(2.0f64.to_bits()))),
    );
    assert!(matches!(le.evaluate(), Ok(LogExpr::Val(true))));
    let env = Bindings::new();
    let same = le.substitute(&env);
    assert!(matches!(same.evaluate(), Ok(LogExpr::Val(true))));
}

#[test]
fn registry_overwrites_and_reports_arity() {
    let mut fns = Functions::new();
    let name = String::from("spin");
    assert!(!fns.contains(&name));
    fns.push((name.clone(), vec![Token::Stop], vec![String::from(":a")]));
    assert!(fns.contains(&name));
    assert_eq!(fns.get(&name).unwrap().arity(), 1);
    fns.push((name.clone(), vec![Token::Stop], Vec::new()));
    assert_eq!(fns.get(&name).unwrap().arity(), 0);
    assert!(fns.labels().iter().any(|l| l == &name));
    assert!(fns.get(&String::from("other")).is_none());
}

#[test]
fn fun_keeps_params_and_body() {
    let fun = Fun::new(vec![Token::Stop], vec![String::from(":a"), String::from(":b")]);
    assert_eq!(fun.arity(), 2);
    assert_eq!(fun.params.len(), 2);
    assert_eq!(fun.body.len(), 1);
}

#[test]
fn instantiation_is_deterministic() {
    let (_, fns) = parse("to square :length repeat 4 [ forward :length turn 90 ] end").unwrap();
    let name = String::from("square");
    let args = vec![Expr::Arg(Arg::Val(100.0f64.to_bits()))];
    let once = fns.get_commands(&name, &args).unwrap();
    let twice = fns.get_commands(&name, &args).unwrap();
    assert_eq!(format!("{:?}", once), format!("{:?}", twice));
}

#[test]
fn extra_arguments_are_silently_ignored() {
    let (_, fns) = parse("to one :a forward :a end").unwrap();
    let name = String::from("one");
    let args = vec![
        Expr::Arg(Arg::Val(1.0f64.to_bits())),
        Expr::Arg(Arg::Val(2.0f64.to_bits())),
    ];
    let body = fns.get_commands(&name, &args).unwrap();
    assert_eq!(body.len(), 1);
    match &body[0] {
        Token::Forward(e) => assert_eq!(e.evaluate(), Ok(1.0f64.to_bits())),
        _ => panic!("expected a movement statement"),
    }
}

#[test]
fn missing_arguments_leave_formals_unsubstituted() {
    let (_, fns) = parse("to one :a forward :a end").unwrap();
    let name = String::from("one");
    let args: Vec<Expr> = Vec::new();
    let body = fns.get_commands(&name, &args).unwrap();
    match &body[0] {
        Token::Forward(e) => assert_eq!(e.evaluate(), Err(Error::UnresolvedParameter)),
        _ => panic!("expected a movement statement"),
    }
}

//! The parser: a cursor-driven expression parser over a flat word slice and
//! a recursive-descent statement parser dispatching on keywords, with
//! bracket-nested blocks. A whole program is parsed chunk by chunk, each
//! chunk either a procedure definition or a run of top-level statements, and
//! finally resolved against the registry of definitions.

use vstd::prelude::*;
use crate::ast::{Arg, ArgV, Expr, ExprV, LogExpr, Token, TokenV, view_token_seq};
use crate::ast::{clone_string, lemma_view_token_seq};
use crate::error::Error;
use crate::lexer::{simplify, to_chars, split_end, split_words, spec_simplify, spec_split_end,
    spec_words, view_strings};
use crate::registry::{Functions, FunV};
use crate::resolver::{wrap_fn_call, resolve_tokens};
use crate::scalar::{lit_of, parse_literal};

verus! {

/// Whether two strings hold the same characters.
#[verifier::loop_isolation(false)]
fn str_eq(a: &str, b: &str) -> (r: bool)
    ensures
        r == (a@ == b@),
{
    let na = a.unicode_len();
    let nb = b.unicode_len();
    if na != nb {
        return false;
    }
    let mut i: usize = 0;
    while i < na
        invariant
            na == a@.len() && na == b@.len(),
            i <= na,
            forall|j: int| 0 <= j < i ==> a@[j] == b@[j],
        decreases na - i,
    {
        if a.get_char(i) != b.get_char(i) {
            return false;
        }
        i += 1;
    }
    proof {
        assert(a@ =~= b@);
    }
    true
}

/// Whether a word begins with the parameter sigil.
pub open spec fn starts_colon(w: Seq<char>) -> bool {
    w.len() > 0 && w[0] == ':'
}

/// Whether a word begins with the parameter sigil.
fn starts_colon_exec(w: &String) -> (r: bool)
    ensures
        r == starts_colon(w@),
{
    w.as_str().unicode_len() > 0 && w.as_str().get_char(0) == ':'
}

/// Whether a word is one of the four operator glyphs.
pub open spec fn is_op(w: Seq<char>) -> bool {
    w == "*"@ || w == "/"@ || w == "+"@ || w == "-"@
}

/// The expression tree with `op` applied to the operands gathered so far
/// and the operand just read: each operator combines immediately, left to
/// right, all four on one precedence tier.
pub open spec fn combine(op: Seq<char>, l: ExprV, r: ExprV) -> ExprV {
    if op == "*"@ {
        ExprV::Mul(Box::new(l), Box::new(r))
    } else if op == "/"@ {
        ExprV::Div(Box::new(l), Box::new(r))
    } else if op == "+"@ {
        ExprV::Add(Box::new(l), Box::new(r))
    } else {
        ExprV::Sub(Box::new(l), Box::new(r))
    }
}

/// The operand a single word denotes: a word with the parameter sigil is a
/// parameter reference, a word that reads as a number is a literal, and
/// anything else is a fault.
pub open spec fn spec_operand(w: Seq<char>) -> Result<ExprV, Error> {
    if starts_colon(w) {
        Ok(ExprV::Arg(ArgV::Param(w)))
    } else {
        match lit_of(w) {
            Some(v) => Ok(ExprV::Arg(ArgV::Val(v))),
            None => Err(Error::ExpectedValue),
        }
    }
}

/// The longest arithmetic expression starting at `i`, and the cursor just
/// past it: an operand must stand at `i`; after it, each operator glyph
/// takes one more operand and is applied at once, and the first word that is
/// no operator ends the expression without being consumed.
pub open spec fn spec_parse_expr(ws: Seq<Seq<char>>, i: int) -> Result<(ExprV, int), Error>
    decreases ws.len() - i, 0int,
{
    if i < 0 || i >= ws.len() {
        Err(Error::ExpectedValue)
    } else {
        match spec_operand(ws[i]) {
            Err(e) => Err(e),
            Ok(a) => spec_parse_expr_rest(a, ws, i + 1),
        }
    }
}

/// Continues an expression after `acc`: an operator at `i` demands an
/// operand at `i + 1` and folds it in; anything else ends the expression.
pub open spec fn spec_parse_expr_rest(acc: ExprV, ws: Seq<Seq<char>>, i: int) -> Result<
    (ExprV, int),
    Error,
>
    decreases ws.len() - i, 1int,
{
    if i < 0 || i >= ws.len() {
        Ok((acc, i))
    } else if is_op(ws[i]) {
        if i + 1 >= ws.len() {
            Err(Error::ExpectedValue)
        } else {
            match spec_operand(ws[i + 1]) {
                Err(e) => Err(e),
                Ok(a) => spec_parse_expr_rest(combine(ws[i], acc, a), ws, i + 2),
            }
        }
    } else {
        Ok((acc, i))
    }
}

/// The operand a single word denotes.
fn parse_operand(w: &String) -> (r: Result<Expr, Error>)
    ensures
        match r {
            Ok(e) => spec_operand(w@) == Ok::<ExprV, Error>(e@),
            Err(e) => spec_operand(w@) == Err::<ExprV, Error>(e),
        },
{
    if starts_colon_exec(w) {
        Ok(Expr::Arg(Arg::Param(clone_string(w))))
    } else {
        match parse_literal(w.as_str()) {
            Some(v) => Ok(Expr::Arg(Arg::Val(v))),
            None => Err(Error::ExpectedValue),
        }
    }
}

/// Consumes the longest arithmetic expression starting at `start` and
/// returns its tree and the cursor just past it.
pub fn parse_expr(input: &Vec<String>, start: usize) -> (r: Result<(Expr, usize), Error>)
    ensures
        match r {
            Ok(p) => spec_parse_expr(view_strings(input@), start as int) == Ok::<
                (ExprV, int),
                Error,
            >((p.0@, p.1 as int)) && start < p.1 <= input@.len(),
            Err(e) => spec_parse_expr(view_strings(input@), start as int) == Err::<
                (ExprV, int),
                Error,
            >(e),
        },
{
    let ghost ws = view_strings(input@);
    if start >= input.len() {
        return Err(Error::ExpectedValue);
    }
    let first = match parse_operand(&input[start]) {
        Ok(e) => e,
        Err(e) => {
            return Err(e);
        },
    };
    parse_expr_rest(first, input, start + 1)
}

/// Continues an expression after `acc` from position `i`.
fn parse_expr_rest(acc: Expr, input: &Vec<String>, i: usize) -> (r: Result<(Expr, usize), Error>)
    requires
        i <= input@.len(),
    ensures
        match r {
            Ok(p) => spec_parse_expr_rest(acc@, view_strings(input@), i as int) == Ok::<
                (ExprV, int),
                Error,
            >((p.0@, p.1 as int)) && i <= p.1 <= input@.len(),
            Err(e) => spec_parse_expr_rest(acc@, view_strings(input@), i as int) == Err::<
                (ExprV, int),
                Error,
            >(e),
        },
    decreases input@.len() - i,
{
    let ghost ws = view_strings(input@);
    if i >= input.len() {
        return Ok((acc, i));
    }
    let w = &input[i];
    let op_mul = str_eq(w.as_str(), "*");
    let op_div = str_eq(w.as_str(), "/");
    let op_add = str_eq(w.as_str(), "+");
    let op_sub = str_eq(w.as_str(), "-");
    if !(op_mul || op_div || op_add || op_sub) {
        return Ok((acc, i));
    }
    if i + 1 >= input.len() {
        return Err(Error::ExpectedValue);
    }
    let operand = match parse_operand(&input[i + 1]) {
        Ok(e) => e,
        Err(e) => {
            return Err(e);
        },
    };
    let next = if op_mul {
        Expr::Mul(Box::new(acc), Box::new(operand))
    } else if op_div {
        Expr::Div(Box::new(acc), Box::new(operand))
    } else if op_add {
        Expr::Add(Box::new(acc), Box::new(operand))
    } else {
        Expr::Sub(Box::new(acc), Box::new(operand))
    };
    proof {
        assert(next@ == combine(ws[i as int], acc@, operand@));
    }
    parse_expr_rest(next, input, i + 2)
}

/// A cursor advanced to at least `min`: the statement parser always moves
/// forward, and this floor makes that plain.
pub open spec fn advance(j: int, min: int) -> int {
    if j >= min {
        j
    } else {
        min
    }
}

/// The words of `ws` that remain from position `i` on.
pub open spec fn rem(ws: Seq<Seq<char>>, i: int) -> int {
    if i <= ws.len() {
        ws.len() - i
    } else {
        0
    }
}

/// The statement sequence parsed from position `i` until the input or the
/// enclosing bracket ends, and the cursor where parsing stopped: keywords
/// take their operand expressions and blocks; a declared procedure name
/// becomes a bare-identifier placeholder; a closing bracket stops parsing
/// without being consumed; any other word must start an expression, kept as
/// an expression statement.
pub open spec fn spec_parse_tokens(ws: Seq<Seq<char>>, i: int, labels: Seq<Seq<char>>) -> Result<
    (Seq<TokenV>, int),
    Error,
>
    decreases rem(ws, i), 1int,
{
    if i < 0 || i >= ws.len() {
        Ok((Seq::empty(), i))
    } else {
        let w = ws[i];
        if w == "stop"@ {
            match spec_parse_tokens(ws, i + 1, labels) {
                Err(e) => Err(e),
                Ok((rest, j)) => Ok((seq![TokenV::Stop] + rest, j)),
            }
        } else if w == "forward"@ {
            match spec_parse_expr(ws, i + 1) {
                Err(e) => Err(e),
                Ok((e, j)) => match spec_parse_tokens(ws, advance(j, i + 2), labels) {
                    Err(er) => Err(er),
                    Ok((rest, k)) => Ok((seq![TokenV::Forward(e)] + rest, k)),
                },
            }
        } else if w == "back"@ {
            match spec_parse_expr(ws, i + 1) {
                Err(e) => Err(e),
                Ok((e, j)) => match spec_parse_tokens(ws, advance(j, i + 2), labels) {
                    Err(er) => Err(er),
                    Ok((rest, k)) => Ok((seq![TokenV::Back(e)] + rest, k)),
                },
            }
        } else if w == "turn"@ || w == "right"@ {
            match spec_parse_expr(ws, i + 1) {
                Err(e) => Err(e),
                Ok((e, j)) => match spec_parse_tokens(ws, advance(j, i + 2), labels) {
                    Err(er) => Err(er),
                    Ok((rest, k)) => Ok((seq![TokenV::TurnRight(e)] + rest, k)),
                },
            }
        } else if w == "left"@ {
            match spec_parse_expr(ws, i + 1) {
                Err(e) => Err(e),
                Ok((e, j)) => match spec_parse_tokens(ws, advance(j, i + 2), labels) {
                    Err(er) => Err(er),
                    Ok((rest, k)) => Ok((seq![TokenV::TurnLeft(e)] + rest, k)),
                },
            }
        } else if w == "repeat"@ {
            match spec_parse_expr(ws, i + 1) {
                Err(e) => Err(e),
                Ok((e, j0)) => {
                    let j = advance(j0, i + 2);
                    if j >= ws.len() || ws[j] != "["@ {
                        Err(Error::ExpectedBlock)
                    } else {
                        match spec_parse_bracket(ws, j + 1, labels) {
                            Err(er) => Err(er),
                            Ok((body, k0)) => match spec_parse_tokens(
                                ws,
                                advance(k0, i + 1),
                                labels,
                            ) {
                                Err(er) => Err(er),
                                Ok((rest, k)) => Ok(
                                    (
                                        seq![
                                            TokenV::Repeat(
                                                e,
                                                Box::new(TokenV::Bracket(body)),
                                            ),
                                        ] + rest,
                                        k,
                                    ),
                                ),
                            },
                        }
                    }
                },
            }
        } else if w == "if"@ {
            match spec_parse_expr(ws, i + 1) {
                Err(e) => Err(e),
                Ok((e1, j0)) => {
                    let j1 = advance(j0, i + 2);
                    if j1 >= ws.len() {
                        Err(Error::InvalidComparison)
                    } else {
                        let op = ws[j1];
                        match spec_parse_expr(ws, j1 + 1) {
                            Err(e) => Err(e),
                            Ok((e2, j20)) => {
                                let j2 = advance(j20, j1 + 2);
                                if j2 >= ws.len() || ws[j2] != "["@ {
                                    Err(Error::ExpectedBlock)
                                } else {
                                    match spec_parse_bracket(ws, j2 + 1, labels) {
                                        Err(er) => Err(er),
                                        Ok((body, k0)) => {
                                            if op != ">"@ && op != "<"@ {
                                                Err(Error::InvalidComparison)
                                            } else {
                                                let cond = if op == ">"@ {
                                                    crate::ast::LogExprV::Greater(e1, e2)
                                                } else {
                                                    crate::ast::LogExprV::Less(e1, e2)
                                                };
                                                match spec_parse_tokens(
                                                    ws,
                                                    advance(k0, i + 1),
                                                    labels,
                                                ) {
                                                    Err(er) => Err(er),
                                                    Ok((rest, k)) => Ok(
                                                        (
                                                            seq![
                                                                TokenV::If(
                                                                    cond,
                                                                    Box::new(TokenV::Bracket(body)),
                                                                ),
                                                            ] + rest,
                                                            k,
                                                        ),
                                                    ),
                                                }
                                            }
                                        },
                                    }
                                }
                            },
                        }
                    }
                },
            }
        } else if w == "]"@ {
            Ok((Seq::empty(), i))
        } else if labels.contains(w) {
            match spec_parse_tokens(ws, i + 1, labels) {
                Err(e) => Err(e),
                Ok((rest, j)) => Ok((seq![TokenV::FnLabel(w)] + rest, j)),
            }
        } else {
            match spec_parse_expr(ws, i) {
                Err(e) => Err(e),
                Ok((e, j)) => match spec_parse_tokens(ws, advance(j, i + 1), labels) {
                    Err(er) => Err(er),
                    Ok((rest, k)) => Ok((seq![TokenV::Expression(e)] + rest, k)),
                },
            }
        }
    }
}

/// The contents of a bracketed block from position `i` (just past its `[`),
/// and the cursor just past its closing `]`. The block's statements are
/// parsed by the statement parser; a nested `[` opens a nested block; input
/// that ends before the `]` is a fault.
pub open spec fn spec_parse_bracket(ws: Seq<Seq<char>>, i: int, labels: Seq<Seq<char>>) -> Result<
    (Seq<TokenV>, int),
    Error,
>
    decreases rem(ws, i), 2int,
{
    if i < 0 || i >= ws.len() {
        Err(Error::UnmatchedBracket)
    } else if ws[i] == "]"@ {
        Ok((Seq::empty(), i + 1))
    } else if ws[i] == "["@ {
        match spec_parse_bracket(ws, i + 1, labels) {
            Err(e) => Err(e),
            Ok((inner, j)) => match spec_parse_bracket(ws, advance(j, i + 2), labels) {
                Err(e) => Err(e),
                Ok((rest, k)) => Ok((seq![TokenV::Bracket(inner)] + rest, k)),
            },
        }
    } else {
        match spec_parse_tokens(ws, i, labels) {
            Err(e) => Err(e),
            Ok((ts, j)) => match spec_parse_bracket(ws, advance(j, i + 1), labels) {
                Err(e) => Err(e),
                Ok((rest, k)) => Ok((ts + rest, k)),
            },
        }
    }
}

/// A statement sequence with `first` put in front of `rest`.
fn prepend(first: Token, rest: Vec<Token>) -> (r: Vec<Token>)
    ensures
        view_token_seq(r@) == seq![first@] + view_token_seq(rest@),
{
    let mut rest2 = rest;
    let ghost restv = rest2@;
    let mut out: Vec<Token> = Vec::new();
    out.push(first);
    let ghost firstv = out@[0]@;
    out.append(&mut rest2);
    proof {
        lemma_view_token_seq(out@);
        lemma_view_token_seq(restv);
        assert(view_token_seq(out@) =~= seq![firstv] + view_token_seq(restv));
    }
    out
}

/// Whether `w` is one of the declared procedure names.
#[verifier::loop_isolation(false)]
fn labels_contain(labels: &Vec<String>, w: &String) -> (r: bool)
    ensures
        r == view_strings(labels@).contains(w@),
{
    let mut j: usize = 0;
    while j < labels.len()
        invariant
            j <= labels@.len(),
            forall|m: int| 0 <= m < j ==> view_strings(labels@)[m] != w@,
        decreases labels@.len() - j,
    {
        if str_eq(labels[j].as_str(), w.as_str()) {
            proof {
                assert(view_strings(labels@)[j as int] == w@);
            }
            return true;
        }
        j += 1;
    }
    proof {
        if view_strings(labels@).contains(w@) {
            let m = choose|m: int|
                0 <= m < view_strings(labels@).len() && view_strings(labels@)[m] == w@;
            assert(view_strings(labels@)[m] != w@);
        }
    }
    false
}

/// Parses statements from `start` until the input or the enclosing bracket
/// ends, and returns them with the cursor where parsing stopped.
#[verifier::loop_isolation(false)]
pub fn parse_tokens(input: &Vec<String>, start: usize, labels: &Vec<String>) -> (r: Result<
    (Vec<Token>, usize),
    Error,
>)
    requires
        start <= input@.len(),
    ensures
        match r {
            Ok(p) => spec_parse_tokens(view_strings(input@), start as int, view_strings(labels@))
                == Ok::<(Seq<TokenV>, int), Error>((view_token_seq(p.0@), p.1 as int)) && start
                <= p.1 <= input@.len() && ((start < input@.len() && view_strings(
                input@,
            )[start as int] != "]"@) ==> p.1 > start),
            Err(e) => spec_parse_tokens(view_strings(input@), start as int, view_strings(labels@))
                == Err::<(Seq<TokenV>, int), Error>(e),
        },
    decreases input@.len() - start, 1nat,
{
    let ghost ws = view_strings(input@);
    let ghost lv = view_strings(labels@);
    let i = start;
    if i >= input.len() {
        let out: Vec<Token> = Vec::new();
        proof {
            assert(view_token_seq(out@) =~= Seq::<TokenV>::empty());
        }
        return Ok((out, i));
    }
    let w = &input[i];
    proof {
        assert(ws[i as int] == w@);
    }
    if str_eq(w.as_str(), "stop") {
        let (rest, j) = match parse_tokens(input, i + 1, labels) {
            Ok(p) => p,
            Err(e) => {
                return Err(e);
            },
        };
        return Ok((prepend(Token::Stop, rest), j));
    }
    if str_eq(w.as_str(), "forward") {
        let (e, j) = match parse_expr(input, i + 1) {
            Ok(p) => p,
            Err(e) => {
                return Err(e);
            },
        };
        let (rest, k) = match parse_tokens(input, j, labels) {
            Ok(p) => p,
            Err(e) => {
                return Err(e);
            },
        };
        return Ok((prepend(Token::Forward(Box::new(e)), rest), k));
    }
    if str_eq(w.as_str(), "back") {
        let (e, j) = match parse_expr(input, i + 1) {
            Ok(p) => p,
            Err(e) => {
                return Err(e);
            },
        };
        let (rest, k) = match parse_tokens(input, j, labels) {
            Ok(p) => p,
            Err(e) => {
                return Err(e);
            },
        };
        return Ok((prepend(Token::Back(Box::new(e)), rest), k));
    }
    if str_eq(w.as_str(), "turn") || str_eq(w.as_str(), "right") {
        let (e, j) = match parse_expr(input, i + 1) {
            Ok(p) => p,
            Err(e) => {
                return Err(e);
            },
        };
        let (rest, k) = match parse_tokens(input, j, labels) {
            Ok(p) => p,
            Err(e) => {
                return Err(e);
            },
        };
        return Ok((prepend(Token::TurnRight(Box::new(e)), rest), k));
    }
    if str_eq(w.as_str(), "left") {
        let (e, j) = match parse_expr(input, i + 1) {
            Ok(p) => p,
            Err(e) => {
                return Err(e);
            },
        };
        let (rest, k) = match parse_tokens(input, j, labels) {
            Ok(p) => p,
            Err(e) => {
                return Err(e);
            },
        };
        return Ok((prepend(Token::TurnLeft(Box::new(e)), rest), k));
    }
    if str_eq(w.as_str(), "repeat") {
        let (e, j) = match parse_expr(input, i + 1) {
            Ok(p) => p,
            Err(e) => {
                return Err(e);
            },
        };
        if j >= input.len() || !str_eq(input[j].as_str(), "[") {
            return Err(Error::ExpectedBlock);
        }
        let (body, k0) = match parse_bracket(input, j + 1, labels) {
            Ok(p) => p,
            Err(e) => {
                return Err(e);
            },
        };
        let (rest, k) = match parse_tokens(input, k0, labels) {
            Ok(p) => p,
            Err(e) => {
                return Err(e);
            },
        };
        let bt = Token::Bracket(body);
        let ghost btv = bt@;
        let first = Token::Repeat(Box::new(e), Box::new(bt));
        proof {
            assert(first@ == TokenV::Repeat(e@, Box::new(btv)));
        }
        return Ok((prepend(first, rest), k));
    }
    if str_eq(w.as_str(), "if") {
        let (e1, j1) = match parse_expr(input, i + 1) {
            Ok(p) => p,
            Err(e) => {
                return Err(e);
            },
        };
        if j1 >= input.len() {
            return Err(Error::InvalidComparison);
        }
        let op_gt = str_eq(input[j1].as_str(), ">");
        let op_lt = str_eq(input[j1].as_str(), "<");
        let (e2, j2) = match parse_expr(input, j1 + 1) {
            Ok(p) => p,
            Err(e) => {
                return Err(e);
            },
        };
        if j2 >= input.len() || !str_eq(input[j2].as_str(), "[") {
            return Err(Error::ExpectedBlock);
        }
        let (body, k0) = match parse_bracket(input, j2 + 1, labels) {
            Ok(p) => p,
            Err(e) => {
                return Err(e);
            },
        };
        if !op_gt && !op_lt {
            return Err(Error::InvalidComparison);
        }
        let cond = if op_gt {
            LogExpr::Greater(Box::new(e1), Box::new(e2))
        } else {
            LogExpr::Less(Box::new(e1), Box::new(e2))
        };
        let (rest, k) = match parse_tokens(input, k0, labels) {
            Ok(p) => p,
            Err(e) => {
                return Err(e);
            },
        };
        let bt = Token::Bracket(body);
        let ghost btv = bt@;
        let ghost condv = cond@;
        let first = Token::If(cond, Box::new(bt));
        proof {
            assert(first@ == TokenV::If(condv, Box::new(btv)));
        }
        return Ok((prepend(first, rest), k));
    }
    if str_eq(w.as_str(), "]") {
        let out: Vec<Token> = Vec::new();
        proof {
            assert(view_token_seq(out@) =~= Seq::<TokenV>::empty());
        }
        return Ok((out, i));
    }
    if labels_contain(labels, w) {
        let (rest, j) = match parse_tokens(input, i + 1, labels) {
            Ok(p) => p,
            Err(e) => {
                return Err(e);
            },
        };
        return Ok((prepend(Token::FnLabel(clone_string(w)), rest), j));
    }
    let (e, j) = match parse_expr(input, i) {
        Ok(p) => p,
        Err(e) => {
            return Err(e);
        },
    };
    let (rest, k) = match parse_tokens(input, j, labels) {
        Ok(p) => p,
        Err(e) => {
            return Err(e);
        },
    };
    Ok((prepend(Token::Expression(Box::new(e)), rest), k))
}

/// Parses the contents of a bracketed block from just past its `[` to just
/// past its `]`.
#[verifier::loop_isolation(false)]
fn parse_bracket(input: &Vec<String>, start: usize, labels: &Vec<String>) -> (r: Result<
    (Vec<Token>, usize),
    Error,
>)
    requires
        start <= input@.len(),
    ensures
        match r {
            Ok(p) => spec_parse_bracket(view_strings(input@), start as int, view_strings(labels@))
                == Ok::<(Seq<TokenV>, int), Error>((view_token_seq(p.0@), p.1 as int)) && start
                < p.1 <= input@.len(),
            Err(e) => spec_parse_bracket(view_strings(input@), start as int, view_strings(labels@))
                == Err::<(Seq<TokenV>, int), Error>(e),
        },
    decreases input@.len() - start, 2nat,
{
    let ghost ws = view_strings(input@);
    let i = start;
    if i >= input.len() {
        return Err(Error::UnmatchedBracket);
    }
    proof {
        assert(ws[i as int] == input@[i as int]@);
    }
    if str_eq(input[i].as_str(), "]") {
        let out: Vec<Token> = Vec::new();
        proof {
            assert(view_token_seq(out@) =~= Seq::<TokenV>::empty());
        }
        return Ok((out, i + 1));
    }
    if str_eq(input[i].as_str(), "[") {
        let (inner, j) = match parse_bracket(input, i + 1, labels) {
            Ok(p) => p,
            Err(e) => {
                return Err(e);
            },
        };
        let (rest, k) = match parse_bracket(input, j, labels) {
            Ok(p) => p,
            Err(e) => {
                return Err(e);
            },
        };
        let bt = Token::Bracket(inner);
        let ghost btv = bt@;
        return Ok((prepend(bt, rest), k));
    }
    let (ts, j) = match parse_tokens(input, i, labels) {
        Ok(p) => p,
        Err(e) => {
            return Err(e);
        },
    };
    let (rest, k) = match parse_bracket(input, j, labels) {
        Ok(p) => p,
        Err(e) => {
            return Err(e);
        },
    };
    let mut out = ts;
    let ghost tsv = out@;
    let mut rest2 = rest;
    let ghost restv = rest2@;
    out.append(&mut rest2);
    proof {
        lemma_view_token_seq(out@);
        lemma_view_token_seq(tsv);
        lemma_view_token_seq(restv);
        assert(view_token_seq(out@) =~= view_token_seq(tsv) + view_token_seq(restv));
    }
    Ok((out, k))
}

/// The position of the first word at or after `k` that does not begin with
/// the parameter sigil, or -1 if every remaining word does.
pub open spec fn scan_params(ws: Seq<Seq<char>>, k: int) -> int
    decreases rem(ws, k),
{
    if k < 0 || k >= ws.len() {
        -1
    } else if !starts_colon(ws[k]) {
        k
    } else {
        scan_params(ws, k + 1)
    }
}

/// The procedure a definition chunk declares: its name is the word after
/// the definition keyword, the sigil-prefixed words after the name are its
/// formal parameters, and the remaining words are its body, parsed with the
/// procedure's own name already declared so that it can call itself. A chunk
/// that lacks the keyword, the name or a body is malformed.
pub open spec fn spec_parse_fn(ws: Seq<Seq<char>>, labels: Seq<Seq<char>>) -> Result<
    (Seq<char>, Seq<TokenV>, Seq<Seq<char>>),
    Error,
> {
    if ws.len() < 3 || ws[0] != "to"@ {
        Err(Error::MalformedDefinition)
    } else {
        let label = ws[1];
        if starts_colon(ws[2]) {
            let pe = scan_params(ws, 2);
            if pe < 0 {
                Err(Error::MalformedDefinition)
            } else {
                match spec_parse_tokens(ws, pe, labels.push(label)) {
                    Err(e) => Err(e),
                    Ok((body, _)) => Ok((label, body, ws.subrange(2, pe))),
                }
            }
        } else {
            match spec_parse_tokens(ws, 2, labels.push(label)) {
                Err(e) => Err(e),
                Ok((body, _)) => Ok((label, body, Seq::<Seq<char>>::empty())),
            }
        }
    }
}

/// Parses a procedure definition chunk into its name, body and parameters.
#[verifier::loop_isolation(false)]
fn parse_fn(words: &Vec<String>, labels: &Vec<String>) -> (r: Result<
    (String, Vec<Token>, Vec<String>),
    Error,
>)
    ensures
        match r {
            Ok(t) => spec_parse_fn(view_strings(words@), view_strings(labels@)) == Ok::<
                (Seq<char>, Seq<TokenV>, Seq<Seq<char>>),
                Error,
            >((t.0@, view_token_seq(t.1@), view_strings(t.2@))),
            Err(e) => spec_parse_fn(view_strings(words@), view_strings(labels@)) == Err::<
                (Seq<char>, Seq<TokenV>, Seq<Seq<char>>),
                Error,
            >(e),
        },
{
    let ghost ws = view_strings(words@);
    if words.len() < 3 || !str_eq(words[0].as_str(), "to") {
        return Err(Error::MalformedDefinition);
    }
    let label = clone_string(&words[1]);
    let mut labels2: Vec<String> = Vec::new();
    let mut m: usize = 0;
    while m < labels.len()
        invariant
            m <= labels@.len(),
            labels2@.len() == m,
            forall|j: int| 0 <= j < m ==> labels2@[j]@ == labels@[j]@,
        decreases labels@.len() - m,
    {
        labels2.push(clone_string(&labels[m]));
        m += 1;
    }
    labels2.push(clone_string(&label));
    proof {
        assert(view_strings(labels2@) =~= view_strings(labels@).push(ws[1]));
    }
    let mut params: Vec<String> = Vec::new();
    let mut body_start: usize = 2;
    if starts_colon_exec(&words[2]) {
        let mut k: usize = 2;
        while k < words.len() && starts_colon_exec(&words[k])
            invariant
                2 <= k <= words@.len(),
                scan_params(ws, 2) == scan_params(ws, k as int),
            decreases words@.len() - k,
        {
            k += 1;
        }
        if k == words.len() {
            return Err(Error::MalformedDefinition);
        }
        let mut p: usize = 2;
        while p < k
            invariant
                2 <= p <= k <= words@.len(),
                params@.len() == p - 2,
                forall|j: int| 0 <= j < p - 2 ==> params@[j]@ == ws[2 + j],
            decreases k - p,
        {
            params.push(clone_string(&words[p]));
            p += 1;
        }
        proof {
            assert(scan_params(ws, k as int) == k);
            assert(view_strings(params@) =~= ws.subrange(2, k as int));
        }
        body_start = k;
    }
    proof {
        if !starts_colon(ws[2]) {
            assert(view_strings(params@) =~= Seq::<Seq<char>>::empty());
        }
    }
    let (body, _) = match parse_tokens(words, body_start, &labels2) {
        Ok(p) => p,
        Err(e) => {
            return Err(e);
        },
    };
    Ok((label, body, params))
}

/// The program a text denotes, before resolution: the simplified text is
/// split on the block terminator keyword; a chunk whose first word is the
/// definition keyword declares a procedure, and any other chunk's statements
/// run at the top level, parsed with the names declared so far.
pub open spec fn spec_parse_chunks(
    chunks: Seq<Seq<char>>,
    labels: Seq<Seq<char>>,
    fns: Map<Seq<char>, FunV>,
    cmds: Seq<TokenV>,
) -> Result<(Seq<TokenV>, Map<Seq<char>, FunV>), Error>
    decreases chunks.len(),
{
    if chunks.len() == 0 {
        Ok((cmds, fns))
    } else {
        let ws = spec_words(chunks[0]);
        if ws.len() > 0 && ws[0] == "to"@ {
            match spec_parse_fn(ws, labels) {
                Err(e) => Err(e),
                Ok((label, body, params)) => spec_parse_chunks(
                    chunks.drop_first(),
                    labels.push(label),
                    fns.insert(label, FunV { params, body }),
                    cmds,
                ),
            }
        } else {
            match spec_parse_tokens(ws, 0, labels) {
                Err(e) => Err(e),
                Ok((ts, _)) => spec_parse_chunks(chunks.drop_first(), labels, fns, cmds + ts),
            }
        }
    }
}

/// The fully parsed and resolved program a text denotes: its top-level
/// statements, every bare procedure name rewritten into a call, and its
/// procedure registry.
pub open spec fn spec_parse(inp: Seq<char>) -> Result<(Seq<TokenV>, Map<Seq<char>, FunV>), Error> {
    match spec_parse_chunks(
        spec_split_end(spec_simplify(inp)),
        Seq::empty(),
        Map::empty(),
        Seq::empty(),
    ) {
        Err(e) => Err(e),
        Ok((cmds, fns)) => match resolve_tokens(cmds, fns) {
            Err(e) => Err(e),
            Ok(r) => Ok((r, fns)),
        },
    }
}

/// Parses a whole program into its resolved top-level statements and its
/// procedure registry.
#[verifier::loop_isolation(false)]
pub fn parse(input: &str) -> (r: Result<(Vec<Token>, Functions), Error>)
    ensures
        match r {
            Ok(p) => spec_parse(input@) == Ok::<(Seq<TokenV>, Map<Seq<char>, FunV>), Error>(
                (view_token_seq(p.0@), p.1.as_map()),
            ),
            Err(e) => spec_parse(input@) == Err::<(Seq<TokenV>, Map<Seq<char>, FunV>), Error>(e),
        },
{
    let simplified = simplify(input);
    let chars = to_chars(simplified.as_str());
    let chunks = split_end(&chars);
    let ghost chv = Seq::new(chunks@.len(), |i: int| chunks@[i]@);
    let mut labels: Vec<String> = Vec::new();
    let mut fns = Functions::new();
    let mut commands: Vec<Token> = Vec::new();
    let mut k: usize = 0;
    proof {
        assert(chv.skip(0) =~= chv);
        assert(view_token_seq(commands@) =~= Seq::<TokenV>::empty());
        assert(view_strings(labels@) =~= Seq::<Seq<char>>::empty());
    }
    while k < chunks.len()
        invariant
            k <= chunks@.len(),
            spec_parse_chunks(
                chv.skip(k as int),
                view_strings(labels@),
                fns.as_map(),
                view_token_seq(commands@),
            ) == spec_parse_chunks(chv, Seq::empty(), Map::empty(), Seq::empty()),
        decreases chunks@.len() - k,
    {
        let ghost pre = chv.skip(k as int);
        proof {
            assert(pre[0] == chunks@[k as int]@);
            assert(pre.drop_first() =~= chv.skip(k + 1));
        }
        let words = split_words(&chunks[k]);
        let is_def = words.len() > 0 && str_eq(words[0].as_str(), "to");
        if is_def {
            let (label, body, params) = match parse_fn(&words, &labels) {
                Ok(t) => t,
                Err(e) => {
                    return Err(e);
                },
            };
            let label2 = clone_string(&label);
            let ghost labelv = label@;
            let ghost labelsv = view_strings(labels@);
            fns.push((label, body, params));
            labels.push(label2);
            proof {
                assert(view_strings(labels@) =~= labelsv.push(labelv));
            }
        } else {
            let (ts, _) = match parse_tokens(&words, 0, &labels) {
                Ok(p) => p,
                Err(e) => {
                    return Err(e);
                },
            };
            let mut ts2 = ts;
            let ghost tsv = ts2@;
            let ghost cmdv = commands@;
            commands.append(&mut ts2);
            proof {
                lemma_view_token_seq(commands@);
                lemma_view_token_seq(cmdv);
                lemma_view_token_seq(tsv);
                assert(view_token_seq(commands@) =~= view_token_seq(cmdv) + view_token_seq(tsv));
            }
        }
        k += 1;
    }
    proof {
        assert(chv.skip(chunks@.len() as int) =~= Seq::<Seq<char>>::empty());
    }
    let wrapped = match wrap_fn_call(&commands, &fns) {
        Ok(w) => w,
        Err(e) => {
            return Err(e);
        },
    };
    Ok((wrapped, fns))
}

} // verus!

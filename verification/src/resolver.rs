//! The second pass of the parser: every bare procedure name in a statement
//! sequence is rewritten into a fully bound call by consuming the following
//! expression statements as its arguments, the declared arity of the
//! procedure deciding how many.

use vstd::prelude::*;
use crate::ast::{Expr, Token, TokenV, ExprV, view_exprs, view_token_seq, lemma_view_token_seq};
use crate::ast::{clone_expr, clone_log, clone_string, clone_token};
use crate::error::Error;
use crate::registry::{Functions, FunV};

verus! {

broadcast use
    vstd::seq::axiom_seq_index_decreases,
    vstd::seq::axiom_seq_subrange_decreases,
    vstd::std_specs::vec::axiom_spec_len,
    vstd::std_specs::vec::axiom_vec_index_decreases,
    vstd::std_specs::vec::axiom_vec_decreases_to_view;

/// Whether a bare identifier at the head of `ts` is followed by enough
/// expression statements to supply `arity` arguments.
pub open spec fn call_args_ok(ts: Seq<TokenV>, arity: int) -> bool {
    &&& 1 + arity <= ts.len()
    &&& forall|j: int| 1 <= j <= arity ==> ts[j] is Expression
}

/// The argument expressions consumed by a call at the head of `ts`.
pub open spec fn call_args(ts: Seq<TokenV>, arity: int) -> Seq<ExprV> {
    Seq::new(arity as nat, |j: int| ts[1 + j]->Expression_0)
}

/// Resolution of one statement that is not a bare identifier: the bodies of
/// `repeat` and `if` are resolved recursively and must be bracketed blocks;
/// every other statement is kept as it is.
pub open spec fn resolve_block(t: TokenV, fns: Map<Seq<char>, FunV>) -> Result<TokenV, Error>
    decreases t,
{
    match t {
        TokenV::Repeat(e, b) => match *b {
            TokenV::Bracket(inner) => match resolve_tokens(inner, fns) {
                Err(er) => Err(er),
                Ok(ri) => Ok(TokenV::Repeat(e, Box::new(TokenV::Bracket(ri)))),
            },
            _ => Err(Error::NotABlock),
        },
        TokenV::If(le, b) => match *b {
            TokenV::Bracket(inner) => match resolve_tokens(inner, fns) {
                Err(er) => Err(er),
                Ok(ri) => Ok(TokenV::If(le, Box::new(TokenV::Bracket(ri)))),
            },
            _ => Err(Error::NotABlock),
        },
        _ => Ok(t),
    }
}

/// Resolution of a statement sequence: every bare identifier becomes a call
/// that consumes the following `arity` expression statements as arguments;
/// an unknown name or too few trailing expressions is a fault; `repeat` and
/// `if` bodies are resolved recursively; everything else passes through.
pub open spec fn resolve_tokens(ts: Seq<TokenV>, fns: Map<Seq<char>, FunV>) -> Result<
    Seq<TokenV>,
    Error,
>
    decreases ts,
{
    if ts.len() == 0 {
        Ok(Seq::empty())
    } else {
        match ts[0] {
            TokenV::FnLabel(label) => {
                if !fns.contains_key(label) {
                    Err(Error::UnknownProcedure)
                } else {
                    let arity = fns[label].params.len() as int;
                    if !call_args_ok(ts, arity) {
                        Err(Error::InsufficientArguments)
                    } else {
                        match resolve_tokens(ts.subrange(1 + arity, ts.len() as int), fns) {
                            Err(e) => Err(e),
                            Ok(rest) => Ok(
                                seq![TokenV::FnCall(label, call_args(ts, arity))] + rest,
                            ),
                        }
                    }
                }
            },
            _ => match resolve_block(ts[0], fns) {
                Err(e) => Err(e),
                Ok(first) => match resolve_tokens(ts.drop_first(), fns) {
                    Err(e) => Err(e),
                    Ok(rest) => Ok(seq![first] + rest),
                },
            },
        }
    }
}

/// Pairs every bare procedure name in the statements with its arguments,
/// as `resolve_tokens` describes.
pub fn wrap_fn_call(tokens: &Vec<Token>, fns: &Functions) -> (r: Result<Vec<Token>, Error>)
    ensures
        match r {
            Ok(out) => resolve_tokens(view_token_seq(tokens@), fns.as_map()) == Ok::<
                Seq<TokenV>,
                Error,
            >(view_token_seq(out@)),
            Err(e) => resolve_tokens(view_token_seq(tokens@), fns.as_map()) == Err::<
                Seq<TokenV>,
                Error,
            >(e),
        },
    decreases tokens@, tokens@.len() + 1, 2nat,
{
    proof {
        lemma_view_token_seq(tokens@);
        assert(view_token_seq(tokens@).subrange(0, tokens@.len() as int) =~= view_token_seq(
            tokens@,
        ));
    }
    wrap_from(tokens, 0, fns)
}

/// Resolves the statements from position `i` on.
#[verifier::loop_isolation(false)]
fn wrap_from(tokens: &Vec<Token>, i: usize, fns: &Functions) -> (r: Result<Vec<Token>, Error>)
    requires
        i <= tokens@.len(),
    ensures
        match r {
            Ok(out) => resolve_tokens(
                view_token_seq(tokens@).subrange(i as int, tokens@.len() as int),
                fns.as_map(),
            ) == Ok::<Seq<TokenV>, Error>(view_token_seq(out@)),
            Err(e) => resolve_tokens(
                view_token_seq(tokens@).subrange(i as int, tokens@.len() as int),
                fns.as_map(),
            ) == Err::<Seq<TokenV>, Error>(e),
        },
    decreases tokens@, tokens@.len() - i, 2nat,
{
    let ghost vts = view_token_seq(tokens@);
    let ghost sv = vts.subrange(i as int, tokens@.len() as int);
    proof {
        lemma_view_token_seq(tokens@);
    }
    if i == tokens.len() {
        let out: Vec<Token> = Vec::new();
        proof {
            assert(sv =~= Seq::<TokenV>::empty());
            assert(view_token_seq(out@) =~= Seq::<TokenV>::empty());
        }
        return Ok(out);
    }
    proof {
        assert(sv[0] == tokens@[i as int]@);
    }
    match &tokens[i] {
        Token::FnLabel(label) => {
            let fun = match fns.get(label) {
                Some(fun) => fun,
                None => {
                    return Err(Error::UnknownProcedure);
                },
            };
            let arity = fun.arity();
            if arity > tokens.len() - (i + 1) {
                proof {
                    assert(!call_args_ok(sv, arity as int));
                }
                return Err(Error::InsufficientArguments);
            }
            let mut args: Vec<Expr> = Vec::new();
            let mut k: usize = 0;
            while k < arity
                invariant
                    i < tokens@.len(),
                    i + 1 + arity <= tokens@.len(),
                    k <= arity,
                    args@.len() == k,
                    forall|j: int| 0 <= j < k ==> #[trigger] tokens@[i + 1 + j]@ is Expression,
                    forall|j: int| 0 <= j < k ==> #[trigger] args@[j]@ == tokens@[i + 1 + j]@->Expression_0,
                decreases arity - k,
            {
                match &tokens[i + 1 + k] {
                    Token::Expression(e) => {
                        proof {
                            assert(tokens@[i + 1 + k]@ == TokenV::Expression((**e)@));
                        }
                        args.push(clone_expr(e));
                        proof {
                            assert forall|j: int| 0 <= j < k + 1 implies #[trigger] tokens@[i + 1
                                + j]@ is Expression by {
                                if j == k {
                                    assert(tokens@[i + 1 + j]@ == TokenV::Expression((**e)@));
                                }
                            }
                            assert forall|j: int| 0 <= j < k + 1 implies #[trigger] args@[j]@
                                == tokens@[i + 1 + j]@->Expression_0 by {
                                if j == k {
                                    assert(tokens@[i + 1 + j]@ == TokenV::Expression((**e)@));
                                    assert(args@[j]@ == (**e)@);
                                }
                            }
                        }
                    },
                    _ => {
                        proof {
                            assert(sv[1 + k] == tokens@[i + 1 + k]@);
                            assert(!call_args_ok(sv, arity as int));
                        }
                        return Err(Error::InsufficientArguments);
                    },
                }
                k += 1;
            }
            proof {
                assert forall|j: int| 1 <= j <= arity implies sv[j] is Expression by {
                    assert(tokens@[i + 1 + (j - 1)]@ is Expression);
                    assert(sv[j] == tokens@[i + j]@);
                    assert(tokens@[i + j]@ == tokens@[i + 1 + (j - 1)]@);
                }
                assert(call_args_ok(sv, arity as int));
                assert(view_exprs(args@) =~= call_args(sv, arity as int));
                assert(sv.subrange(1 + arity, sv.len() as int) =~= vts.subrange(
                    i + 1 + arity,
                    tokens@.len() as int,
                ));
            }
            let mut rest = match wrap_from(tokens, i + 1 + arity, fns) {
                Ok(rest) => rest,
                Err(e) => {
                    return Err(e);
                },
            };
            let ghost restv = rest@;
            let mut out: Vec<Token> = Vec::new();
            out.push(Token::FnCall(clone_string(label), args));
            out.append(&mut rest);
            proof {
                lemma_view_token_seq(out@);
                lemma_view_token_seq(restv);
                assert(view_token_seq(out@) =~= seq![
                    TokenV::FnCall(label@, call_args(sv, arity as int)),
                ] + view_token_seq(restv));
            }
            Ok(out)
        },
        Token::Repeat(e, b) => {
            proof {
                assert(sv[0] == TokenV::Repeat((**e)@, Box::new((**b)@)));
            }
            match &**b {
                Token::Bracket(inner) => {
                    proof {
                        assert(decreases_to!(tokens@ => tokens@[i as int]));
                        assert((**b)@ == TokenV::Bracket(view_token_seq(inner@)));
                    }
                    let ri = match wrap_fn_call(inner, fns) {
                        Ok(ri) => ri,
                        Err(er) => {
                            return Err(er);
                        },
                    };
                    let ghost riv = view_token_seq(ri@);
                    let bt = Token::Bracket(ri);
                    proof {
                        assert(bt@ == TokenV::Bracket(riv));
                    }
                    let ghost btv = bt@;
                    let first = Token::Repeat(Box::new(clone_expr(e)), Box::new(bt));
                    proof {
                        assert(resolve_tokens(view_token_seq(inner@), fns.as_map()) == Ok::<
                            Seq<TokenV>,
                            Error,
                        >(riv));
                        assert(resolve_block(sv[0], fns.as_map()) == Ok::<TokenV, Error>(
                            TokenV::Repeat((**e)@, Box::new(TokenV::Bracket(riv))),
                        ));
                        assert(first@ == TokenV::Repeat((**e)@, Box::new(btv)));
                    }
                    wrap_finish(tokens, i, fns, first, Ghost(sv))
                },
                _ => Err(Error::NotABlock),
            }
        },
        Token::If(le, b) => {
            proof {
                assert(sv[0] == TokenV::If(le@, Box::new((**b)@)));
            }
            match &**b {
                Token::Bracket(inner) => {
                    proof {
                        assert(decreases_to!(tokens@ => tokens@[i as int]));
                        assert((**b)@ == TokenV::Bracket(view_token_seq(inner@)));
                    }
                    let ri = match wrap_fn_call(inner, fns) {
                        Ok(ri) => ri,
                        Err(er) => {
                            return Err(er);
                        },
                    };
                    let ghost riv = view_token_seq(ri@);
                    let bt = Token::Bracket(ri);
                    proof {
                        assert(bt@ == TokenV::Bracket(riv));
                    }
                    let ghost btv = bt@;
                    let first = Token::If(clone_log(le), Box::new(bt));
                    proof {
                        assert(resolve_tokens(view_token_seq(inner@), fns.as_map()) == Ok::<
                            Seq<TokenV>,
                            Error,
                        >(riv));
                        assert(resolve_block(sv[0], fns.as_map()) == Ok::<TokenV, Error>(
                            TokenV::If(le@, Box::new(TokenV::Bracket(riv))),
                        ));
                        assert(first@ == TokenV::If(le@, Box::new(btv)));
                    }
                    wrap_finish(tokens, i, fns, first, Ghost(sv))
                },
                _ => Err(Error::NotABlock),
            }
        },
        _ => {
            let first = clone_token(&tokens[i]);
            proof {
                assert(resolve_block(sv[0], fns.as_map()) == Ok::<TokenV, Error>(sv[0]));
            }
            wrap_finish(tokens, i, fns, first, Ghost(sv))
        },
    }
}

/// Resolves the statements after position `i` and puts the already-resolved
/// statement at `i` in front of them.
fn wrap_finish(
    tokens: &Vec<Token>,
    i: usize,
    fns: &Functions,
    first: Token,
    Ghost(sv): Ghost<Seq<TokenV>>,
) -> (r: Result<Vec<Token>, Error>)
    requires
        i < tokens@.len(),
        sv == view_token_seq(tokens@).subrange(i as int, tokens@.len() as int),
        resolve_block(sv[0], fns.as_map()) == Ok::<TokenV, Error>(first@),
        !(sv[0] is FnLabel),
    ensures
        match r {
            Ok(out) => resolve_tokens(sv, fns.as_map()) == Ok::<Seq<TokenV>, Error>(
                view_token_seq(out@),
            ),
            Err(e) => resolve_tokens(sv, fns.as_map()) == Err::<Seq<TokenV>, Error>(e),
        },
    decreases tokens@, tokens@.len() - i, 1nat,
{
    proof {
        lemma_view_token_seq(tokens@);
        assert(tokens.len() == tokens@.len());
        assert(sv.drop_first() =~= view_token_seq(tokens@).subrange(
            i + 1,
            tokens@.len() as int,
        ));
    }
    let mut rest = match wrap_from(tokens, i + 1, fns) {
        Ok(rest) => rest,
        Err(e) => {
            return Err(e);
        },
    };
    let ghost restv = rest@;
    let mut out: Vec<Token> = Vec::new();
    out.push(first);
    let ghost firstv = out@[0]@;
    out.append(&mut rest);
    proof {
        lemma_view_token_seq(out@);
        lemma_view_token_seq(restv);
        assert(view_token_seq(out@) =~= seq![firstv] + view_token_seq(restv));
    }
    Ok(out)
}

} // verus!

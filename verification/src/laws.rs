//! Laws of the interpreter, stated over the specification functions that
//! the executable functions' contracts use.

use vstd::prelude::*;
use crate::ast::{ExprV, TokenV, LogExprV, eval_expr, eval_log};
use crate::error::Error;
use crate::parser::{spec_parse_expr, spec_parse_expr_rest, spec_operand, combine, is_op};
use crate::registry::{FunV, spec_instantiate};
use crate::resolver::{resolve_tokens, call_args_ok};
use crate::scalar::{add_bits, sub_bits, fmod_bits, trunc_bits};
use crate::turtle::{PenMove, spec_execute, spec_execute_seq, spec_execute_repeat, spec_run_cmds,
    size_token, size_tokens, CALL_DEPTH_LIMIT, FULL_TURN};

verus! {

/// The number of movement statements (`forward` or `back`) that executing
/// one statement runs, together with the heading afterwards and whether the
/// surrounding block continues: the same walk as `spec_execute`, counting
/// executions instead of recording moves.
pub open spec fn count_execute(
    t: TokenV,
    angle: u64,
    fns: Map<Seq<char>, FunV>,
    fuel: nat,
) -> Result<(u64, nat, bool), Error>
    decreases fuel, size_token(t), 0nat, 0nat,
    via count_execute_decreases
{
    match t {
        TokenV::Forward(e) => match eval_expr(e) {
            Err(er) => Err(er),
            Ok(_) => Ok((angle, 1nat, true)),
        },
        TokenV::Back(e) => match eval_expr(e) {
            Err(er) => Err(er),
            Ok(_) => Ok((angle, 1nat, true)),
        },
        TokenV::TurnRight(e) => match eval_expr(e) {
            Err(er) => Err(er),
            Ok(a) => Ok((fmod_bits(add_bits(angle, a), FULL_TURN), 0nat, true)),
        },
        TokenV::TurnLeft(e) => match eval_expr(e) {
            Err(er) => Err(er),
            Ok(a) => Ok((fmod_bits(sub_bits(angle, a), FULL_TURN), 0nat, true)),
        },
        TokenV::Repeat(e, b) => match eval_expr(e) {
            Err(er) => Err(er),
            Ok(cnt) => {
                let n = trunc_bits(cnt);
                if n == 0 {
                    Ok((angle, 0nat, true))
                } else {
                    match *b {
                        TokenV::Bracket(inner) => count_execute_repeat(
                            inner,
                            n as nat,
                            angle,
                            fns,
                            fuel,
                        ),
                        _ => Err(Error::NotABlock),
                    }
                }
            },
        },
        TokenV::If(le, b) => match eval_log(le) {
            Err(er) => Err(er),
            Ok(v) => {
                if v == LogExprV::Val(true) {
                    match *b {
                        TokenV::Bracket(inner) => count_execute_seq(inner, angle, fns, fuel),
                        _ => Err(Error::NotABlock),
                    }
                } else {
                    Ok((angle, 0nat, true))
                }
            },
        },
        TokenV::FnCall(label, args) => {
            if fuel == 0 {
                Err(Error::RecursionLimit)
            } else if !fns.contains_key(label) {
                Err(Error::UnknownProcedure)
            } else {
                match spec_instantiate(fns[label], args, fns) {
                    Err(er) => Err(er),
                    Ok(cmds) => match count_execute_seq(cmds, angle, fns, (fuel - 1) as nat) {
                        Err(er) => Err(er),
                        Ok((a2, c, _)) => Ok((a2, c, true)),
                    },
                }
            }
        },
        TokenV::Bracket(ts) => count_execute_seq(ts, angle, fns, fuel),
        TokenV::Stop => Ok((angle, 0nat, false)),
        TokenV::FnLabel(_) => Err(Error::UnresolvedStatement),
        TokenV::Expression(_) => Err(Error::UnresolvedStatement),
    }
}

#[via_fn]
proof fn count_execute_decreases(t: TokenV, angle: u64, fns: Map<Seq<char>, FunV>, fuel: nat) {
    match t {
        TokenV::Repeat(_, b) => {
            match *b {
                TokenV::Bracket(inner) => {
                    assert(size_token(*b) == 1 + size_tokens(inner));
                    assert(size_token(t) == 1 + size_token(*b));
                },
                _ => {},
            }
        },
        TokenV::If(_, b) => {
            match *b {
                TokenV::Bracket(inner) => {
                    assert(size_token(*b) == 1 + size_tokens(inner));
                    assert(size_token(t) == 1 + size_token(*b));
                },
                _ => {},
            }
        },
        _ => {},
    }
}

/// The number of movement statements a block's statements run, in order.
pub open spec fn count_execute_seq(
    ts: Seq<TokenV>,
    angle: u64,
    fns: Map<Seq<char>, FunV>,
    fuel: nat,
) -> Result<(u64, nat, bool), Error>
    decreases fuel, size_tokens(ts), 1nat, 0nat,
{
    if ts.len() == 0 {
        Ok((angle, 0nat, true))
    } else {
        match count_execute(ts[0], angle, fns, fuel) {
            Err(er) => Err(er),
            Ok((a1, c1, cont)) => {
                if !cont {
                    Ok((a1, c1, false))
                } else {
                    match count_execute_seq(ts.drop_first(), a1, fns, fuel) {
                        Err(er) => Err(er),
                        Ok((a2, c2, cc)) => Ok((a2, c1 + c2, cc)),
                    }
                }
            },
        }
    }
}

/// The number of movement statements `n` rounds of a loop body run.
pub open spec fn count_execute_repeat(
    body: Seq<TokenV>,
    n: nat,
    angle: u64,
    fns: Map<Seq<char>, FunV>,
    fuel: nat,
) -> Result<(u64, nat, bool), Error>
    decreases fuel, size_tokens(body), 2nat, n,
{
    if n == 0 {
        Ok((angle, 0nat, true))
    } else {
        match count_execute_seq(body, angle, fns, fuel) {
            Err(er) => Err(er),
            Ok((a1, c1, cont)) => {
                if !cont {
                    Ok((a1, c1, false))
                } else {
                    match count_execute_repeat(body, (n - 1) as nat, a1, fns, fuel) {
                        Err(er) => Err(er),
                        Ok((a2, c2, cc)) => Ok((a2, c1 + c2, cc)),
                    }
                }
            },
        }
    }
}

/// Executing a statement emits exactly one pen move per movement statement
/// actually run: `repeat` multiplies its body's moves by its iteration
/// count, a false `if` contributes none, and every other statement
/// contributes none. The two walks also agree on the heading, on
/// continuation, and on every fault.
pub proof fn lemma_moves_counted(t: TokenV, angle: u64, fns: Map<Seq<char>, FunV>, fuel: nat)
    ensures
        match (spec_execute(t, angle, fns, fuel), count_execute(t, angle, fns, fuel)) {
            (Ok(o), Ok(c)) => o.0 == c.0 && o.1.len() == c.1 && o.2 == c.2,
            (Err(e1), Err(e2)) => e1 == e2,
            _ => false,
        },
    decreases fuel, size_token(t), 0nat, 0nat,
{
    match t {
        TokenV::Repeat(e, b) => {
            match eval_expr(e) {
                Err(_) => {},
                Ok(cnt) => {
                    if trunc_bits(cnt) != 0 {
                        match *b {
                            TokenV::Bracket(inner) => {
                                assert(size_token(*b) == 1 + size_tokens(inner));
                                assert(size_token(t) == 1 + size_token(*b));
                                lemma_moves_counted_repeat(
                                    inner,
                                    trunc_bits(cnt) as nat,
                                    angle,
                                    fns,
                                    fuel,
                                );
                            },
                            _ => {},
                        }
                    }
                },
            }
        },
        TokenV::If(le, b) => {
            match eval_log(le) {
                Err(_) => {},
                Ok(v) => {
                    if v == LogExprV::Val(true) {
                        match *b {
                            TokenV::Bracket(inner) => {
                                assert(size_token(*b) == 1 + size_tokens(inner));
                                assert(size_token(t) == 1 + size_token(*b));
                                lemma_moves_counted_seq(inner, angle, fns, fuel);
                            },
                            _ => {},
                        }
                    }
                },
            }
        },
        TokenV::FnCall(label, args) => {
            if fuel > 0 && fns.contains_key(label) {
                match spec_instantiate(fns[label], args, fns) {
                    Err(_) => {},
                    Ok(cmds) => {
                        lemma_moves_counted_seq(cmds, angle, fns, (fuel - 1) as nat);
                    },
                }
            }
        },
        TokenV::Bracket(ts) => {
            lemma_moves_counted_seq(ts, angle, fns, fuel);
        },
        _ => {},
    }
}

/// The statements of a block emit exactly as many pen moves as movement
/// statements they run.
pub proof fn lemma_moves_counted_seq(
    ts: Seq<TokenV>,
    angle: u64,
    fns: Map<Seq<char>, FunV>,
    fuel: nat,
)
    ensures
        match (spec_execute_seq(ts, angle, fns, fuel), count_execute_seq(ts, angle, fns, fuel)) {
            (Ok(o), Ok(c)) => o.0 == c.0 && o.1.len() == c.1 && o.2 == c.2,
            (Err(e1), Err(e2)) => e1 == e2,
            _ => false,
        },
    decreases fuel, size_tokens(ts), 1nat, 0nat,
{
    if ts.len() > 0 {
        lemma_moves_counted(ts[0], angle, fns, fuel);
        match spec_execute(ts[0], angle, fns, fuel) {
            Err(_) => {},
            Ok(o1) => {
                if o1.2 {
                    lemma_moves_counted_seq(ts.drop_first(), o1.0, fns, fuel);
                }
            },
        }
    }
}

/// A loop body run `n` times emits exactly as many pen moves as movement
/// statements it runs over all its iterations.
pub proof fn lemma_moves_counted_repeat(
    body: Seq<TokenV>,
    n: nat,
    angle: u64,
    fns: Map<Seq<char>, FunV>,
    fuel: nat,
)
    ensures
        match (spec_execute_repeat(body, n, angle, fns, fuel), count_execute_repeat(
            body,
            n,
            angle,
            fns,
            fuel,
        )) {
            (Ok(o), Ok(c)) => o.0 == c.0 && o.1.len() == c.1 && o.2 == c.2,
            (Err(e1), Err(e2)) => e1 == e2,
            _ => false,
        },
    decreases fuel, size_tokens(body), 2nat, n,
{
    if n > 0 {
        lemma_moves_counted_seq(body, angle, fns, fuel);
        match spec_execute_seq(body, angle, fns, fuel) {
            Err(_) => {},
            Ok(o1) => {
                if o1.2 {
                    lemma_moves_counted_repeat(body, (n - 1) as nat, o1.0, fns, fuel);
                }
            },
        }
    }
}

/// The number of movement statements a program's top-level statements run.
pub open spec fn count_run_cmds(cmds: Seq<TokenV>, angle: u64, fns: Map<Seq<char>, FunV>) -> Result<
    (u64, nat),
    Error,
>
    decreases cmds.len(),
{
    if cmds.len() == 0 {
        Ok((angle, 0nat))
    } else {
        match count_execute(cmds[0], angle, fns, CALL_DEPTH_LIMIT as nat) {
            Err(e) => Err(e),
            Ok(o) => match count_run_cmds(cmds.drop_first(), o.0, fns) {
                Err(e) => Err(e),
                Ok(o2) => Ok((o2.0, o.1 + o2.1)),
            },
        }
    }
}

/// A whole run emits exactly one pen move per movement statement it
/// executes, `repeat` multiplication and `if` gating accounted for.
pub proof fn lemma_run_moves_counted(cmds: Seq<TokenV>, angle: u64, fns: Map<Seq<char>, FunV>)
    ensures
        match (spec_run_cmds(cmds, angle, fns), count_run_cmds(cmds, angle, fns)) {
            (Ok(o), Ok(c)) => o.0 == c.0 && o.1.len() == c.1,
            (Err(e1), Err(e2)) => e1 == e2,
            _ => false,
        },
    decreases cmds.len(),
{
    if cmds.len() > 0 {
        lemma_moves_counted(cmds[0], angle, fns, CALL_DEPTH_LIMIT as nat);
        match spec_execute(cmds[0], angle, fns, CALL_DEPTH_LIMIT as nat) {
            Err(_) => {},
            Ok(o1) => {
                lemma_run_moves_counted(cmds.drop_first(), o1.0, fns);
            },
        }
    }
}

/// An early exit inside a procedure's body is absorbed at the call
/// boundary: a call that executes successfully always tells its own caller
/// to continue, whatever `stop` did inside the activation.
pub proof fn lemma_stop_absorbed_at_call(
    label: Seq<char>,
    args: Seq<ExprV>,
    angle: u64,
    fns: Map<Seq<char>, FunV>,
    fuel: nat,
    o: (u64, Seq<PenMove>, bool),
)
    requires
        spec_execute(TokenV::FnCall(label, args), angle, fns, fuel) == Ok::<
            (u64, Seq<PenMove>, bool),
            Error,
        >(o),
    ensures
        o.2 == true,
{
}

/// An early exit stops the statements that remain in its own block: once a
/// statement reports no continuation, the block's result carries exactly
/// the moves made so far and passes the abort on.
pub proof fn lemma_stop_halts_block(
    ts: Seq<TokenV>,
    angle: u64,
    fns: Map<Seq<char>, FunV>,
    fuel: nat,
    o1: (u64, Seq<PenMove>, bool),
)
    requires
        ts.len() > 0,
        spec_execute(ts[0], angle, fns, fuel) == Ok::<(u64, Seq<PenMove>, bool), Error>(o1),
        o1.2 == false,
    ensures
        spec_execute_seq(ts, angle, fns, fuel) == Ok::<(u64, Seq<PenMove>, bool), Error>(
            (o1.0, o1.1, false),
        ),
{
}

/// Instantiating a procedure twice with the same arguments from the same
/// registry entry yields structurally identical resolved bodies, and
/// executing them from the same state emits identical geometry.
pub proof fn lemma_instantiation_idempotent(
    f: FunV,
    args: Seq<ExprV>,
    fns: Map<Seq<char>, FunV>,
    b1: Seq<TokenV>,
    b2: Seq<TokenV>,
    angle: u64,
    fuel: nat,
)
    requires
        spec_instantiate(f, args, fns) == Ok::<Seq<TokenV>, Error>(b1),
        spec_instantiate(f, args, fns) == Ok::<Seq<TokenV>, Error>(b2),
    ensures
        b1 == b2,
        spec_execute_seq(b1, angle, fns, fuel) == spec_execute_seq(b2, angle, fns, fuel),
{
}

/// Two operators on one tier associate to the left: with three operands
/// joined by two operators, the first operator applies before the second,
/// whatever kinds the two are.
pub proof fn lemma_expressions_fold_left(ws: Seq<Seq<char>>, a0: ExprV, a1: ExprV, a2: ExprV)
    requires
        ws.len() == 5,
        spec_operand(ws[0]) == Ok::<ExprV, Error>(a0),
        spec_operand(ws[2]) == Ok::<ExprV, Error>(a1),
        spec_operand(ws[4]) == Ok::<ExprV, Error>(a2),
        is_op(ws[1]),
        is_op(ws[3]),
    ensures
        spec_parse_expr(ws, 0) == Ok::<(ExprV, int), Error>(
            (combine(ws[3], combine(ws[1], a0, a1), a2), 5),
        ),
{
    assert(spec_parse_expr(ws, 0) == spec_parse_expr_rest(a0, ws, 1));
    assert(spec_parse_expr_rest(a0, ws, 1) == spec_parse_expr_rest(
        combine(ws[1], a0, a1),
        ws,
        3,
    ));
    assert(spec_parse_expr_rest(combine(ws[1], a0, a1), ws, 3) == spec_parse_expr_rest(
        combine(ws[3], combine(ws[1], a0, a1), a2),
        ws,
        5,
    ));
    assert(spec_parse_expr_rest(combine(ws[3], combine(ws[1], a0, a1), a2), ws, 5) == Ok::<
        (ExprV, int),
        Error,
    >((combine(ws[3], combine(ws[1], a0, a1), a2), 5)));
}

/// A bare identifier naming a procedure that was never defined is rejected
/// by resolution, never silently kept.
pub proof fn lemma_unknown_procedure_rejected(ts: Seq<TokenV>, fns: Map<Seq<char>, FunV>)
    requires
        ts.len() > 0,
        ts[0] is FnLabel,
        !fns.contains_key(ts[0]->FnLabel_0),
    ensures
        resolve_tokens(ts, fns) == Err::<Seq<TokenV>, Error>(Error::UnknownProcedure),
{
}

/// A call with fewer trailing expression statements than the procedure's
/// declared arity is rejected by resolution, never turned into a partial
/// call.
pub proof fn lemma_insufficient_arguments_rejected(ts: Seq<TokenV>, fns: Map<Seq<char>, FunV>)
    requires
        ts.len() > 0,
        ts[0] is FnLabel,
        fns.contains_key(ts[0]->FnLabel_0),
        !call_args_ok(ts, fns[ts[0]->FnLabel_0].params.len() as int),
    ensures
        resolve_tokens(ts, fns) == Err::<Seq<TokenV>, Error>(Error::InsufficientArguments),
{
}

} // verus!

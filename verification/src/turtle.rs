//! The evaluator: a tree walk over resolved statements against the turtle's
//! heading, recording one pen move per movement statement. The geometric
//! projection of moves into line segments is the embedder's concern; the
//! trace carries everything it needs. An early-exit statement aborts the
//! statements that remain in its enclosing blocks, up to and including the
//! nearest procedure activation, where the abort is absorbed.

use vstd::prelude::*;
use crate::ast::{Token, TokenV, LogExprV, view_token_seq, view_exprs, eval_expr, eval_log};
use crate::error::Error;
use crate::parser::{parse, spec_parse};
use crate::registry::{Functions, FunV, spec_instantiate};
use crate::scalar;
use crate::scalar::{add_bits, sub_bits, fmod_bits, trunc_bits};

verus! {

/// The IEEE-754 bit pattern of 270.0, the initial heading: with angle 0
/// along the positive x axis and y growing downward, 270 degrees points up.
pub const ANGLE_START: u64 = 0x4070E00000000000;

/// The IEEE-754 bit pattern of 360.0, the modulus that keeps the heading
/// within one turn. The remainder is not normalized to a non-negative
/// range: turning left can make the heading negative.
pub const FULL_TURN: u64 = 0x4076800000000000;

/// How deep procedure activations may nest before the run is cut off as
/// runaway recursion.
pub const CALL_DEPTH_LIMIT: u64 = 512;

/// One pen move: the heading (as the bit pattern of the angle in degrees)
/// and the distance at the moment a movement statement ran, and whether the
/// move goes against the heading (a `back` statement) rather than along it.
#[derive(Debug, Clone, Copy, PartialEq, Eq, Structural)]
pub struct PenMove {
    pub heading: u64,
    pub distance: u64,
    pub reverse: bool,
}

/// The trace of pen moves a run produces, one per movement statement
/// executed, in execution order.
#[derive(Debug)]
pub struct Trace {
    moves: Vec<PenMove>,
}

impl View for Trace {
    type V = Seq<PenMove>;

    closed spec fn view(&self) -> Seq<PenMove> {
        self.moves@
    }
}

impl Trace {
    /// An empty trace.
    pub fn new() -> (r: Trace)
        ensures
            r@ == Seq::<PenMove>::empty(),
    {
        let moves: Vec<PenMove> = Vec::new();
        proof {
            assert(moves@ =~= Seq::<PenMove>::empty());
        }
        Trace { moves }
    }

    /// Records one pen move.
    pub fn add_move(&mut self, m: PenMove)
        ensures
            final(self)@ == old(self)@.push(m),
    {
        self.moves.push(m);
    }

    /// The recorded moves, in execution order.
    pub fn moves(&self) -> (r: &Vec<PenMove>)
        ensures
            r@ == self@,
    {
        &self.moves
    }

    /// How many moves were recorded.
    pub fn len(&self) -> (r: usize)
        ensures
            r == self@.len(),
    {
        self.moves.len()
    }
}

/// The turtle: its heading angle in degrees, carried as an IEEE-754 bit
/// pattern. Its position is determined by the trace of moves, so the
/// evaluator does not carry it.
#[derive(Debug)]
pub struct Turtle {
    pub angle: u64,
}

/// The size of a statement tree, for termination of the tree walk.
pub open spec fn size_token(t: TokenV) -> nat
    decreases t,
{
    match t {
        TokenV::Repeat(_, b) => 1 + size_token(*b),
        TokenV::If(_, b) => 1 + size_token(*b),
        TokenV::Bracket(ts) => 1 + size_tokens(ts),
        _ => 1,
    }
}

/// The combined size of a statement sequence.
pub open spec fn size_tokens(ts: Seq<TokenV>) -> nat
    decreases ts,
{
    if ts.len() == 0 {
        0
    } else {
        1 + size_token(ts[0]) + size_tokens(ts.drop_first())
    }
}

/// What executing one statement does: the heading afterwards, the pen moves
/// emitted, and whether execution of the surrounding block continues (an
/// early exit makes it stop). `fuel` bounds how deep procedure activations
/// may still nest; it stands for the call stack that runaway recursion
/// would exhaust.
pub open spec fn spec_execute(
    t: TokenV,
    angle: u64,
    fns: Map<Seq<char>, FunV>,
    fuel: nat,
) -> Result<(u64, Seq<PenMove>, bool), Error>
    decreases fuel, size_token(t), 0nat, 0nat,
    via spec_execute_decreases
{
    match t {
        TokenV::Forward(e) => match eval_expr(e) {
            Err(er) => Err(er),
            Ok(d) => Ok(
                (angle, seq![PenMove { heading: angle, distance: d, reverse: false }], true),
            ),
        },
        TokenV::Back(e) => match eval_expr(e) {
            Err(er) => Err(er),
            Ok(d) => Ok(
                (angle, seq![PenMove { heading: angle, distance: d, reverse: true }], true),
            ),
        },
        TokenV::TurnRight(e) => match eval_expr(e) {
            Err(er) => Err(er),
            Ok(a) => Ok((fmod_bits(add_bits(angle, a), FULL_TURN), Seq::empty(), true)),
        },
        TokenV::TurnLeft(e) => match eval_expr(e) {
            Err(er) => Err(er),
            Ok(a) => Ok((fmod_bits(sub_bits(angle, a), FULL_TURN), Seq::empty(), true)),
        },
        TokenV::Repeat(e, b) => match eval_expr(e) {
            Err(er) => Err(er),
            Ok(cnt) => {
                let n = trunc_bits(cnt);
                if n == 0 {
                    Ok((angle, Seq::empty(), true))
                } else {
                    match *b {
                        TokenV::Bracket(inner) => spec_execute_repeat(
                            inner,
                            n as nat,
                            angle,
                            fns,
                            fuel,
                        ),
                        _ => Err(Error::NotABlock),
                    }
                }
            },
        },
        TokenV::If(le, b) => match eval_log(le) {
            Err(er) => Err(er),
            Ok(v) => {
                if v == LogExprV::Val(true) {
                    match *b {
                        TokenV::Bracket(inner) => spec_execute_seq(inner, angle, fns, fuel),
                        _ => Err(Error::NotABlock),
                    }
                } else {
                    Ok((angle, Seq::empty(), true))
                }
            },
        },
        TokenV::FnCall(label, args) => {
            if fuel == 0 {
                Err(Error::RecursionLimit)
            } else if !fns.contains_key(label) {
                Err(Error::UnknownProcedure)
            } else {
                match spec_instantiate(fns[label], args, fns) {
                    Err(er) => Err(er),
                    Ok(cmds) => match spec_execute_seq(cmds, angle, fns, (fuel - 1) as nat) {
                        Err(er) => Err(er),
                        // An early exit is absorbed at the call boundary:
                        // only this activation's remaining statements were
                        // skipped, and the caller carries on.
                        Ok((a2, moves, _)) => Ok((a2, moves, true)),
                    },
                }
            }
        },
        TokenV::Bracket(ts) => spec_execute_seq(ts, angle, fns, fuel),
        TokenV::Stop => Ok((angle, Seq::empty(), false)),
        TokenV::FnLabel(_) => Err(Error::UnresolvedStatement),
        TokenV::Expression(_) => Err(Error::UnresolvedStatement),
    }
}

#[via_fn]
proof fn spec_execute_decreases(t: TokenV, angle: u64, fns: Map<Seq<char>, FunV>, fuel: nat) {
    match t {
        TokenV::Repeat(_, b) => {
            match *b {
                TokenV::Bracket(inner) => {
                    assert(size_token(*b) == 1 + size_tokens(inner));
                    assert(size_token(t) == 1 + size_token(*b));
                },
                _ => {},
            }
        },
        TokenV::If(_, b) => {
            match *b {
                TokenV::Bracket(inner) => {
                    assert(size_token(*b) == 1 + size_tokens(inner));
                    assert(size_token(t) == 1 + size_token(*b));
                },
                _ => {},
            }
        },
        _ => {},
    }
}

/// What executing the statements of one block does, in order: the first
/// statement that stops continuation aborts the ones after it, and the
/// abort is passed on.
pub open spec fn spec_execute_seq(
    ts: Seq<TokenV>,
    angle: u64,
    fns: Map<Seq<char>, FunV>,
    fuel: nat,
) -> Result<(u64, Seq<PenMove>, bool), Error>
    decreases fuel, size_tokens(ts), 1nat, 0nat,
{
    if ts.len() == 0 {
        Ok((angle, Seq::empty(), true))
    } else {
        match spec_execute(ts[0], angle, fns, fuel) {
            Err(er) => Err(er),
            Ok((a1, m1, cont)) => {
                if !cont {
                    Ok((a1, m1, false))
                } else {
                    match spec_execute_seq(ts.drop_first(), a1, fns, fuel) {
                        Err(er) => Err(er),
                        Ok((a2, m2, c2)) => Ok((a2, m1 + m2, c2)),
                    }
                }
            },
        }
    }
}

/// What executing a loop body `n` times does: an early exit aborts the
/// remaining iterations and is passed on.
pub open spec fn spec_execute_repeat(
    body: Seq<TokenV>,
    n: nat,
    angle: u64,
    fns: Map<Seq<char>, FunV>,
    fuel: nat,
) -> Result<(u64, Seq<PenMove>, bool), Error>
    decreases fuel, size_tokens(body), 2nat, n,
{
    if n == 0 {
        Ok((angle, Seq::empty(), true))
    } else {
        match spec_execute_seq(body, angle, fns, fuel) {
            Err(er) => Err(er),
            Ok((a1, m1, cont)) => {
                if !cont {
                    Ok((a1, m1, false))
                } else {
                    match spec_execute_repeat(body, (n - 1) as nat, a1, fns, fuel) {
                        Err(er) => Err(er),
                        Ok((a2, m2, c2)) => Ok((a2, m1 + m2, c2)),
                    }
                }
            },
        }
    }
}

impl Turtle {
    /// A turtle at the initial heading.
    pub fn new() -> (r: Turtle)
        ensures
            r.angle == ANGLE_START,
    {
        Turtle { angle: ANGLE_START }
    }

    /// Executes one statement against the turtle's heading, recording each
    /// pen move on the trace, and reports whether the surrounding block
    /// should continue. On a fault the trace may hold the moves already made.
    pub fn execute(
        &mut self,
        token: &Token,
        trace: &mut Trace,
        fns: &Functions,
        fuel: u64,
    ) -> (r: Result<bool, Error>)
        ensures
            match spec_execute(token@, old(self).angle, fns.as_map(), fuel as nat) {
                Ok(o) => r == Ok::<bool, Error>(o.2) && final(self).angle == o.0 && final(trace)@
                    == old(trace)@ + o.1,
                Err(e) => r == Err::<bool, Error>(e),
            },
        decreases fuel, size_token(token@), 0nat, 0nat,
    {
        match token {
            Token::Forward(e) => {
                let d = match e.evaluate() {
                    Ok(d) => d,
                    Err(er) => {
                        return Err(er);
                    },
                };
                trace.add_move(PenMove { heading: self.angle, distance: d, reverse: false });
                proof {
                    assert(trace@ =~= old(trace)@ + seq![
                        PenMove { heading: self.angle, distance: d, reverse: false },
                    ]);
                }
                Ok(true)
            },
            Token::Back(e) => {
                let d = match e.evaluate() {
                    Ok(d) => d,
                    Err(er) => {
                        return Err(er);
                    },
                };
                trace.add_move(PenMove { heading: self.angle, distance: d, reverse: true });
                proof {
                    assert(trace@ =~= old(trace)@ + seq![
                        PenMove { heading: self.angle, distance: d, reverse: true },
                    ]);
                }
                Ok(true)
            },
            Token::TurnRight(e) => {
                let a = match e.evaluate() {
                    Ok(a) => a,
                    Err(er) => {
                        return Err(er);
                    },
                };
                self.angle = scalar::fmod(scalar::add(self.angle, a), FULL_TURN);
                proof {
                    assert(trace@ =~= old(trace)@ + Seq::<PenMove>::empty());
                }
                Ok(true)
            },
            Token::TurnLeft(e) => {
                let a = match e.evaluate() {
                    Ok(a) => a,
                    Err(er) => {
                        return Err(er);
                    },
                };
                self.angle = scalar::fmod(scalar::sub(self.angle, a), FULL_TURN);
                proof {
                    assert(trace@ =~= old(trace)@ + Seq::<PenMove>::empty());
                }
                Ok(true)
            },
            Token::Repeat(e, b) => {
                let cnt = match e.evaluate() {
                    Ok(c) => c,
                    Err(er) => {
                        return Err(er);
                    },
                };
                let n = scalar::trunc(cnt);
                if n == 0 {
                    proof {
                        assert(trace@ =~= old(trace)@ + Seq::<PenMove>::empty());
                    }
                    return Ok(true);
                }
                proof {
                    assert(token@ == TokenV::Repeat(e@, Box::new((**b)@)));
                }
                match &**b {
                    Token::Bracket(inner) => {
                        proof {
                            assert((**b)@ == TokenV::Bracket(view_token_seq(inner@)));
                            assert(size_token((**b)@) == 1 + size_tokens(view_token_seq(inner@)));
                            assert(size_token(token@) == 1 + size_token((**b)@));
                        }
                        self.execute_repeat(inner, n, trace, fns, fuel)
                    },
                    _ => Err(Error::NotABlock),
                }
            },
            Token::If(le, b) => {
                let v = match le.evaluate() {
                    Ok(v) => v,
                    Err(er) => {
                        return Err(er);
                    },
                };
                let taken = match v {
                    crate::ast::LogExpr::Val(bv) => bv,
                    _ => false,
                };
                proof {
                    assert(token@ == TokenV::If(le@, Box::new((**b)@)));
                }
                if taken {
                    match &**b {
                        Token::Bracket(inner) => {
                            proof {
                                assert((**b)@ == TokenV::Bracket(view_token_seq(inner@)));
                                assert(size_token((**b)@) == 1 + size_tokens(
                                    view_token_seq(inner@),
                                ));
                                assert(size_token(token@) == 1 + size_token((**b)@));
                                assert(view_token_seq(inner@).skip(0) =~= view_token_seq(inner@));
                            }
                            self.execute_seq_from(inner, 0, trace, fns, fuel)
                        },
                        _ => Err(Error::NotABlock),
                    }
                } else {
                    proof {
                        assert(trace@ =~= old(trace)@ + Seq::<PenMove>::empty());
                    }
                    Ok(true)
                }
            },
            Token::FnCall(label, args) => {
                if fuel == 0 {
                    return Err(Error::RecursionLimit);
                }
                proof {
                    assert(token@ == TokenV::FnCall(label@, view_exprs(args@)));
                }
                let cmds = match fns.get_commands(label, args) {
                    Ok(cmds) => cmds,
                    Err(er) => {
                        return Err(er);
                    },
                };
                proof {
                    assert(view_token_seq(cmds@).skip(0) =~= view_token_seq(cmds@));
                }
                match self.execute_seq_from(&cmds, 0, trace, fns, fuel - 1) {
                    Err(er) => Err(er),
                    Ok(_) => Ok(true),
                }
            },
            Token::Bracket(ts) => {
                proof {
                    assert(token@ == TokenV::Bracket(view_token_seq(ts@)));
                    assert(size_token(token@) == 1 + size_tokens(view_token_seq(ts@)));
                    assert(view_token_seq(ts@).skip(0) =~= view_token_seq(ts@));
                }
                self.execute_seq_from(ts, 0, trace, fns, fuel)
            },
            Token::Stop => {
                proof {
                    assert(trace@ =~= old(trace)@ + Seq::<PenMove>::empty());
                }
                Ok(false)
            },
            Token::FnLabel(_) => Err(Error::UnresolvedStatement),
            Token::Expression(_) => Err(Error::UnresolvedStatement),
        }
    }

    /// Executes the statements of a block from position `i` on.
    fn execute_seq_from(
        &mut self,
        tokens: &Vec<Token>,
        i: usize,
        trace: &mut Trace,
        fns: &Functions,
        fuel: u64,
    ) -> (r: Result<bool, Error>)
        requires
            i <= tokens@.len(),
        ensures
            match spec_execute_seq(
                view_token_seq(tokens@).skip(i as int),
                old(self).angle,
                fns.as_map(),
                fuel as nat,
            ) {
                Ok(o) => r == Ok::<bool, Error>(o.2) && final(self).angle == o.0 && final(trace)@
                    == old(trace)@ + o.1,
                Err(e) => r == Err::<bool, Error>(e),
            },
        decreases fuel, size_tokens(view_token_seq(tokens@).skip(i as int)), 1nat, 0nat,
    {
        let ghost vts = view_token_seq(tokens@);
        let ghost sv = vts.skip(i as int);
        proof {
            crate::ast::lemma_view_token_seq(tokens@);
        }
        if i == tokens.len() {
            proof {
                assert(sv =~= Seq::<TokenV>::empty());
                assert(trace@ =~= trace@ + Seq::<PenMove>::empty());
            }
            return Ok(true);
        }
        proof {
            assert(sv[0] == tokens@[i as int]@);
            assert(sv.drop_first() =~= vts.skip(i + 1));
            assert(size_tokens(sv) == 1 + size_token(sv[0]) + size_tokens(sv.drop_first()));
        }
        let ghost mid_trace = trace@;
        let cont = match self.execute(&tokens[i], trace, fns, fuel) {
            Ok(c) => c,
            Err(er) => {
                return Err(er);
            },
        };
        if !cont {
            return Ok(false);
        }
        let ghost m1 = spec_execute(sv[0], old(self).angle, fns.as_map(), fuel as nat)->Ok_0.1;
        match self.execute_seq_from(tokens, i + 1, trace, fns, fuel) {
            Err(er) => Err(er),
            Ok(c2) => {
                proof {
                    let m2 = spec_execute_seq(sv.drop_first(), self.angle, fns.as_map(), fuel as nat);
                    assert(trace@ =~= old(trace)@ + (m1 + spec_execute_seq(
                        vts.skip(i + 1),
                        spec_execute(sv[0], old(self).angle, fns.as_map(), fuel as nat)->Ok_0.0,
                        fns.as_map(),
                        fuel as nat,
                    )->Ok_0.1));
                }
                Ok(c2)
            },
        }
    }

    /// Executes a loop body `n` times.
    fn execute_repeat(
        &mut self,
        body: &Vec<Token>,
        n: u32,
        trace: &mut Trace,
        fns: &Functions,
        fuel: u64,
    ) -> (r: Result<bool, Error>)
        ensures
            match spec_execute_repeat(
                view_token_seq(body@),
                n as nat,
                old(self).angle,
                fns.as_map(),
                fuel as nat,
            ) {
                Ok(o) => r == Ok::<bool, Error>(o.2) && final(self).angle == o.0 && final(trace)@
                    == old(trace)@ + o.1,
                Err(e) => r == Err::<bool, Error>(e),
            },
        decreases fuel, size_tokens(view_token_seq(body@)), 2nat, n,
    {
        let ghost bv = view_token_seq(body@);
        if n == 0 {
            proof {
                assert(trace@ =~= trace@ + Seq::<PenMove>::empty());
            }
            return Ok(true);
        }
        proof {
            assert(bv.skip(0) =~= bv);
        }
        let cont = match self.execute_seq_from(body, 0, trace, fns, fuel) {
            Ok(c) => c,
            Err(er) => {
                return Err(er);
            },
        };
        if !cont {
            return Ok(false);
        }
        let ghost m1 = spec_execute_seq(bv, old(self).angle, fns.as_map(), fuel as nat)->Ok_0.1;
        match self.execute_repeat(body, n - 1, trace, fns, fuel) {
            Err(er) => Err(er),
            Ok(c2) => {
                proof {
                    assert(trace@ =~= old(trace)@ + (m1 + spec_execute_repeat(
                        bv,
                        (n - 1) as nat,
                        spec_execute_seq(bv, old(self).angle, fns.as_map(), fuel as nat)->Ok_0.0,
                        fns.as_map(),
                        fuel as nat,
                    )->Ok_0.1));
                }
                Ok(c2)
            },
        }
    }
}

/// What running the parsed top-level statements does: each is executed in
/// order with a fresh activation budget, and an early exit at the top level
/// stops nothing but its own statement.
pub open spec fn spec_run_cmds(cmds: Seq<TokenV>, angle: u64, fns: Map<Seq<char>, FunV>) -> Result<
    (u64, Seq<PenMove>),
    Error,
>
    decreases cmds.len(),
{
    if cmds.len() == 0 {
        Ok((angle, Seq::empty()))
    } else {
        match spec_execute(cmds[0], angle, fns, CALL_DEPTH_LIMIT as nat) {
            Err(e) => Err(e),
            Ok(o) => match spec_run_cmds(cmds.drop_first(), o.0, fns) {
                Err(e) => Err(e),
                Ok(o2) => Ok((o2.0, o.1 + o2.1)),
            },
        }
    }
}

/// What running a whole program text produces: the final heading and the
/// trace of pen moves.
pub open spec fn spec_run(inp: Seq<char>) -> Result<(u64, Seq<PenMove>), Error> {
    match spec_parse(inp) {
        Err(e) => Err(e),
        Ok((cmds, fns)) => spec_run_cmds(cmds, ANGLE_START, fns),
    }
}

/// Parses and executes a whole program: the turtle starts at heading 270
/// degrees, and every pen move it makes is recorded on the trace, one per
/// movement statement, in execution order.
#[verifier::loop_isolation(false)]
pub fn run(input: &str) -> (r: Result<(Turtle, Trace), Error>)
    ensures
        match r {
            Ok(p) => spec_run(input@) == Ok::<(u64, Seq<PenMove>), Error>((p.0.angle, p.1@)),
            Err(e) => spec_run(input@) == Err::<(u64, Seq<PenMove>), Error>(e),
        },
{
    let (commands, fns) = match parse(input) {
        Ok(p) => p,
        Err(e) => {
            return Err(e);
        },
    };
    let mut turtle = Turtle::new();
    let mut trace = Trace::new();
    let ghost cmdv = view_token_seq(commands@);
    proof {
        crate::ast::lemma_view_token_seq(commands@);
        assert(cmdv.skip(0) =~= cmdv);
        if spec_run_cmds(cmdv, ANGLE_START, fns.as_map()) is Ok {
            let o = spec_run_cmds(cmdv, ANGLE_START, fns.as_map())->Ok_0;
            assert(trace@ + o.1 =~= o.1);
        }
    }
    let mut k: usize = 0;
    while k < commands.len()
        invariant
            k <= commands@.len(),
            match spec_run_cmds(cmdv.skip(k as int), turtle.angle, fns.as_map()) {
                Err(e) => spec_run_cmds(cmdv, ANGLE_START, fns.as_map()) == Err::<
                    (u64, Seq<PenMove>),
                    Error,
                >(e),
                Ok(o) => spec_run_cmds(cmdv, ANGLE_START, fns.as_map()) == Ok::<
                    (u64, Seq<PenMove>),
                    Error,
                >((o.0, trace@ + o.1)),
            },
        decreases commands@.len() - k,
    {
        let ghost pre = cmdv.skip(k as int);
        proof {
            assert(pre[0] == commands@[k as int]@);
            assert(pre.drop_first() =~= cmdv.skip(k + 1));
        }
        let ghost trace0 = trace@;
        let ghost angle0 = turtle.angle;
        match turtle.execute(&commands[k], &mut trace, &fns, CALL_DEPTH_LIMIT) {
            Ok(_) => {},
            Err(e) => {
                return Err(e);
            },
        }
        k += 1;
        proof {
            let o = spec_execute(pre[0], angle0, fns.as_map(), CALL_DEPTH_LIMIT as nat)->Ok_0;
            if spec_run_cmds(pre.drop_first(), turtle.angle, fns.as_map()) is Ok {
                let o2 = spec_run_cmds(pre.drop_first(), turtle.angle, fns.as_map())->Ok_0;
                assert(trace0 + (o.1 + o2.1) =~= (trace0 + o.1) + o2.1);
            }
        }
    }
    proof {
        assert(cmdv.skip(commands@.len() as int) =~= Seq::<TokenV>::empty());
        assert(trace@ =~= trace@ + Seq::<PenMove>::empty());
    }
    Ok((turtle, trace))
}

} // verus!

//! The syntax trees of the language and the operations on them:
//! mathematical views, parameter substitution and arithmetic evaluation.

use vstd::prelude::*;
use crate::error::Error;
use crate::scalar;
use crate::scalar::{add_bits, sub_bits, mul_bits, div_bits, lt_bits, gt_bits};

verus! {

broadcast use
    vstd::seq::axiom_seq_index_decreases,
    vstd::seq::axiom_seq_subrange_decreases,
    vstd::std_specs::vec::axiom_vec_index_decreases,
    vstd::std_specs::vec::axiom_vec_decreases_to_view;

/// A leaf of an arithmetic expression: either a number (carried as its
/// IEEE-754 bit pattern) or a reference to a procedure parameter, kept with
/// its `:` sigil. A `Param` must be substituted away before evaluation.
#[derive(Debug)]
pub enum Arg {
    Val(u64),
    Param(String),
}

/// An arithmetic expression over numbers and parameter references. All four
/// operators share one precedence tier; the parser builds the tree by an
/// immediate left fold over the token stream.
#[derive(Debug)]
pub enum Expr {
    Arg(Arg),
    Mul(Box<Expr>, Box<Expr>),
    Div(Box<Expr>, Box<Expr>),
    Add(Box<Expr>, Box<Expr>),
    Sub(Box<Expr>, Box<Expr>),
}

/// A comparison between two expressions. `Val` never comes out of the
/// parser; it only appears as the result of evaluating a comparison.
#[derive(Debug)]
pub enum LogExpr {
    Greater(Box<Expr>, Box<Expr>),
    Less(Box<Expr>, Box<Expr>),
    Val(bool),
}

/// One statement of a program. `FnLabel` is the parser's placeholder for a
/// bare procedure name; the resolver must rewrite every one into a `FnCall`
/// before execution. An `Expression` at statement level can only be an
/// argument awaiting consumption by a call.
#[derive(Debug)]
pub enum Token {
    Forward(Box<Expr>),
    Back(Box<Expr>),
    TurnRight(Box<Expr>),
    TurnLeft(Box<Expr>),
    Repeat(Box<Expr>, Box<Token>),
    FnLabel(String),
    FnCall(String, Vec<Expr>),
    Bracket(Vec<Token>),
    If(LogExpr, Box<Token>),
    Expression(Box<Expr>),
    Stop,
}

/// The mathematical form of an `Arg`.
#[verifier::ext_equal]
pub enum ArgV {
    Val(u64),
    Param(Seq<char>),
}

/// The mathematical form of an `Expr`.
#[verifier::ext_equal]
pub enum ExprV {
    Arg(ArgV),
    Mul(Box<ExprV>, Box<ExprV>),
    Div(Box<ExprV>, Box<ExprV>),
    Add(Box<ExprV>, Box<ExprV>),
    Sub(Box<ExprV>, Box<ExprV>),
}

/// The mathematical form of a `LogExpr`.
#[verifier::ext_equal]
pub enum LogExprV {
    Greater(ExprV, ExprV),
    Less(ExprV, ExprV),
    Val(bool),
}

/// The mathematical form of a `Token`.
#[verifier::ext_equal]
pub enum TokenV {
    Forward(ExprV),
    Back(ExprV),
    TurnRight(ExprV),
    TurnLeft(ExprV),
    Repeat(ExprV, Box<TokenV>),
    FnLabel(Seq<char>),
    FnCall(Seq<char>, Seq<ExprV>),
    Bracket(Seq<TokenV>),
    If(LogExprV, Box<TokenV>),
    Expression(ExprV),
    Stop,
}

impl View for Arg {
    type V = ArgV;

    open spec fn view(&self) -> ArgV {
        match self {
            Arg::Val(v) => ArgV::Val(*v),
            Arg::Param(name) => ArgV::Param(name@),
        }
    }
}

impl View for Expr {
    type V = ExprV;

    open spec fn view(&self) -> ExprV
        decreases self,
    {
        match self {
            Expr::Arg(a) => ExprV::Arg(a@),
            Expr::Mul(l, r) => ExprV::Mul(Box::new((**l)@), Box::new((**r)@)),
            Expr::Div(l, r) => ExprV::Div(Box::new((**l)@), Box::new((**r)@)),
            Expr::Add(l, r) => ExprV::Add(Box::new((**l)@), Box::new((**r)@)),
            Expr::Sub(l, r) => ExprV::Sub(Box::new((**l)@), Box::new((**r)@)),
        }
    }
}

impl View for LogExpr {
    type V = LogExprV;

    open spec fn view(&self) -> LogExprV {
        match self {
            LogExpr::Greater(l, r) => LogExprV::Greater((**l)@, (**r)@),
            LogExpr::Less(l, r) => LogExprV::Less((**l)@, (**r)@),
            LogExpr::Val(b) => LogExprV::Val(*b),
        }
    }
}

impl View for Token {
    type V = TokenV;

    open spec fn view(&self) -> TokenV
        decreases self,
    {
        match self {
            Token::Forward(e) => TokenV::Forward((**e)@),
            Token::Back(e) => TokenV::Back((**e)@),
            Token::TurnRight(e) => TokenV::TurnRight((**e)@),
            Token::TurnLeft(e) => TokenV::TurnLeft((**e)@),
            Token::Repeat(e, b) => TokenV::Repeat((**e)@, Box::new((**b)@)),
            Token::FnLabel(name) => TokenV::FnLabel(name@),
            Token::FnCall(name, args) => TokenV::FnCall(
                name@,
                Seq::new(args@.len(), |i: int| args@[i]@),
            ),
            Token::Bracket(ts) => TokenV::Bracket(view_token_seq(ts@)),
            Token::If(cond, b) => TokenV::If(cond@, Box::new((**b)@)),
            Token::Expression(e) => TokenV::Expression((**e)@),
            Token::Stop => TokenV::Stop,
        }
    }
}

/// The view of a statement sequence: each statement's view, in order.
pub open spec fn view_token_seq(ts: Seq<Token>) -> Seq<TokenV>
    decreases ts,
{
    if ts.len() == 0 {
        Seq::empty()
    } else {
        seq![ts[0]@] + view_token_seq(ts.drop_first())
    }
}

/// Each statement of a sequence is viewed in place.
pub broadcast proof fn lemma_view_token_seq(ts: Seq<Token>)
    ensures
        #[trigger] view_token_seq(ts).len() == ts.len(),
        forall|i: int| 0 <= i < ts.len() ==> view_token_seq(ts)[i] == ts[i]@,
    decreases ts.len(),
{
    if ts.len() > 0 {
        lemma_view_token_seq(ts.drop_first());
        assert(view_token_seq(ts) == seq![ts[0]@] + view_token_seq(ts.drop_first()));
        assert forall|i: int| 0 <= i < ts.len() implies view_token_seq(ts)[i] == ts[i]@ by {
            if i > 0 {
                assert(view_token_seq(ts)[i] == view_token_seq(ts.drop_first())[i - 1]);
                assert(ts.drop_first()[i - 1] == ts[i]);
            }
        }
    }
}

/// The view of an expression sequence: each expression's view, in order.
pub open spec fn view_exprs(es: Seq<Expr>) -> Seq<ExprV> {
    Seq::new(es.len(), |i: int| es[i]@)
}

/// The parameter-to-value bindings of one procedure activation, built by
/// zipping the formal parameter names with the evaluated arguments. A later
/// binding of the same name shadows an earlier one.
pub struct Bindings {
    pairs: Vec<(String, u64)>,
}

/// The mapping denoted by a list of bindings, later entries overwriting
/// earlier ones.
pub open spec fn map_of_pairs(s: Seq<(String, u64)>) -> Map<Seq<char>, u64>
    decreases s.len(),
{
    if s.len() == 0 {
        Map::empty()
    } else {
        map_of_pairs(s.drop_last()).insert(s.last().0@, s.last().1)
    }
}

impl Bindings {
    /// The mapping these bindings denote.
    pub closed spec fn as_map(&self) -> Map<Seq<char>, u64> {
        map_of_pairs(self.pairs@)
    }

    /// An empty set of bindings.
    pub fn new() -> (r: Bindings)
        ensures
            r.as_map() == Map::<Seq<char>, u64>::empty(),
    {
        Bindings { pairs: Vec::new() }
    }

    /// Binds `name` to `value`, shadowing any earlier binding of `name`.
    pub fn push(&mut self, name: String, value: u64)
        ensures
            final(self).as_map() == old(self).as_map().insert(name@, value),
    {
        let ghost before = self.pairs@;
        self.pairs.push((name, value));
        proof {
            assert(self.pairs@.drop_last() =~= before);
        }
    }

    /// Looks `name` up among the bindings.
    pub fn get(&self, name: &String) -> (r: Option<u64>)
        ensures
            r == if self.as_map().contains_key(name@) {
                Some(self.as_map()[name@])
            } else {
                None::<u64>
            },
    {
        let n = self.pairs.len();
        proof {
            assert(self.pairs@.subrange(0, n as int) =~= self.pairs@);
        }
        bindings_get_from(&self.pairs, n, name)
    }
}

/// Looks `name` up among the first `n` bindings, latest first.
fn bindings_get_from(pairs: &Vec<(String, u64)>, n: usize, name: &String) -> (r: Option<u64>)
    requires
        n <= pairs@.len(),
    ensures
        r == if map_of_pairs(pairs@.subrange(0, n as int)).contains_key(name@) {
            Some(map_of_pairs(pairs@.subrange(0, n as int))[name@])
        } else {
            None::<u64>
        },
    decreases n,
{
    if n == 0 {
        proof {
            assert(pairs@.subrange(0, 0) =~= Seq::<(String, u64)>::empty());
        }
        None
    } else {
        proof {
            assert(pairs@.subrange(0, n as int).drop_last() =~= pairs@.subrange(0, n - 1));
            assert(pairs@.subrange(0, n as int).last() == pairs@[n - 1]);
        }
        if pairs[n - 1].0 == *name {
            Some(pairs[n - 1].1)
        } else {
            bindings_get_from(pairs, n - 1, name)
        }
    }
}

/// Substitution over an expression: every parameter reference bound in the
/// environment becomes the bound number; an unbound parameter is left
/// untouched, since it may belong to an enclosing procedure's own
/// still-unresolved tree.
pub open spec fn subst_expr(e: ExprV, env: Map<Seq<char>, u64>) -> ExprV
    decreases e,
{
    match e {
        ExprV::Arg(ArgV::Param(p)) => if env.contains_key(p) {
            ExprV::Arg(ArgV::Val(env[p]))
        } else {
            e
        },
        ExprV::Arg(ArgV::Val(_)) => e,
        ExprV::Mul(l, r) => ExprV::Mul(Box::new(subst_expr(*l, env)), Box::new(subst_expr(*r, env))),
        ExprV::Div(l, r) => ExprV::Div(Box::new(subst_expr(*l, env)), Box::new(subst_expr(*r, env))),
        ExprV::Add(l, r) => ExprV::Add(Box::new(subst_expr(*l, env)), Box::new(subst_expr(*r, env))),
        ExprV::Sub(l, r) => ExprV::Sub(Box::new(subst_expr(*l, env)), Box::new(subst_expr(*r, env))),
    }
}

/// Substitution over a comparison: both operand expressions are substituted;
/// an already-computed value is kept as it is.
pub open spec fn subst_log(le: LogExprV, env: Map<Seq<char>, u64>) -> LogExprV {
    match le {
        LogExprV::Greater(l, r) => LogExprV::Greater(subst_expr(l, env), subst_expr(r, env)),
        LogExprV::Less(l, r) => LogExprV::Less(subst_expr(l, env), subst_expr(r, env)),
        LogExprV::Val(_) => le,
    }
}

/// Substitution over a statement, rewriting every expression it carries and
/// recursing into nested blocks. Bare identifiers are kept as they are.
pub open spec fn subst_token(t: TokenV, env: Map<Seq<char>, u64>) -> TokenV
    decreases t,
{
    match t {
        TokenV::Stop => t,
        TokenV::Forward(e) => TokenV::Forward(subst_expr(e, env)),
        TokenV::Back(e) => TokenV::Back(subst_expr(e, env)),
        TokenV::TurnRight(e) => TokenV::TurnRight(subst_expr(e, env)),
        TokenV::TurnLeft(e) => TokenV::TurnLeft(subst_expr(e, env)),
        TokenV::Repeat(e, b) => TokenV::Repeat(
            subst_expr(e, env),
            Box::new(subst_token(*b, env)),
        ),
        TokenV::Bracket(ts) => TokenV::Bracket(subst_token_seq(ts, env)),
        TokenV::Expression(e) => TokenV::Expression(subst_expr(e, env)),
        TokenV::FnCall(name, args) => TokenV::FnCall(
            name,
            Seq::new(args.len(), |i: int| subst_expr(args[i], env)),
        ),
        TokenV::FnLabel(_) => t,
        TokenV::If(le, b) => TokenV::If(subst_log(le, env), Box::new(subst_token(*b, env))),
    }
}

/// Substitution over a statement sequence, statement by statement.
pub open spec fn subst_token_seq(ts: Seq<TokenV>, env: Map<Seq<char>, u64>) -> Seq<TokenV>
    decreases ts,
{
    if ts.len() == 0 {
        Seq::empty()
    } else {
        seq![subst_token(ts[0], env)] + subst_token_seq(ts.drop_first(), env)
    }
}

/// Substitution of a statement sequence works statement by statement.
pub broadcast proof fn lemma_subst_token_seq(ts: Seq<TokenV>, env: Map<Seq<char>, u64>)
    ensures
        #[trigger] subst_token_seq(ts, env).len() == ts.len(),
        forall|i: int| 0 <= i < ts.len() ==> subst_token_seq(ts, env)[i] == subst_token(
            ts[i],
            env,
        ),
    decreases ts.len(),
{
    if ts.len() > 0 {
        lemma_subst_token_seq(ts.drop_first(), env);
        assert forall|i: int| 0 <= i < ts.len() implies subst_token_seq(ts, env)[i]
            == subst_token(ts[i], env) by {
            if i > 0 {
                assert(subst_token_seq(ts, env)[i] == subst_token_seq(ts.drop_first(), env)[i
                    - 1]);
                assert(ts.drop_first()[i - 1] == ts[i]);
            }
        }
    }
}

/// Rewrites an expression, replacing every parameter reference bound in
/// `env` with its value; unbound parameters are left untouched.
pub fn substitute_expr(expr: &Expr, env: &Bindings) -> (r: Expr)
    ensures
        r@ == subst_expr(expr@, env.as_map()),
    decreases expr,
{
    match expr {
        Expr::Arg(Arg::Param(param)) => {
            match env.get(param) {
                Some(value) => Expr::Arg(Arg::Val(value)),
                None => Expr::Arg(Arg::Param(clone_string(param))),
            }
        },
        Expr::Arg(Arg::Val(value)) => Expr::Arg(Arg::Val(*value)),
        Expr::Mul(l, r) => Expr::Mul(
            Box::new(substitute_expr(l, env)),
            Box::new(substitute_expr(r, env)),
        ),
        Expr::Div(l, r) => Expr::Div(
            Box::new(substitute_expr(l, env)),
            Box::new(substitute_expr(r, env)),
        ),
        Expr::Add(l, r) => Expr::Add(
            Box::new(substitute_expr(l, env)),
            Box::new(substitute_expr(r, env)),
        ),
        Expr::Sub(l, r) => Expr::Sub(
            Box::new(substitute_expr(l, env)),
            Box::new(substitute_expr(r, env)),
        ),
    }
}

/// A copy of a string with the same characters.
pub fn clone_string(s: &String) -> (r: String)
    ensures
        r@ == s@,
{
    s.clone()
}

/// Rewrites a statement, substituting every expression it carries and
/// recursing into nested blocks.
pub fn substitute_token(token: &Token, env: &Bindings) -> (r: Token)
    ensures
        r@ == subst_token(token@, env.as_map()),
    decreases token,
{
    match token {
        Token::Stop => Token::Stop,
        Token::Forward(e) => Token::Forward(Box::new(substitute_expr(e, env))),
        Token::Back(e) => Token::Back(Box::new(substitute_expr(e, env))),
        Token::TurnRight(e) => Token::TurnRight(Box::new(substitute_expr(e, env))),
        Token::TurnLeft(e) => Token::TurnLeft(Box::new(substitute_expr(e, env))),
        Token::Repeat(e, b) => Token::Repeat(
            Box::new(substitute_expr(e, env)),
            Box::new(substitute_token(b, env)),
        ),
        Token::Bracket(ts) => Token::Bracket(substitute_tokens(ts, env)),
        Token::Expression(e) => Token::Expression(Box::new(substitute_expr(e, env))),
        Token::FnCall(name, args) => {
            let mut out: Vec<Expr> = Vec::new();
            let mut k: usize = 0;
            while k < args.len()
                invariant
                    k <= args@.len(),
                    out@.len() == k,
                    forall|j: int| 0 <= j < k ==> out@[j]@ == subst_expr(args@[j]@, env.as_map()),
                decreases args@.len() - k,
            {
                out.push(substitute_expr(&args[k], env));
                k += 1;
            }
            proof {
                let tv = subst_token(token@, env.as_map());
                assert(view_exprs(out@) =~= tv->FnCall_1);
            }
            Token::FnCall(clone_string(name), out)
        },
        Token::FnLabel(name) => Token::FnLabel(clone_string(name)),
        Token::If(le, b) => Token::If(le.substitute(env), Box::new(substitute_token(b, env))),
    }
}

/// Rewrites each statement of a sequence.
pub fn substitute_tokens(tokens: &Vec<Token>, env: &Bindings) -> (r: Vec<Token>)
    ensures
        view_token_seq(r@) == subst_token_seq(view_token_seq(tokens@), env.as_map()),
    decreases tokens,
{
    let mut out: Vec<Token> = Vec::new();
    let mut k: usize = 0;
    while k < tokens.len()
        invariant
            k <= tokens@.len(),
            out@.len() == k,
            forall|j: int| 0 <= j < k ==> out@[j]@ == subst_token(tokens@[j]@, env.as_map()),
        decreases tokens@.len() - k,
    {
        out.push(substitute_token(&tokens[k], env));
        k += 1;
    }
    proof {
        lemma_view_token_seq(out@);
        lemma_view_token_seq(tokens@);
        lemma_subst_token_seq(view_token_seq(tokens@), env.as_map());
        assert(view_token_seq(out@) =~= subst_token_seq(view_token_seq(tokens@), env.as_map()));
    }
    out
}

impl LogExpr {
    /// The comparison with its parameter references substituted.
    pub fn substitute(&self, env: &Bindings) -> (r: LogExpr)
        ensures
            r@ == subst_log(self@, env.as_map()),
    {
        match self {
            LogExpr::Greater(l, r) => LogExpr::Greater(
                Box::new(substitute_expr(l, env)),
                Box::new(substitute_expr(r, env)),
            ),
            LogExpr::Less(l, r) => LogExpr::Less(
                Box::new(substitute_expr(l, env)),
                Box::new(substitute_expr(r, env)),
            ),
            LogExpr::Val(b) => LogExpr::Val(*b),
        }
    }
}

/// A copy of an expression with the same view.
pub fn clone_expr(e: &Expr) -> (r: Expr)
    ensures
        r@ == e@,
    decreases e,
{
    match e {
        Expr::Arg(Arg::Val(v)) => Expr::Arg(Arg::Val(*v)),
        Expr::Arg(Arg::Param(p)) => Expr::Arg(Arg::Param(clone_string(p))),
        Expr::Mul(l, r) => Expr::Mul(Box::new(clone_expr(l)), Box::new(clone_expr(r))),
        Expr::Div(l, r) => Expr::Div(Box::new(clone_expr(l)), Box::new(clone_expr(r))),
        Expr::Add(l, r) => Expr::Add(Box::new(clone_expr(l)), Box::new(clone_expr(r))),
        Expr::Sub(l, r) => Expr::Sub(Box::new(clone_expr(l)), Box::new(clone_expr(r))),
    }
}

/// A copy of a comparison with the same view.
pub fn clone_log(le: &LogExpr) -> (r: LogExpr)
    ensures
        r@ == le@,
{
    match le {
        LogExpr::Greater(l, r) => LogExpr::Greater(
            Box::new(clone_expr(l)),
            Box::new(clone_expr(r)),
        ),
        LogExpr::Less(l, r) => LogExpr::Less(Box::new(clone_expr(l)), Box::new(clone_expr(r))),
        LogExpr::Val(b) => LogExpr::Val(*b),
    }
}

/// A copy of a statement with the same view.
pub fn clone_token(t: &Token) -> (r: Token)
    ensures
        r@ == t@,
    decreases t,
{
    match t {
        Token::Stop => Token::Stop,
        Token::Forward(e) => Token::Forward(Box::new(clone_expr(e))),
        Token::Back(e) => Token::Back(Box::new(clone_expr(e))),
        Token::TurnRight(e) => Token::TurnRight(Box::new(clone_expr(e))),
        Token::TurnLeft(e) => Token::TurnLeft(Box::new(clone_expr(e))),
        Token::Repeat(e, b) => Token::Repeat(Box::new(clone_expr(e)), Box::new(clone_token(b))),
        Token::FnLabel(name) => Token::FnLabel(clone_string(name)),
        Token::FnCall(name, args) => {
            let mut out: Vec<Expr> = Vec::new();
            let mut k: usize = 0;
            while k < args.len()
                invariant
                    k <= args@.len(),
                    out@.len() == k,
                    forall|j: int| 0 <= j < k ==> out@[j]@ == args@[j]@,
                decreases args@.len() - k,
            {
                out.push(clone_expr(&args[k]));
                k += 1;
            }
            proof {
                assert(view_exprs(out@) =~= t@->FnCall_1);
            }
            Token::FnCall(clone_string(name), out)
        },
        Token::Bracket(ts) => {
            let out = clone_tokens(ts);
            proof {
                lemma_view_token_seq(out@);
                lemma_view_token_seq(ts@);
                assert(view_token_seq(out@) =~= view_token_seq(ts@));
            }
            Token::Bracket(out)
        },
        Token::If(le, b) => Token::If(clone_log(le), Box::new(clone_token(b))),
        Token::Expression(e) => Token::Expression(Box::new(clone_expr(e))),
    }
}

/// A copy of a statement sequence with the same views.
pub fn clone_tokens(ts: &Vec<Token>) -> (r: Vec<Token>)
    ensures
        r@.len() == ts@.len(),
        forall|j: int| 0 <= j < ts@.len() ==> r@[j]@ == ts@[j]@,
    decreases ts,
{
    let mut out: Vec<Token> = Vec::new();
    let mut k: usize = 0;
    while k < ts.len()
        invariant
            k <= ts@.len(),
            out@.len() == k,
            forall|j: int| 0 <= j < k ==> out@[j]@ == ts@[j]@,
        decreases ts@.len() - k,
    {
        out.push(clone_token(&ts[k]));
        k += 1;
    }
    out
}

/// The number an expression evaluates to: literals stand for themselves and
/// each operator applies its IEEE-754 operation to its operands' values, the
/// left one first. A surviving parameter reference is a fault.
pub open spec fn eval_expr(e: ExprV) -> Result<u64, Error>
    decreases e,
{
    match e {
        ExprV::Arg(ArgV::Val(v)) => Ok(v),
        ExprV::Arg(ArgV::Param(_)) => Err(Error::UnresolvedParameter),
        ExprV::Mul(l, r) => match (eval_expr(*l), eval_expr(*r)) {
            (Err(e1), _) => Err(e1),
            (Ok(_), Err(e2)) => Err(e2),
            (Ok(lv), Ok(rv)) => Ok(mul_bits(lv, rv)),
        },
        ExprV::Div(l, r) => match (eval_expr(*l), eval_expr(*r)) {
            (Err(e1), _) => Err(e1),
            (Ok(_), Err(e2)) => Err(e2),
            (Ok(lv), Ok(rv)) => Ok(div_bits(lv, rv)),
        },
        ExprV::Add(l, r) => match (eval_expr(*l), eval_expr(*r)) {
            (Err(e1), _) => Err(e1),
            (Ok(_), Err(e2)) => Err(e2),
            (Ok(lv), Ok(rv)) => Ok(add_bits(lv, rv)),
        },
        ExprV::Sub(l, r) => match (eval_expr(*l), eval_expr(*r)) {
            (Err(e1), _) => Err(e1),
            (Ok(_), Err(e2)) => Err(e2),
            (Ok(lv), Ok(rv)) => Ok(sub_bits(lv, rv)),
        },
    }
}

/// The value of a comparison: each operand is evaluated and the comparison
/// applied; an already-computed value stands for itself.
pub open spec fn eval_log(le: LogExprV) -> Result<LogExprV, Error> {
    match le {
        LogExprV::Greater(l, r) => match (eval_expr(l), eval_expr(r)) {
            (Err(e1), _) => Err(e1),
            (Ok(_), Err(e2)) => Err(e2),
            (Ok(lv), Ok(rv)) => Ok(LogExprV::Val(gt_bits(lv, rv))),
        },
        LogExprV::Less(l, r) => match (eval_expr(l), eval_expr(r)) {
            (Err(e1), _) => Err(e1),
            (Ok(_), Err(e2)) => Err(e2),
            (Ok(lv), Ok(rv)) => Ok(LogExprV::Val(lt_bits(lv, rv))),
        },
        LogExprV::Val(_) => Ok(le),
    }
}

impl Expr {
    /// Evaluates the expression to the number it denotes; a parameter
    /// reference that survived substitution is a fault.
    pub fn evaluate(&self) -> (r: Result<u64, Error>)
        ensures
            r == eval_expr(self@),
        decreases self,
    {
        match self {
            Expr::Arg(Arg::Val(value)) => Ok(*value),
            Expr::Arg(Arg::Param(_)) => Err(Error::UnresolvedParameter),
            Expr::Mul(l, r) => match (l.evaluate(), r.evaluate()) {
                (Err(e1), _) => Err(e1),
                (Ok(_), Err(e2)) => Err(e2),
                (Ok(lv), Ok(rv)) => Ok(scalar::mul(lv, rv)),
            },
            Expr::Div(l, r) => match (l.evaluate(), r.evaluate()) {
                (Err(e1), _) => Err(e1),
                (Ok(_), Err(e2)) => Err(e2),
                (Ok(lv), Ok(rv)) => Ok(scalar::div(lv, rv)),
            },
            Expr::Add(l, r) => match (l.evaluate(), r.evaluate()) {
                (Err(e1), _) => Err(e1),
                (Ok(_), Err(e2)) => Err(e2),
                (Ok(lv), Ok(rv)) => Ok(scalar::add(lv, rv)),
            },
            Expr::Sub(l, r) => match (l.evaluate(), r.evaluate()) {
                (Err(e1), _) => Err(e1),
                (Ok(_), Err(e2)) => Err(e2),
                (Ok(lv), Ok(rv)) => Ok(scalar::sub(lv, rv)),
            },
        }
    }
}

impl LogExpr {
    /// Evaluates the comparison to a computed `LogExpr::Val`.
    pub fn evaluate(&self) -> (r: Result<LogExpr, Error>)
        ensures
            match r {
                Ok(v) => eval_log(self@) == Ok::<LogExprV, Error>(v@),
                Err(e) => eval_log(self@) == Err::<LogExprV, Error>(e),
            },
    {
        match self {
            LogExpr::Greater(l, r) => match (l.evaluate(), r.evaluate()) {
                (Err(e1), _) => Err(e1),
                (Ok(_), Err(e2)) => Err(e2),
                (Ok(lv), Ok(rv)) => Ok(LogExpr::Val(scalar::gt(lv, rv))),
            },
            LogExpr::Less(l, r) => match (l.evaluate(), r.evaluate()) {
                (Err(e1), _) => Err(e1),
                (Ok(_), Err(e2)) => Err(e2),
                (Ok(lv), Ok(rv)) => Ok(LogExpr::Val(scalar::lt(lv, rv))),
            },
            LogExpr::Val(b) => Ok(LogExpr::Val(*b)),
        }
    }
}

} // verus!

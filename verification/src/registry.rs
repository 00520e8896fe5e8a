//! The procedure registry: named, parametrized statement blocks, stored
//! unresolved and instantiated per call by substitution and re-resolution.

use vstd::prelude::*;
use crate::ast::{Expr, ExprV, Token, TokenV, Bindings, view_exprs, view_token_seq};
use crate::ast::{substitute_tokens, subst_token_seq, eval_expr};
use crate::error::Error;
use crate::resolver::{wrap_fn_call, resolve_tokens};

verus! {

/// A procedure: its formal parameter names, in binding order and with their
/// `:` sigils, and its parsed but still unresolved body.
pub struct Fun {
    pub params: Vec<String>,
    pub body: Vec<Token>,
}

/// The mathematical form of a procedure.
#[verifier::ext_equal]
pub struct FunV {
    pub params: Seq<Seq<char>>,
    pub body: Seq<TokenV>,
}

impl View for Fun {
    type V = FunV;

    open spec fn view(&self) -> FunV {
        FunV {
            params: Seq::new(self.params@.len(), |i: int| self.params@[i]@),
            body: view_token_seq(self.body@),
        }
    }
}

impl Fun {
    /// A procedure from its body and parameter names.
    pub fn new(commands: Vec<Token>, params: Vec<String>) -> (r: Fun)
        ensures
            r@.params == Seq::new(params@.len(), |i: int| params@[i]@),
            r@.body == view_token_seq(commands@),
    {
        Fun { params, body: commands }
    }

    /// The number of formal parameters, which is the number of trailing
    /// expression statements a call must supply.
    pub fn arity(&self) -> (r: usize)
        ensures
            r == self@.params.len(),
    {
        self.params.len()
    }
}

/// The registry of defined procedures. A later definition of the same name
/// silently overwrites the earlier one.
pub struct Functions {
    functions: Vec<(String, Fun)>,
}

/// The mapping denoted by a list of named procedures, later entries
/// overwriting earlier ones.
pub open spec fn map_of_funs(s: Seq<(String, Fun)>) -> Map<Seq<char>, FunV>
    decreases s.len(),
{
    if s.len() == 0 {
        Map::empty()
    } else {
        map_of_funs(s.drop_last()).insert(s.last().0@, s.last().1@)
    }
}

impl Functions {
    /// The name-to-procedure mapping this registry denotes.
    pub closed spec fn as_map(&self) -> Map<Seq<char>, FunV> {
        map_of_funs(self.functions@)
    }

    /// An empty registry.
    pub fn new() -> (r: Functions)
        ensures
            r.as_map() == Map::<Seq<char>, FunV>::empty(),
    {
        Functions { functions: Vec::new() }
    }

    /// The procedure registered under `label`, if any.
    pub fn get(&self, label: &String) -> (r: Option<&Fun>)
        ensures
            match r {
                Some(f) => self.as_map().contains_key(label@) && f@ == self.as_map()[label@],
                None => !self.as_map().contains_key(label@),
            },
    {
        let n = self.functions.len();
        proof {
            assert(self.functions@.subrange(0, n as int) =~= self.functions@);
        }
        functions_get_from(&self.functions, n, label)
    }

    /// Registers a procedure, overwriting any earlier one of the same name.
    pub fn push(&mut self, entry: (String, Vec<Token>, Vec<String>))
        ensures
            final(self).as_map() == old(self).as_map().insert(
                entry.0@,
                FunV {
                    params: Seq::new(entry.2@.len(), |i: int| entry.2@[i]@),
                    body: view_token_seq(entry.1@),
                },
            ),
    {
        let (label, commands, params) = entry;
        let ghost before = self.functions@;
        self.functions.push((label, Fun::new(commands, params)));
        proof {
            assert(self.functions@.drop_last() =~= before);
        }
    }

    /// Whether a procedure of this name is registered.
    pub fn contains(&self, label: &String) -> (r: bool)
        ensures
            r == self.as_map().contains_key(label@),
    {
        self.get(label).is_some()
    }

    /// The names of the registered procedures. A name overwritten by a later
    /// definition still appears once for each definition.
    pub fn labels(&self) -> (r: Vec<String>)
        ensures
            forall|k: Seq<char>| self.as_map().contains_key(k) <==> exists|i: int|
                0 <= i < r@.len() && #[trigger] r@[i]@ == k,
    {
        let mut out: Vec<String> = Vec::new();
        let mut k: usize = 0;
        while k < self.functions.len()
            invariant
                k <= self.functions@.len(),
                out@.len() == k,
                forall|j: int| 0 <= j < k ==> out@[j]@ == self.functions@[j].0@,
            decreases self.functions@.len() - k,
        {
            out.push(crate::ast::clone_string(&self.functions[k].0));
            k += 1;
        }
        proof {
            assert forall|key: Seq<char>| self.as_map().contains_key(key) implies exists|i: int|
                0 <= i < out@.len() && #[trigger] out@[i]@ == key by {
                lemma_map_of_funs_domain(self.functions@, key);
                let i = choose|i: int|
                    0 <= i < self.functions@.len() && #[trigger] self.functions@[i].0@ == key;
                assert(out@[i]@ == key);
            }
            assert forall|key: Seq<char>|
                (exists|i: int| 0 <= i < out@.len() && #[trigger] out@[i]@ == key) implies self
                .as_map().contains_key(key) by {
                lemma_map_of_funs_domain(self.functions@, key);
                let i = choose|i: int| 0 <= i < out@.len() && #[trigger] out@[i]@ == key;
                assert(self.functions@[i].0@ == key);
            }
        }
        out
    }
}

/// A name is in the registry's mapping exactly when some stored entry
/// carries it.
proof fn lemma_map_of_funs_domain(s: Seq<(String, Fun)>, key: Seq<char>)
    ensures
        map_of_funs(s).contains_key(key) <==> exists|i: int|
            0 <= i < s.len() && #[trigger] s[i].0@ == key,
    decreases s.len(),
{
    if s.len() > 0 {
        lemma_map_of_funs_domain(s.drop_last(), key);
        if key == s.last().0@ {
            assert(s[s.len() - 1].0@ == key);
        } else {
            if map_of_funs(s).contains_key(key) {
                let i = choose|i: int|
                    0 <= i < s.drop_last().len() && #[trigger] s.drop_last()[i].0@ == key;
                assert(s[i].0@ == key);
            }
            if exists|i: int| 0 <= i < s.len() && #[trigger] s[i].0@ == key {
                let i = choose|i: int| 0 <= i < s.len() && #[trigger] s[i].0@ == key;
                assert(s.drop_last()[i].0@ == key);
            }
        }
    }
}

/// Looks `label` up among the first `n` registered procedures, latest first.
fn functions_get_from<'a>(funs: &'a Vec<(String, Fun)>, n: usize, label: &String) -> (r: Option<
    &'a Fun,
>)
    requires
        n <= funs@.len(),
    ensures
        match r {
            Some(f) => map_of_funs(funs@.subrange(0, n as int)).contains_key(label@) && f@
                == map_of_funs(funs@.subrange(0, n as int))[label@],
            None => !map_of_funs(funs@.subrange(0, n as int)).contains_key(label@),
        },
    decreases n,
{
    if n == 0 {
        proof {
            assert(funs@.subrange(0, 0) =~= Seq::<(String, Fun)>::empty());
        }
        None
    } else {
        proof {
            assert(funs@.subrange(0, n as int).drop_last() =~= funs@.subrange(0, n - 1));
            assert(funs@.subrange(0, n as int).last() == funs@[n - 1]);
        }
        if funs[n - 1].0 == *label {
            Some(&funs[n - 1].1)
        } else {
            functions_get_from(funs, n - 1, label)
        }
    }
}

/// The bindings produced by zipping parameter names with argument values:
/// each argument expression is evaluated left to right, and each name is
/// bound to its value, a later duplicate name shadowing an earlier one.
pub open spec fn bind_params(params: Seq<Seq<char>>, args: Seq<ExprV>) -> Result<
    Map<Seq<char>, u64>,
    Error,
>
    recommends
        params.len() == args.len(),
    decreases params.len(),
{
    if params.len() == 0 || args.len() == 0 {
        Ok(Map::empty())
    } else {
        match bind_params(params.drop_last(), args.drop_last()) {
            Err(e) => Err(e),
            Ok(front) => match eval_expr(args.last()) {
                Err(e) => Err(e),
                Ok(v) => Ok(front.insert(params.last(), v)),
            },
        }
    }
}

/// The statements a call executes: the procedure's body with each formal
/// parameter bound positionally to an evaluated argument (extra arguments
/// are ignored and extra formals stay unsubstituted), re-resolved against
/// the registry.
pub open spec fn spec_instantiate(
    f: FunV,
    args: Seq<ExprV>,
    fns: Map<Seq<char>, FunV>,
) -> Result<Seq<TokenV>, Error> {
    let m = if f.params.len() <= args.len() {
        f.params.len() as int
    } else {
        args.len() as int
    };
    match bind_params(f.params.take(m), args.take(m)) {
        Err(e) => Err(e),
        Ok(env) => resolve_tokens(subst_token_seq(f.body, env), fns),
    }
}

impl Functions {
    /// The ready-to-execute instantiation of the procedure registered under
    /// `label`: its body with the arguments substituted in, re-resolved.
    /// A label with no registered procedure is a fault.
    #[verifier::loop_isolation(false)]
    pub fn get_commands(&self, label: &String, args: &Vec<Expr>) -> (r: Result<Vec<Token>, Error>)
        ensures
            match r {
                Ok(out) => self.as_map().contains_key(label@) && spec_instantiate(
                    self.as_map()[label@],
                    view_exprs(args@),
                    self.as_map(),
                ) == Ok::<Seq<TokenV>, Error>(view_token_seq(out@)),
                Err(e) => if self.as_map().contains_key(label@) {
                    spec_instantiate(self.as_map()[label@], view_exprs(args@), self.as_map())
                        == Err::<Seq<TokenV>, Error>(e)
                } else {
                    e == Error::UnknownProcedure
                },
            },
    {
        let fun = match self.get(label) {
            Some(fun) => fun,
            None => {
                return Err(Error::UnknownProcedure);
            },
        };
        let m = if fun.params.len() <= args.len() {
            fun.params.len()
        } else {
            args.len()
        };
        let mut env = Bindings::new();
        let mut k: usize = 0;
        while k < m
            invariant
                m <= fun.params@.len() && m <= args@.len(),
                k <= m,
                bind_params(
                    fun@.params.take(k as int),
                    view_exprs(args@).take(k as int),
                ) == Ok::<Map<Seq<char>, u64>, Error>(env.as_map()),
            decreases m - k,
        {
            let ghost old_env = env.as_map();
            let v = match args[k].evaluate() {
                Ok(v) => v,
                Err(e) => {
                    proof {
                        lemma_bind_params_step_err(fun@.params, view_exprs(args@), k as int, e);
                        lemma_bind_params_err_persists(
                            fun@.params,
                            view_exprs(args@),
                            k + 1,
                            m as int,
                            e,
                        );
                        assert(fun@.params.take(m as int) =~= fun@.params.take(
                            if fun@.params.len() <= view_exprs(args@).len() {
                                fun@.params.len() as int
                            } else {
                                view_exprs(args@).len() as int
                            },
                        ));
                        assert(view_exprs(args@).take(m as int) =~= view_exprs(args@).take(
                            if fun@.params.len() <= view_exprs(args@).len() {
                                fun@.params.len() as int
                            } else {
                                view_exprs(args@).len() as int
                            },
                        ));
                    }
                    return Err(e);
                },
            };
            env.push(crate::ast::clone_string(&fun.params[k]), v);
            k += 1;
            proof {
                assert(fun@.params.take(k as int).drop_last() =~= fun@.params.take(k - 1));
                assert(view_exprs(args@).take(k as int).drop_last() =~= view_exprs(args@).take(
                    k - 1,
                ));
                assert(fun@.params.take(k as int).last() == fun@.params[k - 1]);
                assert(view_exprs(args@).take(k as int).last() == args@[k - 1]@);
            }
        }
        let substituted = substitute_tokens(&fun.body, &env);
        proof {
            assert(fun@.params.take(m as int) =~= fun@.params.take(
                if fun@.params.len() <= view_exprs(args@).len() {
                    fun@.params.len() as int
                } else {
                    view_exprs(args@).len() as int
                },
            ));
            assert(view_exprs(args@).take(m as int) =~= view_exprs(args@).take(
                if fun@.params.len() <= view_exprs(args@).len() {
                    fun@.params.len() as int
                } else {
                    view_exprs(args@).len() as int
                },
            ));
        }
        wrap_fn_call(&substituted, self)
    }
}

/// A fault in binding a prefix of the parameters persists when more
/// parameters are bound after it.
proof fn lemma_bind_params_err_persists(
    params: Seq<Seq<char>>,
    args: Seq<ExprV>,
    k: int,
    m: int,
    e: Error,
)
    requires
        0 <= k <= m,
        m <= params.len(),
        m <= args.len(),
        bind_params(params.take(k), args.take(k)) == Err::<Map<Seq<char>, u64>, Error>(e),
    ensures
        bind_params(params.take(m), args.take(m)) == Err::<Map<Seq<char>, u64>, Error>(e),
    decreases m - k,
{
    if m > k {
        lemma_bind_params_err_persists(params, args, k, m - 1, e);
        assert(params.take(m).drop_last() =~= params.take(m - 1));
        assert(args.take(m).drop_last() =~= args.take(m - 1));
        assert(params.take(m).len() > 0);
    }
}

/// If evaluating the argument at position `k` faults while all arguments
/// before it evaluate, binding the first `k + 1` pairs faults the same way.
proof fn lemma_bind_params_step_err(
    params: Seq<Seq<char>>,
    args: Seq<ExprV>,
    k: int,
    e: Error,
)
    requires
        0 <= k < params.len(),
        k < args.len(),
        bind_params(params.take(k), args.take(k)) is Ok,
        eval_expr(args[k]) == Err::<u64, Error>(e),
    ensures
        bind_params(params.take(k + 1), args.take(k + 1)) == Err::<Map<Seq<char>, u64>, Error>(e),
{
    assert(params.take(k + 1).drop_last() =~= params.take(k));
    assert(args.take(k + 1).drop_last() =~= args.take(k));
    assert(args.take(k + 1).last() == args[k]);
}

} // verus!

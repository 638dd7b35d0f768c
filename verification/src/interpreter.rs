//! The evaluator: a recursive walk of the AST against an environment,
//! collecting printed output and stopping at the first runtime error.
//!
//! The whole behaviour is specified by the ghost evaluator ([`eval_expr`],
//! [`exec_stmt`] and friends), a big-step semantics with a fuel bound, and
//! the executable evaluator is proved to implement it with the same fuel.
//! Fuel is spent once per function call and once per loop iteration; the
//! default budget is far beyond anything reachable in practice, so the
//! budget error exists in the model but not in ordinary runs.

use vstd::prelude::*;

use crate::ast::{expr_size, exprs_size, identifier_name, params_wf, stmt_size, stmts_size, Expr, Stmt};
use crate::environment::{
    env_define, env_get, env_push, env_resolve, env_restore, env_set_at, env_vals_wf, env_wf,
    lemma_env_resolve_valid, lemma_vals_wf_push, lemma_vals_wf_set_at, EnvV, Enviornment,
};
use crate::numbers::LoxNum;
use crate::tokens::{Token, TokenType, TokenTypeV};
use crate::values::{
    apply_binary, apply_unary, obj_wf, rc_clone, spec_apply_binary, spec_apply_unary,
    spec_obj_display, spec_truthy, truthy, FunV, LoxCallable, LoxCallableWrapper, LoxRuntimeError,
    Object, ObjectV, RteV,
};

verus! {

/// The control signal a statement yields: fall through to the next
/// statement, or unwind to the nearest enclosing call with a value.
#[derive(Debug)]
pub enum StmtResult {
    Noop,
    Return(Object),
}

/// The mathematical view of a statement outcome, with runtime failure as a
/// third case.
pub enum StepV {
    Normal,
    Return(ObjectV),
    Failed(RteV),
}

/// The state the ghost evaluator acts on: the environment, the output
/// printed so far, and the timestamp the clock builtin reports.
pub struct StateV {
    pub env: EnvV,
    pub output: Seq<Seq<char>>,
    pub clock: LoxNum,
}

/// Structural well-formedness of the whole state.
pub open spec fn state_wf(st: StateV) -> bool {
    &&& env_wf(st.env)
    &&& env_vals_wf(st.env)
    &&& st.clock.wf()
}

/// The sequence of views of a string vector.
pub open spec fn view_strings(ss: Seq<String>) -> Seq<Seq<char>> {
    ss.map_values(|s: String| s@)
}

/// What a literal token denotes; a non-literal token in literal position is
/// a runtime error.
pub open spec fn spec_literal(t: Token) -> Result<ObjectV, RteV> {
    match t.token_type {
        TokenType::FALSE => Ok(ObjectV::Boolean(false)),
        TokenType::TRUE => Ok(ObjectV::Boolean(true)),
        TokenType::NUMBER(n) => Ok(ObjectV::Num(n)),
        TokenType::STRING(s) => Ok(ObjectV::Str(s@)),
        TokenType::NIL => Ok(ObjectV::Nil),
        TokenType::EOF => Ok(ObjectV::Nil),
        _ => Err(RteV { line: t.line as int, message: "unexpected literal"@ }),
    }
}

/// The message reporting an unbound name at evaluation time.
pub open spec fn undefined_in_expr_message(name: Seq<char>) -> Seq<char> {
    "Undefined variable '"@ + name + "'"@
}

/// The environment after binding each parameter name to the corresponding
/// argument, in order, in the current scope.
pub open spec fn bind_params(env: EnvV, params: Seq<Token>, args: Seq<ObjectV>) -> EnvV
    decreases params.len(),
{
    if params.len() == 0 || args.len() == 0 {
        env
    } else {
        let name = match params[0].token_type {
            TokenType::IDENTIFIER(n) => n@,
            _ => Seq::empty(),
        };
        bind_params(env_define(env, name, args[0]), params.drop_first(), args.drop_first())
    }
}

/// The budget error: only reachable by exhausting the evaluation budget.
pub open spec fn budget_error() -> RteV {
    RteV { line: 0, message: "evaluation budget exhausted"@ }
}

/// The error for calling a function with the wrong number of arguments.
pub open spec fn arity_error() -> RteV {
    RteV { line: 0, message: "Wrong number of arguments"@ }
}

/// The error for calling a value that is not callable.
pub open spec fn not_callable_error() -> RteV {
    RteV { line: 0, message: "not callable"@ }
}

/// The ghost evaluator for expressions: the value or runtime error an
/// expression yields, and the state it leaves behind.
pub open spec fn eval_expr(e: Expr, st: StateV, fuel: nat) -> (Result<ObjectV, RteV>, StateV)
    decreases fuel, expr_size(e),
{
    match e {
        Expr::Literal(t) => (spec_literal(t), st),
        Expr::Grouping(g) => eval_expr(*g, st, fuel),
        Expr::Unary(t, r) => {
            let (rv, st1) = eval_expr(*r, st, fuel);
            match rv {
                Ok(v) => (spec_apply_unary(t@.token_type, v, t@.line), st1),
                Err(err) => (Err(err), st1),
            }
        },
        Expr::Binary(l, t, r) => {
            let (lv, st1) = eval_expr(*l, st, fuel);
            match lv {
                Ok(a) => {
                    let (rv, st2) = eval_expr(*r, st1, fuel);
                    match rv {
                        Ok(b) => (spec_apply_binary(t@.token_type, a, b, t@.line), st2),
                        Err(err) => (Err(err), st2),
                    }
                },
                Err(err) => (Err(err), st1),
            }
        },
        Expr::Logical(l, t, r) => {
            let (lv, st1) = eval_expr(*l, st, fuel);
            match lv {
                Ok(a) => {
                    if t.token_type is OR {
                        if spec_truthy(a) {
                            (Ok(a), st1)
                        } else {
                            eval_expr(*r, st1, fuel)
                        }
                    } else {
                        if !spec_truthy(a) {
                            (Ok(a), st1)
                        } else {
                            eval_expr(*r, st1, fuel)
                        }
                    }
                },
                Err(err) => (Err(err), st1),
            }
        },
        Expr::Variable(t) => {
            match t.token_type {
                TokenType::IDENTIFIER(name) => {
                    match env_get(st.env, name@) {
                        Some(v) => (Ok(v), st),
                        None => (
                            Err(
                                RteV {
                                    line: t.line as int,
                                    message: undefined_in_expr_message(name@),
                                },
                            ),
                            st,
                        ),
                    }
                },
                _ => (Ok(ObjectV::Nil), st),
            }
        },
        Expr::Assign(t, v) => {
            let (vv, st1) = eval_expr(*v, st, fuel);
            match vv {
                Ok(val) => {
                    match t.token_type {
                        TokenType::IDENTIFIER(name) => {
                            match env_resolve(st1.env, st1.env.current, name@) {
                                Some(j) => (
                                    Ok(val),
                                    StateV { env: env_set_at(st1.env, j, name@, val), ..st1 },
                                ),
                                None => (
                                    Err(
                                        RteV {
                                            line: t.line as int,
                                            message: undefined_in_expr_message(name@),
                                        },
                                    ),
                                    st1,
                                ),
                            }
                        },
                        _ => (Ok(ObjectV::Nil), st1),
                    }
                },
                Err(err) => (Err(err), st1),
            }
        },
        Expr::Call(callee, args) => {
            let (cv, st1) = eval_expr(*callee, st, fuel);
            match cv {
                Ok(c) => {
                    let (avs, st2) = eval_args(args@, st1, fuel);
                    match avs {
                        Ok(vals) => {
                            match c {
                                ObjectV::Fun(f) => {
                                    if fuel == 0 {
                                        (Err(budget_error()), st2)
                                    } else if vals.len() != f.params.len() {
                                        (Err(arity_error()), st2)
                                    } else {
                                        let saved = st2.env.current;
                                        let env1 = env_push(st2.env, f.captured);
                                        let env2 = bind_params(env1, f.params, vals);
                                        let (r, st3) = exec_stmt(
                                            f.body,
                                            StateV { env: env2, ..st2 },
                                            (fuel - 1) as nat,
                                        );
                                        let st4 = StateV {
                                            env: env_restore(st3.env, saved),
                                            ..st3
                                        };
                                        match r {
                                            StepV::Normal => (Ok(ObjectV::Nil), st4),
                                            StepV::Return(v) => (Ok(v), st4),
                                            StepV::Failed(err) => (Err(err), st4),
                                        }
                                    }
                                },
                                ObjectV::Clock => (Ok(ObjectV::Num(st2.clock)), st2),
                                _ => (Err(not_callable_error()), st2),
                            }
                        },
                        Err(err) => (Err(err), st2),
                    }
                },
                Err(err) => (Err(err), st1),
            }
        },
    }
}


/// The ghost evaluator for argument lists, left to right.
pub open spec fn eval_args(args: Seq<Expr>, st: StateV, fuel: nat) -> (
    Result<Seq<ObjectV>, RteV>,
    StateV,
)
    decreases fuel, exprs_size(args),
{
    if args.len() == 0 {
        (Ok(Seq::empty()), st)
    } else {
        let (v, st1) = eval_expr(args[0], st, fuel);
        match v {
            Ok(val) => {
                let (rest, st2) = eval_args(args.drop_first(), st1, fuel);
                match rest {
                    Ok(vals) => (Ok(seq![val] + vals), st2),
                    Err(err) => (Err(err), st2),
                }
            },
            Err(err) => (Err(err), st1),
        }
    }
}


/// The ghost evaluator for statements.
pub open spec fn exec_stmt(s: Stmt, st: StateV, fuel: nat) -> (StepV, StateV)
    decreases fuel, stmt_size(s),
{
    match s {
        Stmt::Expr(e) => {
            let (v, st1) = eval_expr(e, st, fuel);
            match v {
                Ok(_) => (StepV::Normal, st1),
                Err(err) => (StepV::Failed(err), st1),
            }
        },
        Stmt::Print(e) => {
            let (v, st1) = eval_expr(e, st, fuel);
            match v {
                Ok(val) => (
                    StepV::Normal,
                    StateV { output: st1.output.push(spec_obj_display(val)), ..st1 },
                ),
                Err(err) => (StepV::Failed(err), st1),
            }
        },
        Stmt::Var(name, init) => {
            match init {
                Some(e) => {
                    let (v, st1) = eval_expr(e, st, fuel);
                    match v {
                        Ok(val) => (
                            StepV::Normal,
                            StateV { env: env_define(st1.env, name@, val), ..st1 },
                        ),
                        Err(err) => (StepV::Failed(err), st1),
                    }
                },
                None => (
                    StepV::Normal,
                    StateV { env: env_define(st.env, name@, ObjectV::Nil), ..st },
                ),
            }
        },
        Stmt::Block(ss) => {
            let saved = st.env.current;
            let st1 = StateV { env: env_push(st.env, saved), ..st };
            let (r, st2) = exec_stmts(ss@, st1, fuel);
            (r, StateV { env: env_restore(st2.env, saved), ..st2 })
        },
        Stmt::If(c, t, els) => {
            let (v, st1) = eval_expr(c, st, fuel);
            match v {
                Ok(val) => {
                    if spec_truthy(val) {
                        exec_stmt(*t, st1, fuel)
                    } else {
                        match els {
                            Some(b) => exec_stmt(*b, st1, fuel),
                            None => (StepV::Normal, st1),
                        }
                    }
                },
                Err(err) => (StepV::Failed(err), st1),
            }
        },
        Stmt::While(c, b) => {
            if fuel == 0 {
                (StepV::Failed(budget_error()), st)
            } else {
                let (v, st1) = eval_expr(c, st, fuel);
                match v {
                    Ok(val) => {
                        if !spec_truthy(val) {
                            (StepV::Normal, st1)
                        } else {
                            let (r, st2) = exec_stmt(*b, st1, fuel);
                            match r {
                                StepV::Normal => exec_stmt(s, st2, (fuel - 1) as nat),
                                _ => (r, st2),
                            }
                        }
                    },
                    Err(err) => (StepV::Failed(err), st1),
                }
            }
        },
        Stmt::Function(name, params, body) => {
            let f = ObjectV::Fun(
                FunV { params: params@, body: *body, captured: st.env.current },
            );
            (StepV::Normal, StateV { env: env_define(st.env, name@, f), ..st })
        },
        Stmt::Return(_t, v) => {
            match v {
                Some(e) => {
                    let (val, st1) = eval_expr(e, st, fuel);
                    match val {
                        Ok(value) => (StepV::Return(value), st1),
                        Err(err) => (StepV::Failed(err), st1),
                    }
                },
                None => (StepV::Return(ObjectV::Nil), st),
            }
        },
    }
}


/// The ghost evaluator for statement sequences: run in order, stop early on
/// a return signal or error.
pub open spec fn exec_stmts(ss: Seq<Stmt>, st: StateV, fuel: nat) -> (StepV, StateV)
    decreases fuel, stmts_size(ss),
{
    if ss.len() == 0 {
        (StepV::Normal, st)
    } else {
        let (r, st1) = exec_stmt(ss[0], st, fuel);
        match r {
            StepV::Normal => exec_stmts(ss.drop_first(), st1, fuel),
            _ => (r, st1),
        }
    }
}


/// The evaluation budget: the bound on call depth and loop iterations.
pub const CALL_FUEL: u64 = 0x4000_0000_0000_0000;

/// The ghost evaluator for whole programs: each top-level statement runs
/// with a fresh budget; a return signal at top level is ignored; the first
/// runtime error stops execution of the remaining statements.
pub open spec fn spec_interpret(ss: Seq<Stmt>, st: StateV) -> (Result<(), RteV>, StateV)
    decreases ss.len(),
{
    if ss.len() == 0 {
        (Ok(()), st)
    } else {
        let (r, st1) = exec_stmt(ss[0], st, CALL_FUEL as nat);
        match r {
            StepV::Failed(err) => (Err(err), st1),
            _ => spec_interpret(ss.drop_first(), st1),
        }
    }
}


/// The sequence of views of a value vector.
pub open spec fn view_objs(os: Seq<Object>) -> Seq<ObjectV> {
    os.map_values(|o: Object| o@)
}

/// Every value in the sequence is well-formed for an arena of `n` scopes.
pub open spec fn objs_wf(vals: Seq<ObjectV>, n: int) -> bool {
    forall|k: int| 0 <= k < vals.len() ==> obj_wf(#[trigger] vals[k], n)
}

/// How an executable expression result realizes a ghost one.
pub open spec fn eval_matches(
    r: Result<Object, LoxRuntimeError>,
    rv: Result<ObjectV, RteV>,
    nscopes: int,
) -> bool {
    match (r, rv) {
        (Ok(o), Ok(ov)) => o@ == ov && obj_wf(ov, nscopes),
        (Err(x), Err(xv)) => x@ == xv,
        _ => false,
    }
}

/// How an executable statement outcome realizes a ghost one.
pub open spec fn step_matches(
    r: Result<StmtResult, LoxRuntimeError>,
    rv: StepV,
    nscopes: int,
) -> bool {
    match (r, rv) {
        (Ok(StmtResult::Noop), StepV::Normal) => true,
        (Ok(StmtResult::Return(o)), StepV::Return(ov)) => o@ == ov && obj_wf(ov, nscopes),
        (Err(x), StepV::Failed(xv)) => x@ == xv,
        _ => false,
    }
}

pub proof fn lemma_view_strings_push(a: Seq<String>, x: String)
    ensures
        view_strings(a.push(x)) == view_strings(a).push(x@),
{
    assert(view_strings(a.push(x)) =~= view_strings(a).push(x@));
}

proof fn lemma_view_objs_push(a: Seq<Object>, x: Object)
    ensures
        view_objs(a.push(x)) == view_objs(a).push(x@),
{
    assert(view_objs(a.push(x)) =~= view_objs(a).push(x@));
}

/// The budget error as a value.
fn budget_err() -> (e: LoxRuntimeError)
    ensures
        e@ == budget_error(),
{
    LoxRuntimeError { line: 0, message: String::from_str("evaluation budget exhausted") }
}

/// The arity error as a value.
fn arity_err() -> (e: LoxRuntimeError)
    ensures
        e@ == arity_error(),
{
    LoxRuntimeError { line: 0, message: String::from_str("Wrong number of arguments") }
}

/// The not-callable error as a value.
fn not_callable_err() -> (e: LoxRuntimeError)
    ensures
        e@ == not_callable_error(),
{
    LoxRuntimeError { line: 0, message: String::from_str("not callable") }
}

/// The message reporting an unbound name at evaluation time.
fn undefined_in_expr(line: i32, name: &str) -> (e: LoxRuntimeError)
    ensures
        e@.line == line as int,
        e@.message == undefined_in_expr_message(name@),
{
    let mut m = String::from_str("Undefined variable '");
    m.append(name);
    m.append("'");
    LoxRuntimeError { line, message: m }
}

/// The evaluator: owns the environment, the output printed so far, and the
/// timestamp the clock builtin reports (sampled when the evaluator is
/// built).
#[derive(Debug)]
pub struct Interpreter {
    pub env: Enviornment,
    pub output: Vec<String>,
    pub clock: LoxNum,
}

impl View for Interpreter {
    type V = StateV;

    open spec fn view(&self) -> StateV {
        StateV { env: self.env@, output: view_strings(self.output@), clock: self.clock }
    }
}

impl Interpreter {
    /// Builds an evaluator over the given environment, defining the one
    /// native builtin (`clock`) in the current scope and sampling the
    /// timestamp it will report.
    pub fn new_with_env(env: Enviornment) -> (r: Interpreter)
        requires
            env_wf(env@),
            env_vals_wf(env@),
        ensures
            r@.env == env_define(env@, "clock"@, ObjectV::Clock),
            r@.output == Seq::<Seq<char>>::empty(),
            r@.clock.num >= 0,
            r@.clock.den == 1000,
            state_wf(r@),
    {
        let mut env = env;
        proof {
            lemma_vals_wf_set_at(env@, env@.current, "clock"@, ObjectV::Clock);
        }
        env.define(
            String::from_str("clock"),
            Object::Callable(LoxCallableWrapper { inner: LoxCallable::Clock }),
        );
        let r = Interpreter { env, output: Vec::new(), clock: crate::clock::clock_seconds() };
        proof {
            assert(r@.output =~= Seq::<Seq<char>>::empty());
        }
        r
    }

    /// Takes the environment back out of the evaluator.
    pub fn into_env(self) -> (r: Enviornment)
        ensures
            r@ == self@.env,
    {
        self.env
    }

    /// Evaluates an expression under a given budget.
    fn evaluate_fuel(&mut self, e: &Expr, fuel: u64) -> (r: Result<Object, LoxRuntimeError>)
        requires
            e.wf(),
            state_wf(old(self)@),
        ensures
            ({
                let (rv, st) = eval_expr(*e, old(self)@, fuel as nat);
                &&& final(self)@ == st
                &&& eval_matches(r, rv, final(self)@.env.scopes.len() as int)
            }),
            state_wf(final(self)@),
            old(self)@.env.scopes.len() <= final(self)@.env.scopes.len(),
        decreases fuel, expr_size(*e),
    {
        let ghost st0 = self@;
        match e {
            Expr::Literal(t) => {
                match &t.token_type {
                    TokenType::FALSE => Ok(Object::Boolean(false)),
                    TokenType::TRUE => Ok(Object::Boolean(true)),
                    TokenType::NUMBER(n) => Ok(Object::Number(*n)),
                    TokenType::STRING(v) => Ok(Object::String(v.clone())),
                    TokenType::NIL => Ok(Object::Nil),
                    TokenType::EOF => Ok(Object::Nil),
                    _ => Err(
                        LoxRuntimeError {
                            line: t.line,
                            message: String::from_str("unexpected literal"),
                        },
                    ),
                }
            },
            Expr::Grouping(g) => self.evaluate_fuel(g, fuel),
            Expr::Unary(t, rhs) => {
                match self.evaluate_fuel(rhs, fuel) {
                    Ok(v) => apply_unary(t, v),
                    Err(err) => Err(err),
                }
            },
            Expr::Binary(l, t, rhs) => {
                match self.evaluate_fuel(l, fuel) {
                    Ok(a) => {
                        match self.evaluate_fuel(rhs, fuel) {
                            Ok(b) => apply_binary(t, a, b),
                            Err(err) => Err(err),
                        }
                    },
                    Err(err) => Err(err),
                }
            },
            Expr::Logical(l, t, rhs) => {
                match self.evaluate_fuel(l, fuel) {
                    Ok(a) => {
                        let is_or = t.token_type.same_kind(&TokenType::OR);
                        if is_or {
                            if truthy(&a) {
                                Ok(a)
                            } else {
                                self.evaluate_fuel(rhs, fuel)
                            }
                        } else {
                            if !truthy(&a) {
                                Ok(a)
                            } else {
                                self.evaluate_fuel(rhs, fuel)
                            }
                        }
                    },
                    Err(err) => Err(err),
                }
            },
            Expr::Variable(t) => {
                match &t.token_type {
                    TokenType::IDENTIFIER(name) => {
                        proof {
                            lemma_env_resolve_valid(self@.env, self@.env.current, name@);
                        }
                        match self.env.get(name.as_str()) {
                            Ok(v) => Ok(v),
                            Err(_) => Err(undefined_in_expr(t.line, name.as_str())),
                        }
                    },
                    _ => Ok(Object::Nil),
                }
            },
            Expr::Assign(t, vexpr) => {
                match self.evaluate_fuel(vexpr, fuel) {
                    Ok(val) => {
                        match &t.token_type {
                            TokenType::IDENTIFIER(name) => {
                                proof {
                                    lemma_env_resolve_valid(self@.env, self@.env.current, name@);
                                }
                                let ghost envpre = self@.env;
                                match self.env.assign(name.clone(), val.clone()) {
                                    Ok(()) => {
                                        proof {
                                            let j = env_resolve(
                                                envpre,
                                                envpre.current,
                                                name@,
                                            )->0;
                                            lemma_vals_wf_set_at(envpre, j, name@, val@);
                                        }
                                        Ok(val)
                                    },
                                    Err(_) => Err(undefined_in_expr(t.line, name.as_str())),
                                }
                            },
                            _ => Ok(Object::Nil),
                        }
                    },
                    Err(err) => Err(err),
                }
            },
            Expr::Call(callee, args) => {
                let cv = match self.evaluate_fuel(callee, fuel) {
                    Ok(c) => c,
                    Err(err) => {
                        return Err(err);
                    },
                };
                let ghost cvv = cv@;
                proof {
                    assert(args@.subrange(0, args@.len() as int) =~= args@);
                }
                let argv = match self.evaluate_args_fuel(args, 0, fuel) {
                    Ok(vs) => vs,
                    Err(err) => {
                        return Err(err);
                    },
                };
                match cv {
                    Object::Callable(w) => {
                        match w.inner {
                            LoxCallable::Function { params, body, captured } => {
                                if fuel == 0 {
                                    return Err(budget_err());
                                }
                                if argv.len() != params.len() {
                                    return Err(arity_err());
                                }
                                let saved = self.env.current_index();
                                proof {
                                    lemma_vals_wf_push(self@.env, captured as int);
                                }
                                self.env.push_scope_with_parent(captured);
                                let ghost env_pushed = self@.env;
                                let ghost valsv = view_objs(argv@);
                                let ghost stpre = self@;
                                proof {
                                    assert(params@.subrange(0, params@.len() as int) =~= params@);
                                    assert(valsv.subrange(0, valsv.len() as int) =~= valsv);
                                }
                                let mut i: usize = 0;
                                while i < params.len()
                                    invariant
                                        i <= params@.len(),
                                        argv@.len() == params@.len(),
                                        params_wf(params@),
                                        valsv == view_objs(argv@),
                                        valsv.len() == params@.len(),
                                        env_wf(self@.env),
                                        env_vals_wf(self@.env),
                                        self@.env.scopes.len() == env_pushed.scopes.len(),
                                        self@.env.current == env_pushed.current,
                                        self@.output == stpre.output,
                                        self@.clock == stpre.clock,
                                        objs_wf(valsv, self@.env.scopes.len() as int),
                                        bind_params(env_pushed, params@, valsv) == bind_params(
                                            self@.env,
                                            params@.subrange(i as int, params@.len() as int),
                                            valsv.subrange(i as int, valsv.len() as int),
                                        ),
                                    decreases params@.len() - i,
                                {
                                    let ghost envcur = self@.env;
                                    let name = match identifier_name(&params[i]) {
                                        Some(n) => n,
                                        None => {
                                            proof {
                                                assert(false);
                                            }
                                            String::new()
                                        },
                                    };
                                    let val = argv[i].clone();
                                    proof {
                                        lemma_vals_wf_set_at(
                                            self@.env,
                                            self@.env.current,
                                            name@,
                                            val@,
                                        );
                                    }
                                    self.env.define(name, val);
                                    i = i + 1;
                                    proof {
                                        let ps = params@.subrange(
                                            i - 1 as int,
                                            params@.len() as int,
                                        );
                                        let vs = valsv.subrange(i - 1 as int, valsv.len() as int);
                                        assert(ps.drop_first() =~= params@.subrange(
                                            i as int,
                                            params@.len() as int,
                                        ));
                                        assert(vs.drop_first() =~= valsv.subrange(
                                            i as int,
                                            valsv.len() as int,
                                        ));
                                        assert(ps[0] == params@[i - 1]);
                                        assert(vs[0] == valsv[i - 1]);
                                    }
                                }
                                proof {
                                    assert(params@.subrange(
                                        params@.len() as int,
                                        params@.len() as int,
                                    ) =~= Seq::<Token>::empty());
                                    assert(valsv.subrange(valsv.len() as int, valsv.len() as int)
                                        =~= Seq::<ObjectV>::empty());
                                }
                                let r = self.execute_fuel(&*body, fuel - 1);
                                self.env.restore_scope(saved);
                                match r {
                                    Ok(StmtResult::Return(v)) => Ok(v),
                                    Ok(StmtResult::Noop) => Ok(Object::Nil),
                                    Err(err) => Err(err),
                                }
                            },
                            LoxCallable::Clock => Ok(Object::Number(self.clock)),
                        }
                    },
                    _ => Err(not_callable_err()),
                }
            },
        }
    }

    /// Evaluates the arguments `args[idx..]`, left to right.
    fn evaluate_args_fuel(&mut self, args: &Vec<Expr>, idx: usize, fuel: u64) -> (r: Result<
        Vec<Object>,
        LoxRuntimeError,
    >)
        requires
            idx <= args@.len(),
            forall|k: int| 0 <= k < args@.len() ==> (#[trigger] args@[k]).wf(),
            state_wf(old(self)@),
        ensures
            ({
                let (rv, st) = eval_args(
                    args@.subrange(idx as int, args@.len() as int),
                    old(self)@,
                    fuel as nat,
                );
                &&& final(self)@ == st
                &&& match (r, rv) {
                    (Ok(vs), Ok(vals)) => view_objs(vs@) == vals && objs_wf(
                        vals,
                        final(self)@.env.scopes.len() as int,
                    ),
                    (Err(x), Err(xv)) => x@ == xv,
                    _ => false,
                }
            }),
            state_wf(final(self)@),
            old(self)@.env.scopes.len() <= final(self)@.env.scopes.len(),
        decreases fuel, exprs_size(args@.subrange(idx as int, args@.len() as int)),
    {
        let ghost suffix = args@.subrange(idx as int, args@.len() as int);
        if idx == args.len() {
            proof {
                assert(suffix =~= Seq::<Expr>::empty());
                assert(view_objs(Seq::<Object>::empty()) =~= Seq::<ObjectV>::empty());
            }
            Ok(Vec::new())
        } else {
            proof {
                assert(suffix[0] == args@[idx as int]);
                assert(suffix.drop_first() =~= args@.subrange(
                    idx as int + 1,
                    args@.len() as int,
                ));
            }
            let v = match self.evaluate_fuel(&args[idx], fuel) {
                Ok(v) => v,
                Err(err) => {
                    return Err(err);
                },
            };
            let mut rest = match self.evaluate_args_fuel(args, idx + 1, fuel) {
                Ok(vs) => vs,
                Err(err) => {
                    return Err(err);
                },
            };
            let ghost restv = rest@;
            let ghost vv = v@;
            rest.insert(0, v);
            proof {
                assert(view_objs(rest@) =~= seq![vv] + view_objs(restv));
            }
            Ok(rest)
        }
    }

    /// Executes a statement under a given budget.
    fn execute_fuel(&mut self, s: &Stmt, fuel: u64) -> (r: Result<StmtResult, LoxRuntimeError>)
        requires
            s.wf(),
            state_wf(old(self)@),
        ensures
            ({
                let (rv, st) = exec_stmt(*s, old(self)@, fuel as nat);
                &&& final(self)@ == st
                &&& step_matches(r, rv, final(self)@.env.scopes.len() as int)
            }),
            state_wf(final(self)@),
            old(self)@.env.scopes.len() <= final(self)@.env.scopes.len(),
        decreases fuel, stmt_size(*s),
    {
        let ghost st0 = self@;
        match s {
            Stmt::Expr(e) => {
                match self.evaluate_fuel(e, fuel) {
                    Ok(_) => Ok(StmtResult::Noop),
                    Err(err) => Err(err),
                }
            },
            Stmt::Print(e) => {
                match self.evaluate_fuel(e, fuel) {
                    Ok(v) => {
                        let ghost outs = self.output@;
                        let line = v.to_display_string();
                        proof {
                            lemma_view_strings_push(outs, line);
                        }
                        self.output.push(line);
                        Ok(StmtResult::Noop)
                    },
                    Err(err) => Err(err),
                }
            },
            Stmt::Var(name, init) => {
                let val = match init {
                    Some(e) => {
                        match self.evaluate_fuel(e, fuel) {
                            Ok(v) => v,
                            Err(err) => {
                                return Err(err);
                            },
                        }
                    },
                    None => Object::Nil,
                };
                proof {
                    lemma_vals_wf_set_at(self@.env, self@.env.current, name@, val@);
                }
                self.env.define(name.clone(), val);
                Ok(StmtResult::Noop)
            },
            Stmt::Block(ss) => {
                let saved = self.env.current_index();
                proof {
                    lemma_vals_wf_push(self@.env, self@.env.current);
                }
                self.env.push_scope();
                proof {
                    assert(ss@.subrange(0, ss@.len() as int) =~= ss@);
                }
                let r = self.execute_block_fuel(ss, 0, fuel);
                self.env.restore_scope(saved);
                r
            },
            Stmt::If(c, t, els) => {
                match self.evaluate_fuel(c, fuel) {
                    Ok(v) => {
                        if truthy(&v) {
                            self.execute_fuel(&**t, fuel)
                        } else {
                            match els {
                                Some(b) => self.execute_fuel(&**b, fuel),
                                None => Ok(StmtResult::Noop),
                            }
                        }
                    },
                    Err(err) => Err(err),
                }
            },
            Stmt::While(c, b) => {
                let mut fuel_left = fuel;
                loop
                    invariant
                        c.wf(),
                        b.wf(),
                        *s == Stmt::While(*c, *b),
                        fuel_left <= fuel,
                        state_wf(self@),
                        old(self)@.env.scopes.len() <= self@.env.scopes.len(),
                        exec_stmt(*s, old(self)@, fuel as nat) == exec_stmt(
                            *s,
                            self@,
                            fuel_left as nat,
                        ),
                    decreases fuel_left,
                {
                    let ghost stl = self@;
                    if fuel_left == 0 {
                        return Err(budget_err());
                    }
                    let cv = match self.evaluate_fuel(c, fuel_left) {
                        Ok(v) => v,
                        Err(err) => {
                            return Err(err);
                        },
                    };
                    if !truthy(&cv) {
                        return Ok(StmtResult::Noop);
                    }
                    match self.execute_fuel(&**b, fuel_left) {
                        Ok(StmtResult::Noop) => {
                            fuel_left = fuel_left - 1;
                        },
                        Ok(StmtResult::Return(v)) => {
                            return Ok(StmtResult::Return(v));
                        },
                        Err(err) => {
                            return Err(err);
                        },
                    }
                }
            },
            Stmt::Function(name, params, body) => {
                let captured = self.env.current_index();
                let f = Object::Callable(
                    LoxCallableWrapper {
                        inner: LoxCallable::Function {
                            params: rc_clone(params),
                            body: rc_clone(body),
                            captured,
                        },
                    },
                );
                proof {
                    lemma_vals_wf_set_at(self@.env, self@.env.current, name@, f@);
                }
                self.env.define(name.clone(), f);
                Ok(StmtResult::Noop)
            },
            Stmt::Return(_t, v) => {
                match v {
                    Some(e) => {
                        match self.evaluate_fuel(e, fuel) {
                            Ok(val) => Ok(StmtResult::Return(val)),
                            Err(err) => Err(err),
                        }
                    },
                    None => Ok(StmtResult::Return(Object::Nil)),
                }
            },
        }
    }

    /// Executes the statements `ss[idx..]` in order, stopping early on a
    /// return signal or error.
    fn execute_block_fuel(&mut self, ss: &Vec<Stmt>, idx: usize, fuel: u64) -> (r: Result<
        StmtResult,
        LoxRuntimeError,
    >)
        requires
            idx <= ss@.len(),
            forall|k: int| 0 <= k < ss@.len() ==> (#[trigger] ss@[k]).wf(),
            state_wf(old(self)@),
        ensures
            ({
                let (rv, st) = exec_stmts(
                    ss@.subrange(idx as int, ss@.len() as int),
                    old(self)@,
                    fuel as nat,
                );
                &&& final(self)@ == st
                &&& step_matches(r, rv, final(self)@.env.scopes.len() as int)
            }),
            state_wf(final(self)@),
            old(self)@.env.scopes.len() <= final(self)@.env.scopes.len(),
        decreases fuel, stmts_size(ss@.subrange(idx as int, ss@.len() as int)),
    {
        let ghost suffix = ss@.subrange(idx as int, ss@.len() as int);
        if idx == ss.len() {
            proof {
                assert(suffix =~= Seq::<Stmt>::empty());
            }
            Ok(StmtResult::Noop)
        } else {
            proof {
                assert(suffix[0] == ss@[idx as int]);
                assert(suffix.drop_first() =~= ss@.subrange(idx as int + 1, ss@.len() as int));
            }
            match self.execute_fuel(&ss[idx], fuel) {
                Ok(StmtResult::Noop) => self.execute_block_fuel(ss, idx + 1, fuel),
                Ok(StmtResult::Return(v)) => Ok(StmtResult::Return(v)),
                Err(err) => Err(err),
            }
        }
    }
}


impl Interpreter {
    /// Evaluates an expression under the default budget.
    pub fn evaluate(&mut self, expr: &Expr) -> (r: Result<Object, LoxRuntimeError>)
        requires
            expr.wf(),
            state_wf(old(self)@),
        ensures
            ({
                let (rv, st) = eval_expr(*expr, old(self)@, CALL_FUEL as nat);
                &&& final(self)@ == st
                &&& eval_matches(r, rv, final(self)@.env.scopes.len() as int)
            }),
            state_wf(final(self)@),
    {
        self.evaluate_fuel(expr, CALL_FUEL)
    }

    /// Evaluates a grouped expression: exactly the inner expression.
    pub fn evaluate_group(&mut self, e: &Expr) -> (r: Result<Object, LoxRuntimeError>)
        requires
            e.wf(),
            state_wf(old(self)@),
        ensures
            ({
                let (rv, st) = eval_expr(*e, old(self)@, CALL_FUEL as nat);
                &&& final(self)@ == st
                &&& eval_matches(r, rv, final(self)@.env.scopes.len() as int)
            }),
            state_wf(final(self)@),
    {
        self.evaluate_fuel(e, CALL_FUEL)
    }

    /// Evaluates a literal token to the value it denotes.
    pub fn evaluate_literal(&mut self, t: &Token) -> (r: Result<Object, LoxRuntimeError>)
        requires
            t.wf(),
        ensures
            final(self)@ == old(self)@,
            match (r, spec_literal(*t)) {
                (Ok(o), Ok(ov)) => o@ == ov,
                (Err(x), Err(xv)) => x@ == xv,
                _ => false,
            },
    {
        match &t.token_type {
            TokenType::FALSE => Ok(Object::Boolean(false)),
            TokenType::TRUE => Ok(Object::Boolean(true)),
            TokenType::NUMBER(n) => Ok(Object::Number(*n)),
            TokenType::STRING(v) => Ok(Object::String(v.clone())),
            TokenType::NIL => Ok(Object::Nil),
            TokenType::EOF => Ok(Object::Nil),
            _ => Err(
                LoxRuntimeError { line: t.line, message: String::from_str("unexpected literal") },
            ),
        }
    }

    /// Evaluates the operand, then applies the unary operator.
    pub fn evaluate_unary(&mut self, t: &Token, e: &Expr) -> (r: Result<Object, LoxRuntimeError>)
        requires
            e.wf(),
            t.wf(),
            state_wf(old(self)@),
        ensures
            ({
                let (rv, st) = eval_expr(*e, old(self)@, CALL_FUEL as nat);
                &&& final(self)@ == st
                &&& match rv {
                    Ok(v) => match (r, spec_apply_unary(t@.token_type, v, t@.line)) {
                        (Ok(o), Ok(ov)) => o@ == ov,
                        (Err(x), Err(xv)) => x@ == xv,
                        _ => false,
                    },
                    Err(ev) => r matches Err(x) && x@ == ev,
                }
            }),
            state_wf(final(self)@),
    {
        match self.evaluate_fuel(e, CALL_FUEL) {
            Ok(v) => apply_unary(t, v),
            Err(err) => Err(err),
        }
    }

    /// Evaluates both operands left to right, then applies the binary
    /// operator.
    pub fn evaluate_binary(&mut self, left: &Expr, t: &Token, right: &Expr) -> (r: Result<
        Object,
        LoxRuntimeError,
    >)
        requires
            left.wf(),
            right.wf(),
            t.wf(),
            state_wf(old(self)@),
        ensures
            ({
                let (lv, st1) = eval_expr(*left, old(self)@, CALL_FUEL as nat);
                match lv {
                    Ok(a) => ({
                        let (rv, st2) = eval_expr(*right, st1, CALL_FUEL as nat);
                        match rv {
                            Ok(b) => final(self)@ == st2 && (match (
                                r,
                                spec_apply_binary(t@.token_type, a, b, t@.line),
                            ) {
                                (Ok(o), Ok(ov)) => o@ == ov,
                                (Err(x), Err(xv)) => x@ == xv,
                                _ => false,
                            }),
                            Err(ev) => final(self)@ == st2 && (r matches Err(x) && x@ == ev),
                        }
                    }),
                    Err(ev) => final(self)@ == st1 && (r matches Err(x) && x@ == ev),
                }
            }),
            state_wf(final(self)@),
    {
        match self.evaluate_fuel(left, CALL_FUEL) {
            Ok(a) => {
                match self.evaluate_fuel(right, CALL_FUEL) {
                    Ok(b) => apply_binary(t, a, b),
                    Err(err) => Err(err),
                }
            },
            Err(err) => Err(err),
        }
    }

    /// Runs a statement sequence in order. The first runtime error stops
    /// execution of the remaining statements and is returned; printed
    /// output up to that point is kept.
    pub fn interpret(&mut self, statements: &[Stmt]) -> (r: Result<(), LoxRuntimeError>)
        requires
            forall|k: int| 0 <= k < statements@.len() ==> (#[trigger] statements@[k]).wf(),
            state_wf(old(self)@),
        ensures
            ({
                let (rv, st) = spec_interpret(statements@, old(self)@);
                &&& final(self)@ == st
                &&& match (r, rv) {
                    (Ok(()), Ok(())) => true,
                    (Err(x), Err(xv)) => x@ == xv,
                    _ => false,
                }
            }),
            state_wf(final(self)@),
    {
        let n = statements.len();
        proof {
            assert(statements@.subrange(0, n as int) =~= statements@);
        }
        let mut i: usize = 0;
        while i < n
            invariant
                i <= n,
                n == statements@.len(),
                forall|k: int| 0 <= k < statements@.len() ==> (#[trigger] statements@[k]).wf(),
                state_wf(self@),
                spec_interpret(statements@, old(self)@) == spec_interpret(
                    statements@.subrange(i as int, n as int),
                    self@,
                ),
            decreases n - i,
        {
            let ghost suffix = statements@.subrange(i as int, n as int);
            proof {
                assert(suffix[0] == statements@[i as int]);
                assert(suffix.drop_first() =~= statements@.subrange(i as int + 1, n as int));
            }
            match self.execute_fuel(&statements[i], CALL_FUEL) {
                Ok(_) => {},
                Err(err) => {
                    return Err(err);
                },
            }
            i = i + 1;
        }
        proof {
            assert(statements@.subrange(n as int, n as int) =~= Seq::<Stmt>::empty());
        }
        Ok(())
    }
}


/// Evaluating an expression never changes the clock sample: within one
/// run, every reading of the clock builtin returns the same number.
pub proof fn lemma_eval_expr_keeps_clock(e: Expr, st: StateV, fuel: nat)
    ensures
        eval_expr(e, st, fuel).1.clock == st.clock,
    decreases fuel, expr_size(e),
{
    match e {
        Expr::Literal(_) => {},
        Expr::Variable(_) => {},
        Expr::Grouping(g) => {
            lemma_eval_expr_keeps_clock(*g, st, fuel);
        },
        Expr::Unary(_, r) => {
            lemma_eval_expr_keeps_clock(*r, st, fuel);
        },
        Expr::Binary(l, _, r) => {
            lemma_eval_expr_keeps_clock(*l, st, fuel);
            let (lv, st1) = eval_expr(*l, st, fuel);
            if lv is Ok {
                lemma_eval_expr_keeps_clock(*r, st1, fuel);
            }
        },
        Expr::Logical(l, _, r) => {
            lemma_eval_expr_keeps_clock(*l, st, fuel);
            let (lv, st1) = eval_expr(*l, st, fuel);
            if lv is Ok {
                lemma_eval_expr_keeps_clock(*r, st1, fuel);
            }
        },
        Expr::Assign(_, v) => {
            lemma_eval_expr_keeps_clock(*v, st, fuel);
        },
        Expr::Call(callee, args) => {
            lemma_eval_expr_keeps_clock(*callee, st, fuel);
            let (cv, st1) = eval_expr(*callee, st, fuel);
            if cv is Ok {
                lemma_eval_args_keeps_clock(args@, st1, fuel);
                let (avs, st2) = eval_args(args@, st1, fuel);
                if avs is Ok {
                    match cv->Ok_0 {
                        ObjectV::Fun(f) => {
                            if fuel > 0 && avs->Ok_0.len() == f.params.len() {
                                let env1 = env_push(st2.env, f.captured);
                                let env2 = bind_params(env1, f.params, avs->Ok_0);
                                lemma_exec_stmt_keeps_clock(
                                    f.body,
                                    StateV { env: env2, ..st2 },
                                    (fuel - 1) as nat,
                                );
                            }
                        },
                        _ => {},
                    }
                }
            }
        },
    }
}

/// Evaluating an argument list never changes the clock sample.
pub proof fn lemma_eval_args_keeps_clock(args: Seq<Expr>, st: StateV, fuel: nat)
    ensures
        eval_args(args, st, fuel).1.clock == st.clock,
    decreases fuel, exprs_size(args),
{
    if args.len() > 0 {
        lemma_eval_expr_keeps_clock(args[0], st, fuel);
        let (v, st1) = eval_expr(args[0], st, fuel);
        if v is Ok {
            lemma_eval_args_keeps_clock(args.drop_first(), st1, fuel);
        }
    }
}

/// Executing a statement never changes the clock sample.
pub proof fn lemma_exec_stmt_keeps_clock(s: Stmt, st: StateV, fuel: nat)
    ensures
        exec_stmt(s, st, fuel).1.clock == st.clock,
    decreases fuel, stmt_size(s),
{
    match s {
        Stmt::Expr(e) => {
            lemma_eval_expr_keeps_clock(e, st, fuel);
        },
        Stmt::Print(e) => {
            lemma_eval_expr_keeps_clock(e, st, fuel);
        },
        Stmt::Var(_, init) => {
            match init {
                Some(e) => {
                    lemma_eval_expr_keeps_clock(e, st, fuel);
                },
                None => {},
            }
        },
        Stmt::Block(ss) => {
            let st1 = StateV { env: env_push(st.env, st.env.current), ..st };
            lemma_exec_stmts_keeps_clock(ss@, st1, fuel);
        },
        Stmt::If(c, t, els) => {
            lemma_eval_expr_keeps_clock(c, st, fuel);
            let (v, st1) = eval_expr(c, st, fuel);
            if v is Ok {
                if spec_truthy(v->Ok_0) {
                    lemma_exec_stmt_keeps_clock(*t, st1, fuel);
                } else {
                    match els {
                        Some(b) => {
                            lemma_exec_stmt_keeps_clock(*b, st1, fuel);
                        },
                        None => {},
                    }
                }
            }
        },
        Stmt::While(c, b) => {
            if fuel > 0 {
                lemma_eval_expr_keeps_clock(c, st, fuel);
                let (v, st1) = eval_expr(c, st, fuel);
                if v is Ok && spec_truthy(v->Ok_0) {
                    lemma_exec_stmt_keeps_clock(*b, st1, fuel);
                    let (r, st2) = exec_stmt(*b, st1, fuel);
                    if r is Normal {
                        lemma_exec_stmt_keeps_clock(s, st2, (fuel - 1) as nat);
                    }
                }
            }
        },
        Stmt::Function(_, _, _) => {},
        Stmt::Return(_, v) => {
            match v {
                Some(e) => {
                    lemma_eval_expr_keeps_clock(e, st, fuel);
                },
                None => {},
            }
        },
    }
}

/// Executing a statement sequence never changes the clock sample.
pub proof fn lemma_exec_stmts_keeps_clock(ss: Seq<Stmt>, st: StateV, fuel: nat)
    ensures
        exec_stmts(ss, st, fuel).1.clock == st.clock,
    decreases fuel, stmts_size(ss),
{
    if ss.len() > 0 {
        lemma_exec_stmt_keeps_clock(ss[0], st, fuel);
        let (r, st1) = exec_stmt(ss[0], st, fuel);
        if r is Normal {
            lemma_exec_stmts_keeps_clock(ss.drop_first(), st1, fuel);
        }
    }
}

/// Interpreting a program never changes the clock sample.
pub proof fn lemma_interpret_keeps_clock(ss: Seq<Stmt>, st: StateV)
    ensures
        spec_interpret(ss, st).1.clock == st.clock,
    decreases ss.len(),
{
    if ss.len() > 0 {
        lemma_exec_stmt_keeps_clock(ss[0], st, CALL_FUEL as nat);
        let (r, st1) = exec_stmt(ss[0], st, CALL_FUEL as nat);
        match r {
            StepV::Failed(_) => {},
            _ => {
                lemma_interpret_keeps_clock(ss.drop_first(), st1);
            },
        }
    }
}

} // verus!




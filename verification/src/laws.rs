//! The language's laws, proved once and for all against the ghost
//! semantics: the operator table for `+`, truthiness, structural value
//! equality, the failure on undefined names, and the stop-at-first-error
//! discipline of interpretation.

use vstd::prelude::*;

use crate::ast::{Expr, Stmt};
use crate::environment::{env_define, env_get, env_push, env_restore};
use crate::interpreter::{
    bind_params, eval_args, eval_expr, exec_stmt, lemma_eval_args_keeps_clock,
    lemma_eval_expr_keeps_clock, spec_interpret, undefined_in_expr_message, StateV, StepV,
};
use crate::numbers::{reduced_fits, LoxNum};
use crate::tokens::{Token, TokenType, TokenTypeV};
use crate::values::{spec_apply_binary, spec_apply_unary, spec_obj_eq, spec_truthy, FunV, ObjectV, RteV};

verus! {

/// Adding two numbers yields their exact rational sum whenever it fits the
/// numeric domain.
pub proof fn law_plus_numbers(a: LoxNum, b: LoxNum, line: int)
    requires
        a.wf(),
        b.wf(),
        reduced_fits(a.num * b.den + b.num * a.den, a.den * b.den),
    ensures
        spec_apply_binary(TokenTypeV::PLUS, ObjectV::Num(a), ObjectV::Num(b), line) matches Ok(o)
            && o matches ObjectV::Num(c) && c.num * (a.den * b.den) == (a.num * b.den + b.num
            * a.den) * c.den,
{
    crate::numbers::lemma_gcd_divides(
        vstd::math::abs(a.num * b.den + b.num * a.den),
        (a.den * b.den) as nat,
    );
    let n = a.num * b.den + b.num * a.den;
    let d = a.den * b.den;
    assert(d > 0) by (nonlinear_arith)
        requires
            a.den > 0,
            b.den > 0,
            d == a.den * b.den,
    ;
    lemma_spec_reduce_denotes(n, d);
}

/// Reduction preserves the denoted rational.
proof fn lemma_spec_reduce_denotes(n: int, d: int)
    requires
        d > 0,
        reduced_fits(n, d),
    ensures
        ({
            let c = crate::numbers::spec_reduce(n, d);
            c.num * d == n * c.den
        }),
{
    let g = crate::numbers::gcd(vstd::math::abs(n), d as nat) as int;
    crate::numbers::lemma_gcd_divides(vstd::math::abs(n), d as nat);
    let m = vstd::math::abs(n) as int;
    vstd::arithmetic::div_mod::lemma_fundamental_div_mod(m, g);
    vstd::arithmetic::div_mod::lemma_fundamental_div_mod(d, g);
    let qm = m / g;
    let qd = d / g;
    assert(m == g * qm);
    assert(d == g * qd);
    if n < 0 {
        assert((-qm) * d == n * qd) by (nonlinear_arith)
            requires
                m == g * qm,
                d == g * qd,
                m == -n,
        ;
    } else {
        assert(qm * d == n * qd) by (nonlinear_arith)
            requires
                m == g * qm,
                d == g * qd,
                m == n,
        ;
    }
}

/// Adding two strings concatenates them.
pub proof fn law_plus_strings(x: Seq<char>, y: Seq<char>, line: int)
    ensures
        spec_apply_binary(TokenTypeV::PLUS, ObjectV::Str(x), ObjectV::Str(y), line) == Ok::<
            ObjectV,
            RteV,
        >(ObjectV::Str(x + y)),
{
}

/// Adding anything other than two numbers or two strings is a type error.
pub proof fn law_plus_type_error(l: ObjectV, r: ObjectV, line: int)
    requires
        !(l is Num && r is Num),
        !(l is Str && r is Str),
    ensures
        spec_apply_binary(TokenTypeV::PLUS, l, r, line) is Err,
{
}

/// Truthiness: nil and false are falsy; everything else, the number zero
/// and the empty string included, is truthy.
pub proof fn law_truthiness(o: ObjectV)
    ensures
        spec_truthy(o) == !(o is Nil || o == ObjectV::Boolean(false)),
{
}

/// Logical negation applies truthiness to any value and never fails.
pub proof fn law_bang(o: ObjectV, line: int)
    ensures
        spec_apply_unary(TokenTypeV::BANG, o, line) == Ok::<ObjectV, RteV>(
            ObjectV::Boolean(!spec_truthy(o)),
        ),
{
}

/// Equality is structural over the value domain and never a type error:
/// nil equals only nil (not false), numbers compare as rationals (so two
/// representations of the same rational are equal), and a callable equals
/// nothing.
pub proof fn law_equality(a: ObjectV, b: ObjectV, line: int)
    ensures
        spec_apply_binary(TokenTypeV::EQUAL_EQUAL, a, b, line) == Ok::<ObjectV, RteV>(
            ObjectV::Boolean(spec_obj_eq(a, b)),
        ),
        spec_obj_eq(ObjectV::Nil, ObjectV::Nil),
        !spec_obj_eq(ObjectV::Nil, ObjectV::Boolean(false)),
        (match (a, b) {
            (ObjectV::Num(x), ObjectV::Num(y)) => spec_obj_eq(a, b) == (x.num * y.den == y.num
                * x.den),
            _ => true,
        }),
        a is Fun || a is Clock ==> !spec_obj_eq(a, b),
        spec_apply_binary(TokenTypeV::BANG_EQUAL, a, b, line) == Ok::<ObjectV, RteV>(
            ObjectV::Boolean(!spec_obj_eq(a, b)),
        ),
{
}

/// Reading an undefined name is a runtime error naming the variable and
/// carrying the line of the offending token, and it changes nothing.
pub proof fn law_undefined_variable(t: Token, name: Seq<char>, st: StateV, fuel: nat)
    requires
        t.token_type matches TokenType::IDENTIFIER(n) && n@ == name,
        env_get(st.env, name) is None,
    ensures
        eval_expr(Expr::Variable(t), st, fuel) == (
            Err::<ObjectV, RteV>(RteV { line: t.line as int, message: undefined_in_expr_message(name) }),
            st,
        ),
{
}

/// Once a statement fails with a runtime error, the remaining statements
/// contribute nothing: interpretation of the whole program equals
/// interpretation of the failing prefix.
pub proof fn law_error_stops_interpretation(ss: Seq<Stmt>, st: StateV, k: int)
    requires
        0 <= k <= ss.len(),
        spec_interpret(ss.take(k), st).0 is Err,
    ensures
        spec_interpret(ss, st) == spec_interpret(ss.take(k), st),
    decreases k,
{
    if k == 0 {
        assert(ss.take(0) =~= Seq::<Stmt>::empty());
    } else {
        let pre = ss.take(k);
        assert(pre[0] == ss[0]);
        let (r, st1) = exec_stmt(ss[0], st, crate::interpreter::CALL_FUEL as nat);
        match r {
            StepV::Failed(_) => {},
            _ => {
                assert(pre.drop_first() =~= ss.drop_first().take(k - 1));
                law_error_stops_interpretation(ss.drop_first(), st1, k - 1);
            },
        }
    }
}


/// Declaring a function builds a closure over the scope the declaration
/// runs in: the value bound under the function's name carries the
/// parameter list, the body, and the *current* scope as its captured
/// environment — which is what lets the function find itself by name and
/// lets a nested function outlive the block that made it.
pub proof fn law_function_captures_declaration_scope(s: Stmt, st: StateV, fuel: nat)
    ensures
        (match s {
            Stmt::Function(name, params, body) => exec_stmt(s, st, fuel) == ((
                StepV::Normal,
                StateV {
                    env: env_define(
                        st.env,
                        name@,
                        ObjectV::Fun(
                            FunV { params: params@, body: *body, captured: st.env.current },
                        ),
                    ),
                    ..st
                },
            )),
            _ => true,
        }),
{
}

/// Calling a function runs its body in a fresh scope chained onto the
/// function's *captured* scope — its defining environment, not the
/// caller's — with the parameters bound there; afterwards the caller's
/// scope is restored, and the call yields the returned value, or nil when
/// the body ends normally.
pub proof fn law_call_uses_captured_scope(e: Expr, st: StateV, fuel: nat)
    ensures
        (match e {
            Expr::Call(callee, args) => ({
                let (cv, st1) = eval_expr(*callee, st, fuel);
                let (avs, st2) = eval_args(args@, st1, fuel);
                match (cv, avs) {
                    (Ok(ObjectV::Fun(f)), Ok(vals)) => (fuel > 0 && vals.len()
                        == f.params.len()) ==> ({
                        let env1 = env_push(st2.env, f.captured);
                        let (r, st3) = exec_stmt(
                            f.body,
                            StateV { env: bind_params(env1, f.params, vals), ..st2 },
                            (fuel - 1) as nat,
                        );
                        let st4 = StateV { env: env_restore(st3.env, st2.env.current), ..st3 };
                        eval_expr(e, st, fuel) == (match r {
                            StepV::Normal => ((Ok::<ObjectV, RteV>(ObjectV::Nil), st4)),
                            StepV::Return(v) => ((Ok::<ObjectV, RteV>(v), st4)),
                            StepV::Failed(err) => ((Err::<ObjectV, RteV>(err), st4)),
                        })
                    }),
                    _ => true,
                }
            }),
            _ => true,
        }),
{
}

/// The clock builtin: a call whose callee evaluates to the clock (and
/// whose arguments evaluate without error) yields the run's clock sample,
/// and evaluation never changes that sample — so every reading within one
/// run returns the same, in particular non-decreasing, number.
pub proof fn law_clock_reading(e: Expr, st: StateV, fuel: nat)
    ensures
        (match e {
            Expr::Call(callee, args) => ({
                let (cv, st1) = eval_expr(*callee, st, fuel);
                (cv == Ok::<ObjectV, RteV>(ObjectV::Clock) && eval_args(args@, st1, fuel).0
                    is Ok) ==> eval_expr(e, st, fuel).0 == Ok::<ObjectV, RteV>(
                    ObjectV::Num(st.clock),
                )
            }),
            _ => true,
        }),
        eval_expr(e, st, fuel).1.clock == st.clock,
{
    lemma_eval_expr_keeps_clock(e, st, fuel);
    match e {
        Expr::Call(callee, args) => {
            lemma_eval_expr_keeps_clock(*callee, st, fuel);
            let (cv, st1) = eval_expr(*callee, st, fuel);
            lemma_eval_args_keeps_clock(args@, st1, fuel);
        },
        _ => {},
    }
}

} // verus!


//! The abstract syntax tree: expression and statement nodes.
//!
//! Nodes are built once per parse and only read afterwards. A function
//! declaration shares its parameter list and body through reference
//! counting, so the closure value built for it can outlive the block that
//! declared it.

use std::rc::Rc;

use vstd::prelude::*;

use crate::tokens::{Token, TokenType};

verus! {

#[derive(Debug)]
pub enum Expr {
    Binary(Box<Expr>, Token, Box<Expr>),
    Unary(Token, Box<Expr>),
    Literal(Token),
    Grouping(Box<Expr>),
    Variable(Token),
    Assign(Token, Box<Expr>),
    Logical(Box<Expr>, Token, Box<Expr>),
    Call(Box<Expr>, Vec<Expr>),
}

#[derive(Debug)]
pub enum Stmt {
    Expr(Expr),
    Print(Expr),
    Var(String, Option<Expr>),
    Block(Vec<Stmt>),
    If(Expr, Box<Stmt>, Option<Box<Stmt>>),
    While(Expr, Box<Stmt>),
    Function(String, Rc<Vec<Token>>, Rc<Stmt>),
    Return(Token, Option<Expr>),
}

/// The name under an identifier token, if it is one.
pub fn identifier_name(t: &Token) -> (r: Option<String>)
    ensures
        match r {
            Some(name) => t.token_type matches TokenType::IDENTIFIER(n) && name@ == n@,
            None => !(t.token_type is IDENTIFIER),
        },
{
    match &t.token_type {
        TokenType::IDENTIFIER(name) => Some(name.clone()),
        _ => None,
    }
}

/// Every parameter token names an identifier.
pub open spec fn params_wf(params: Seq<Token>) -> bool {
    forall|i: int| 0 <= i < params.len() ==> (#[trigger] params[i]).token_type is IDENTIFIER
}

impl Expr {
    /// Well-formedness: every numeric literal payload has a positive
    /// denominator.
    pub open spec fn wf(self) -> bool
        decreases self,
    {
        match self {
            Expr::Binary(l, t, r) => l.wf() && t.wf() && r.wf(),
            Expr::Unary(t, r) => t.wf() && r.wf(),
            Expr::Literal(t) => t.wf(),
            Expr::Grouping(g) => g.wf(),
            Expr::Variable(t) => t.wf(),
            Expr::Assign(t, v) => t.wf() && v.wf(),
            Expr::Logical(l, t, r) => l.wf() && t.wf() && r.wf(),
            Expr::Call(c, args) => c.wf() && (forall|i: int|
                0 <= i < args@.len() ==> (#[trigger] args@[i]).wf()),
        }
    }
}

impl Stmt {
    /// Well-formedness: numeric literal payloads have positive
    /// denominators and function parameters are identifier tokens.
    pub open spec fn wf(self) -> bool
        decreases self,
    {
        match self {
            Stmt::Expr(e) => e.wf(),
            Stmt::Print(e) => e.wf(),
            Stmt::Var(_, init) => match init {
                Some(e) => e.wf(),
                None => true,
            },
            Stmt::Block(ss) => forall|i: int| 0 <= i < ss@.len() ==> (#[trigger] ss@[i]).wf(),
            Stmt::If(c, t, e) => c.wf() && t.wf() && (match e {
                Some(b) => b.wf(),
                None => true,
            }),
            Stmt::While(c, b) => c.wf() && b.wf(),
            Stmt::Function(_, params, body) => params_wf(params@) && body.wf(),
            Stmt::Return(t, v) => t.wf() && (match v {
                Some(e) => e.wf(),
                None => true,
            }),
        }
    }
}


/// The size of an expression tree, for termination measures.
pub open spec fn expr_size(e: Expr) -> nat
    decreases e,
{
    match e {
        Expr::Literal(_) => 1,
        Expr::Variable(_) => 1,
        Expr::Grouping(g) => 1 + expr_size(*g),
        Expr::Unary(_, r) => 1 + expr_size(*r),
        Expr::Binary(l, _, r) => 1 + expr_size(*l) + expr_size(*r),
        Expr::Logical(l, _, r) => 1 + expr_size(*l) + expr_size(*r),
        Expr::Assign(_, v) => 1 + expr_size(*v),
        Expr::Call(c, args) => 1 + expr_size(*c) + exprs_size(args@),
    }
}

/// The combined size of a sequence of expressions.
pub open spec fn exprs_size(es: Seq<Expr>) -> nat
    decreases es,
        via exprs_size_dec
{
    if es.len() == 0 {
        0
    } else {
        1 + expr_size(es[0]) + exprs_size(es.drop_first())
    }
}

#[via_fn]
proof fn exprs_size_dec(es: Seq<Expr>) {
    if es.len() > 0 {
        assert(decreases_to!(es => es[0]));
        assert(es.drop_first() == es.subrange(1, es.len() as int));
        assert(decreases_to!(es => es.subrange(1, es.len() as int)));
    }
}

/// The size of a statement tree, for termination measures. A function
/// body does not count: it is executed only through a call, which spends
/// fuel instead.
pub open spec fn stmt_size(s: Stmt) -> nat
    decreases s,
{
    match s {
        Stmt::Expr(e) => 1 + expr_size(e),
        Stmt::Print(e) => 1 + expr_size(e),
        Stmt::Var(_, init) => 1 + (match init {
            Some(e) => expr_size(e),
            None => 0,
        }),
        Stmt::Block(ss) => 1 + stmts_size(ss@),
        Stmt::If(c, t, els) => 1 + expr_size(c) + stmt_size(*t) + (match els {
            Some(b) => stmt_size(*b),
            None => 0,
        }),
        Stmt::While(c, b) => 1 + expr_size(c) + stmt_size(*b),
        Stmt::Function(_, _, _) => 1,
        Stmt::Return(_, v) => 1 + (match v {
            Some(e) => expr_size(e),
            None => 0,
        }),
    }
}

/// The combined size of a sequence of statements.
pub open spec fn stmts_size(ss: Seq<Stmt>) -> nat
    decreases ss,
        via stmts_size_dec
{
    if ss.len() == 0 {
        0
    } else {
        1 + stmt_size(ss[0]) + stmts_size(ss.drop_first())
    }
}

#[via_fn]
proof fn stmts_size_dec(ss: Seq<Stmt>) {
    if ss.len() > 0 {
        assert(decreases_to!(ss => ss[0]));
        assert(ss.drop_first() == ss.subrange(1, ss.len() as int));
        assert(decreases_to!(ss => ss.subrange(1, ss.len() as int)));
    }
}


/// The ghost mirror of an expression: the same shape with mathematical
/// sequences for argument lists, so ghost code can build and compare whole
/// trees.
pub enum ExprS {
    Binary(Box<ExprS>, Token, Box<ExprS>),
    Unary(Token, Box<ExprS>),
    Literal(Token),
    Grouping(Box<ExprS>),
    Variable(Token),
    Assign(Token, Box<ExprS>),
    Logical(Box<ExprS>, Token, Box<ExprS>),
    Call(Box<ExprS>, Seq<ExprS>),
}

/// The ghost mirror of an expression tree.
pub open spec fn expr_view(e: Expr) -> ExprS
    decreases e,
{
    match e {
        Expr::Binary(l, t, r) => ExprS::Binary(Box::new(expr_view(*l)), t, Box::new(expr_view(*r))),
        Expr::Unary(t, r) => ExprS::Unary(t, Box::new(expr_view(*r))),
        Expr::Literal(t) => ExprS::Literal(t),
        Expr::Grouping(g) => ExprS::Grouping(Box::new(expr_view(*g))),
        Expr::Variable(t) => ExprS::Variable(t),
        Expr::Assign(t, v) => ExprS::Assign(t, Box::new(expr_view(*v))),
        Expr::Logical(l, t, r) => ExprS::Logical(
            Box::new(expr_view(*l)),
            t,
            Box::new(expr_view(*r)),
        ),
        Expr::Call(c, args) => ExprS::Call(Box::new(expr_view(*c)), exprs_view(args@)),
    }
}

/// The ghost mirrors of a sequence of expressions.
pub open spec fn exprs_view(es: Seq<Expr>) -> Seq<ExprS>
    decreases es,
        via exprs_view_dec
{
    if es.len() == 0 {
        Seq::empty()
    } else {
        seq![expr_view(es[0])] + exprs_view(es.drop_first())
    }
}

#[via_fn]
proof fn exprs_view_dec(es: Seq<Expr>) {
    if es.len() > 0 {
        assert(decreases_to!(es => es[0]));
        assert(es.drop_first() == es.subrange(1, es.len() as int));
        assert(decreases_to!(es => es.subrange(1, es.len() as int)));
    }
}

/// Mirroring distributes over appending one expression.
pub proof fn lemma_exprs_view_push(es: Seq<Expr>, e: Expr)
    ensures
        exprs_view(es.push(e)) == exprs_view(es).push(expr_view(e)),
    decreases es.len(),
{
    if es.len() == 0 {
        assert(es.push(e)[0] == e);
        assert(es.push(e).drop_first() =~= Seq::<Expr>::empty());
        assert(exprs_view(Seq::<Expr>::empty()) == Seq::<ExprS>::empty());
        assert(exprs_view(es.push(e)) == seq![expr_view(e)] + Seq::<ExprS>::empty());
        assert(seq![expr_view(e)] + Seq::<ExprS>::empty() =~= exprs_view(es).push(expr_view(e)));
    } else {
        let v0 = expr_view(es[0]);
        let x = exprs_view(es.drop_first());
        let ve = expr_view(e);
        assert(es.push(e).drop_first() =~= es.drop_first().push(e));
        assert(es.push(e)[0] == es[0]);
        assert(exprs_view(es.push(e)) == seq![v0] + exprs_view(es.drop_first().push(e)));
        lemma_exprs_view_push(es.drop_first(), e);
        assert(exprs_view(es.drop_first().push(e)) == x.push(ve));
        assert(seq![v0] + x.push(ve) =~= (seq![v0] + x).push(ve));
        assert(exprs_view(es) == seq![v0] + x);
        assert(exprs_view(es.push(e)) == exprs_view(es).push(ve));
    }
}


/// The ghost mirror of a statement: the same shape with mathematical
/// sequences for blocks, parameter lists and names.
pub enum StmtS {
    Expr(ExprS),
    Print(ExprS),
    Var(Seq<char>, Option<ExprS>),
    Block(Seq<StmtS>),
    If(ExprS, Box<StmtS>, Option<Box<StmtS>>),
    While(ExprS, Box<StmtS>),
    Function(Seq<char>, Seq<Token>, Box<StmtS>),
    Return(Token, Option<ExprS>),
}

/// The ghost mirror of a statement tree.
pub open spec fn stmt_view(s: Stmt) -> StmtS
    decreases s,
{
    match s {
        Stmt::Expr(e) => StmtS::Expr(expr_view(e)),
        Stmt::Print(e) => StmtS::Print(expr_view(e)),
        Stmt::Var(n, init) => StmtS::Var(
            n@,
            match init {
                Some(e) => Some(expr_view(e)),
                None => None,
            },
        ),
        Stmt::Block(ss) => StmtS::Block(stmts_view(ss@)),
        Stmt::If(c, t, els) => StmtS::If(
            expr_view(c),
            Box::new(stmt_view(*t)),
            match els {
                Some(b) => Some(Box::new(stmt_view(*b))),
                None => None,
            },
        ),
        Stmt::While(c, b) => StmtS::While(expr_view(c), Box::new(stmt_view(*b))),
        Stmt::Function(n, ps, b) => StmtS::Function(n@, ps@, Box::new(stmt_view(*b))),
        Stmt::Return(t, v) => StmtS::Return(
            t,
            match v {
                Some(e) => Some(expr_view(e)),
                None => None,
            },
        ),
    }
}

/// The ghost mirrors of a sequence of statements.
pub open spec fn stmts_view(ss: Seq<Stmt>) -> Seq<StmtS>
    decreases ss,
        via stmts_view_dec
{
    if ss.len() == 0 {
        Seq::empty()
    } else {
        seq![stmt_view(ss[0])] + stmts_view(ss.drop_first())
    }
}

#[via_fn]
proof fn stmts_view_dec(ss: Seq<Stmt>) {
    if ss.len() > 0 {
        assert(decreases_to!(ss => ss[0]));
        assert(ss.drop_first() == ss.subrange(1, ss.len() as int));
        assert(decreases_to!(ss => ss.subrange(1, ss.len() as int)));
    }
}

/// Mirroring distributes over appending one statement.
pub proof fn lemma_stmts_view_push(ss: Seq<Stmt>, s: Stmt)
    ensures
        stmts_view(ss.push(s)) == stmts_view(ss).push(stmt_view(s)),
    decreases ss.len(),
{
    if ss.len() == 0 {
        assert(ss.push(s)[0] == s);
        assert(ss.push(s).drop_first() =~= Seq::<Stmt>::empty());
        assert(stmts_view(Seq::<Stmt>::empty()) == Seq::<StmtS>::empty());
        assert(stmts_view(ss.push(s)) == seq![stmt_view(s)] + Seq::<StmtS>::empty());
        assert(seq![stmt_view(s)] + Seq::<StmtS>::empty() =~= stmts_view(ss).push(stmt_view(s)));
    } else {
        let v0 = stmt_view(ss[0]);
        let x = stmts_view(ss.drop_first());
        let vs = stmt_view(s);
        assert(ss.push(s).drop_first() =~= ss.drop_first().push(s));
        assert(ss.push(s)[0] == ss[0]);
        assert(stmts_view(ss.push(s)) == seq![v0] + stmts_view(ss.drop_first().push(s)));
        lemma_stmts_view_push(ss.drop_first(), s);
        assert(stmts_view(ss.drop_first().push(s)) == x.push(vs));
        assert(seq![v0] + x.push(vs) =~= (seq![v0] + x).push(vs));
        assert(stmts_view(ss) == seq![v0] + x);
        assert(stmts_view(ss.push(s)) == stmts_view(ss).push(vs));
    }
}

} // verus!




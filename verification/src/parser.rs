//! The recursive-descent parser: builds statements from tokens with one
//! token of lookahead and never backtracks.
//!
//! Most grammar violations are recoverable: the parser reports a
//! diagnostic, discards tokens up to a statement boundary, and resumes, so
//! one pass can surface several independent errors. An invalid assignment
//! target is reported and the left-hand expression is kept. Every
//! statement the parser returns is well-formed, so it can be handed to the
//! evaluator directly.

use std::rc::Rc;

use vstd::prelude::*;

use crate::ast::{expr_view, exprs_view, stmt_view, stmts_view, Expr, ExprS, Stmt, StmtS};
use crate::diagnostics::{DiagV, Diagnostic};
use crate::scanner::{lemma_view_diags_push, view_diags};
use crate::tokens::{Token, TokenType};

verus! {

/// The marker for a grammar violation already reported; the statement
/// being parsed is abandoned and parsing resumes at a statement boundary.
pub struct ParseAbort {}

/// The parser's cursor over the scanned tokens, and the diagnostics it has
/// reported so far.
pub struct Parser {
    pub tokens: Vec<Token>,
    pub pos: usize,
    pub diagnostics: Vec<Diagnostic>,
}

/// The ghost parser's cursor: position and diagnostics reported so far.
pub struct PState {
    pub pos: int,
    pub diags: Seq<DiagV>,
}

/// The line used for a diagnostic at `pos`: the current token's line, or
/// the last token's at the end of input.
pub open spec fn sp_line(ts: Seq<Token>, pos: int) -> int {
    if 0 <= pos < ts.len() {
        ts[pos].line as int
    } else if ts.len() > 0 {
        ts[ts.len() - 1].line as int
    } else {
        -1
    }
}

/// `st` with a diagnostic appended.
pub open spec fn sp_report(st: PState, line: int, msg: Seq<char>) -> PState {
    PState { pos: st.pos, diags: st.diags.push(DiagV { line, message: msg }) }
}

/// `st` with `n` tokens consumed.
pub open spec fn sp_adv(st: PState, n: int) -> PState {
    PState { pos: st.pos + n, diags: st.diags }
}

/// Whether the token at `pos` exists and is of kind `k`.
pub open spec fn at_kind(ts: Seq<Token>, pos: int, k: TokenType) -> bool {
    0 <= pos < ts.len() && ts[pos].token_type.spec_same_kind(k)
}

/// Whether the token at `pos` is of one of the kinds.
pub open spec fn sp_kind_in(ts: Seq<Token>, pos: int, ks: Seq<TokenType>) -> bool {
    exists|j: int| 0 <= j < ks.len() && at_kind(ts, pos, #[trigger] ks[j])
}

/// A position bounded below by `lo` and above by `hi`: the position a
/// subrule returned, guarded only so that the recursion of the ghost
/// parser is seen to shrink. The guard never fires, because a parsing
/// routine never moves its cursor backwards.
pub open spec fn sp_clamp(lo: int, hi: int, p: int) -> int {
    if lo <= p <= hi {
        p
    } else {
        lo
    }
}

/// Membership in a one-kind list is just that kind.
pub proof fn lemma_kind_in_singleton(ts: Seq<Token>, pos: int, k: TokenType)
    ensures
        sp_kind_in(ts, pos, seq![k]) == at_kind(ts, pos, k),
{
    if at_kind(ts, pos, k) {
        assert(seq![k][0] == k);
        assert(sp_kind_in(ts, pos, seq![k]));
    }
}


/// The ghost parser for `primary`.
pub open spec fn sp_primary(ts: Seq<Token>, st: PState) -> (Option<ExprS>, PState)
    decreases ts.len() - st.pos, 8int, 0int, 0int
        when 0 <= st.pos <= ts.len()
{
    if st.pos >= ts.len() {
        (None, sp_report(st, sp_line(ts, st.pos), "Expect expression."@))
    } else {
        let tok = ts[st.pos];
        let st1 = sp_adv(st, 1);
        match tok.token_type {
            TokenType::FALSE => (Some(ExprS::Literal(tok)), st1),
            TokenType::TRUE => (Some(ExprS::Literal(tok)), st1),
            TokenType::NIL => (Some(ExprS::Literal(tok)), st1),
            TokenType::NUMBER(_) => (Some(ExprS::Literal(tok)), st1),
            TokenType::STRING(_) => (Some(ExprS::Literal(tok)), st1),
            TokenType::LEFT_PAREN => {
                let (r, st2) = sp_expression(ts, st1);
                match r {
                    Some(e) => {
                        if at_kind(ts, st2.pos, TokenType::RIGHT_PAREN) {
                            (Some(ExprS::Grouping(Box::new(e))), sp_adv(st2, 1))
                        } else {
                            (
                                None,
                                sp_report(
                                    st2,
                                    sp_line(ts, st2.pos),
                                    "Expect ')' after expression."@,
                                ),
                            )
                        }
                    },
                    None => (None, st2),
                }
            },
            TokenType::IDENTIFIER(_) => (Some(ExprS::Variable(tok)), st1),
            _ => (None, sp_report(st1, tok.line as int, "Expect expression."@)),
        }
    }
}

/// The ghost parser for a call's argument list, the opening parenthesis
/// consumed and at least one argument present.
pub open spec fn sp_args(ts: Seq<Token>, st: PState, acc: Seq<ExprS>) -> (
    Option<Seq<ExprS>>,
    PState,
)
    decreases ts.len() - st.pos, 30int, 0int, 0int
        when 0 <= st.pos <= ts.len()
{
    let (r, st1) = sp_expression(ts, st);
    match r {
        Some(e) => {
            let p1 = sp_clamp(st.pos + 1, ts.len() as int, st1.pos);
            let st1c = PState { pos: p1, diags: st1.diags };
            let acc2 = acc.push(e);
            if at_kind(ts, p1, TokenType::COMMA) {
                sp_args(ts, sp_adv(st1c, 1), acc2)
            } else if at_kind(ts, p1, TokenType::RIGHT_PAREN) {
                (Some(acc2), sp_adv(st1c, 1))
            } else {
                (None, sp_report(st1c, sp_line(ts, p1), "Expect ')' after arguments."@))
            }
        },
        None => (None, st1),
    }
}

/// The ghost parser for a call's arguments, the opening parenthesis
/// consumed.
pub open spec fn sp_finish_call(ts: Seq<Token>, st: PState, callee: ExprS) -> (
    Option<ExprS>,
    PState,
)
    decreases ts.len() - st.pos, 31int, 0int, 0int
        when 0 <= st.pos <= ts.len()
{
    if at_kind(ts, st.pos, TokenType::RIGHT_PAREN) {
        (Some(ExprS::Call(Box::new(callee), Seq::empty())), sp_adv(st, 1))
    } else {
        let (r, st1) = sp_args(ts, st, Seq::empty());
        match r {
            Some(args) => (Some(ExprS::Call(Box::new(callee), args)), st1),
            None => (None, st1),
        }
    }
}

/// The ghost parser for the call suffix `( ( arguments? ) )*`.
pub open spec fn sp_call_rest(ts: Seq<Token>, st: PState, acc: ExprS) -> (Option<ExprS>, PState)
    decreases ts.len() - st.pos, 9int, 0int, 0int
        when 0 <= st.pos <= ts.len()
{
    if at_kind(ts, st.pos, TokenType::LEFT_PAREN) {
        let (r, st1) = sp_finish_call(ts, sp_adv(st, 1), acc);
        match r {
            Some(e) => sp_call_rest(
                ts,
                PState { pos: sp_clamp(st.pos + 1, ts.len() as int, st1.pos), diags: st1.diags },
                e,
            ),
            None => (None, st1),
        }
    } else {
        (Some(acc), st)
    }
}

/// The ghost parser for `call`.
pub open spec fn sp_call(ts: Seq<Token>, st: PState) -> (Option<ExprS>, PState)
    decreases ts.len() - st.pos, 10int, 0int, 0int
        when 0 <= st.pos <= ts.len()
{
    let (r, st1) = sp_primary(ts, st);
    match r {
        Some(e) => sp_call_rest(
            ts,
            PState { pos: sp_clamp(st.pos, ts.len() as int, st1.pos), diags: st1.diags },
            e,
        ),
        None => (None, st1),
    }
}

/// The ghost parser for `unary`.
pub open spec fn sp_unary(ts: Seq<Token>, st: PState) -> (Option<ExprS>, PState)
    decreases ts.len() - st.pos, 12int, 0int, 0int
        when 0 <= st.pos <= ts.len()
{
    if sp_kind_in(ts, st.pos, seq![TokenType::BANG, TokenType::MINUS]) {
        let op = ts[st.pos];
        let (r, st1) = sp_unary(ts, sp_adv(st, 1));
        match r {
            Some(e) => (Some(ExprS::Unary(op, Box::new(e))), st1),
            None => (None, st1),
        }
    } else {
        sp_call(ts, st)
    }
}

/// The ghost parser for the suffix of a left-associative binary rule: the
/// operators `ks` at this level, each followed by the subrule `sub`.
/// `rank` tells the levels apart; the subrule is the level below.
pub open spec fn sp_binary_rest(
    ts: Seq<Token>,
    st: PState,
    acc: ExprS,
    ks: Seq<TokenType>,
    rank: int,
) -> (Option<ExprS>, PState)
    decreases ts.len() - st.pos, 25int, rank - 1, 0int
        when 0 <= st.pos <= ts.len() && 1 <= rank <= 6
{
    if sp_kind_in(ts, st.pos, ks) {
        let op = ts[st.pos];
        let (r, st1) = if rank == 1 {
            sp_unary(ts, sp_adv(st, 1))
        } else {
            sp_binary_level(ts, sp_adv(st, 1), rank - 2)
        };
        match r {
            Some(right) => sp_binary_rest(
                ts,
                PState { pos: sp_clamp(st.pos + 1, ts.len() as int, st1.pos), diags: st1.diags },
                if rank <= 4 {
                    ExprS::Binary(Box::new(acc), op, Box::new(right))
                } else {
                    ExprS::Logical(Box::new(acc), op, Box::new(right))
                },
                ks,
                rank,
            ),
            None => (None, st1),
        }
    } else {
        (Some(acc), st)
    }
}

/// The operator kinds of each binary level, lowest levels first: factor,
/// term, comparison, equality, logical and, logical or.
pub open spec fn sp_level_kinds(rank: int) -> Seq<TokenType> {
    if rank == 0 {
        seq![TokenType::STAR, TokenType::SLASH]
    } else if rank == 1 {
        seq![TokenType::PLUS, TokenType::MINUS]
    } else if rank == 2 {
        seq![
            TokenType::GREATER,
            TokenType::GREATER_EQUAL,
            TokenType::LESS,
            TokenType::LESS_EQUAL,
        ]
    } else if rank == 3 {
        seq![TokenType::BANG_EQUAL, TokenType::EQUAL_EQUAL]
    } else if rank == 4 {
        seq![TokenType::AND]
    } else {
        seq![TokenType::OR]
    }
}

/// The ghost parser for one left-associative binary level: `0` is
/// `factor`, then `term`, `comparison`, `equality`, `and`, and `5` is
/// `or`.
pub open spec fn sp_binary_level(ts: Seq<Token>, st: PState, rank: int) -> (Option<ExprS>, PState)
    decreases ts.len() - st.pos, 25int, rank, 1int
        when 0 <= st.pos <= ts.len() && 0 <= rank <= 5
{
    let (r, st1) = if rank == 0 {
        sp_unary(ts, st)
    } else {
        sp_binary_level(ts, st, rank - 1)
    };
    match r {
        Some(e) => sp_binary_rest(
            ts,
            PState { pos: sp_clamp(st.pos, ts.len() as int, st1.pos), diags: st1.diags },
            e,
            sp_level_kinds(rank),
            rank + 1,
        ),
        None => (None, st1),
    }
}

/// The ghost parser for `assignment`.
pub open spec fn sp_assignment(ts: Seq<Token>, st: PState) -> (Option<ExprS>, PState)
    decreases ts.len() - st.pos, 26int, 0int, 0int
        when 0 <= st.pos <= ts.len()
{
    let (r, st1) = sp_binary_level(ts, st, 5);
    match r {
        Some(e) => {
            let p1 = sp_clamp(st.pos, ts.len() as int, st1.pos);
            if at_kind(ts, p1, TokenType::EQUAL) {
                let equals = ts[p1];
                let (rv, st2) = sp_assignment(ts, sp_adv(PState { pos: p1, diags: st1.diags }, 1));
                match rv {
                    Some(value) => {
                        match e {
                            ExprS::Variable(name) => (
                                Some(ExprS::Assign(name, Box::new(value))),
                                st2,
                            ),
                            _ => (
                                Some(e),
                                sp_report(st2, equals.line as int, "Invalid assignment target."@),
                            ),
                        }
                    },
                    None => (None, st2),
                }
            } else {
                (Some(e), PState { pos: p1, diags: st1.diags })
            }
        },
        None => (None, st1),
    }
}

/// The ghost parser for `expression`.
pub open spec fn sp_expression(ts: Seq<Token>, st: PState) -> (Option<ExprS>, PState)
    decreases ts.len() - st.pos, 28int, 0int, 0int
        when 0 <= st.pos <= ts.len()
{
    sp_assignment(ts, st)
}


/// Whether `pos` is at the end of input or at the end-of-stream sentinel.
pub open spec fn sp_at_eof(ts: Seq<Token>, pos: int) -> bool {
    pos >= ts.len() || ts[pos].token_type.spec_same_kind(TokenType::EOF)
}

/// The tokens that may start a new statement: where error recovery stops
/// discarding.
pub open spec fn sp_boundary(t: TokenType) -> bool {
    ||| t is CLASS
    ||| t is FUN
    ||| t is VAR
    ||| t is FOR
    ||| t is IF
    ||| t is WHILE
    ||| t is PRINT
    ||| t is RETURN
    ||| t is EOF
}

/// Where the cursor lands after error recovery from `p`: past a semicolon,
/// or in front of a statement-starting token, or at the end of input.
pub open spec fn sp_sync(ts: Seq<Token>, p: int) -> int
    decreases ts.len() - p
        when 0 <= p <= ts.len()
{
    if p >= ts.len() {
        p
    } else if ts[p].token_type is SEMICOLON {
        p + 1
    } else if sp_boundary(ts[p].token_type) {
        p
    } else {
        sp_sync(ts, p + 1)
    }
}

/// The ghost parser for `expression ;`.
pub open spec fn sp_expr_stmt(ts: Seq<Token>, st: PState) -> (Option<StmtS>, PState)
    decreases ts.len() - st.pos, 40int
        when 0 <= st.pos <= ts.len()
{
    let (r, st1) = sp_expression(ts, st);
    match r {
        Some(e) => {
            let p1 = sp_clamp(st.pos, ts.len() as int, st1.pos);
            let st1c = PState { pos: p1, diags: st1.diags };
            if at_kind(ts, p1, TokenType::SEMICOLON) {
                (Some(StmtS::Expr(e)), sp_adv(st1c, 1))
            } else {
                (None, sp_report(st1c, sp_line(ts, p1), "Expect ';' after expression."@))
            }
        },
        None => (None, st1),
    }
}

/// The ghost parser for `print expression ;`.
pub open spec fn sp_print_stmt(ts: Seq<Token>, st: PState) -> (Option<StmtS>, PState)
    decreases ts.len() - st.pos, 40int
        when 0 <= st.pos <= ts.len()
{
    let st1 = sp_adv(st, 1);
    if sp_at_eof(ts, st1.pos) {
        (None, sp_report(st1, sp_line(ts, st1.pos), "Expect expression."@))
    } else {
        let (r, st2) = sp_expression(ts, st1);
        match r {
            Some(e) => {
                let p2 = sp_clamp(st1.pos, ts.len() as int, st2.pos);
                let st2c = PState { pos: p2, diags: st2.diags };
                if at_kind(ts, p2, TokenType::SEMICOLON) {
                    (Some(StmtS::Print(e)), sp_adv(st2c, 1))
                } else {
                    (None, sp_report(st2c, sp_line(ts, p2), "Expect ';' after value."@))
                }
            },
            None => (None, st2),
        }
    }
}

/// The ghost parser for `return expression? ;`.
pub open spec fn sp_return_stmt(ts: Seq<Token>, st: PState) -> (Option<StmtS>, PState)
    decreases ts.len() - st.pos, 40int
        when 0 <= st.pos <= ts.len()
{
    let kw = ts[st.pos];
    let st1 = sp_adv(st, 1);
    if at_kind(ts, st1.pos, TokenType::SEMICOLON) {
        (Some(StmtS::Return(kw, None)), sp_adv(st1, 1))
    } else {
        let (r, st2) = sp_expression(ts, st1);
        match r {
            Some(e) => {
                let p2 = sp_clamp(st1.pos, ts.len() as int, st2.pos);
                let st2c = PState { pos: p2, diags: st2.diags };
                if at_kind(ts, p2, TokenType::SEMICOLON) {
                    (Some(StmtS::Return(kw, Some(e))), sp_adv(st2c, 1))
                } else {
                    (None, sp_report(st2c, sp_line(ts, p2), "Expect ';' after return value."@))
                }
            },
            None => (None, st2),
        }
    }
}

/// The ghost parser for `var IDENT ( = expression )? ;`.
pub open spec fn sp_var_decl(ts: Seq<Token>, st: PState) -> (Option<StmtS>, PState)
    decreases ts.len() - st.pos, 42int
        when 0 <= st.pos <= ts.len()
{
    let st1 = sp_adv(st, 1);
    if st1.pos < ts.len() && ts[st1.pos].token_type is IDENTIFIER {
        let name = (match ts[st1.pos].token_type {
            TokenType::IDENTIFIER(n) => n@,
            _ => Seq::empty(),
        });
        let st2 = sp_adv(st1, 1);
        if at_kind(ts, st2.pos, TokenType::EQUAL) {
            let (r, st3) = sp_expression(ts, sp_adv(st2, 1));
            match r {
                Some(e) => {
                    let p3 = sp_clamp(st2.pos + 1, ts.len() as int, st3.pos);
                    let st3c = PState { pos: p3, diags: st3.diags };
                    if at_kind(ts, p3, TokenType::SEMICOLON) {
                        (Some(StmtS::Var(name, Some(e))), sp_adv(st3c, 1))
                    } else {
                        (
                            None,
                            sp_report(
                                st3c,
                                sp_line(ts, p3),
                                "Expect ';' after variable declaration."@,
                            ),
                        )
                    }
                },
                None => (None, st3),
            }
        } else {
            if at_kind(ts, st2.pos, TokenType::SEMICOLON) {
                (Some(StmtS::Var(name, None)), sp_adv(st2, 1))
            } else {
                (
                    None,
                    sp_report(
                        st2,
                        sp_line(ts, st2.pos),
                        "Expect ';' after variable declaration."@,
                    ),
                )
            }
        }
    } else {
        (None, sp_report(st1, sp_line(ts, st1.pos), "Expect variable name."@))
    }
}

/// The ghost parser for a function's parameter names, at least one being
/// present.
pub open spec fn sp_params(ts: Seq<Token>, st: PState, acc: Seq<Token>) -> (
    Option<Seq<Token>>,
    PState,
)
    decreases ts.len() - st.pos, 10int
        when 0 <= st.pos <= ts.len()
{
    if st.pos < ts.len() && ts[st.pos].token_type is IDENTIFIER {
        let t = ts[st.pos];
        if at_kind(ts, st.pos + 1, TokenType::COMMA) {
            sp_params(ts, sp_adv(st, 2), acc.push(t))
        } else {
            (Some(acc.push(t)), sp_adv(st, 1))
        }
    } else {
        (None, sp_report(st, sp_line(ts, st.pos), "Expect parameter name."@))
    }
}

/// The ghost parser for `fun IDENT ( parameters? ) block`.
pub open spec fn sp_fun_decl(ts: Seq<Token>, st: PState) -> (Option<StmtS>, PState)
    decreases ts.len() - st.pos, 42int
        when 0 <= st.pos <= ts.len()
{
    let st1 = sp_adv(st, 1);
    if st1.pos < ts.len() && ts[st1.pos].token_type is IDENTIFIER {
        let name = (match ts[st1.pos].token_type {
            TokenType::IDENTIFIER(n) => n@,
            _ => Seq::empty(),
        });
        let st2 = sp_adv(st1, 1);
        if at_kind(ts, st2.pos, TokenType::LEFT_PAREN) {
            let st3 = sp_adv(st2, 1);
            let (ps, st4) = if at_kind(ts, st3.pos, TokenType::RIGHT_PAREN) {
                (Some(Seq::<Token>::empty()), st3)
            } else {
                sp_params(ts, st3, Seq::empty())
            };
            match ps {
                Some(params) => {
                    let p4 = sp_clamp(st3.pos, ts.len() as int, st4.pos);
                    let st4c = PState { pos: p4, diags: st4.diags };
                    if at_kind(ts, p4, TokenType::RIGHT_PAREN) {
                        let st5 = sp_adv(st4c, 1);
                        if at_kind(ts, st5.pos, TokenType::LEFT_BRACE) {
                            let (b, st6) = sp_block(ts, st5);
                            match b {
                                Some(body) => (
                                    Some(StmtS::Function(name, params, Box::new(body))),
                                    st6,
                                ),
                                None => (None, st6),
                            }
                        } else {
                            (
                                None,
                                sp_report(
                                    st5,
                                    sp_line(ts, st5.pos),
                                    "Expect '{' before function body."@,
                                ),
                            )
                        }
                    } else {
                        (
                            None,
                            sp_report(st4c, sp_line(ts, p4), "Expect ')' after parameters."@),
                        )
                    }
                },
                None => (None, st4),
            }
        } else {
            (
                None,
                sp_report(st2, sp_line(ts, st2.pos), "Expect '(' after function name."@),
            )
        }
    } else {
        (None, sp_report(st1, sp_line(ts, st1.pos), "Expect function name."@))
    }
}

/// The ghost parser for the declarations of a block, the opening brace
/// consumed.
pub open spec fn sp_block_rest(ts: Seq<Token>, st: PState, acc: Seq<StmtS>) -> (
    Option<StmtS>,
    PState,
)
    decreases ts.len() - st.pos, 45int
        when 0 <= st.pos <= ts.len()
{
    if at_kind(ts, st.pos, TokenType::RIGHT_BRACE) {
        (Some(StmtS::Block(acc)), sp_adv(st, 1))
    } else if sp_at_eof(ts, st.pos) {
        (None, sp_report(st, sp_line(ts, st.pos), "Expect '}' after block."@))
    } else {
        let (r, st1) = sp_declaration(ts, st);
        let p1 = sp_clamp(st.pos + 1, ts.len() as int, st1.pos);
        let st1c = PState { pos: p1, diags: st1.diags };
        match r {
            Some(s) => sp_block_rest(ts, st1c, acc.push(s)),
            None => sp_block_rest(ts, st1c, acc),
        }
    }
}

/// The ghost parser for `{ declaration* }`.
pub open spec fn sp_block(ts: Seq<Token>, st: PState) -> (Option<StmtS>, PState)
    decreases ts.len() - st.pos, 40int
        when 0 <= st.pos <= ts.len()
{
    if st.pos < ts.len() {
        sp_block_rest(ts, sp_adv(st, 1), Seq::empty())
    } else {
        (None, st)
    }
}

/// The ghost parser for `while ( expression ) statement`.
pub open spec fn sp_while_stmt(ts: Seq<Token>, st: PState) -> (Option<StmtS>, PState)
    decreases ts.len() - st.pos, 40int
        when 0 <= st.pos <= ts.len()
{
    let st1 = sp_adv(st, 1);
    if at_kind(ts, st1.pos, TokenType::LEFT_PAREN) {
        let (c, st2) = sp_expression(ts, sp_adv(st1, 1));
        match c {
            Some(cond) => {
                let p2 = sp_clamp(st1.pos + 1, ts.len() as int, st2.pos);
                let st2c = PState { pos: p2, diags: st2.diags };
                if at_kind(ts, p2, TokenType::RIGHT_PAREN) {
                    let (b, st3) = sp_statement(ts, sp_adv(st2c, 1));
                    match b {
                        Some(body) => (Some(StmtS::While(cond, Box::new(body))), st3),
                        None => (None, st3),
                    }
                } else {
                    (None, sp_report(st2c, sp_line(ts, p2), "Expect ')' after condition."@))
                }
            },
            None => (None, st2),
        }
    } else {
        (None, sp_report(st1, sp_line(ts, st1.pos), "Expect '(' after 'while'."@))
    }
}

/// The ghost parser for `if ( expression ) statement ( else statement )?`.
pub open spec fn sp_if_stmt(ts: Seq<Token>, st: PState) -> (Option<StmtS>, PState)
    decreases ts.len() - st.pos, 40int
        when 0 <= st.pos <= ts.len()
{
    let st1 = sp_adv(st, 1);
    if at_kind(ts, st1.pos, TokenType::LEFT_PAREN) {
        let (c, st2) = sp_expression(ts, sp_adv(st1, 1));
        match c {
            Some(cond) => {
                let p2 = sp_clamp(st1.pos + 1, ts.len() as int, st2.pos);
                let st2c = PState { pos: p2, diags: st2.diags };
                if at_kind(ts, p2, TokenType::RIGHT_PAREN) {
                    let (t, st3) = sp_statement(ts, sp_adv(st2c, 1));
                    match t {
                        Some(then_branch) => {
                            let p3 = sp_clamp(p2 + 1, ts.len() as int, st3.pos);
                            let st3c = PState { pos: p3, diags: st3.diags };
                            if at_kind(ts, p3, TokenType::ELSE) {
                                let st4 = sp_adv(st3c, 1);
                                if sp_at_eof(ts, st4.pos) {
                                    (
                                        None,
                                        sp_report(
                                            st4,
                                            sp_line(ts, st4.pos),
                                            "Expect statement after 'else'."@,
                                        ),
                                    )
                                } else {
                                    let (e, st5) = sp_statement(ts, st4);
                                    match e {
                                        Some(els) => (
                                            Some(
                                                StmtS::If(
                                                    cond,
                                                    Box::new(then_branch),
                                                    Some(Box::new(els)),
                                                ),
                                            ),
                                            st5,
                                        ),
                                        None => (None, st5),
                                    }
                                }
                            } else {
                                (
                                    Some(StmtS::If(cond, Box::new(then_branch), None)),
                                    st3c,
                                )
                            }
                        },
                        None => (None, st3),
                    }
                } else {
                    (
                        None,
                        sp_report(st2c, sp_line(ts, p2), "Expect ')' after if condition."@),
                    )
                }
            },
            None => (None, st2),
        }
    } else {
        (None, sp_report(st1, sp_line(ts, st1.pos), "Expect '(' after 'if'."@))
    }
}

/// The ghost parser for a `for` statement and its desugaring.
pub open spec fn sp_for_stmt(ts: Seq<Token>, st: PState) -> (Option<StmtS>, PState)
    decreases ts.len() - st.pos, 40int
        when 0 <= st.pos <= ts.len()
{
    let kw = ts[st.pos];
    let st1 = sp_adv(st, 1);
    if at_kind(ts, st1.pos, TokenType::LEFT_PAREN) {
        let st2 = sp_adv(st1, 1);
        let (init_ok, initializer, st3) = if at_kind(ts, st2.pos, TokenType::SEMICOLON) {
            (true, None, sp_adv(st2, 1))
        } else if at_kind(ts, st2.pos, TokenType::VAR) {
            let (r, s) = sp_var_decl(ts, st2);
            match r {
                Some(i) => (true, Some(i), s),
                None => (false, None, s),
            }
        } else if sp_at_eof(ts, st2.pos) {
            (
                false,
                None,
                sp_report(st2, sp_line(ts, st2.pos), "Expect expression."@),
            )
        } else {
            let (r, s) = sp_expr_stmt(ts, st2);
            match r {
                Some(i) => (true, Some(i), s),
                None => (false, None, s),
            }
        };
        if !init_ok {
            (None, st3)
        } else {
            let p3 = sp_clamp(st2.pos, ts.len() as int, st3.pos);
            let st3c = PState { pos: p3, diags: st3.diags };
            let (cond_ok, condition, st4) = if at_kind(ts, p3, TokenType::SEMICOLON) {
                (true, None, st3c)
            } else {
                let (r, s) = sp_expression(ts, st3c);
                match r {
                    Some(c) => (true, Some(c), s),
                    None => (false, None, s),
                }
            };
            if !cond_ok {
                (None, st4)
            } else {
                let p4 = sp_clamp(p3, ts.len() as int, st4.pos);
                let st4c = PState { pos: p4, diags: st4.diags };
                if at_kind(ts, p4, TokenType::SEMICOLON) {
                    let st5 = sp_adv(st4c, 1);
                    let (inc_ok, increment, st6) = if at_kind(
                        ts,
                        st5.pos,
                        TokenType::RIGHT_PAREN,
                    ) {
                        (true, None, st5)
                    } else {
                        let (r, s) = sp_expression(ts, st5);
                        match r {
                            Some(i) => (true, Some(i), s),
                            None => (false, None, s),
                        }
                    };
                    if !inc_ok {
                        (None, st6)
                    } else {
                        let p6 = sp_clamp(st5.pos, ts.len() as int, st6.pos);
                        let st6c = PState { pos: p6, diags: st6.diags };
                        if at_kind(ts, p6, TokenType::RIGHT_PAREN) {
                            let (b, st7) = sp_statement(ts, sp_adv(st6c, 1));
                            match b {
                                Some(body0) => {
                                    let body1 = match increment {
                                        Some(inc) => StmtS::Block(
                                            seq![body0, StmtS::Expr(inc)],
                                        ),
                                        None => body0,
                                    };
                                    let cond = match condition {
                                        Some(c) => c,
                                        None => ExprS::Literal(
                                            Token { token_type: TokenType::TRUE, line: kw.line },
                                        ),
                                    };
                                    let body2 = StmtS::While(cond, Box::new(body1));
                                    let body3 = match initializer {
                                        Some(init) => StmtS::Block(seq![init, body2]),
                                        None => body2,
                                    };
                                    (Some(body3), st7)
                                },
                                None => (None, st7),
                            }
                        } else {
                            (
                                None,
                                sp_report(
                                    st6c,
                                    sp_line(ts, p6),
                                    "Expect ')' after for clauses."@,
                                ),
                            )
                        }
                    }
                } else {
                    (
                        None,
                        sp_report(st4c, sp_line(ts, p4), "Expect ';' after loop condition."@),
                    )
                }
            }
        }
    } else {
        (None, sp_report(st1, sp_line(ts, st1.pos), "Expect '(' after 'for'."@))
    }
}

/// The ghost parser for one statement.
pub open spec fn sp_statement(ts: Seq<Token>, st: PState) -> (Option<StmtS>, PState)
    decreases ts.len() - st.pos, 42int
        when 0 <= st.pos <= ts.len()
{
    if at_kind(ts, st.pos, TokenType::PRINT) {
        sp_print_stmt(ts, st)
    } else if at_kind(ts, st.pos, TokenType::WHILE) {
        sp_while_stmt(ts, st)
    } else if at_kind(ts, st.pos, TokenType::FOR) {
        sp_for_stmt(ts, st)
    } else if at_kind(ts, st.pos, TokenType::IF) {
        sp_if_stmt(ts, st)
    } else if at_kind(ts, st.pos, TokenType::RETURN) {
        sp_return_stmt(ts, st)
    } else if at_kind(ts, st.pos, TokenType::LEFT_BRACE) {
        sp_block(ts, st)
    } else {
        sp_expr_stmt(ts, st)
    }
}

/// The ghost parser for one declaration, with error recovery: a grammar
/// violation has been reported and the cursor stands past a statement
/// boundary.
pub open spec fn sp_declaration(ts: Seq<Token>, st: PState) -> (Option<StmtS>, PState)
    decreases ts.len() - st.pos, 44int
        when 0 <= st.pos <= ts.len()
{
    let (r, st1) = if at_kind(ts, st.pos, TokenType::VAR) {
        sp_var_decl(ts, st)
    } else if at_kind(ts, st.pos, TokenType::FUN) {
        sp_fun_decl(ts, st)
    } else {
        sp_statement(ts, st)
    };
    match r {
        Some(s) => (Some(s), st1),
        None => {
            let p1 = sp_clamp(st.pos, ts.len() as int, st1.pos);
            (None, PState { pos: sp_sync(ts, p1), diags: st1.diags })
        },
    }
}

/// The ghost parser for a whole program: declarations until the
/// end-of-stream sentinel, the failed ones skipped.
pub open spec fn sp_program(ts: Seq<Token>, st: PState) -> (Seq<StmtS>, PState)
    decreases ts.len() - st.pos, 46int
        when 0 <= st.pos <= ts.len()
{
    if sp_at_eof(ts, st.pos) {
        (Seq::empty(), st)
    } else {
        let (r, st1) = sp_declaration(ts, st);
        let st1c = PState { pos: sp_clamp(st.pos + 1, ts.len() as int, st1.pos), diags: st1.diags };
        let (rest, st2) = sp_program(ts, st1c);
        match r {
            Some(s) => (seq![s] + rest, st2),
            None => (rest, st2),
        }
    }
}

impl Parser {
    /// The ghost cursor of this parser.
    pub open spec fn pstate(&self) -> PState {
        PState { pos: self.pos as int, diags: view_diags(self.diagnostics@) }
    }

    /// The cursor stays in bounds and every token is well-formed.
    pub open spec fn wf(&self) -> bool {
        &&& self.pos <= self.tokens@.len()
        &&& forall|k: int| 0 <= k < self.tokens@.len() ==> (#[trigger] self.tokens@[k]).wf()
    }

    pub fn new(tokens: Vec<Token>) -> (p: Parser)
        requires
            forall|k: int| 0 <= k < tokens@.len() ==> (#[trigger] tokens@[k]).wf(),
        ensures
            p.wf(),
            p.tokens == tokens,
            p.pos == 0,
            p.diagnostics@ == Seq::<Diagnostic>::empty(),
    {
        Parser { tokens, pos: 0, diagnostics: Vec::new() }
    }

    /// Reports a diagnostic without moving the cursor.
    fn report(&mut self, line: i32, message: &str)
        requires
            old(self).wf(),
        ensures
            final(self).wf(),
            final(self).tokens == old(self).tokens,
            final(self).pos == old(self).pos,
            final(self).pstate() == sp_report(old(self).pstate(), line as int, message@),
    {
        let ghost ds = self.diagnostics@;
        let d = Diagnostic::new(line, String::from_str(message));
        let ghost dg = d;
        self.diagnostics.push(d);
        proof {
            lemma_view_diags_push(ds, dg);
        }
    }

    /// The line of the current token, for diagnostics; the last token's
    /// line at the end of input.
    fn current_line(&self) -> (r: i32)
        requires
            self.wf(),
        ensures
            r as int == sp_line(self.tokens@, self.pos as int),
    {
        if self.pos < self.tokens.len() {
            self.tokens[self.pos].line
        } else if self.tokens.len() > 0 {
            self.tokens[self.tokens.len() - 1].line
        } else {
            -1
        }
    }

    /// Whether the current token exists and is of the given kind.
    fn check(&self, t: &TokenType) -> (r: bool)
        requires
            self.wf(),
        ensures
            r == (self.pos < self.tokens@.len() && self.tokens@[self.pos as int].token_type
                .spec_same_kind(*t)),
    {
        self.pos < self.tokens.len() && self.tokens[self.pos].token_type.same_kind(t)
    }

    /// Whether the cursor is at the end of input or at the end-of-stream
    /// sentinel.
    fn at_eof(&self) -> (r: bool)
        requires
            self.wf(),
        ensures
            r == (self.pos >= self.tokens@.len() || self.tokens@[self.pos as int].token_type
                .spec_same_kind(TokenType::EOF)),
    {
        self.pos >= self.tokens.len() || self.tokens[self.pos].token_type.same_kind(
            &TokenType::EOF,
        )
    }

    /// Consumes and returns the current token when its kind is one of
    /// `kinds`; never moves otherwise.
    fn token_match(&mut self, kinds: &[TokenType]) -> (r: Option<Token>)
        requires
            old(self).wf(),
        ensures
            final(self).wf(),
            final(self).tokens == old(self).tokens,
            final(self).diagnostics == old(self).diagnostics,
            match r {
                Some(t) => final(self).pos == old(self).pos + 1 && old(self).pos < old(
                    self,
                ).tokens@.len() && t == old(self).tokens@[old(self).pos as int] && sp_kind_in(
                    old(self).tokens@,
                    old(self).pos as int,
                    kinds@,
                ),
                None => final(self).pos == old(self).pos && !sp_kind_in(
                    old(self).tokens@,
                    old(self).pos as int,
                    kinds@,
                ),
            },
    {
        let n = self.tokens.len();
        if self.pos >= n {
            return None;
        }
        let mut k: usize = 0;
        while k < kinds.len()
            invariant
                self.wf(),
                n == self.tokens@.len(),
                self.pos < n,
                self.tokens == old(self).tokens,
                self.pos == old(self).pos,
                self.diagnostics == old(self).diagnostics,
                forall|j: int|
                    0 <= j < k ==> !at_kind(self.tokens@, self.pos as int, #[trigger] kinds@[j]),
            decreases kinds@.len() - k,
        {
            if self.tokens[self.pos].token_type.same_kind(&kinds[k]) {
                let t = self.tokens[self.pos].clone();
                self.pos = self.pos + 1;
                return Some(t);
            }
            k = k + 1;
        }
        None
    }

    /// Consumes the current token when it is of the given kind; decides
    /// exactly that.
    fn match_kind(&mut self, t: &TokenType) -> (r: Option<Token>)
        requires
            old(self).wf(),
        ensures
            final(self).wf(),
            final(self).tokens == old(self).tokens,
            final(self).diagnostics == old(self).diagnostics,
            match r {
                Some(tok) => final(self).pos == old(self).pos + 1 && old(self).pos < old(
                    self,
                ).tokens@.len() && tok == old(self).tokens@[old(self).pos as int],
                None => final(self).pos == old(self).pos && !(old(self).pos < old(
                    self,
                ).tokens@.len() && old(self).tokens@[old(self).pos as int].token_type
                    .spec_same_kind(*t)),
            },
    {
        if self.pos < self.tokens.len() && self.tokens[self.pos].token_type.same_kind(t) {
            let tok = self.tokens[self.pos].clone();
            self.pos = self.pos + 1;
            Some(tok)
        } else {
            None
        }
    }

    /// Consumes a token of the given kind, or reports `msg` and abandons
    /// the statement.
    fn consume(&mut self, t: TokenType, msg: &str) -> (r: Result<Token, ParseAbort>)
        requires
            old(self).wf(),
        ensures
            final(self).wf(),
            final(self).tokens == old(self).tokens,
            match r {
                Ok(tok) => final(self).pos == old(self).pos + 1 && tok.wf() && at_kind(
                    old(self).tokens@,
                    old(self).pos as int,
                    t,
                ) && tok == old(self).tokens@[old(self).pos as int] && final(self).pstate()
                    == sp_adv(old(self).pstate(), 1),
                _ => final(self).pos == old(self).pos && !at_kind(
                    old(self).tokens@,
                    old(self).pos as int,
                    t,
                ) && final(self).pstate() == sp_report(
                    old(self).pstate(),
                    sp_line(old(self).tokens@, old(self).pos as int),
                    msg@,
                ),
            },
    {
        match self.token_match(&[t]) {
            Some(tok) => Ok(tok),
            None => {
                let line = self.current_line();
                self.report(line, msg);
                Err(ParseAbort {})
            },
        }
    }

    /// Consumes an identifier token, or reports `msg` and abandons the
    /// statement.
    fn consume_identifier_token(&mut self, msg: &str) -> (r: Result<Token, ParseAbort>)
        requires
            old(self).wf(),
        ensures
            final(self).wf(),
            final(self).tokens == old(self).tokens,
            match r {
                Ok(tok) => final(self).pos == old(self).pos + 1 && tok.wf()
                    && tok.token_type is IDENTIFIER && old(self).pos < old(self).tokens@.len()
                    && tok == old(self).tokens@[old(self).pos as int] && final(self).pstate()
                    == sp_adv(old(self).pstate(), 1),
                _ => final(self).pos == old(self).pos && !(old(self).pos < old(
                    self,
                ).tokens@.len() && old(self).tokens@[old(self).pos as int].token_type
                    is IDENTIFIER) && final(self).pstate() == sp_report(
                    old(self).pstate(),
                    sp_line(old(self).tokens@, old(self).pos as int),
                    msg@,
                ),
            },
    {
        if self.pos < self.tokens.len() {
            let is_ident = match &self.tokens[self.pos].token_type {
                TokenType::IDENTIFIER(_) => true,
                _ => false,
            };
            if is_ident {
                let tok = self.tokens[self.pos].clone();
                self.pos = self.pos + 1;
                return Ok(tok);
            }
        }
        let line = self.current_line();
        self.report(line, msg);
        Err(ParseAbort {})
    }

    /// Consumes an identifier token and returns its name, or reports `msg`
    /// and abandons the statement.
    fn consume_identifier(&mut self, msg: &str) -> (r: Result<String, ParseAbort>)
        requires
            old(self).wf(),
        ensures
            final(self).wf(),
            final(self).tokens == old(self).tokens,
            match r {
                Ok(name) => final(self).pos == old(self).pos + 1 && old(self).pos < old(
                    self,
                ).tokens@.len() && (old(self).tokens@[old(self).pos as int].token_type matches
                    TokenType::IDENTIFIER(n) && name@ == n@) && final(self).pstate() == sp_adv(
                    old(self).pstate(),
                    1,
                ),
                _ => final(self).pos == old(self).pos && !(old(self).pos < old(
                    self,
                ).tokens@.len() && old(self).tokens@[old(self).pos as int].token_type
                    is IDENTIFIER) && final(self).pstate() == sp_report(
                    old(self).pstate(),
                    sp_line(old(self).tokens@, old(self).pos as int),
                    msg@,
                ),
            },
    {
        match self.consume_identifier_token(msg) {
            Ok(tok) => {
                match tok.token_type {
                    TokenType::IDENTIFIER(name) => Ok(name),
                    _ => {
                        proof {
                            assert(false);
                        }
                        Err(ParseAbort {})
                    },
                }
            },
            _ => Err(ParseAbort {}),
        }
    }

    /// Discards tokens until a statement boundary: past a semicolon, or in
    /// front of a token that starts a new statement.
    fn synchronize(&mut self)
        requires
            old(self).wf(),
        ensures
            final(self).wf(),
            final(self).tokens == old(self).tokens,
            old(self).pos <= final(self).pos,
            final(self).diagnostics == old(self).diagnostics,
            final(self).pos as int == sp_sync(old(self).tokens@, old(self).pos as int),
    {
        while self.pos < self.tokens.len()
            invariant_except_break
                sp_sync(old(self).tokens@, old(self).pos as int) == sp_sync(
                    self.tokens@,
                    self.pos as int,
                ),
            invariant
                self.wf(),
                self.tokens == old(self).tokens,
                old(self).pos <= self.pos,
                self.diagnostics == old(self).diagnostics,
            ensures
                self.pos as int == sp_sync(old(self).tokens@, old(self).pos as int),
            decreases self.tokens@.len() - self.pos,
        {
            let boundary_next = match &self.tokens[self.pos].token_type {
                TokenType::SEMICOLON => true,
                _ => false,
            };
            if boundary_next {
                self.pos = self.pos + 1;
                return ;
            }
            let starts_stmt = match &self.tokens[self.pos].token_type {
                TokenType::CLASS => true,
                TokenType::FUN => true,
                TokenType::VAR => true,
                TokenType::FOR => true,
                TokenType::IF => true,
                TokenType::WHILE => true,
                TokenType::PRINT => true,
                TokenType::RETURN => true,
                TokenType::EOF => true,
                _ => false,
            };
            if starts_stmt {
                return ;
            }
            self.pos = self.pos + 1;
        }
    }

    /// Parses the whole token stream into statements. Statements with
    /// grammar violations are reported and skipped; the rest are returned,
    /// each well-formed.
    #[verifier::rlimit(100)]
    pub fn parse(&mut self) -> (r: Vec<Stmt>)
        requires
            old(self).wf(),
        ensures
            final(self).wf(),
            final(self).tokens == old(self).tokens,
            forall|k: int| 0 <= k < r@.len() ==> (#[trigger] r@[k]).wf(),
            final(self).pos >= final(self).tokens@.len() || final(self).tokens@[
                final(self).pos as int
            ].token_type is EOF,
            ({
                let (sv, st) = sp_program(old(self).tokens@, old(self).pstate());
                &&& final(self).pstate() == st
                &&& stmts_view(r@) == sv
            }),
    {
        let mut statements: Vec<Stmt> = Vec::new();
        proof {
            assert(stmts_view(statements@) =~= Seq::<StmtS>::empty());
            assert(stmts_view(statements@) + sp_program(
                old(self).tokens@,
                old(self).pstate(),
            ).0 =~= sp_program(old(self).tokens@, old(self).pstate()).0);
        }
        while !self.at_eof()
            invariant
                self.wf(),
                self.tokens == old(self).tokens,
                forall|k: int| 0 <= k < statements@.len() ==> (#[trigger] statements@[k]).wf(),
                sp_program(old(self).tokens@, old(self).pstate()).1 == sp_program(
                    self.tokens@,
                    self.pstate(),
                ).1,
                sp_program(old(self).tokens@, old(self).pstate()).0 == stmts_view(statements@)
                    + sp_program(self.tokens@, self.pstate()).0,
            decreases self.tokens@.len() - self.pos,
        {
            let ghost stmts0 = statements@;
            let ghost pre = self.pstate();
            match self.declaration() {
                Some(s) => {
                    let ghost sv = stmt_view(s);
                    statements.push(s);
                    proof {
                        crate::ast::lemma_stmts_view_push(stmts0, statements@.last());
                        let rest = sp_program(self.tokens@, self.pstate()).0;
                        assert(stmts_view(stmts0) + (seq![sv] + rest) =~= stmts_view(
                            statements@,
                        ) + rest);
                    }
                },
                None => {},
            }
        }
        proof {
            assert(stmts_view(statements@) + Seq::<StmtS>::empty() =~= stmts_view(statements@));
        }
        statements
    }

    /// Parses one declaration or statement; on a grammar violation, the
    /// violation has been reported, the cursor has moved past a statement
    /// boundary, and nothing is returned.
    fn declaration(&mut self) -> (r: Option<Stmt>)
        requires
            old(self).wf(),
        ensures
            final(self).wf(),
            final(self).tokens == old(self).tokens,
            old(self).pos < final(self).pos || final(self).pos == final(self).tokens@.len(),
            match r {
                Some(s) => s.wf(),
                None => true,
            },
            ({
                let (rv, st) = sp_declaration(old(self).tokens@, old(self).pstate());
                &&& final(self).pstate() == st
                &&& (match (r, rv) {
                    (Some(s), Some(sv)) => stmt_view(s) == sv,
                    (None, None) => true,
                    _ => false,
                })
            }),
        decreases old(self).tokens@.len() - old(self).pos, 22int,
    {
        let is_var = self.check(&TokenType::VAR);
        let is_fun = self.check(&TokenType::FUN);
        let r = if is_var {
            self.var_declaration()
        } else if is_fun {
            self.fun_declaration()
        } else {
            self.statement()
        };
        match r {
            Ok(s) => Some(s),
            _ => {
                self.synchronize();
                None
            },
        }
    }

    /// Parses `fun IDENT ( parameters? ) block`.
    #[verifier::rlimit(100)]
    fn fun_declaration(&mut self) -> (r: Result<Stmt, ParseAbort>)
        requires
            old(self).wf(),
            old(self).pos < old(self).tokens@.len(),
            old(self).tokens@[old(self).pos as int].token_type.spec_same_kind(
                TokenType::FUN,
            ),
        ensures
            final(self).wf(),
            final(self).tokens == old(self).tokens,
            old(self).pos <= final(self).pos,
            match r {
                Ok(s) => s.wf() && old(self).pos < final(self).pos,
                _ => old(self).pos < final(self).pos || final(self).pos == final(self).tokens@.len(),
            },
            ({
                let (rv, st) = sp_fun_decl(old(self).tokens@, old(self).pstate());
                &&& final(self).pstate() == st
                &&& (match (r, rv) {
                    (Ok(s), Some(sv)) => stmt_view(s) == sv,
                    (Err(_), None) => true,
                    _ => false,
                })
            }),
        decreases old(self).tokens@.len() - old(self).pos, 21int,
    {
        let _kw = match self.match_kind(&TokenType::FUN) {
            Some(t) => t,
            None => {
                proof {
                    assert(false);
                }
                return Err(ParseAbort {});
            },
        };
        let name = match self.consume_identifier("Expect function name.") {
            Ok(n) => n,
            _ => {
                return Err(ParseAbort {});
            },
        };
        match self.consume(TokenType::LEFT_PAREN, "Expect '(' after function name.") {
            Ok(_) => {},
            _ => {
                return Err(ParseAbort {});
            },
        }
        let mut parameters: Vec<Token> = Vec::new();
        let ghost entry = self.pstate();
        proof {
            assert(entry == sp_adv(sp_adv(sp_adv(old(self).pstate(), 1), 1), 1));
        }
        if !self.check(&TokenType::RIGHT_PAREN) {
            proof {
                assert(!at_kind(old(self).tokens@, entry.pos, TokenType::RIGHT_PAREN));
            }
            loop
                invariant_except_break
                    sp_params(self.tokens@, entry, Seq::empty()) == sp_params(
                        self.tokens@,
                        self.pstate(),
                        parameters@,
                    ),
                invariant
                    self.wf(),
                    self.tokens == old(self).tokens,
                    old(self).pos < self.pos,
                    0 <= entry.pos <= self.tokens@.len(),
                    entry.pos <= self.pos,
                    entry == sp_adv(sp_adv(sp_adv(old(self).pstate(), 1), 1), 1),
                    old(self).tokens@[old(self).pos + 1].token_type is IDENTIFIER,
                    (old(self).tokens@[old(self).pos + 1].token_type matches
                        TokenType::IDENTIFIER(n) && name@ == n@),
                    at_kind(old(self).tokens@, old(self).pos + 2, TokenType::LEFT_PAREN),
                    !at_kind(old(self).tokens@, entry.pos, TokenType::RIGHT_PAREN),
                    forall|k: int|
                        0 <= k < parameters@.len() ==> (#[trigger] parameters@[k]).wf() && (
                        parameters@[k]).token_type is IDENTIFIER,
                ensures
                    0 <= entry.pos <= self.tokens@.len(),
                    self.wf(),
                    self.tokens == old(self).tokens,
                    old(self).pos < self.pos,
                    entry == sp_adv(sp_adv(sp_adv(old(self).pstate(), 1), 1), 1),
                    old(self).tokens@[old(self).pos + 1].token_type is IDENTIFIER,
                    (old(self).tokens@[old(self).pos + 1].token_type matches
                        TokenType::IDENTIFIER(n) && name@ == n@),
                    at_kind(old(self).tokens@, old(self).pos + 2, TokenType::LEFT_PAREN),
                    !at_kind(old(self).tokens@, entry.pos, TokenType::RIGHT_PAREN),
                    forall|k: int|
                        0 <= k < parameters@.len() ==> (#[trigger] parameters@[k]).wf() && (
                        parameters@[k]).token_type is IDENTIFIER,
                    sp_params(self.tokens@, entry, Seq::empty()) == ((
                        Some(parameters@),
                        self.pstate(),
                    )),
                decreases self.tokens@.len() - self.pos,
            {
                let p = match self.consume_identifier_token("Expect parameter name.") {
                    Ok(t) => t,
                    _ => {
                        proof {
                            let ts = old(self).tokens@;
                            let st0 = old(self).pstate();
                            let st3 = sp_adv(sp_adv(sp_adv(st0, 1), 1), 1);
                            assert(entry == st3);
                            assert(sp_params(ts, st3, Seq::empty()) == ((
                                None::<Seq<Token>>,
                                self.pstate(),
                            )));
                            assert(!at_kind(ts, st3.pos, TokenType::RIGHT_PAREN));
                            assert(ts[st0.pos + 1].token_type is IDENTIFIER);
                            assert(at_kind(ts, st0.pos + 2, TokenType::LEFT_PAREN));
                            assert(sp_fun_decl(ts, st0) == ((
                                None::<StmtS>,
                                self.pstate(),
                            )));
                        }
                        return Err(ParseAbort {});
                    },
                };
                parameters.push(p);
                proof {
                    lemma_kind_in_singleton(self.tokens@, self.pos as int, TokenType::COMMA);
                }
                let kinds_c = [TokenType::COMMA];
                proof {
                    assert(kinds_c@ =~= seq![TokenType::COMMA]);
                }
                match self.token_match(&kinds_c) {
                    Some(_) => {},
                    None => {
                        break ;
                    },
                }
            }
        }
        match self.consume(TokenType::RIGHT_PAREN, "Expect ')' after parameters.") {
            Ok(_) => {},
            _ => {
                return Err(ParseAbort {});
            },
        }
        if !self.check(&TokenType::LEFT_BRACE) {
            let line = self.current_line();
            self.report(line, "Expect '{' before function body.");
            return Err(ParseAbort {});
        }
        let body = match self.block() {
            Ok(b) => b,
            _ => {
                return Err(ParseAbort {});
            },
        };
        Ok(Stmt::Function(name, Rc::new(parameters), Rc::new(body)))
    }

    /// Parses `var IDENT ( = expression )? ;`.
    fn var_declaration(&mut self) -> (r: Result<Stmt, ParseAbort>)
        requires
            old(self).wf(),
            old(self).pos < old(self).tokens@.len(),
            old(self).tokens@[old(self).pos as int].token_type.spec_same_kind(
                TokenType::VAR,
            ),
        ensures
            final(self).wf(),
            final(self).tokens == old(self).tokens,
            old(self).pos <= final(self).pos,
            match r {
                Ok(s) => s.wf() && old(self).pos < final(self).pos,
                _ => old(self).pos < final(self).pos || final(self).pos == final(self).tokens@.len(),
            },
            ({
                let (rv, st) = sp_var_decl(old(self).tokens@, old(self).pstate());
                &&& final(self).pstate() == st
                &&& (match (r, rv) {
                    (Ok(s), Some(sv)) => stmt_view(s) == sv,
                    (Err(_), None) => true,
                    _ => false,
                })
            }),
        decreases old(self).tokens@.len() - old(self).pos, 21int,
    {
        let _kw = match self.match_kind(&TokenType::VAR) {
            Some(t) => t,
            None => {
                proof {
                    assert(false);
                }
                return Err(ParseAbort {});
            },
        };
        let name = match self.consume_identifier("Expect variable name.") {
            Ok(n) => n,
            _ => {
                return Err(ParseAbort {});
            },
        };
        let mut initializer: Option<Expr> = None;
        match self.token_match(&[TokenType::EQUAL]) {
            Some(_) => {
                match self.expression() {
                    Ok(e) => {
                        initializer = Some(e);
                    },
                    _ => {
                        return Err(ParseAbort {});
                    },
                }
            },
            None => {},
        }
        match self.consume(TokenType::SEMICOLON, "Expect ';' after variable declaration.") {
            Ok(_) => {},
            _ => {
                return Err(ParseAbort {});
            },
        }
        Ok(Stmt::Var(name, initializer))
    }

    /// Parses one statement.
    fn statement(&mut self) -> (r: Result<Stmt, ParseAbort>)
        requires
            old(self).wf(),
        ensures
            final(self).wf(),
            final(self).tokens == old(self).tokens,
            old(self).pos <= final(self).pos,
            match r {
                Ok(s) => s.wf() && old(self).pos < final(self).pos,
                _ => old(self).pos < final(self).pos || final(self).pos == final(self).tokens@.len(),
            },
            ({
                let (rv, st) = sp_statement(old(self).tokens@, old(self).pstate());
                &&& final(self).pstate() == st
                &&& (match (r, rv) {
                    (Ok(s), Some(sv)) => stmt_view(s) == sv,
                    (Err(_), None) => true,
                    _ => false,
                })
            }),
        decreases old(self).tokens@.len() - old(self).pos, 21int,
    {
        if self.check(&TokenType::PRINT) {
            self.print_statement()
        } else if self.check(&TokenType::WHILE) {
            self.while_statement()
        } else if self.check(&TokenType::FOR) {
            self.for_statement()
        } else if self.check(&TokenType::IF) {
            self.if_statement()
        } else if self.check(&TokenType::RETURN) {
            self.return_statement()
        } else if self.check(&TokenType::LEFT_BRACE) {
            self.block()
        } else {
            self.expression_statement()
        }
    }

    /// Builds the desugared `for` loop from its parsed pieces.
    fn build_for(
        kw: &Token,
        initializer: Option<Stmt>,
        condition: Option<Expr>,
        increment: Option<Expr>,
        body: Stmt,
    ) -> (r: Stmt)
        requires
            (initializer matches Some(s) ==> s.wf()),
            (condition matches Some(c) ==> c.wf()),
            (increment matches Some(i) ==> i.wf()),
            body.wf(),
        ensures
            r.wf(),
            stmt_view(r) == ({
                let body1 = match increment {
                    Some(i) => StmtS::Block(seq![stmt_view(body), StmtS::Expr(expr_view(i))]),
                    None => stmt_view(body),
                };
                let cond = match condition {
                    Some(c) => expr_view(c),
                    None => ExprS::Literal(Token { token_type: TokenType::TRUE, line: kw.line }),
                };
                let body2 = StmtS::While(cond, Box::new(body1));
                match initializer {
                    Some(init) => StmtS::Block(seq![stmt_view(init), body2]),
                    None => body2,
                }
            }),
    {
        let ghost bodyv = stmt_view(body);
        let mut body = body;
        match increment {
            Some(inc) => {
                let ghost incv = expr_view(inc);
                let mut stmts: Vec<Stmt> = Vec::new();
                stmts.push(body);
                stmts.push(Stmt::Expr(inc));
                proof {
                    assert(forall|k: int|
                        0 <= k < stmts@.len() ==> (#[trigger] stmts@[k]).wf());
                    let s0 = stmts@[0];
                    let s1 = stmts@[1];
                    assert(stmts@ =~= Seq::<Stmt>::empty().push(s0).push(s1));
                    crate::ast::lemma_stmts_view_push(Seq::<Stmt>::empty(), s0);
                    crate::ast::lemma_stmts_view_push(Seq::<Stmt>::empty().push(s0), s1);
                    assert(stmts_view(Seq::<Stmt>::empty()) == Seq::<StmtS>::empty());
                    assert(stmts_view(stmts@) =~= seq![bodyv, StmtS::Expr(incv)]);
                }
                body = Stmt::Block(stmts);
                proof {
                    assert(stmt_view(body) == StmtS::Block(seq![bodyv, StmtS::Expr(incv)]));
                }
            },
            None => {},
        }
        let ghost body1v = stmt_view(body);
        proof {
            assert(body1v == (match increment {
                Some(i) => StmtS::Block(seq![bodyv, StmtS::Expr(expr_view(i))]),
                None => bodyv,
            }));
        }
        let cond = match condition {
            Some(c) => c,
            None => Expr::Literal(Token { token_type: TokenType::TRUE, line: kw.line }),
        };
        let ghost condv = expr_view(cond);
        proof {
            assert(cond.wf());
            assert(condv == (match condition {
                Some(c) => expr_view(c),
                None => ExprS::Literal(Token { token_type: TokenType::TRUE, line: kw.line }),
            }));
        }
        let wrapped = Box::new(body);
        proof {
            assert(wrapped.wf());
        }
        body = Stmt::While(cond, wrapped);
        proof {
            assert(body.wf());
            assert(stmt_view(body) == StmtS::While(condv, Box::new(body1v)));
        }
        let ghost body2v = stmt_view(body);
        match initializer {
            Some(init) => {
                let ghost initv = stmt_view(init);
                let mut stmts: Vec<Stmt> = Vec::new();
                stmts.push(init);
                stmts.push(body);
                proof {
                    assert(forall|k: int|
                        0 <= k < stmts@.len() ==> (#[trigger] stmts@[k]).wf());
                    let s0 = stmts@[0];
                    let s1 = stmts@[1];
                    assert(stmts@ =~= Seq::<Stmt>::empty().push(s0).push(s1));
                    crate::ast::lemma_stmts_view_push(Seq::<Stmt>::empty(), s0);
                    crate::ast::lemma_stmts_view_push(Seq::<Stmt>::empty().push(s0), s1);
                    assert(stmts_view(Seq::<Stmt>::empty()) == Seq::<StmtS>::empty());
                    assert(stmts_view(stmts@) =~= seq![initv, body2v]);
                }
                body = Stmt::Block(stmts);
                proof {
                    assert(stmt_view(body) == StmtS::Block(seq![initv, body2v]));
                }
            },
            None => {},
        }
        body
    }

    /// Parses a `for` statement and desugars it: the initializer wraps a
    /// `while` loop whose body runs the original body and then the
    /// increment. A missing condition loops forever.
    #[verifier::rlimit(100)]
    #[verifier::spinoff_prover]
    fn for_statement(&mut self) -> (r: Result<Stmt, ParseAbort>)
        requires
            old(self).wf(),
            old(self).pos < old(self).tokens@.len(),
            old(self).tokens@[old(self).pos as int].token_type.spec_same_kind(
                TokenType::FOR,
            ),
        ensures
            final(self).wf(),
            final(self).tokens == old(self).tokens,
            old(self).pos <= final(self).pos,
            match r {
                Ok(s) => s.wf() && old(self).pos < final(self).pos,
                _ => old(self).pos < final(self).pos || final(self).pos == final(self).tokens@.len(),
            },
            ({
                let (rv, st) = sp_for_stmt(old(self).tokens@, old(self).pstate());
                &&& final(self).pstate() == st
                &&& (match (r, rv) {
                    (Ok(s), Some(sv)) => stmt_view(s) == sv,
                    (Err(_), None) => true,
                    _ => false,
                })
            }),
        decreases old(self).tokens@.len() - old(self).pos, 20int,
    {
        let kw = match self.match_kind(&TokenType::FOR) {
            Some(t) => t,
            None => {
                proof {
                    assert(false);
                }
                return Err(ParseAbort {});
            },
        };
        match self.consume(TokenType::LEFT_PAREN, "Expect '(' after 'for'.") {
            Ok(_) => {},
            _ => {
                return Err(ParseAbort {});
            },
        }
        let mut initializer: Option<Stmt> = None;
        match self.token_match(&[TokenType::SEMICOLON]) {
            Some(_) => {},
            None => {
                if self.check(&TokenType::VAR) {
                    match self.var_declaration() {
                        Ok(s) => {
                            initializer = Some(s);
                        },
                        _ => {
                            return Err(ParseAbort {});
                        },
                    }
                } else {
                    if self.at_eof() {
                        let line = self.current_line();
                        self.report(line, "Expect expression.");
                        return Err(ParseAbort {});
                    }
                    match self.expression_statement() {
                        Ok(s) => {
                            initializer = Some(s);
                        },
                        _ => {
                            return Err(ParseAbort {});
                        },
                    }
                }
            },
        }
        let mut condition: Option<Expr> = None;
        if !self.check(&TokenType::SEMICOLON) {
            match self.expression() {
                Ok(e) => {
                    condition = Some(e);
                },
                _ => {
                    return Err(ParseAbort {});
                },
            }
        }
        match self.consume(TokenType::SEMICOLON, "Expect ';' after loop condition.") {
            Ok(_) => {},
            _ => {
                return Err(ParseAbort {});
            },
        }
        let mut increment: Option<Expr> = None;
        if !self.check(&TokenType::RIGHT_PAREN) {
            match self.expression() {
                Ok(e) => {
                    increment = Some(e);
                },
                _ => {
                    return Err(ParseAbort {});
                },
            }
        }
        match self.consume(TokenType::RIGHT_PAREN, "Expect ')' after for clauses.") {
            Ok(_) => {},
            _ => {
                return Err(ParseAbort {});
            },
        }
        let body = match self.statement() {
            Ok(s) => s,
            _ => {
                return Err(ParseAbort {});
            },
        };
        Ok(Parser::build_for(&kw, initializer, condition, increment, body))
    }

    /// Parses `while ( expression ) statement`.
    fn while_statement(&mut self) -> (r: Result<Stmt, ParseAbort>)
        requires
            old(self).wf(),
            old(self).pos < old(self).tokens@.len(),
            old(self).tokens@[old(self).pos as int].token_type.spec_same_kind(
                TokenType::WHILE,
            ),
        ensures
            final(self).wf(),
            final(self).tokens == old(self).tokens,
            old(self).pos <= final(self).pos,
            match r {
                Ok(s) => s.wf() && old(self).pos < final(self).pos,
                _ => old(self).pos < final(self).pos || final(self).pos == final(self).tokens@.len(),
            },
            ({
                let (rv, st) = sp_while_stmt(old(self).tokens@, old(self).pstate());
                &&& final(self).pstate() == st
                &&& (match (r, rv) {
                    (Ok(s), Some(sv)) => stmt_view(s) == sv,
                    (Err(_), None) => true,
                    _ => false,
                })
            }),
        decreases old(self).tokens@.len() - old(self).pos, 20int,
    {
        let _kw = match self.match_kind(&TokenType::WHILE) {
            Some(t) => t,
            None => {
                proof {
                    assert(false);
                }
                return Err(ParseAbort {});
            },
        };
        match self.consume(TokenType::LEFT_PAREN, "Expect '(' after 'while'.") {
            Ok(_) => {},
            _ => {
                return Err(ParseAbort {});
            },
        }
        let condition = match self.expression() {
            Ok(e) => e,
            _ => {
                return Err(ParseAbort {});
            },
        };
        match self.consume(TokenType::RIGHT_PAREN, "Expect ')' after condition.") {
            Ok(_) => {},
            _ => {
                return Err(ParseAbort {});
            },
        }
        let body = match self.statement() {
            Ok(s) => s,
            _ => {
                return Err(ParseAbort {});
            },
        };
        Ok(Stmt::While(condition, Box::new(body)))
    }

    /// Parses `if ( expression ) statement ( else statement )?`.
    fn if_statement(&mut self) -> (r: Result<Stmt, ParseAbort>)
        requires
            old(self).wf(),
            old(self).pos < old(self).tokens@.len(),
            old(self).tokens@[old(self).pos as int].token_type.spec_same_kind(
                TokenType::IF,
            ),
        ensures
            final(self).wf(),
            final(self).tokens == old(self).tokens,
            old(self).pos <= final(self).pos,
            match r {
                Ok(s) => s.wf() && old(self).pos < final(self).pos,
                _ => old(self).pos < final(self).pos || final(self).pos == final(self).tokens@.len(),
            },
            ({
                let (rv, st) = sp_if_stmt(old(self).tokens@, old(self).pstate());
                &&& final(self).pstate() == st
                &&& (match (r, rv) {
                    (Ok(s), Some(sv)) => stmt_view(s) == sv,
                    (Err(_), None) => true,
                    _ => false,
                })
            }),
        decreases old(self).tokens@.len() - old(self).pos, 20int,
    {
        let _kw = match self.match_kind(&TokenType::IF) {
            Some(t) => t,
            None => {
                proof {
                    assert(false);
                }
                return Err(ParseAbort {});
            },
        };
        match self.consume(TokenType::LEFT_PAREN, "Expect '(' after 'if'.") {
            Ok(_) => {},
            _ => {
                return Err(ParseAbort {});
            },
        }
        let condition = match self.expression() {
            Ok(e) => e,
            _ => {
                return Err(ParseAbort {});
            },
        };
        match self.consume(TokenType::RIGHT_PAREN, "Expect ')' after if condition.") {
            Ok(_) => {},
            _ => {
                return Err(ParseAbort {});
            },
        }
        let then_branch = match self.statement() {
            Ok(s) => s,
            _ => {
                return Err(ParseAbort {});
            },
        };
        let mut else_branch: Option<Box<Stmt>> = None;
        match self.token_match(&[TokenType::ELSE]) {
            Some(_) => {
                if self.at_eof() {
                    let line = self.current_line();
                    self.report(line, "Expect statement after 'else'.");
                    return Err(ParseAbort {});
                }
                match self.statement() {
                    Ok(s) => {
                        else_branch = Some(Box::new(s));
                    },
                    _ => {
                        return Err(ParseAbort {});
                    },
                }
            },
            None => {},
        }
        Ok(Stmt::If(condition, Box::new(then_branch), else_branch))
    }

    /// Parses `{ declaration* }` into a block statement.
    fn block(&mut self) -> (r: Result<Stmt, ParseAbort>)
        requires
            old(self).wf(),
            old(self).pos < old(self).tokens@.len(),
            old(self).tokens@[old(self).pos as int].token_type.spec_same_kind(
                TokenType::LEFT_BRACE,
            ),
        ensures
            final(self).wf(),
            final(self).tokens == old(self).tokens,
            old(self).pos <= final(self).pos,
            match r {
                Ok(s) => s.wf() && old(self).pos < final(self).pos,
                _ => old(self).pos < final(self).pos || final(self).pos == final(self).tokens@.len(),
            },
            ({
                let (rv, st) = sp_block(old(self).tokens@, old(self).pstate());
                &&& final(self).pstate() == st
                &&& (match (r, rv) {
                    (Ok(s), Some(sv)) => stmt_view(s) == sv,
                    (Err(_), None) => true,
                    _ => false,
                })
            }),
        decreases old(self).tokens@.len() - old(self).pos, 20int,
    {
        let _brace = match self.match_kind(&TokenType::LEFT_BRACE) {
            Some(t) => t,
            None => {
                proof {
                    assert(false);
                }
                return Err(ParseAbort {});
            },
        };
        let mut statements: Vec<Stmt> = Vec::new();
        proof {
            assert(stmts_view(statements@) =~= Seq::<StmtS>::empty());
        }
        while !self.check(&TokenType::RIGHT_BRACE) && !self.at_eof()
            invariant
                self.wf(),
                self.tokens == old(self).tokens,
                old(self).pos < self.pos,
                forall|k: int| 0 <= k < statements@.len() ==> (#[trigger] statements@[k]).wf(),
                sp_block(old(self).tokens@, old(self).pstate()) == sp_block_rest(
                    self.tokens@,
                    self.pstate(),
                    stmts_view(statements@),
                ),
            decreases self.tokens@.len() - self.pos,
        {
            let ghost stmts0 = statements@;
            match self.declaration() {
                Some(s) => {
                    statements.push(s);
                    proof {
                        crate::ast::lemma_stmts_view_push(stmts0, statements@.last());
                    }
                },
                None => {},
            }
        }
        match self.consume(TokenType::RIGHT_BRACE, "Expect '}' after block.") {
            Ok(_) => {},
            _ => {
                return Err(ParseAbort {});
            },
        }
        Ok(Stmt::Block(statements))
    }

    /// Parses `expression ;`.
    fn expression_statement(&mut self) -> (r: Result<Stmt, ParseAbort>)
        requires
            old(self).wf(),
        ensures
            final(self).wf(),
            final(self).tokens == old(self).tokens,
            old(self).pos <= final(self).pos,
            match r {
                Ok(s) => s.wf() && old(self).pos < final(self).pos,
                _ => old(self).pos < final(self).pos || final(self).pos == final(self).tokens@.len(),
            },
            ({
                let (rv, st) = sp_expr_stmt(old(self).tokens@, old(self).pstate());
                &&& final(self).pstate() == st
                &&& (match (r, rv) {
                    (Ok(s), Some(sv)) => stmt_view(s) == sv,
                    (Err(_), None) => true,
                    _ => false,
                })
            }),
        decreases old(self).tokens@.len() - old(self).pos, 20int,
    {
        let expr = match self.expression() {
            Ok(e) => e,
            _ => {
                return Err(ParseAbort {});
            },
        };
        match self.consume(TokenType::SEMICOLON, "Expect ';' after expression.") {
            Ok(_) => {},
            _ => {
                return Err(ParseAbort {});
            },
        }
        Ok(Stmt::Expr(expr))
    }

    /// Parses `print expression ;`.
    fn print_statement(&mut self) -> (r: Result<Stmt, ParseAbort>)
        requires
            old(self).wf(),
            old(self).pos < old(self).tokens@.len(),
            old(self).tokens@[old(self).pos as int].token_type.spec_same_kind(
                TokenType::PRINT,
            ),
        ensures
            final(self).wf(),
            final(self).tokens == old(self).tokens,
            old(self).pos <= final(self).pos,
            match r {
                Ok(s) => s.wf() && old(self).pos < final(self).pos,
                _ => old(self).pos < final(self).pos || final(self).pos == final(self).tokens@.len(),
            },
            ({
                let (rv, st) = sp_print_stmt(old(self).tokens@, old(self).pstate());
                &&& final(self).pstate() == st
                &&& (match (r, rv) {
                    (Ok(s), Some(sv)) => stmt_view(s) == sv,
                    (Err(_), None) => true,
                    _ => false,
                })
            }),
        decreases old(self).tokens@.len() - old(self).pos, 20int,
    {
        let _kw = match self.match_kind(&TokenType::PRINT) {
            Some(t) => t,
            None => {
                proof {
                    assert(false);
                }
                return Err(ParseAbort {});
            },
        };
        if self.at_eof() {
            let line = self.current_line();
            self.report(line, "Expect expression.");
            return Err(ParseAbort {});
        }
        let value = match self.expression() {
            Ok(e) => e,
            _ => {
                return Err(ParseAbort {});
            },
        };
        match self.consume(TokenType::SEMICOLON, "Expect ';' after value.") {
            Ok(_) => {},
            _ => {
                return Err(ParseAbort {});
            },
        }
        Ok(Stmt::Print(value))
    }

    /// Parses `return expression? ;`.
    fn return_statement(&mut self) -> (r: Result<Stmt, ParseAbort>)
        requires
            old(self).wf(),
            old(self).pos < old(self).tokens@.len(),
            old(self).tokens@[old(self).pos as int].token_type.spec_same_kind(
                TokenType::RETURN,
            ),
        ensures
            final(self).wf(),
            final(self).tokens == old(self).tokens,
            old(self).pos <= final(self).pos,
            match r {
                Ok(s) => s.wf() && old(self).pos < final(self).pos,
                _ => old(self).pos < final(self).pos || final(self).pos == final(self).tokens@.len(),
            },
            ({
                let (rv, st) = sp_return_stmt(old(self).tokens@, old(self).pstate());
                &&& final(self).pstate() == st
                &&& (match (r, rv) {
                    (Ok(s), Some(sv)) => stmt_view(s) == sv,
                    (Err(_), None) => true,
                    _ => false,
                })
            }),
        decreases old(self).tokens@.len() - old(self).pos, 20int,
    {
        let kw = match self.match_kind(&TokenType::RETURN) {
            Some(t) => t,
            None => {
                proof {
                    assert(false);
                }
                return Err(ParseAbort {});
            },
        };
        let mut value: Option<Expr> = None;
        if !self.check(&TokenType::SEMICOLON) {
            match self.expression() {
                Ok(e) => {
                    value = Some(e);
                },
                _ => {
                    return Err(ParseAbort {});
                },
            }
        }
        match self.consume(TokenType::SEMICOLON, "Expect ';' after return value.") {
            Ok(_) => {},
            _ => {
                return Err(ParseAbort {});
            },
        }
        Ok(Stmt::Return(kw, value))
    }

    /// Parses an expression.
    fn expression(&mut self) -> (r: Result<Expr, ParseAbort>)
        requires
            old(self).wf(),
        ensures
            final(self).wf(),
            final(self).tokens == old(self).tokens,
            old(self).pos <= final(self).pos,
            match r {
                Ok(e) => e.wf() && old(self).pos < final(self).pos,
                _ => old(self).pos < final(self).pos || final(self).pos == final(self).tokens@.len(),
            },
            ({
                let (rv, st) = sp_expression(old(self).tokens@, old(self).pstate());
                &&& final(self).pstate() == st
                &&& (match (r, rv) {
                    (Ok(e), Some(es)) => expr_view(e) == es,
                    (Err(_), None) => true,
                    _ => false,
                })
            }),
        decreases old(self).tokens@.len() - old(self).pos, 14int,
    {
        self.assignment()
    }

    /// Parses an assignment, validating the target after the fact: the
    /// left-hand side of `=` must be a variable reference. Any other shape
    /// is reported and the left-hand expression is kept.
    fn assignment(&mut self) -> (r: Result<Expr, ParseAbort>)
        requires
            old(self).wf(),
        ensures
            final(self).wf(),
            final(self).tokens == old(self).tokens,
            old(self).pos <= final(self).pos,
            match r {
                Ok(e) => e.wf() && old(self).pos < final(self).pos,
                _ => old(self).pos < final(self).pos || final(self).pos == final(self).tokens@.len(),
            },
            ({
                let (rv, st) = sp_assignment(old(self).tokens@, old(self).pstate());
                &&& final(self).pstate() == st
                &&& (match (r, rv) {
                    (Ok(e), Some(es)) => expr_view(e) == es,
                    (Err(_), None) => true,
                    _ => false,
                })
            }),
        decreases old(self).tokens@.len() - old(self).pos, 13int,
    {
        let expr = match self.or_expr() {
            Ok(e) => e,
            _ => {
                return Err(ParseAbort {});
            },
        };
        proof {
            lemma_kind_in_singleton(self.tokens@, self.pos as int, TokenType::EQUAL);
        }
        let kinds = [TokenType::EQUAL];
        proof {
            assert(kinds@ =~= seq![TokenType::EQUAL]);
        }
        match self.token_match(&kinds) {
            Some(equals) => {
                let value = match self.assignment() {
                    Ok(v) => v,
                    _ => {
                        return Err(ParseAbort {});
                    },
                };
                match expr {
                    Expr::Variable(name) => Ok(Expr::Assign(name, Box::new(value))),
                    other => {
                        self.report(equals.line, "Invalid assignment target.");
                        Ok(other)
                    },
                }
            },
            None => Ok(expr),
        }
    }

    /// Parses `logic_and ( or logic_and )*`.
    fn or_expr(&mut self) -> (r: Result<Expr, ParseAbort>)
        requires
            old(self).wf(),
        ensures
            final(self).wf(),
            final(self).tokens == old(self).tokens,
            old(self).pos <= final(self).pos,
            match r {
                Ok(e) => e.wf() && old(self).pos < final(self).pos,
                _ => old(self).pos < final(self).pos || final(self).pos == final(self).tokens@.len(),
            },
            ({
                let (rv, st) = sp_binary_level(old(self).tokens@, old(self).pstate(), 5);
                &&& final(self).pstate() == st
                &&& (match (r, rv) {
                    (Ok(e), Some(es)) => expr_view(e) == es,
                    (Err(_), None) => true,
                    _ => false,
                })
            }),
        decreases old(self).tokens@.len() - old(self).pos, 12int,
    {
        let mut expr = match self.and_expr() {
            Ok(e) => e,
            _ => {
                return Err(ParseAbort {});
            },
        };
        let kinds = [TokenType::OR];
        proof {
            assert(kinds@ =~= sp_level_kinds(5));
        }
        loop
            invariant
                self.wf(),
                self.tokens == old(self).tokens,
                old(self).pos < self.pos,
                expr.wf(),
                kinds@ =~= sp_level_kinds(5),
                sp_binary_level(old(self).tokens@, old(self).pstate(), 5) == sp_binary_rest(
                    self.tokens@,
                    self.pstate(),
                    expr_view(expr),
                    sp_level_kinds(5),
                    6,
                ),
            ensures
                self.wf(),
                self.tokens == old(self).tokens,
                old(self).pos < self.pos,
                expr.wf(),
                sp_binary_level(old(self).tokens@, old(self).pstate(), 5) == ((
                    Some(expr_view(expr)),
                    self.pstate(),
                )),
            decreases self.tokens@.len() - self.pos,
        {
            match self.token_match(&kinds) {
                Some(operator) => {
                    let right = match self.and_expr() {
                        Ok(e) => e,
                        _ => {
                            return Err(ParseAbort {});
                        },
                    };
                    expr = Expr::Logical(Box::new(expr), operator, Box::new(right));
                },
                None => {
                    break ;
                },
            }
        }
        Ok(expr)
    }

    /// Parses `equality ( and equality )*`.
    fn and_expr(&mut self) -> (r: Result<Expr, ParseAbort>)
        requires
            old(self).wf(),
        ensures
            final(self).wf(),
            final(self).tokens == old(self).tokens,
            old(self).pos <= final(self).pos,
            match r {
                Ok(e) => e.wf() && old(self).pos < final(self).pos,
                _ => old(self).pos < final(self).pos || final(self).pos == final(self).tokens@.len(),
            },
            ({
                let (rv, st) = sp_binary_level(old(self).tokens@, old(self).pstate(), 4);
                &&& final(self).pstate() == st
                &&& (match (r, rv) {
                    (Ok(e), Some(es)) => expr_view(e) == es,
                    (Err(_), None) => true,
                    _ => false,
                })
            }),
        decreases old(self).tokens@.len() - old(self).pos, 11int,
    {
        let mut expr = match self.equality() {
            Ok(e) => e,
            _ => {
                return Err(ParseAbort {});
            },
        };
        let kinds = [TokenType::AND];
        proof {
            assert(kinds@ =~= sp_level_kinds(4));
        }
        loop
            invariant
                self.wf(),
                self.tokens == old(self).tokens,
                old(self).pos < self.pos,
                expr.wf(),
                kinds@ =~= sp_level_kinds(4),
                sp_binary_level(old(self).tokens@, old(self).pstate(), 4) == sp_binary_rest(
                    self.tokens@,
                    self.pstate(),
                    expr_view(expr),
                    sp_level_kinds(4),
                    5,
                ),
            ensures
                self.wf(),
                self.tokens == old(self).tokens,
                old(self).pos < self.pos,
                expr.wf(),
                sp_binary_level(old(self).tokens@, old(self).pstate(), 4) == ((
                    Some(expr_view(expr)),
                    self.pstate(),
                )),
            decreases self.tokens@.len() - self.pos,
        {
            match self.token_match(&kinds) {
                Some(operator) => {
                    let right = match self.equality() {
                        Ok(e) => e,
                        _ => {
                            return Err(ParseAbort {});
                        },
                    };
                    expr = Expr::Logical(Box::new(expr), operator, Box::new(right));
                },
                None => {
                    break ;
                },
            }
        }
        Ok(expr)
    }

    /// Parses `comparison ( (!=|==) comparison )*`.
    fn equality(&mut self) -> (r: Result<Expr, ParseAbort>)
        requires
            old(self).wf(),
        ensures
            final(self).wf(),
            final(self).tokens == old(self).tokens,
            old(self).pos <= final(self).pos,
            match r {
                Ok(e) => e.wf() && old(self).pos < final(self).pos,
                _ => old(self).pos < final(self).pos || final(self).pos == final(self).tokens@.len(),
            },
            ({
                let (rv, st) = sp_binary_level(old(self).tokens@, old(self).pstate(), 3);
                &&& final(self).pstate() == st
                &&& (match (r, rv) {
                    (Ok(e), Some(es)) => expr_view(e) == es,
                    (Err(_), None) => true,
                    _ => false,
                })
            }),
        decreases old(self).tokens@.len() - old(self).pos, 10int,
    {
        let mut expr = match self.comparison() {
            Ok(e) => e,
            _ => {
                return Err(ParseAbort {});
            },
        };
        let kinds = [TokenType::BANG_EQUAL,
            TokenType::EQUAL_EQUAL];
        proof {
            assert(kinds@ =~= sp_level_kinds(3));
        }
        loop
            invariant
                self.wf(),
                self.tokens == old(self).tokens,
                old(self).pos < self.pos,
                expr.wf(),
                kinds@ =~= sp_level_kinds(3),
                sp_binary_level(old(self).tokens@, old(self).pstate(), 3) == sp_binary_rest(
                    self.tokens@,
                    self.pstate(),
                    expr_view(expr),
                    sp_level_kinds(3),
                    4,
                ),
            ensures
                self.wf(),
                self.tokens == old(self).tokens,
                old(self).pos < self.pos,
                expr.wf(),
                sp_binary_level(old(self).tokens@, old(self).pstate(), 3) == ((
                    Some(expr_view(expr)),
                    self.pstate(),
                )),
            decreases self.tokens@.len() - self.pos,
        {
            match self.token_match(&kinds) {
                Some(operator) => {
                    let right = match self.comparison() {
                        Ok(e) => e,
                        _ => {
                            return Err(ParseAbort {});
                        },
                    };
                    expr = Expr::Binary(Box::new(expr), operator, Box::new(right));
                },
                None => {
                    break ;
                },
            }
        }
        Ok(expr)
    }

    /// Parses `term ( (>|>=|<|<=) term )*`.
    fn comparison(&mut self) -> (r: Result<Expr, ParseAbort>)
        requires
            old(self).wf(),
        ensures
            final(self).wf(),
            final(self).tokens == old(self).tokens,
            old(self).pos <= final(self).pos,
            match r {
                Ok(e) => e.wf() && old(self).pos < final(self).pos,
                _ => old(self).pos < final(self).pos || final(self).pos == final(self).tokens@.len(),
            },
            ({
                let (rv, st) = sp_binary_level(old(self).tokens@, old(self).pstate(), 2);
                &&& final(self).pstate() == st
                &&& (match (r, rv) {
                    (Ok(e), Some(es)) => expr_view(e) == es,
                    (Err(_), None) => true,
                    _ => false,
                })
            }),
        decreases old(self).tokens@.len() - old(self).pos, 9int,
    {
        let mut expr = match self.term() {
            Ok(e) => e,
            _ => {
                return Err(ParseAbort {});
            },
        };
        let kinds = [TokenType::GREATER,
            TokenType::GREATER_EQUAL,
            TokenType::LESS,
            TokenType::LESS_EQUAL];
        proof {
            assert(kinds@ =~= sp_level_kinds(2));
        }
        loop
            invariant
                self.wf(),
                self.tokens == old(self).tokens,
                old(self).pos < self.pos,
                expr.wf(),
                kinds@ =~= sp_level_kinds(2),
                sp_binary_level(old(self).tokens@, old(self).pstate(), 2) == sp_binary_rest(
                    self.tokens@,
                    self.pstate(),
                    expr_view(expr),
                    sp_level_kinds(2),
                    3,
                ),
            ensures
                self.wf(),
                self.tokens == old(self).tokens,
                old(self).pos < self.pos,
                expr.wf(),
                sp_binary_level(old(self).tokens@, old(self).pstate(), 2) == ((
                    Some(expr_view(expr)),
                    self.pstate(),
                )),
            decreases self.tokens@.len() - self.pos,
        {
            match self.token_match(&kinds) {
                Some(operator) => {
                    let right = match self.term() {
                        Ok(e) => e,
                        _ => {
                            return Err(ParseAbort {});
                        },
                    };
                    expr = Expr::Binary(Box::new(expr), operator, Box::new(right));
                },
                None => {
                    break ;
                },
            }
        }
        Ok(expr)
    }

    /// Parses `factor ( (-|+) factor )*`.
    fn term(&mut self) -> (r: Result<Expr, ParseAbort>)
        requires
            old(self).wf(),
        ensures
            final(self).wf(),
            final(self).tokens == old(self).tokens,
            old(self).pos <= final(self).pos,
            match r {
                Ok(e) => e.wf() && old(self).pos < final(self).pos,
                _ => old(self).pos < final(self).pos || final(self).pos == final(self).tokens@.len(),
            },
            ({
                let (rv, st) = sp_binary_level(old(self).tokens@, old(self).pstate(), 1);
                &&& final(self).pstate() == st
                &&& (match (r, rv) {
                    (Ok(e), Some(es)) => expr_view(e) == es,
                    (Err(_), None) => true,
                    _ => false,
                })
            }),
        decreases old(self).tokens@.len() - old(self).pos, 8int,
    {
        let mut expr = match self.factor() {
            Ok(e) => e,
            _ => {
                return Err(ParseAbort {});
            },
        };
        let kinds = [TokenType::PLUS,
            TokenType::MINUS];
        proof {
            assert(kinds@ =~= sp_level_kinds(1));
        }
        loop
            invariant
                self.wf(),
                self.tokens == old(self).tokens,
                old(self).pos < self.pos,
                expr.wf(),
                kinds@ =~= sp_level_kinds(1),
                sp_binary_level(old(self).tokens@, old(self).pstate(), 1) == sp_binary_rest(
                    self.tokens@,
                    self.pstate(),
                    expr_view(expr),
                    sp_level_kinds(1),
                    2,
                ),
            ensures
                self.wf(),
                self.tokens == old(self).tokens,
                old(self).pos < self.pos,
                expr.wf(),
                sp_binary_level(old(self).tokens@, old(self).pstate(), 1) == ((
                    Some(expr_view(expr)),
                    self.pstate(),
                )),
            decreases self.tokens@.len() - self.pos,
        {
            match self.token_match(&kinds) {
                Some(operator) => {
                    let right = match self.factor() {
                        Ok(e) => e,
                        _ => {
                            return Err(ParseAbort {});
                        },
                    };
                    expr = Expr::Binary(Box::new(expr), operator, Box::new(right));
                },
                None => {
                    break ;
                },
            }
        }
        Ok(expr)
    }

    /// Parses `unary ( (/|*) unary )*`.
    fn factor(&mut self) -> (r: Result<Expr, ParseAbort>)
        requires
            old(self).wf(),
        ensures
            final(self).wf(),
            final(self).tokens == old(self).tokens,
            old(self).pos <= final(self).pos,
            match r {
                Ok(e) => e.wf() && old(self).pos < final(self).pos,
                _ => old(self).pos < final(self).pos || final(self).pos == final(self).tokens@.len(),
            },
            ({
                let (rv, st) = sp_binary_level(old(self).tokens@, old(self).pstate(), 0);
                &&& final(self).pstate() == st
                &&& (match (r, rv) {
                    (Ok(e), Some(es)) => expr_view(e) == es,
                    (Err(_), None) => true,
                    _ => false,
                })
            }),
        decreases old(self).tokens@.len() - old(self).pos, 7int,
    {
        let mut expr = match self.unary() {
            Ok(e) => e,
            _ => {
                return Err(ParseAbort {});
            },
        };
        let kinds = [TokenType::STAR, TokenType::SLASH];
        proof {
            assert(kinds@ =~= sp_level_kinds(0));
        }
        loop
            invariant
                self.wf(),
                self.tokens == old(self).tokens,
                old(self).pos < self.pos,
                expr.wf(),
                kinds@ =~= sp_level_kinds(0),
                sp_binary_level(old(self).tokens@, old(self).pstate(), 0) == sp_binary_rest(
                    self.tokens@,
                    self.pstate(),
                    expr_view(expr),
                    sp_level_kinds(0),
                    1,
                ),
            ensures
                self.wf(),
                self.tokens == old(self).tokens,
                old(self).pos < self.pos,
                expr.wf(),
                sp_binary_level(old(self).tokens@, old(self).pstate(), 0) == ((
                    Some(expr_view(expr)),
                    self.pstate(),
                )),
            decreases self.tokens@.len() - self.pos,
        {
            match self.token_match(&kinds) {
                Some(operator) => {
                    let right = match self.unary() {
                        Ok(e) => e,
                        _ => {
                            return Err(ParseAbort {});
                        },
                    };
                    expr = Expr::Binary(Box::new(expr), operator, Box::new(right));
                },
                None => {
                    break ;
                },
            }
        }
        Ok(expr)
    }

    /// Parses `(!|-) unary | call`.
    fn unary(&mut self) -> (r: Result<Expr, ParseAbort>)
        requires
            old(self).wf(),
        ensures
            final(self).wf(),
            final(self).tokens == old(self).tokens,
            old(self).pos <= final(self).pos,
            match r {
                Ok(e) => e.wf() && old(self).pos < final(self).pos,
                _ => old(self).pos < final(self).pos || final(self).pos == final(self).tokens@.len(),
            },
            ({
                let (rv, st) = sp_unary(old(self).tokens@, old(self).pstate());
                &&& final(self).pstate() == st
                &&& (match (r, rv) {
                    (Ok(e), Some(es)) => expr_view(e) == es,
                    (Err(_), None) => true,
                    _ => false,
                })
            }),
        decreases old(self).tokens@.len() - old(self).pos, 6int,
    {
        let kinds = [TokenType::BANG, TokenType::MINUS];
        proof {
            assert(kinds@ =~= seq![TokenType::BANG, TokenType::MINUS]);
        }
        match self.token_match(&kinds) {
            Some(operator) => {
                let right = match self.unary() {
                    Ok(e) => e,
                    _ => {
                        return Err(ParseAbort {});
                    },
                };
                Ok(Expr::Unary(operator, Box::new(right)))
            },
            None => self.call(),
        }
    }

    /// Parses `primary ( ( arguments? ) )*`.
    fn call(&mut self) -> (r: Result<Expr, ParseAbort>)
        requires
            old(self).wf(),
        ensures
            final(self).wf(),
            final(self).tokens == old(self).tokens,
            old(self).pos <= final(self).pos,
            match r {
                Ok(e) => e.wf() && old(self).pos < final(self).pos,
                _ => old(self).pos < final(self).pos || final(self).pos == final(self).tokens@.len(),
            },
            ({
                let (rv, st) = sp_call(old(self).tokens@, old(self).pstate());
                &&& final(self).pstate() == st
                &&& (match (r, rv) {
                    (Ok(e), Some(es)) => expr_view(e) == es,
                    (Err(_), None) => true,
                    _ => false,
                })
            }),
        decreases old(self).tokens@.len() - old(self).pos, 5int,
    {
        let mut expr = match self.primary() {
            Ok(e) => e,
            _ => {
                return Err(ParseAbort {});
            },
        };
        loop
            invariant
                self.wf(),
                self.tokens == old(self).tokens,
                old(self).pos < self.pos,
                expr.wf(),
                sp_call(old(self).tokens@, old(self).pstate()) == sp_call_rest(
                    self.tokens@,
                    self.pstate(),
                    expr_view(expr),
                ),
            ensures
                self.wf(),
                self.tokens == old(self).tokens,
                old(self).pos < self.pos,
                expr.wf(),
                sp_call(old(self).tokens@, old(self).pstate()) == ((
                    Some(expr_view(expr)),
                    self.pstate(),
                )),
            decreases self.tokens@.len() - self.pos,
        {
            proof {
                lemma_kind_in_singleton(self.tokens@, self.pos as int, TokenType::LEFT_PAREN);
            }
            let kinds = [TokenType::LEFT_PAREN];
            proof {
                assert(kinds@ =~= seq![TokenType::LEFT_PAREN]);
            }
            match self.token_match(&kinds) {
                Some(_) => {
                    expr = match self.finish_call(expr) {
                        Ok(e) => e,
                        _ => {
                            return Err(ParseAbort {});
                        },
                    };
                },
                None => {
                    break ;
                },
            }
        }
        Ok(expr)
    }

    /// Parses the arguments of a call, the opening parenthesis already
    /// consumed.
    fn finish_call(&mut self, callee: Expr) -> (r: Result<Expr, ParseAbort>)
        requires
            old(self).wf(),
            callee.wf(),
        ensures
            final(self).wf(),
            final(self).tokens == old(self).tokens,
            old(self).pos <= final(self).pos,
            match r {
                Ok(e) => e.wf(),
                _ => old(self).pos < final(self).pos || final(self).pos == final(self).tokens@.len(),
            },
            ({
                let (rv, st) = sp_finish_call(
                    old(self).tokens@,
                    old(self).pstate(),
                    expr_view(callee),
                );
                &&& final(self).pstate() == st
                &&& (match (r, rv) {
                    (Ok(e), Some(es)) => expr_view(e) == es,
                    (Err(_), None) => true,
                    _ => false,
                })
            }),
        decreases old(self).tokens@.len() - old(self).pos, 15int,
    {
        let ghost calleev = expr_view(callee);
        proof {
            lemma_kind_in_singleton(self.tokens@, self.pos as int, TokenType::RIGHT_PAREN);
        }
        let kinds_rp = [TokenType::RIGHT_PAREN];
        proof {
            assert(kinds_rp@ =~= seq![TokenType::RIGHT_PAREN]);
        }
        let mut arguments: Vec<Expr> = Vec::new();
        match self.token_match(&kinds_rp) {
            Some(_) => {
                proof {
                    assert(exprs_view(arguments@) =~= Seq::<ExprS>::empty());
                }
                return Ok(Expr::Call(Box::new(callee), arguments));
            },
            None => {},
        }
        proof {
            assert(exprs_view(arguments@) =~= Seq::<ExprS>::empty());
        }
        loop
            invariant_except_break
                ({
                    let (ra, sa) = sp_args(self.tokens@, self.pstate(), exprs_view(arguments@));
                    sp_finish_call(old(self).tokens@, old(self).pstate(), calleev) == ((
                        match ra {
                            Some(a) => Some(ExprS::Call(Box::new(calleev), a)),
                            None => None,
                        },
                        sa,
                    ))
                }),
            invariant
                self.wf(),
                self.tokens == old(self).tokens,
                old(self).pos <= self.pos,
                callee.wf(),
                calleev == expr_view(callee),
                forall|k: int| 0 <= k < arguments@.len() ==> (#[trigger] arguments@[k]).wf(),
            ensures
                self.wf(),
                self.tokens == old(self).tokens,
                old(self).pos <= self.pos,
                forall|k: int| 0 <= k < arguments@.len() ==> (#[trigger] arguments@[k]).wf(),
                sp_finish_call(old(self).tokens@, old(self).pstate(), calleev) == ((
                    Some(ExprS::Call(Box::new(calleev), exprs_view(arguments@))),
                    self.pstate(),
                )),
            decreases self.tokens@.len() - self.pos,
        {
            let ghost args0 = arguments@;
            let arg = match self.expression() {
                Ok(e) => e,
                _ => {
                    return Err(ParseAbort {});
                },
            };
            let ghost argv = expr_view(arg);
            arguments.push(arg);
            proof {
                crate::ast::lemma_exprs_view_push(args0, arguments@.last());
                lemma_kind_in_singleton(self.tokens@, self.pos as int, TokenType::COMMA);
            }
            let kinds_c = [TokenType::COMMA];
            proof {
                assert(kinds_c@ =~= seq![TokenType::COMMA]);
            }
            match self.token_match(&kinds_c) {
                Some(_) => {},
                None => {
                    match self.consume(TokenType::RIGHT_PAREN, "Expect ')' after arguments.") {
                        Ok(_) => {},
                        _ => {
                            return Err(ParseAbort {});
                        },
                    }
                    break ;
                },
            }
        }
        Ok(Expr::Call(Box::new(callee), arguments))
    }

    /// Parses a primary expression: a literal, a grouping, or a variable
    /// reference. Anything else is reported.
    fn primary(&mut self) -> (r: Result<Expr, ParseAbort>)
        requires
            old(self).wf(),
        ensures
            final(self).wf(),
            final(self).tokens == old(self).tokens,
            old(self).pos <= final(self).pos,
            match r {
                Ok(e) => e.wf() && old(self).pos < final(self).pos,
                _ => old(self).pos < final(self).pos || final(self).pos == final(self).tokens@.len(),
            },
            ({
                let (rv, st) = sp_primary(old(self).tokens@, old(self).pstate());
                &&& final(self).pstate() == st
                &&& (match (r, rv) {
                    (Ok(e), Some(es)) => expr_view(e) == es,
                    (Err(_), None) => true,
                    _ => false,
                })
            }),
        decreases old(self).tokens@.len() - old(self).pos, 4int,
    {
        if self.pos >= self.tokens.len() {
            let line = self.current_line();
            self.report(line, "Expect expression.");
            return Err(ParseAbort {});
        }
        let tok = self.tokens[self.pos].clone();
        self.pos = self.pos + 1;
        match &tok.token_type {
            TokenType::FALSE => Ok(Expr::Literal(tok)),
            TokenType::TRUE => Ok(Expr::Literal(tok)),
            TokenType::NIL => Ok(Expr::Literal(tok)),
            TokenType::NUMBER(_) => Ok(Expr::Literal(tok)),
            TokenType::STRING(_) => Ok(Expr::Literal(tok)),
            TokenType::LEFT_PAREN => {
                let expr = match self.expression() {
                    Ok(e) => e,
                    _ => {
                        return Err(ParseAbort {});
                    },
                };
                match self.consume(TokenType::RIGHT_PAREN, "Expect ')' after expression.") {
                    Ok(_) => {},
                    _ => {
                        return Err(ParseAbort {});
                    },
                }
                Ok(Expr::Grouping(Box::new(expr)))
            },
            TokenType::IDENTIFIER(_) => Ok(Expr::Variable(tok)),
            _ => {
                self.report(tok.line, "Expect expression.");
                Err(ParseAbort {})
            },
        }
    }
}

} // verus!

//! The parser: a recursive-descent, precedence-climbing translator from the
//! token sequence to the syntax tree. A grammar mismatch is a parse error
//! carrying a message and the offending token's line; the parse stops at
//! the first error. The panic-mode recovery routine that discards tokens to
//! the next statement boundary is defined alongside.

use vstd::prelude::*;
use crate::token::{Token, TokenType, TokenV, LoxType, LoxTypeV};
use crate::ast::{
    Expr, ExprV, LoxLiteral, LoxLiteralV, Stmt, StmtV, expr_wf, stmt_wf, stmts_wf, stmts_view,
    name_token_wf, lemma_stmts_view_push, lemma_stmts_wf_push,
};
use crate::error::{LoxError, LoxErrorV};

verus! {

/// The outcome of parsing one expression: the node or the first error, and
/// the position of the next unconsumed token.
#[verifier::ext_equal]
pub struct EOut {
    pub res: Result<ExprV, LoxErrorV>,
    pub next: int,
}

/// The outcome of parsing one statement.
#[verifier::ext_equal]
pub struct SOut {
    pub res: Result<StmtV, LoxErrorV>,
    pub next: int,
}

/// The outcome of parsing a statement sequence.
#[verifier::ext_equal]
pub struct BOut {
    pub res: Result<Seq<StmtV>, LoxErrorV>,
    pub next: int,
}

/// The kind of the token at a position, end-of-input past the end.
pub open spec fn kind_at(ts: Seq<TokenV>, i: int) -> TokenType {
    if 0 <= i < ts.len() {
        ts[i].kind
    } else {
        TokenType::Eof
    }
}

/// The line of the token at a position.
pub open spec fn line_at(ts: Seq<TokenV>, i: int) -> int {
    if 0 <= i < ts.len() {
        ts[i].line
    } else {
        0
    }
}

/// A parse error at the given position.
pub open spec fn perr(msg: Seq<char>, ts: Seq<TokenV>, i: int) -> LoxErrorV {
    LoxErrorV::ParseError { msg, line: line_at(ts, i) }
}

/// A sentinel error no run can produce: it stands in the branches that
/// keep the grammar's recursion visibly well founded, which a parser whose
/// productions always consume at least one token never reaches.
pub open spec fn stuck_error() -> LoxErrorV {
    LoxErrorV::ParseError { msg: seq![], line: 0 }
}

/// primary := NUMBER | STRING | "true" | "false" | "nil" | IDENT | "(" expression ")"
pub open spec fn sp_primary(ts: Seq<TokenV>, i: int) -> EOut
    decreases ts.len() - i, 1int,
{
    if !(0 <= i < ts.len()) {
        EOut { res: Result::Err(stuck_error()), next: i }
    } else {
        let t = ts[i];
        match t.kind {
            TokenType::False => EOut {
                res: Result::Ok(ExprV::Literal { value: LoxLiteralV::Bool(false) }),
                next: i + 1,
            },
            TokenType::True => EOut {
                res: Result::Ok(ExprV::Literal { value: LoxLiteralV::Bool(true) }),
                next: i + 1,
            },
            TokenType::Nil => EOut {
                res: Result::Ok(ExprV::Literal { value: LoxLiteralV::Nil }),
                next: i + 1,
            },
            TokenType::Identifier => EOut {
                res: Result::Ok(ExprV::Variable { name: t }),
                next: i + 1,
            },
            TokenType::String => match t.literal {
                LoxTypeV::String(s) => EOut {
                    res: Result::Ok(ExprV::Literal { value: LoxLiteralV::String(s) }),
                    next: i + 1,
                },
                _ => EOut { res: Result::Err(perr("Expect expression."@, ts, i)), next: i },
            },
            TokenType::Number => match t.literal {
                LoxTypeV::Number(n) => EOut {
                    res: Result::Ok(ExprV::Literal { value: LoxLiteralV::Number(n) }),
                    next: i + 1,
                },
                _ => EOut { res: Result::Err(perr("Expect expression."@, ts, i)), next: i },
            },
            TokenType::LeftParen => {
                let inner = sp_expression(ts, i + 1);
                match inner.res {
                    Result::Err(_) => inner,
                    Result::Ok(e) => {
                        if kind_at(ts, inner.next) == TokenType::RightParen && 0 <= inner.next
                            < ts.len() {
                            EOut {
                                res: Result::Ok(ExprV::Grouping { expression: Box::new(e) }),
                                next: inner.next + 1,
                            }
                        } else {
                            EOut {
                                res: Result::Err(
                                    perr("Expect ')' after expression."@, ts, inner.next),
                                ),
                                next: inner.next,
                            }
                        }
                    },
                }
            },
            _ => EOut { res: Result::Err(perr("Expect expression."@, ts, i)), next: i },
        }
    }
}

/// unary := ("!" | "-") unary | primary
pub open spec fn sp_unary(ts: Seq<TokenV>, i: int) -> EOut
    decreases ts.len() - i, 2int,
{
    if 0 <= i < ts.len() && (ts[i].kind == TokenType::Bang || ts[i].kind == TokenType::Minus) {
        let op = ts[i];
        let r = sp_unary(ts, i + 1);
        match r.res {
            Result::Err(_) => r,
            Result::Ok(e) => EOut {
                res: Result::Ok(ExprV::Unary { operator: op, right: Box::new(e) }),
                next: r.next,
            },
        }
    } else {
        sp_primary(ts, i)
    }
}

/// factor := unary ( ("/" | "*") unary )*
pub open spec fn sp_factor(ts: Seq<TokenV>, i: int) -> EOut
    decreases ts.len() - i, 3int,
{
    let u = sp_unary(ts, i);
    match u.res {
        Result::Err(_) => u,
        Result::Ok(e) => {
            if i < u.next <= ts.len() {
                sp_factor_rest(ts, u.next, e)
            } else {
                EOut { res: Result::Err(stuck_error()), next: u.next }
            }
        },
    }
}

/// The left-associative tail of a factor.
pub open spec fn sp_factor_rest(ts: Seq<TokenV>, i: int, acc: ExprV) -> EOut
    decreases ts.len() - i, 3int,
{
    if 0 <= i < ts.len() && (ts[i].kind == TokenType::Slash || ts[i].kind == TokenType::Star) {
        let op = ts[i];
        let u = sp_unary(ts, i + 1);
        match u.res {
            Result::Err(_) => u,
            Result::Ok(e) => {
                let joined = ExprV::Binary {
                    left: Box::new(acc),
                    operator: op,
                    right: Box::new(e),
                };
                if i < u.next <= ts.len() {
                    sp_factor_rest(ts, u.next, joined)
                } else {
                    EOut { res: Result::Err(stuck_error()), next: u.next }
                }
            },
        }
    } else {
        EOut { res: Result::Ok(acc), next: i }
    }
}

/// term := factor ( ("-" | "+") factor )*
pub open spec fn sp_term(ts: Seq<TokenV>, i: int) -> EOut
    decreases ts.len() - i, 4int,
{
    let u = sp_factor(ts, i);
    match u.res {
        Result::Err(_) => u,
        Result::Ok(e) => {
            if i < u.next <= ts.len() {
                sp_term_rest(ts, u.next, e)
            } else {
                EOut { res: Result::Err(stuck_error()), next: u.next }
            }
        },
    }
}

/// The left-associative tail of a term.
pub open spec fn sp_term_rest(ts: Seq<TokenV>, i: int, acc: ExprV) -> EOut
    decreases ts.len() - i, 4int,
{
    if 0 <= i < ts.len() && (ts[i].kind == TokenType::Minus || ts[i].kind == TokenType::Plus) {
        let op = ts[i];
        let u = sp_factor(ts, i + 1);
        match u.res {
            Result::Err(_) => u,
            Result::Ok(e) => {
                let joined = ExprV::Binary {
                    left: Box::new(acc),
                    operator: op,
                    right: Box::new(e),
                };
                if i < u.next <= ts.len() {
                    sp_term_rest(ts, u.next, joined)
                } else {
                    EOut { res: Result::Err(stuck_error()), next: u.next }
                }
            },
        }
    } else {
        EOut { res: Result::Ok(acc), next: i }
    }
}

/// comparison := term ( (">" | ">=" | "<" | "<=") term )*
pub open spec fn sp_comparison(ts: Seq<TokenV>, i: int) -> EOut
    decreases ts.len() - i, 5int,
{
    let u = sp_term(ts, i);
    match u.res {
        Result::Err(_) => u,
        Result::Ok(e) => {
            if i < u.next <= ts.len() {
                sp_comparison_rest(ts, u.next, e)
            } else {
                EOut { res: Result::Err(stuck_error()), next: u.next }
            }
        },
    }
}

/// Whether a token kind is a comparison operator.
pub open spec fn is_comparison_op(k: TokenType) -> bool {
    k == TokenType::Greater || k == TokenType::GreaterEqual || k == TokenType::Less || k
        == TokenType::LessEqual
}

/// The left-associative tail of a comparison.
pub open spec fn sp_comparison_rest(ts: Seq<TokenV>, i: int, acc: ExprV) -> EOut
    decreases ts.len() - i, 5int,
{
    if 0 <= i < ts.len() && is_comparison_op(ts[i].kind) {
        let op = ts[i];
        let u = sp_term(ts, i + 1);
        match u.res {
            Result::Err(_) => u,
            Result::Ok(e) => {
                let joined = ExprV::Binary {
                    left: Box::new(acc),
                    operator: op,
                    right: Box::new(e),
                };
                if i < u.next <= ts.len() {
                    sp_comparison_rest(ts, u.next, joined)
                } else {
                    EOut { res: Result::Err(stuck_error()), next: u.next }
                }
            },
        }
    } else {
        EOut { res: Result::Ok(acc), next: i }
    }
}

/// equality := comparison ( ("!=" | "==") comparison )*
pub open spec fn sp_equality(ts: Seq<TokenV>, i: int) -> EOut
    decreases ts.len() - i, 6int,
{
    let u = sp_comparison(ts, i);
    match u.res {
        Result::Err(_) => u,
        Result::Ok(e) => {
            if i < u.next <= ts.len() {
                sp_equality_rest(ts, u.next, e)
            } else {
                EOut { res: Result::Err(stuck_error()), next: u.next }
            }
        },
    }
}

/// The left-associative tail of an equality.
pub open spec fn sp_equality_rest(ts: Seq<TokenV>, i: int, acc: ExprV) -> EOut
    decreases ts.len() - i, 6int,
{
    if 0 <= i < ts.len() && (ts[i].kind == TokenType::BangEqual || ts[i].kind
        == TokenType::EqualEqual) {
        let op = ts[i];
        let u = sp_comparison(ts, i + 1);
        match u.res {
            Result::Err(_) => u,
            Result::Ok(e) => {
                let joined = ExprV::Binary {
                    left: Box::new(acc),
                    operator: op,
                    right: Box::new(e),
                };
                if i < u.next <= ts.len() {
                    sp_equality_rest(ts, u.next, joined)
                } else {
                    EOut { res: Result::Err(stuck_error()), next: u.next }
                }
            },
        }
    } else {
        EOut { res: Result::Ok(acc), next: i }
    }
}

/// logic_and := equality ( "and" equality )*
pub open spec fn sp_logic_and(ts: Seq<TokenV>, i: int) -> EOut
    decreases ts.len() - i, 7int,
{
    let u = sp_equality(ts, i);
    match u.res {
        Result::Err(_) => u,
        Result::Ok(e) => {
            if i < u.next <= ts.len() {
                sp_logic_and_rest(ts, u.next, e)
            } else {
                EOut { res: Result::Err(stuck_error()), next: u.next }
            }
        },
    }
}

/// The left-associative tail of a conjunction.
pub open spec fn sp_logic_and_rest(ts: Seq<TokenV>, i: int, acc: ExprV) -> EOut
    decreases ts.len() - i, 7int,
{
    if 0 <= i < ts.len() && ts[i].kind == TokenType::And {
        let op = ts[i];
        let u = sp_equality(ts, i + 1);
        match u.res {
            Result::Err(_) => u,
            Result::Ok(e) => {
                let joined = ExprV::Logical {
                    left: Box::new(acc),
                    operator: op,
                    right: Box::new(e),
                };
                if i < u.next <= ts.len() {
                    sp_logic_and_rest(ts, u.next, joined)
                } else {
                    EOut { res: Result::Err(stuck_error()), next: u.next }
                }
            },
        }
    } else {
        EOut { res: Result::Ok(acc), next: i }
    }
}

/// logic_or := logic_and ( "or" logic_and )*
#[verifier::opaque]
pub open spec fn sp_logic_or(ts: Seq<TokenV>, i: int) -> EOut
    decreases ts.len() - i, 8int,
{
    let u = sp_logic_and(ts, i);
    match u.res {
        Result::Err(_) => u,
        Result::Ok(e) => {
            if i < u.next <= ts.len() {
                sp_logic_or_rest(ts, u.next, e)
            } else {
                EOut { res: Result::Err(stuck_error()), next: u.next }
            }
        },
    }
}

/// The left-associative tail of a disjunction.
pub open spec fn sp_logic_or_rest(ts: Seq<TokenV>, i: int, acc: ExprV) -> EOut
    decreases ts.len() - i, 8int,
{
    if 0 <= i < ts.len() && ts[i].kind == TokenType::Or {
        let op = ts[i];
        let u = sp_logic_and(ts, i + 1);
        match u.res {
            Result::Err(_) => u,
            Result::Ok(e) => {
                let joined = ExprV::Logical {
                    left: Box::new(acc),
                    operator: op,
                    right: Box::new(e),
                };
                if i < u.next <= ts.len() {
                    sp_logic_or_rest(ts, u.next, joined)
                } else {
                    EOut { res: Result::Err(stuck_error()), next: u.next }
                }
            },
        }
    } else {
        EOut { res: Result::Ok(acc), next: i }
    }
}

/// The defining equation of `sp_logic_or`, likewise explicit.
#[verifier::rlimit(100)]
pub proof fn lemma_sp_logic_or(ts: Seq<TokenV>, i: int)
    ensures
        sp_logic_or(ts, i) == ({
            let u = sp_logic_and(ts, i);
            match u.res {
                Result::Err(_) => u,
                Result::Ok(e) => {
                    if i < u.next <= ts.len() {
                        sp_logic_or_rest(ts, u.next, e)
                    } else {
                        EOut { res: Result::Err(stuck_error()), next: u.next }
                    }
                },
            }
        }),
{
    reveal(sp_logic_or);
}

/// assignment := IDENT "=" assignment | logic_or — right-associative, and
/// the target must be a bare variable, else a parse error at the `=`
/// token's line.
pub open spec fn sp_assignment(ts: Seq<TokenV>, i: int) -> EOut
    decreases ts.len() - i, 9int,
{
    let l = sp_logic_or(ts, i);
    match l.res {
        Result::Err(_) => l,
        Result::Ok(e) => {
            if 0 <= l.next < ts.len() && ts[l.next].kind == TokenType::Equal {
                let eq = ts[l.next];
                if i <= l.next {
                    let v = sp_assignment(ts, l.next + 1);
                    match v.res {
                        Result::Err(_) => v,
                        Result::Ok(rv) => match e {
                            ExprV::Variable { name } => EOut {
                                res: Result::Ok(
                                    ExprV::Assign { name, value: Box::new(rv) },
                                ),
                                next: v.next,
                            },
                            _ => EOut {
                                res: Result::Err(
                                    LoxErrorV::ParseError {
                                        msg: "Invalid assignment target."@,
                                        line: eq.line,
                                    },
                                ),
                                next: v.next,
                            },
                        },
                    }
                } else {
                    EOut { res: Result::Err(stuck_error()), next: l.next }
                }
            } else {
                l
            }
        },
    }
}

/// An assignment whose left side already failed is that failure.
pub proof fn lemma_sp_assignment_err(ts: Seq<TokenV>, i: int)
    requires
        sp_logic_or(ts, i).res is Err,
    ensures
        sp_assignment(ts, i) == sp_logic_or(ts, i),
{
    reveal_with_fuel(sp_assignment, 1);
    reveal(sp_logic_or);
}

/// An assignment with no equals sign after its left side is just that
/// left side.
pub proof fn lemma_sp_assignment_no_eq(ts: Seq<TokenV>, i: int)
    requires
        sp_logic_or(ts, i).res is Ok,
        !(0 <= sp_logic_or(ts, i).next < ts.len() && ts[sp_logic_or(ts, i).next].kind
            == TokenType::Equal),
    ensures
        sp_assignment(ts, i) == sp_logic_or(ts, i),
{
    reveal_with_fuel(sp_assignment, 1);
    reveal(sp_logic_or);
}

/// An assignment with an equals sign after its left side parses its right
/// side as another assignment and keeps only a bare variable target.
pub proof fn lemma_sp_assignment_eq(ts: Seq<TokenV>, i: int)
    requires
        sp_logic_or(ts, i).res is Ok,
        0 <= sp_logic_or(ts, i).next < ts.len(),
        ts[sp_logic_or(ts, i).next].kind == TokenType::Equal,
        i <= sp_logic_or(ts, i).next,
    ensures
        sp_assignment(ts, i) == ({
            let l = sp_logic_or(ts, i);
            let v = sp_assignment(ts, l.next + 1);
            match v.res {
                Result::Err(_) => v,
                Result::Ok(rv) => match l.res->Ok_0 {
                    ExprV::Variable { name } => EOut {
                        res: Result::Ok(ExprV::Assign { name, value: Box::new(rv) }),
                        next: v.next,
                    },
                    _ => EOut {
                        res: Result::Err(
                            LoxErrorV::ParseError {
                                msg: "Invalid assignment target."@,
                                line: ts[l.next].line,
                            },
                        ),
                        next: v.next,
                    },
                },
            }
        }),
{
    reveal_with_fuel(sp_assignment, 2);
    reveal(sp_logic_or);
}

/// expression := assignment
#[verifier::opaque]
pub open spec fn sp_expression(ts: Seq<TokenV>, i: int) -> EOut
    decreases ts.len() - i, 10int,
{
    sp_assignment(ts, i)
}

/// The defining equation of `sp_expression`, made explicit so that proofs
/// unfold the expression grammar only where a production asks for it.
#[verifier::rlimit(100)]
pub proof fn lemma_sp_expression(ts: Seq<TokenV>, i: int)
    ensures
        sp_expression(ts, i) == sp_assignment(ts, i),
{
    reveal(sp_expression);
}

/// print-statement tail: expression ";" after the `print` keyword.
pub open spec fn sp_print_statement(ts: Seq<TokenV>, i: int) -> SOut
    decreases ts.len() - i, 11int,
{
    let e = sp_expression(ts, i);
    match e.res {
        Result::Err(er) => SOut { res: Result::Err(er), next: e.next },
        Result::Ok(v) => {
            if kind_at(ts, e.next) == TokenType::Semicolon && 0 <= e.next < ts.len() {
                SOut { res: Result::Ok(StmtV::Print { expression: v }), next: e.next + 1 }
            } else {
                SOut {
                    res: Result::Err(perr("Expect ';' after value."@, ts, e.next)),
                    next: e.next,
                }
            }
        },
    }
}

/// expression-statement: expression ";".
pub open spec fn sp_expression_statement(ts: Seq<TokenV>, i: int) -> SOut
    decreases ts.len() - i, 11int,
{
    let e = sp_expression(ts, i);
    match e.res {
        Result::Err(er) => SOut { res: Result::Err(er), next: e.next },
        Result::Ok(v) => {
            if kind_at(ts, e.next) == TokenType::Semicolon && 0 <= e.next < ts.len() {
                SOut { res: Result::Ok(StmtV::Expression { expression: v }), next: e.next + 1 }
            } else {
                SOut {
                    res: Result::Err(perr("Expect ';' after expression."@, ts, e.next)),
                    next: e.next,
                }
            }
        },
    }
}

/// The tail of an if statement, entered just after the `if` keyword:
/// "(" expression ")" statement ("else" statement)?.
pub open spec fn sp_if_statement(ts: Seq<TokenV>, j: int) -> SOut
    decreases ts.len() - j, 12int,
{
    if kind_at(ts, j) == TokenType::LeftParen && 0 <= j < ts.len() {
        let c = sp_expression(ts, j + 1);
        match c.res {
            Result::Err(er) => SOut { res: Result::Err(er), next: c.next },
            Result::Ok(cond) => {
                if !(kind_at(ts, c.next) == TokenType::RightParen && 0 <= c.next < ts.len()) {
                    SOut {
                        res: Result::Err(perr("Expect ')' after condition."@, ts, c.next)),
                        next: c.next,
                    }
                } else if !(j <= c.next && c.next + 1 <= ts.len()) {
                    SOut { res: Result::Err(stuck_error()), next: c.next }
                } else {
                    let t = sp_statement(ts, c.next + 1);
                    match t.res {
                        Result::Err(er) => SOut { res: Result::Err(er), next: t.next },
                        Result::Ok(then_s) => {
                            if kind_at(ts, t.next) == TokenType::Else && 0 <= t.next < ts.len() {
                                if c.next < t.next {
                                    let el = sp_statement(ts, t.next + 1);
                                    match el.res {
                                        Result::Err(er) => SOut {
                                            res: Result::Err(er),
                                            next: el.next,
                                        },
                                        Result::Ok(else_s) => SOut {
                                            res: Result::Ok(
                                                StmtV::If {
                                                    condition: cond,
                                                    then_branch: Box::new(then_s),
                                                    else_branch: Option::Some(Box::new(else_s)),
                                                },
                                            ),
                                            next: el.next,
                                        },
                                    }
                                } else {
                                    SOut { res: Result::Err(stuck_error()), next: t.next }
                                }
                            } else {
                                SOut {
                                    res: Result::Ok(
                                        StmtV::If {
                                            condition: cond,
                                            then_branch: Box::new(then_s),
                                            else_branch: Option::None,
                                        },
                                    ),
                                    next: t.next,
                                }
                            }
                        },
                    }
                }
            },
        }
    } else {
        SOut { res: Result::Err(perr("Expect '(' after 'if'."@, ts, j)), next: j }
    }
}

/// The tail of a while statement, entered just after the `while` keyword:
/// "(" expression ")" statement.
pub open spec fn sp_while_statement(ts: Seq<TokenV>, j: int) -> SOut
    decreases ts.len() - j, 12int,
{
    if kind_at(ts, j) == TokenType::LeftParen && 0 <= j < ts.len() {
        let c = sp_expression(ts, j + 1);
        match c.res {
            Result::Err(er) => SOut { res: Result::Err(er), next: c.next },
            Result::Ok(cond) => {
                if !(kind_at(ts, c.next) == TokenType::RightParen && 0 <= c.next < ts.len()) {
                    SOut {
                        res: Result::Err(perr("Expect ')' after condition."@, ts, c.next)),
                        next: c.next,
                    }
                } else if !(j <= c.next && c.next + 1 <= ts.len()) {
                    SOut { res: Result::Err(stuck_error()), next: c.next }
                } else {
                    let b = sp_statement(ts, c.next + 1);
                    match b.res {
                        Result::Err(er) => SOut { res: Result::Err(er), next: b.next },
                        Result::Ok(body) => SOut {
                            res: Result::Ok(
                                StmtV::While { condition: cond, body: Box::new(body) },
                            ),
                            next: b.next,
                        },
                    }
                }
            },
        }
    } else {
        SOut { res: Result::Err(perr("Expect '(' after 'while'."@, ts, j)), next: j }
    }
}

/// statement := if | while | print | block | expression-statement
#[verifier::opaque]
pub open spec fn sp_statement(ts: Seq<TokenV>, i: int) -> SOut
    decreases ts.len() - i, 13int,
{
    if kind_at(ts, i) == TokenType::Print && 0 <= i < ts.len() {
        sp_print_statement(ts, i + 1)
    } else if kind_at(ts, i) == TokenType::LeftBrace && 0 <= i < ts.len() {
        let b = sp_block_rest(ts, i + 1, seq![]);
        match b.res {
            Result::Err(er) => SOut { res: Result::Err(er), next: b.next },
            Result::Ok(items) => {
                if kind_at(ts, b.next) == TokenType::RightBrace && 0 <= b.next < ts.len() {
                    SOut { res: Result::Ok(StmtV::Block { statements: items }), next: b.next + 1 }
                } else {
                    SOut {
                        res: Result::Err(perr("Expect '}' after block."@, ts, b.next)),
                        next: b.next,
                    }
                }
            },
        }
    } else if kind_at(ts, i) == TokenType::If && 0 <= i < ts.len() {
        sp_if_statement(ts, i + 1)
    } else if kind_at(ts, i) == TokenType::While && 0 <= i < ts.len() {
        sp_while_statement(ts, i + 1)
    } else {
        sp_expression_statement(ts, i)
    }
}

/// The defining equation of `sp_statement`, made explicit so that proofs
/// unfold the statement grammar only where a production asks for it.
#[verifier::rlimit(100)]
pub proof fn lemma_sp_statement(ts: Seq<TokenV>, i: int)
    ensures
        sp_statement(ts, i) == (if kind_at(ts, i) == TokenType::Print && 0 <= i < ts.len() {
            sp_print_statement(ts, i + 1)
        } else if kind_at(ts, i) == TokenType::LeftBrace && 0 <= i < ts.len() {
            let b = sp_block_rest(ts, i + 1, seq![]);
            match b.res {
                Result::Err(er) => SOut { res: Result::Err(er), next: b.next },
                Result::Ok(items) => {
                    if kind_at(ts, b.next) == TokenType::RightBrace && 0 <= b.next < ts.len() {
                        SOut {
                            res: Result::Ok(StmtV::Block { statements: items }),
                            next: b.next + 1,
                        }
                    } else {
                        SOut {
                            res: Result::Err(perr("Expect '}' after block."@, ts, b.next)),
                            next: b.next,
                        }
                    }
                },
            }
        } else if kind_at(ts, i) == TokenType::If && 0 <= i < ts.len() {
            sp_if_statement(ts, i + 1)
        } else if kind_at(ts, i) == TokenType::While && 0 <= i < ts.len() {
            sp_while_statement(ts, i + 1)
        } else {
            sp_expression_statement(ts, i)
        }),
{
    reveal(sp_statement);
}

/// var-declaration tail: IDENT ("=" expression)? ";" after the `var`
/// keyword.
pub open spec fn sp_var_declaration(ts: Seq<TokenV>, i: int) -> SOut
    decreases ts.len() - i, 12int,
{
    if kind_at(ts, i) == TokenType::Identifier && 0 <= i < ts.len() {
        let name = ts[i];
        if kind_at(ts, i + 1) == TokenType::Equal && i + 1 < ts.len() {
            let e = sp_expression(ts, i + 2);
            match e.res {
                Result::Err(er) => SOut { res: Result::Err(er), next: e.next },
                Result::Ok(v) => {
                    if kind_at(ts, e.next) == TokenType::Semicolon && 0 <= e.next < ts.len() {
                        SOut {
                            res: Result::Ok(
                                StmtV::Var { name, initializer: Option::Some(v) },
                            ),
                            next: e.next + 1,
                        }
                    } else {
                        SOut {
                            res: Result::Err(
                                perr("Expect ';' after variable declaration."@, ts, e.next),
                            ),
                            next: e.next,
                        }
                    }
                },
            }
        } else {
            if kind_at(ts, i + 1) == TokenType::Semicolon && i + 1 < ts.len() {
                SOut {
                    res: Result::Ok(StmtV::Var { name, initializer: Option::None }),
                    next: i + 2,
                }
            } else {
                SOut {
                    res: Result::Err(
                        perr("Expect ';' after variable declaration."@, ts, i + 1),
                    ),
                    next: i + 1,
                }
            }
        }
    } else {
        SOut { res: Result::Err(perr("Expect variable name."@, ts, i)), next: i }
    }
}

/// declaration := "var" var-declaration | statement
pub open spec fn sp_declaration(ts: Seq<TokenV>, i: int) -> SOut
    decreases ts.len() - i, 14int,
{
    if kind_at(ts, i) == TokenType::Var && 0 <= i < ts.len() {
        sp_var_declaration(ts, i + 1)
    } else {
        sp_statement(ts, i)
    }
}

/// The declarations of a block's body, up to the closing brace or the end
/// of input.
pub open spec fn sp_block_rest(ts: Seq<TokenV>, i: int, acc: Seq<StmtV>) -> BOut
    decreases ts.len() - i, 15int,
{
    if !(0 <= i < ts.len()) || kind_at(ts, i) == TokenType::RightBrace || kind_at(ts, i)
        == TokenType::Eof {
        BOut { res: Result::Ok(acc), next: i }
    } else {
        let d = sp_declaration(ts, i);
        match d.res {
            Result::Err(er) => BOut { res: Result::Err(er), next: d.next },
            Result::Ok(s) => {
                if i < d.next <= ts.len() {
                    sp_block_rest(ts, d.next, acc.push(s))
                } else {
                    BOut { res: Result::Err(stuck_error()), next: d.next }
                }
            },
        }
    }
}

/// program := declaration* EOF
pub open spec fn sp_program_rest(ts: Seq<TokenV>, i: int, acc: Seq<StmtV>) -> BOut
    decreases ts.len() - i, 16int,
{
    if !(0 <= i < ts.len()) || kind_at(ts, i) == TokenType::Eof {
        BOut { res: Result::Ok(acc), next: i }
    } else {
        let d = sp_declaration(ts, i);
        match d.res {
            Result::Err(er) => BOut { res: Result::Err(er), next: d.next },
            Result::Ok(s) => {
                if i < d.next <= ts.len() {
                    sp_program_rest(ts, d.next, acc.push(s))
                } else {
                    BOut { res: Result::Err(stuck_error()), next: d.next }
                }
            },
        }
    }
}

/// The whole parse: the statement list of the program, or its first parse
/// error.
pub open spec fn sp_parse(ts: Seq<TokenV>, i: int) -> BOut {
    sp_program_rest(ts, i, seq![])
}

/// A token list a parse can walk without falling off the end: nonempty,
/// with the end-of-input marker last.
pub open spec fn tokens_ok(ts: Seq<TokenV>) -> bool {
    ts.len() > 0 && ts.last().kind == TokenType::Eof
}

/// Whether every identifier token carries its own text, as the lexer
/// guarantees; it makes the parsed trees well formed for evaluation.
pub open spec fn toks_wf(ts: Seq<TokenV>) -> bool {
    forall|j: int|
        0 <= j < ts.len() ==> ((#[trigger] ts[j]).kind == TokenType::Identifier ==> ts[j].literal
            is Id)
}

/// Where panic-mode recovery stops, walking from a position: just past the
/// next semicolon, or at the next token that begins a declaration or
/// statement, or at the end of input.
pub open spec fn sp_sync_loop(ts: Seq<TokenV>, i: int) -> int
    decreases ts.len() - i,
{
    if !(0 <= i < ts.len()) {
        i
    } else if ts[i].kind == TokenType::Eof {
        i
    } else if 0 <= i - 1 < ts.len() && ts[i - 1].kind == TokenType::Semicolon {
        i
    } else if is_sync_kind(ts[i].kind) {
        i
    } else {
        sp_sync_loop(ts, i + 1)
    }
}

/// Whether a token kind begins a declaration or statement, so that
/// recovery can resume cleanly before it.
pub open spec fn is_sync_kind(k: TokenType) -> bool {
    ||| k == TokenType::Class
    ||| k == TokenType::Fun
    ||| k == TokenType::Var
    ||| k == TokenType::For
    ||| k == TokenType::If
    ||| k == TokenType::While
    ||| k == TokenType::Print
    ||| k == TokenType::Return
}

/// Where recovery stops when started at a position: the offending token is
/// discarded first.
pub open spec fn sp_sync(ts: Seq<TokenV>, i: int) -> int {
    if 0 <= i < ts.len() && ts[i].kind != TokenType::Eof {
        sp_sync_loop(ts, i + 1)
    } else {
        sp_sync_loop(ts, i)
    }
}

/// The token-walking parser state: the token list and the cursor.
pub struct Parser {
    pub tokens: Vec<Token>,
    pub current: usize,
}

impl Parser {
    /// The model of the token list.
    pub open spec fn toks(&self) -> Seq<TokenV> {
        self.tokens@.map(|j: int, t: Token| t@)
    }

    /// A parser at the start of the given token list.
    #[inline]
    pub fn new(tokens: Vec<Token>) -> (p: Parser)
        ensures
            p.toks() == tokens@.map(|j: int, t: Token| t@),
            p.current == 0,
    {
        Parser { tokens, current: 0 }
    }

    /// Whether the cursor has reached the end-of-input token.
    #[inline]
    pub fn is_at_end(&self) -> (r: bool)
        requires
            self.current < self.toks().len(),
        ensures
            r == (self.toks()[self.current as int].kind == TokenType::Eof),
    {
        self.tokens[self.current].kind == TokenType::Eof
    }

    /// An owned copy of the token under the cursor.
    #[inline]
    pub fn peek(&self) -> (t: Token)
        requires
            self.current < self.toks().len(),
        ensures
            t@ == self.toks()[self.current as int],
    {
        self.tokens[self.current].duplicate()
    }

    /// An owned copy of the most recently consumed token.
    #[inline]
    pub fn previous(&self) -> (t: Token)
        requires
            0 < self.current,
            self.current <= self.toks().len(),
        ensures
            t@ == self.toks()[self.current - 1],
    {
        self.tokens[self.current - 1].duplicate()
    }

    /// Whether the token under the cursor has the given kind; never true
    /// at the end of input.
    pub fn check(&self, t: TokenType) -> (r: bool)
        requires
            self.current < self.toks().len(),
        ensures
            r == (self.toks()[self.current as int].kind == t && self.toks()[self.current
                as int].kind != TokenType::Eof),
    {
        if self.is_at_end() {
            return false;
        }
        self.tokens[self.current].kind == t
    }

    /// Consumes the token under the cursor exactly when it has the given
    /// kind.
    pub fn matches(&mut self, t: TokenType) -> (r: bool)
        requires
            tokens_ok(old(self).toks()),
            old(self).current < old(self).toks().len(),
        ensures
            final(self).tokens@ == old(self).tokens@,
            r == (old(self).toks()[old(self).current as int].kind == t && old(self).toks()[old(
                self,
            ).current as int].kind != TokenType::Eof),
            final(self).current as int == if r {
                old(self).current + 1
            } else {
                old(self).current as int
            },
            final(self).current < final(self).toks().len(),
    {
        let n = self.tokens.len();
        if self.check(t) {
            self.current = self.current + 1;
            true
        } else {
            false
        }
    }

    /// Consumes and yields the token under the cursor, standing still only
    /// at the end of input.
    pub fn advance(&mut self) -> (t: Token)
        requires
            tokens_ok(old(self).toks()),
            old(self).current < old(self).toks().len(),
        ensures
            final(self).tokens@ == old(self).tokens@,
            final(self).current < final(self).toks().len(),
            ({
                let ts = old(self).toks();
                let i = old(self).current as int;
                if ts[i].kind != TokenType::Eof {
                    final(self).current as int == i + 1 && t@ == ts[i]
                } else {
                    final(self).current as int == i
                }
            }),
    {
        let n = self.tokens.len();
        if !self.is_at_end() {
            self.current = self.current + 1;
            self.previous()
        } else {
            let ghost dummy = self.current;
            self.peek()
        }
    }

    /// Consumes a token of the given kind, or reports a parse error with
    /// the given message at the current token's line.
    pub fn consume(&mut self, t: TokenType, msg: &str) -> (r: Result<Token, LoxError>)
        requires
            tokens_ok(old(self).toks()),
            old(self).current < old(self).toks().len(),
        ensures
            final(self).tokens@ == old(self).tokens@,
            final(self).current < final(self).toks().len(),
            ({
                let ts = old(self).toks();
                let i = old(self).current as int;
                if ts[i].kind == t && ts[i].kind != TokenType::Eof {
                    r matches Result::Ok(tok) && tok@ == ts[i] && final(self).current as int == i
                        + 1
                } else {
                    r matches Result::Err(e) && e@ == LoxErrorV::ParseError {
                        msg: msg@,
                        line: ts[i].line,
                    } && final(self).current as int == i
                }
            }),
    {
        let n = self.tokens.len();
        if self.check(t) {
            let tok = self.peek();
            self.current = self.current + 1;
            Result::Ok(tok)
        } else {
            Result::Err(
                LoxError::ParseError { msg: String::from_str(msg), line: self.tokens[self.current].line },
            )
        }
    }

    /// primary := NUMBER | STRING | "true" | "false" | "nil" | IDENT | "(" expression ")"
    #[verifier::rlimit(100)]
    pub fn primary(&mut self) -> (r: Result<Expr, LoxError>)
        requires
            tokens_ok(old(self).toks()),
            old(self).current < old(self).toks().len(),
        ensures
            final(self).tokens@ == old(self).tokens@,
            final(self).current < final(self).toks().len(),
            ({
                let p = sp_primary(old(self).toks(), old(self).current as int);
                match r {
                    Result::Ok(e) => {
                        &&& p.res == Result::<ExprV, LoxErrorV>::Ok(e@)
                        &&& final(self).current as int == p.next
                        &&& old(self).current < final(self).current
                        &&& (toks_wf(old(self).toks()) ==> expr_wf(e@))
                    },
                    Result::Err(er) => p.res == Result::<ExprV, LoxErrorV>::Err(er@),
                }
            }),
        decreases old(self).toks().len() - old(self).current, 1int,
    {
        if self.matches(TokenType::False) {
            return Result::Ok(Expr::Literal { value: LoxLiteral::Bool(false) });
        }
        if self.matches(TokenType::True) {
            return Result::Ok(Expr::Literal { value: LoxLiteral::Bool(true) });
        }
        if self.matches(TokenType::Nil) {
            return Result::Ok(Expr::Literal { value: LoxLiteral::Nil });
        }
        if self.matches(TokenType::Identifier) {
            return Result::Ok(Expr::Variable { name: self.previous() });
        }
        let n = self.tokens.len();
        if self.check(TokenType::String) {
            let t = self.peek();
            match t.literal {
                LoxType::String(s) => {
                    self.current = self.current + 1;
                    return Result::Ok(Expr::Literal { value: LoxLiteral::String(s) });
                },
                _ => {
                    proof {
                        reveal_strlit("Expect expression.");
                    }
                    return Result::Err(
                        LoxError::ParseError {
                            msg: String::from_str("Expect expression."),
                            line: t.line,
                        },
                    );
                },
            }
        }
        if self.check(TokenType::Number) {
            let t = self.peek();
            match t.literal {
                LoxType::Number(n) => {
                    self.current = self.current + 1;
                    return Result::Ok(Expr::Literal { value: LoxLiteral::Number(n) });
                },
                _ => {
                    proof {
                        reveal_strlit("Expect expression.");
                    }
                    return Result::Err(
                        LoxError::ParseError {
                            msg: String::from_str("Expect expression."),
                            line: t.line,
                        },
                    );
                },
            }
        }
        if self.check(TokenType::LeftParen) {
            return self.grouping();
        }
        let line = self.tokens[self.current].line;
        proof {
            reveal_strlit("Expect expression.");
        }
        Result::Err(LoxError::ParseError { msg: String::from_str("Expect expression."), line })
    }

    /// The parenthesised production of primary: "(" expression ")".
    #[verifier::rlimit(100)]
    #[verifier::spinoff_prover]
    fn grouping(&mut self) -> (r: Result<Expr, LoxError>)
        requires
            tokens_ok(old(self).toks()),
            old(self).current < old(self).toks().len(),
            old(self).toks()[old(self).current as int].kind == TokenType::LeftParen,
        ensures
            final(self).tokens@ == old(self).tokens@,
            final(self).current < final(self).toks().len(),
            ({
                let p = sp_primary(old(self).toks(), old(self).current as int);
                match r {
                    Result::Ok(e) => {
                        &&& p.res == Result::<ExprV, LoxErrorV>::Ok(e@)
                        &&& final(self).current as int == p.next
                        &&& old(self).current < final(self).current
                        &&& (toks_wf(old(self).toks()) ==> expr_wf(e@))
                    },
                    Result::Err(er) => p.res == Result::<ExprV, LoxErrorV>::Err(er@),
                }
            }),
        decreases old(self).toks().len() - old(self).current, 0int,
    {
        let n0 = self.tokens.len();
        self.current = self.current + 1;
        let expr = match self.expression() {
            Result::Ok(e) => e,
            Result::Err(e) => {
                return Result::Err(e);
            },
        };
        let n = self.tokens.len();
        if self.check(TokenType::RightParen) {
            self.current = self.current + 1;
            Result::Ok(Expr::Grouping { expression: Box::new(expr) })
        } else {
            let line = self.tokens[self.current].line;
            Result::Err(
                LoxError::ParseError {
                    msg: String::from_str("Expect ')' after expression."),
                    line,
                },
            )
        }
    }

    /// unary := ("!" | "-") unary | primary
    #[verifier::rlimit(100)]
    pub fn unary(&mut self) -> (r: Result<Expr, LoxError>)
        requires
            tokens_ok(old(self).toks()),
            old(self).current < old(self).toks().len(),
        ensures
            final(self).tokens@ == old(self).tokens@,
            final(self).current < final(self).toks().len(),
            ({
                let p = sp_unary(old(self).toks(), old(self).current as int);
                match r {
                    Result::Ok(e) => {
                        &&& p.res == Result::<ExprV, LoxErrorV>::Ok(e@)
                        &&& final(self).current as int == p.next
                        &&& old(self).current < final(self).current
                        &&& (toks_wf(old(self).toks()) ==> expr_wf(e@))
                    },
                    Result::Err(er) => p.res == Result::<ExprV, LoxErrorV>::Err(er@),
                }
            }),
        decreases old(self).toks().len() - old(self).current, 2int,
    {
        if self.matches(TokenType::Bang) || self.matches(TokenType::Minus) {
            let operator = self.previous();
            let right = match self.unary() {
                Result::Ok(e) => e,
                Result::Err(e) => {
                    return Result::Err(e);
                },
            };
            return Result::Ok(Expr::Unary { operator, right: Box::new(right) });
        }
        self.primary()
    }

    /// factor := unary ( ("/" | "*") unary )*
    #[verifier::rlimit(100)]
    pub fn factor(&mut self) -> (r: Result<Expr, LoxError>)
        requires
            tokens_ok(old(self).toks()),
            old(self).current < old(self).toks().len(),
        ensures
            final(self).tokens@ == old(self).tokens@,
            final(self).current < final(self).toks().len(),
            ({
                let p = sp_factor(old(self).toks(), old(self).current as int);
                match r {
                    Result::Ok(e) => {
                        &&& p.res == Result::<ExprV, LoxErrorV>::Ok(e@)
                        &&& final(self).current as int == p.next
                        &&& old(self).current < final(self).current
                        &&& (toks_wf(old(self).toks()) ==> expr_wf(e@))
                    },
                    Result::Err(er) => p.res == Result::<ExprV, LoxErrorV>::Err(er@),
                }
            }),
        decreases old(self).toks().len() - old(self).current, 3int,
    {
        let expr = match self.unary() {
            Result::Ok(e) => e,
            Result::Err(e) => {
                return Result::Err(e);
            },
        };
        self.factor_rest(expr)
    }

    /// The left-associative tail at this precedence level.
    fn factor_rest(&mut self, acc: Expr) -> (r: Result<Expr, LoxError>)
        requires
            tokens_ok(old(self).toks()),
            old(self).current < old(self).toks().len(),
        ensures
            final(self).tokens@ == old(self).tokens@,
            final(self).current < final(self).toks().len(),
            ({
                let p = sp_factor_rest(old(self).toks(), old(self).current as int, acc@);
                match r {
                    Result::Ok(e) => {
                        &&& p.res == Result::<ExprV, LoxErrorV>::Ok(e@)
                        &&& final(self).current as int == p.next
                        &&& old(self).current <= final(self).current
                        &&& ((toks_wf(old(self).toks()) && expr_wf(acc@)) ==> expr_wf(e@))
                    },
                    Result::Err(er) => p.res == Result::<ExprV, LoxErrorV>::Err(er@),
                }
            }),
        decreases old(self).toks().len() - old(self).current, 3int,
    {
        let n = self.tokens.len();
        if self.check(TokenType::Slash) || self.check(TokenType::Star) {
            let operator = self.tokens[self.current].duplicate();
            self.current = self.current + 1;
            let right = match self.unary() {
                Result::Ok(e) => e,
                Result::Err(e) => {
                    return Result::Err(e);
                },
            };
            let joined = Expr::Binary {
                left: Box::new(acc),
                operator,
                right: Box::new(right),
            };
            self.factor_rest(joined)
        } else {
            Result::Ok(acc)
        }
    }

    /// term := factor ( ("-" | "+") factor )*
    #[verifier::rlimit(100)]
    pub fn term(&mut self) -> (r: Result<Expr, LoxError>)
        requires
            tokens_ok(old(self).toks()),
            old(self).current < old(self).toks().len(),
        ensures
            final(self).tokens@ == old(self).tokens@,
            final(self).current < final(self).toks().len(),
            ({
                let p = sp_term(old(self).toks(), old(self).current as int);
                match r {
                    Result::Ok(e) => {
                        &&& p.res == Result::<ExprV, LoxErrorV>::Ok(e@)
                        &&& final(self).current as int == p.next
                        &&& old(self).current < final(self).current
                        &&& (toks_wf(old(self).toks()) ==> expr_wf(e@))
                    },
                    Result::Err(er) => p.res == Result::<ExprV, LoxErrorV>::Err(er@),
                }
            }),
        decreases old(self).toks().len() - old(self).current, 4int,
    {
        let expr = match self.factor() {
            Result::Ok(e) => e,
            Result::Err(e) => {
                return Result::Err(e);
            },
        };
        self.term_rest(expr)
    }

    /// The left-associative tail at this precedence level.
    fn term_rest(&mut self, acc: Expr) -> (r: Result<Expr, LoxError>)
        requires
            tokens_ok(old(self).toks()),
            old(self).current < old(self).toks().len(),
        ensures
            final(self).tokens@ == old(self).tokens@,
            final(self).current < final(self).toks().len(),
            ({
                let p = sp_term_rest(old(self).toks(), old(self).current as int, acc@);
                match r {
                    Result::Ok(e) => {
                        &&& p.res == Result::<ExprV, LoxErrorV>::Ok(e@)
                        &&& final(self).current as int == p.next
                        &&& old(self).current <= final(self).current
                        &&& ((toks_wf(old(self).toks()) && expr_wf(acc@)) ==> expr_wf(e@))
                    },
                    Result::Err(er) => p.res == Result::<ExprV, LoxErrorV>::Err(er@),
                }
            }),
        decreases old(self).toks().len() - old(self).current, 4int,
    {
        let n = self.tokens.len();
        if self.check(TokenType::Minus) || self.check(TokenType::Plus) {
            let operator = self.tokens[self.current].duplicate();
            self.current = self.current + 1;
            let right = match self.factor() {
                Result::Ok(e) => e,
                Result::Err(e) => {
                    return Result::Err(e);
                },
            };
            let joined = Expr::Binary {
                left: Box::new(acc),
                operator,
                right: Box::new(right),
            };
            self.term_rest(joined)
        } else {
            Result::Ok(acc)
        }
    }

    /// comparison := term ( (">" | ">=" | "<" | "<=") term )*
    #[verifier::rlimit(100)]
    pub fn comparison(&mut self) -> (r: Result<Expr, LoxError>)
        requires
            tokens_ok(old(self).toks()),
            old(self).current < old(self).toks().len(),
        ensures
            final(self).tokens@ == old(self).tokens@,
            final(self).current < final(self).toks().len(),
            ({
                let p = sp_comparison(old(self).toks(), old(self).current as int);
                match r {
                    Result::Ok(e) => {
                        &&& p.res == Result::<ExprV, LoxErrorV>::Ok(e@)
                        &&& final(self).current as int == p.next
                        &&& old(self).current < final(self).current
                        &&& (toks_wf(old(self).toks()) ==> expr_wf(e@))
                    },
                    Result::Err(er) => p.res == Result::<ExprV, LoxErrorV>::Err(er@),
                }
            }),
        decreases old(self).toks().len() - old(self).current, 5int,
    {
        let expr = match self.term() {
            Result::Ok(e) => e,
            Result::Err(e) => {
                return Result::Err(e);
            },
        };
        self.comparison_rest(expr)
    }

    /// The left-associative tail at this precedence level.
    fn comparison_rest(&mut self, acc: Expr) -> (r: Result<Expr, LoxError>)
        requires
            tokens_ok(old(self).toks()),
            old(self).current < old(self).toks().len(),
        ensures
            final(self).tokens@ == old(self).tokens@,
            final(self).current < final(self).toks().len(),
            ({
                let p = sp_comparison_rest(old(self).toks(), old(self).current as int, acc@);
                match r {
                    Result::Ok(e) => {
                        &&& p.res == Result::<ExprV, LoxErrorV>::Ok(e@)
                        &&& final(self).current as int == p.next
                        &&& old(self).current <= final(self).current
                        &&& ((toks_wf(old(self).toks()) && expr_wf(acc@)) ==> expr_wf(e@))
                    },
                    Result::Err(er) => p.res == Result::<ExprV, LoxErrorV>::Err(er@),
                }
            }),
        decreases old(self).toks().len() - old(self).current, 5int,
    {
        let n = self.tokens.len();
        if self.check(TokenType::Greater) || self.check(TokenType::GreaterEqual) || self.check(TokenType::Less) || self.check(TokenType::LessEqual) {
            let operator = self.tokens[self.current].duplicate();
            self.current = self.current + 1;
            let right = match self.term() {
                Result::Ok(e) => e,
                Result::Err(e) => {
                    return Result::Err(e);
                },
            };
            let joined = Expr::Binary {
                left: Box::new(acc),
                operator,
                right: Box::new(right),
            };
            self.comparison_rest(joined)
        } else {
            Result::Ok(acc)
        }
    }

    /// equality := comparison ( ("!=" | "==") comparison )*
    #[verifier::rlimit(100)]
    pub fn equality(&mut self) -> (r: Result<Expr, LoxError>)
        requires
            tokens_ok(old(self).toks()),
            old(self).current < old(self).toks().len(),
        ensures
            final(self).tokens@ == old(self).tokens@,
            final(self).current < final(self).toks().len(),
            ({
                let p = sp_equality(old(self).toks(), old(self).current as int);
                match r {
                    Result::Ok(e) => {
                        &&& p.res == Result::<ExprV, LoxErrorV>::Ok(e@)
                        &&& final(self).current as int == p.next
                        &&& old(self).current < final(self).current
                        &&& (toks_wf(old(self).toks()) ==> expr_wf(e@))
                    },
                    Result::Err(er) => p.res == Result::<ExprV, LoxErrorV>::Err(er@),
                }
            }),
        decreases old(self).toks().len() - old(self).current, 6int,
    {
        let expr = match self.comparison() {
            Result::Ok(e) => e,
            Result::Err(e) => {
                return Result::Err(e);
            },
        };
        self.equality_rest(expr)
    }

    /// The left-associative tail at this precedence level.
    fn equality_rest(&mut self, acc: Expr) -> (r: Result<Expr, LoxError>)
        requires
            tokens_ok(old(self).toks()),
            old(self).current < old(self).toks().len(),
        ensures
            final(self).tokens@ == old(self).tokens@,
            final(self).current < final(self).toks().len(),
            ({
                let p = sp_equality_rest(old(self).toks(), old(self).current as int, acc@);
                match r {
                    Result::Ok(e) => {
                        &&& p.res == Result::<ExprV, LoxErrorV>::Ok(e@)
                        &&& final(self).current as int == p.next
                        &&& old(self).current <= final(self).current
                        &&& ((toks_wf(old(self).toks()) && expr_wf(acc@)) ==> expr_wf(e@))
                    },
                    Result::Err(er) => p.res == Result::<ExprV, LoxErrorV>::Err(er@),
                }
            }),
        decreases old(self).toks().len() - old(self).current, 6int,
    {
        let n = self.tokens.len();
        if self.check(TokenType::BangEqual) || self.check(TokenType::EqualEqual) {
            let operator = self.tokens[self.current].duplicate();
            self.current = self.current + 1;
            let right = match self.comparison() {
                Result::Ok(e) => e,
                Result::Err(e) => {
                    return Result::Err(e);
                },
            };
            let joined = Expr::Binary {
                left: Box::new(acc),
                operator,
                right: Box::new(right),
            };
            self.equality_rest(joined)
        } else {
            Result::Ok(acc)
        }
    }

    /// logic_and := equality ( "and" equality )*
    #[verifier::rlimit(100)]
    pub fn logic_and(&mut self) -> (r: Result<Expr, LoxError>)
        requires
            tokens_ok(old(self).toks()),
            old(self).current < old(self).toks().len(),
        ensures
            final(self).tokens@ == old(self).tokens@,
            final(self).current < final(self).toks().len(),
            ({
                let p = sp_logic_and(old(self).toks(), old(self).current as int);
                match r {
                    Result::Ok(e) => {
                        &&& p.res == Result::<ExprV, LoxErrorV>::Ok(e@)
                        &&& final(self).current as int == p.next
                        &&& old(self).current < final(self).current
                        &&& (toks_wf(old(self).toks()) ==> expr_wf(e@))
                    },
                    Result::Err(er) => p.res == Result::<ExprV, LoxErrorV>::Err(er@),
                }
            }),
        decreases old(self).toks().len() - old(self).current, 7int,
    {
        let expr = match self.equality() {
            Result::Ok(e) => e,
            Result::Err(e) => {
                return Result::Err(e);
            },
        };
        self.logic_and_rest(expr)
    }

    /// The left-associative tail at this precedence level.
    fn logic_and_rest(&mut self, acc: Expr) -> (r: Result<Expr, LoxError>)
        requires
            tokens_ok(old(self).toks()),
            old(self).current < old(self).toks().len(),
        ensures
            final(self).tokens@ == old(self).tokens@,
            final(self).current < final(self).toks().len(),
            ({
                let p = sp_logic_and_rest(old(self).toks(), old(self).current as int, acc@);
                match r {
                    Result::Ok(e) => {
                        &&& p.res == Result::<ExprV, LoxErrorV>::Ok(e@)
                        &&& final(self).current as int == p.next
                        &&& old(self).current <= final(self).current
                        &&& ((toks_wf(old(self).toks()) && expr_wf(acc@)) ==> expr_wf(e@))
                    },
                    Result::Err(er) => p.res == Result::<ExprV, LoxErrorV>::Err(er@),
                }
            }),
        decreases old(self).toks().len() - old(self).current, 7int,
    {
        let n = self.tokens.len();
        if self.check(TokenType::And) {
            let operator = self.tokens[self.current].duplicate();
            self.current = self.current + 1;
            let right = match self.equality() {
                Result::Ok(e) => e,
                Result::Err(e) => {
                    return Result::Err(e);
                },
            };
            let joined = Expr::Logical {
                left: Box::new(acc),
                operator,
                right: Box::new(right),
            };
            self.logic_and_rest(joined)
        } else {
            Result::Ok(acc)
        }
    }

    /// logic_or := logic_and ( "or" logic_and )*
    #[verifier::rlimit(100)]
    pub fn logic_or(&mut self) -> (r: Result<Expr, LoxError>)
        requires
            tokens_ok(old(self).toks()),
            old(self).current < old(self).toks().len(),
        ensures
            final(self).tokens@ == old(self).tokens@,
            final(self).current < final(self).toks().len(),
            ({
                let p = sp_logic_or(old(self).toks(), old(self).current as int);
                match r {
                    Result::Ok(e) => {
                        &&& p.res == Result::<ExprV, LoxErrorV>::Ok(e@)
                        &&& final(self).current as int == p.next
                        &&& old(self).current < final(self).current
                        &&& (toks_wf(old(self).toks()) ==> expr_wf(e@))
                    },
                    Result::Err(er) => p.res == Result::<ExprV, LoxErrorV>::Err(er@),
                }
            }),
        decreases old(self).toks().len() - old(self).current, 8int,
    {
        proof {
            lemma_sp_logic_or(old(self).toks(), old(self).current as int);
        }
        let expr = match self.logic_and() {
            Result::Ok(e) => e,
            Result::Err(e) => {
                return Result::Err(e);
            },
        };
        self.logic_or_rest(expr)
    }

    /// The left-associative tail at this precedence level.
    fn logic_or_rest(&mut self, acc: Expr) -> (r: Result<Expr, LoxError>)
        requires
            tokens_ok(old(self).toks()),
            old(self).current < old(self).toks().len(),
        ensures
            final(self).tokens@ == old(self).tokens@,
            final(self).current < final(self).toks().len(),
            ({
                let p = sp_logic_or_rest(old(self).toks(), old(self).current as int, acc@);
                match r {
                    Result::Ok(e) => {
                        &&& p.res == Result::<ExprV, LoxErrorV>::Ok(e@)
                        &&& final(self).current as int == p.next
                        &&& old(self).current <= final(self).current
                        &&& ((toks_wf(old(self).toks()) && expr_wf(acc@)) ==> expr_wf(e@))
                    },
                    Result::Err(er) => p.res == Result::<ExprV, LoxErrorV>::Err(er@),
                }
            }),
        decreases old(self).toks().len() - old(self).current, 8int,
    {
        let n = self.tokens.len();
        if self.check(TokenType::Or) {
            let operator = self.tokens[self.current].duplicate();
            self.current = self.current + 1;
            let right = match self.logic_and() {
                Result::Ok(e) => e,
                Result::Err(e) => {
                    return Result::Err(e);
                },
            };
            let joined = Expr::Logical {
                left: Box::new(acc),
                operator,
                right: Box::new(right),
            };
            self.logic_or_rest(joined)
        } else {
            Result::Ok(acc)
        }
    }

    /// assignment := IDENT "=" assignment | logic_or — right-associative;
    /// a target that is not a bare variable is a parse error at the `=`
    /// token's line.
    #[verifier::rlimit(100)]
    pub fn assignment(&mut self) -> (r: Result<Expr, LoxError>)
        requires
            tokens_ok(old(self).toks()),
            old(self).current < old(self).toks().len(),
        ensures
            final(self).tokens@ == old(self).tokens@,
            final(self).current < final(self).toks().len(),
            ({
                let p = sp_assignment(old(self).toks(), old(self).current as int);
                match r {
                    Result::Ok(e) => {
                        &&& p.res == Result::<ExprV, LoxErrorV>::Ok(e@)
                        &&& final(self).current as int == p.next
                        &&& old(self).current < final(self).current
                        &&& (toks_wf(old(self).toks()) ==> expr_wf(e@))
                    },
                    Result::Err(er) => p.res == Result::<ExprV, LoxErrorV>::Err(er@),
                }
            }),
        decreases old(self).toks().len() - old(self).current, 9int,
    {
        let expr = match self.logic_or() {
            Result::Ok(e) => e,
            Result::Err(e) => {
                proof {
                    lemma_sp_assignment_err(old(self).toks(), old(self).current as int);
                }
                return Result::Err(e);
            },
        };
        let n = self.tokens.len();
        if self.check(TokenType::Equal) {
            let equals = self.tokens[self.current].duplicate();
            self.current = self.current + 1;
            let value = match self.assignment() {
                Result::Ok(e) => e,
                Result::Err(e) => {
                    proof {
                        lemma_sp_assignment_eq(old(self).toks(), old(self).current as int);
                    }
                    return Result::Err(e);
                },
            };
            proof {
                lemma_sp_assignment_eq(old(self).toks(), old(self).current as int);
            }
            match expr {
                Expr::Variable { name } => {
                    return Result::Ok(Expr::Assign { name, value: Box::new(value) });
                },
                _ => {
                    proof {
                        reveal_strlit("Invalid assignment target.");
                    }
                    return Result::Err(
                        LoxError::ParseError {
                            msg: String::from_str("Invalid assignment target."),
                            line: equals.line,
                        },
                    );
                },
            }
        }
        proof {
            lemma_sp_assignment_no_eq(old(self).toks(), old(self).current as int);
        }
        Result::Ok(expr)
    }

    /// expression := assignment
    #[verifier::rlimit(100)]
    pub fn expression(&mut self) -> (r: Result<Expr, LoxError>)
        requires
            tokens_ok(old(self).toks()),
            old(self).current < old(self).toks().len(),
        ensures
            final(self).tokens@ == old(self).tokens@,
            final(self).current < final(self).toks().len(),
            ({
                let p = sp_expression(old(self).toks(), old(self).current as int);
                match r {
                    Result::Ok(e) => {
                        &&& p.res == Result::<ExprV, LoxErrorV>::Ok(e@)
                        &&& final(self).current as int == p.next
                        &&& old(self).current < final(self).current
                        &&& (toks_wf(old(self).toks()) ==> expr_wf(e@))
                    },
                    Result::Err(er) => p.res == Result::<ExprV, LoxErrorV>::Err(er@),
                }
            }),
        decreases old(self).toks().len() - old(self).current, 10int,
    {
        proof {
            lemma_sp_expression(old(self).toks(), old(self).current as int);
        }
        self.assignment()
    }

    /// The tail of a print statement, entered just after the `print`
    /// keyword: expression ";".
    #[verifier::rlimit(100)]
    #[verifier::spinoff_prover]
    pub fn print_statement(&mut self) -> (r: Result<Stmt, LoxError>)
        requires
            tokens_ok(old(self).toks()),
            old(self).current < old(self).toks().len(),
        ensures
            final(self).tokens@ == old(self).tokens@,
            final(self).current < final(self).toks().len(),
            ({
                let p = sp_print_statement(old(self).toks(), old(self).current as int);
                match r {
                    Result::Ok(st) => {
                        &&& p.res == Result::<StmtV, LoxErrorV>::Ok(st@)
                        &&& final(self).current as int == p.next
                        &&& old(self).current < final(self).current
                        &&& (toks_wf(old(self).toks()) ==> stmt_wf(st@))
                    },
                    Result::Err(er) => p.res == Result::<StmtV, LoxErrorV>::Err(er@),
                }
            }),
        decreases old(self).toks().len() - old(self).current, 11int,
    {
        let expr = match self.expression() {
            Result::Ok(e) => e,
            Result::Err(e) => {
                return Result::Err(e);
            },
        };
        let n = self.tokens.len();
        if self.check(TokenType::Semicolon) {
            self.current = self.current + 1;
            Result::Ok(Stmt::Print { expression: expr })
        } else {
            let line = self.tokens[self.current].line;
            Result::Err(
                LoxError::ParseError { msg: String::from_str("Expect ';' after value."), line },
            )
        }
    }

    /// An expression statement: expression ";".
    #[verifier::rlimit(100)]
    #[verifier::spinoff_prover]
    pub fn expression_statement(&mut self) -> (r: Result<Stmt, LoxError>)
        requires
            tokens_ok(old(self).toks()),
            old(self).current < old(self).toks().len(),
        ensures
            final(self).tokens@ == old(self).tokens@,
            final(self).current < final(self).toks().len(),
            ({
                let p = sp_expression_statement(old(self).toks(), old(self).current as int);
                match r {
                    Result::Ok(st) => {
                        &&& p.res == Result::<StmtV, LoxErrorV>::Ok(st@)
                        &&& final(self).current as int == p.next
                        &&& old(self).current < final(self).current
                        &&& (toks_wf(old(self).toks()) ==> stmt_wf(st@))
                    },
                    Result::Err(er) => p.res == Result::<StmtV, LoxErrorV>::Err(er@),
                }
            }),
        decreases old(self).toks().len() - old(self).current, 11int,
    {
        let expr = match self.expression() {
            Result::Ok(e) => e,
            Result::Err(e) => {
                return Result::Err(e);
            },
        };
        let n = self.tokens.len();
        if self.check(TokenType::Semicolon) {
            self.current = self.current + 1;
            Result::Ok(Stmt::Expression { expression: expr })
        } else {
            let line = self.tokens[self.current].line;
            Result::Err(
                LoxError::ParseError {
                    msg: String::from_str("Expect ';' after expression."),
                    line,
                },
            )
        }
    }

    /// statement := if | while | print | block | expression-statement
    #[verifier::rlimit(100)]
    #[verifier::spinoff_prover]
    pub fn statement(&mut self) -> (r: Result<Stmt, LoxError>)
        requires
            tokens_ok(old(self).toks()),
            old(self).current < old(self).toks().len(),
        ensures
            final(self).tokens@ == old(self).tokens@,
            final(self).current < final(self).toks().len(),
            ({
                let p = sp_statement(old(self).toks(), old(self).current as int);
                match r {
                    Result::Ok(st) => {
                        &&& p.res == Result::<StmtV, LoxErrorV>::Ok(st@)
                        &&& final(self).current as int == p.next
                        &&& old(self).current < final(self).current
                        &&& (toks_wf(old(self).toks()) ==> stmt_wf(st@))
                    },
                    Result::Err(er) => p.res == Result::<StmtV, LoxErrorV>::Err(er@),
                }
            }),
        decreases old(self).toks().len() - old(self).current, 12int,
    {
        proof {
            lemma_sp_statement(old(self).toks(), old(self).current as int);
        }
        let n0 = self.tokens.len();
        let k = self.tokens[self.current].kind;
        if matches!(k, TokenType::Print) {
            self.current = self.current + 1;
            return self.print_statement();
        }
        if matches!(k, TokenType::LeftBrace) {
            self.current = self.current + 1;
            proof {
                assert(stmts_view(Seq::<Stmt>::empty()) =~= Seq::<StmtV>::empty());
            }
            let items = match self.block_rest(Vec::new()) {
                Result::Ok(v) => v,
                Result::Err(e) => {
                    return Result::Err(e);
                },
            };
            let n = self.tokens.len();
            if self.check(TokenType::RightBrace) {
                self.current = self.current + 1;
                return Result::Ok(Stmt::Block { statements: items });
            } else {
                let line = self.tokens[self.current].line;
                return Result::Err(
                    LoxError::ParseError {
                        msg: String::from_str("Expect '}' after block."),
                        line,
                    },
                );
            }
        }
        if matches!(k, TokenType::If) {
            self.current = self.current + 1;
            return self.if_statement();
        }
        if matches!(k, TokenType::While) {
            self.current = self.current + 1;
            return self.while_statement();
        }
        self.expression_statement()
    }

    /// The tail of an if statement, entered just after the `if` keyword:
    /// "(" expression ")" statement ("else" statement)?.
    #[verifier::rlimit(100)]
    #[verifier::spinoff_prover]
    fn if_statement(&mut self) -> (r: Result<Stmt, LoxError>)
        requires
            tokens_ok(old(self).toks()),
            0 < old(self).current < old(self).toks().len(),
            old(self).toks()[old(self).current - 1].kind == TokenType::If,
        ensures
            final(self).tokens@ == old(self).tokens@,
            final(self).current < final(self).toks().len(),
            ({
                let p = sp_if_statement(old(self).toks(), old(self).current as int);
                match r {
                    Result::Ok(st) => {
                        &&& p.res == Result::<StmtV, LoxErrorV>::Ok(st@)
                        &&& final(self).current as int == p.next
                        &&& old(self).current - 1 < final(self).current
                        &&& (toks_wf(old(self).toks()) ==> stmt_wf(st@))
                    },
                    Result::Err(er) => p.res == Result::<StmtV, LoxErrorV>::Err(er@),
                }
            }),
        decreases old(self).toks().len() - old(self).current, 11int,
    {
        let n0 = self.tokens.len();
        if !self.check(TokenType::LeftParen) {
            let line = self.tokens[self.current].line;
            return Result::Err(
                LoxError::ParseError { msg: String::from_str("Expect '(' after 'if'."), line },
            );
        }
        self.current = self.current + 1;
        let condition = match self.expression() {
            Result::Ok(e) => e,
            Result::Err(e) => {
                return Result::Err(e);
            },
        };
        if !self.check(TokenType::RightParen) {
            let line = self.tokens[self.current].line;
            return Result::Err(
                LoxError::ParseError {
                    msg: String::from_str("Expect ')' after condition."),
                    line,
                },
            );
        }
        let n1 = self.tokens.len();
        self.current = self.current + 1;
        let then_branch = match self.statement() {
            Result::Ok(st) => st,
            Result::Err(e) => {
                return Result::Err(e);
            },
        };
        if self.matches(TokenType::Else) {
            let else_branch = match self.statement() {
                Result::Ok(st) => st,
                Result::Err(e) => {
                    return Result::Err(e);
                },
            };
            Result::Ok(
                Stmt::If {
                    condition,
                    then_branch: Box::new(then_branch),
                    else_branch: Option::Some(Box::new(else_branch)),
                },
            )
        } else {
            Result::Ok(
                Stmt::If {
                    condition,
                    then_branch: Box::new(then_branch),
                    else_branch: Option::None,
                },
            )
        }
    }

    /// The tail of a while statement, entered just after the `while`
    /// keyword: "(" expression ")" statement.
    #[verifier::rlimit(100)]
    #[verifier::spinoff_prover]
    fn while_statement(&mut self) -> (r: Result<Stmt, LoxError>)
        requires
            tokens_ok(old(self).toks()),
            0 < old(self).current < old(self).toks().len(),
            old(self).toks()[old(self).current - 1].kind == TokenType::While,
        ensures
            final(self).tokens@ == old(self).tokens@,
            final(self).current < final(self).toks().len(),
            ({
                let p = sp_while_statement(old(self).toks(), old(self).current as int);
                match r {
                    Result::Ok(st) => {
                        &&& p.res == Result::<StmtV, LoxErrorV>::Ok(st@)
                        &&& final(self).current as int == p.next
                        &&& old(self).current - 1 < final(self).current
                        &&& (toks_wf(old(self).toks()) ==> stmt_wf(st@))
                    },
                    Result::Err(er) => p.res == Result::<StmtV, LoxErrorV>::Err(er@),
                }
            }),
        decreases old(self).toks().len() - old(self).current, 11int,
    {
        let n0 = self.tokens.len();
        if !self.check(TokenType::LeftParen) {
            let line = self.tokens[self.current].line;
            return Result::Err(
                LoxError::ParseError {
                    msg: String::from_str("Expect '(' after 'while'."),
                    line,
                },
            );
        }
        self.current = self.current + 1;
        let condition = match self.expression() {
            Result::Ok(e) => e,
            Result::Err(e) => {
                return Result::Err(e);
            },
        };
        if !self.check(TokenType::RightParen) {
            let line = self.tokens[self.current].line;
            return Result::Err(
                LoxError::ParseError {
                    msg: String::from_str("Expect ')' after condition."),
                    line,
                },
            );
        }
        let n1 = self.tokens.len();
        self.current = self.current + 1;
        let body = match self.statement() {
            Result::Ok(st) => st,
            Result::Err(e) => {
                return Result::Err(e);
            },
        };
        let result_stmt = Stmt::While { condition, body: Box::new(body) };
        Result::Ok(result_stmt)
    }

    /// The tail of a variable declaration, entered just after the `var`
    /// keyword: IDENT ("=" expression)? ";". A missing initializer leaves
    /// the name unbound rather than bound to nil.
    #[verifier::rlimit(100)]
    #[verifier::spinoff_prover]
    pub fn var_declaration(&mut self) -> (r: Result<Stmt, LoxError>)
        requires
            tokens_ok(old(self).toks()),
            old(self).current < old(self).toks().len(),
        ensures
            final(self).tokens@ == old(self).tokens@,
            final(self).current < final(self).toks().len(),
            ({
                let p = sp_var_declaration(old(self).toks(), old(self).current as int);
                match r {
                    Result::Ok(st) => {
                        &&& p.res == Result::<StmtV, LoxErrorV>::Ok(st@)
                        &&& final(self).current as int == p.next
                        &&& old(self).current < final(self).current
                        &&& (toks_wf(old(self).toks()) ==> stmt_wf(st@))
                    },
                    Result::Err(er) => p.res == Result::<StmtV, LoxErrorV>::Err(er@),
                }
            }),
        decreases old(self).toks().len() - old(self).current, 12int,
    {
        let n0 = self.tokens.len();
        if !self.check(TokenType::Identifier) {
            let line = self.tokens[self.current].line;
            return Result::Err(
                LoxError::ParseError { msg: String::from_str("Expect variable name."), line },
            );
        }
        let name = self.tokens[self.current].duplicate();
        self.current = self.current + 1;
        if self.check(TokenType::Equal) {
            self.current = self.current + 1;
            let value = match self.expression() {
                Result::Ok(e) => e,
                Result::Err(e) => {
                    return Result::Err(e);
                },
            };
            let n = self.tokens.len();
            if self.check(TokenType::Semicolon) {
                self.current = self.current + 1;
                Result::Ok(Stmt::Var { name, initializer: Option::Some(value) })
            } else {
                let line = self.tokens[self.current].line;
                Result::Err(
                    LoxError::ParseError {
                        msg: String::from_str("Expect ';' after variable declaration."),
                        line,
                    },
                )
            }
        } else {
            if self.check(TokenType::Semicolon) {
                self.current = self.current + 1;
                Result::Ok(Stmt::Var { name, initializer: Option::None })
            } else {
                let line = self.tokens[self.current].line;
                Result::Err(
                    LoxError::ParseError {
                        msg: String::from_str("Expect ';' after variable declaration."),
                        line,
                    },
                )
            }
        }
    }

    /// declaration := "var" var-declaration | statement
    #[verifier::rlimit(100)]
    #[verifier::spinoff_prover]
    pub fn declaration(&mut self) -> (r: Result<Stmt, LoxError>)
        requires
            tokens_ok(old(self).toks()),
            old(self).current < old(self).toks().len(),
        ensures
            final(self).tokens@ == old(self).tokens@,
            final(self).current < final(self).toks().len(),
            ({
                let p = sp_declaration(old(self).toks(), old(self).current as int);
                match r {
                    Result::Ok(st) => {
                        &&& p.res == Result::<StmtV, LoxErrorV>::Ok(st@)
                        &&& final(self).current as int == p.next
                        &&& old(self).current < final(self).current
                        &&& (toks_wf(old(self).toks()) ==> stmt_wf(st@))
                    },
                    Result::Err(er) => p.res == Result::<StmtV, LoxErrorV>::Err(er@),
                }
            }),
        decreases old(self).toks().len() - old(self).current, 13int,
    {
        if self.matches(TokenType::Var) {
            self.var_declaration()
        } else {
            self.statement()
        }
    }

    /// The declarations of a block body, accumulated until the closing
    /// brace or the end of input.
    #[verifier::rlimit(100)]
    #[verifier::spinoff_prover]
    fn block_rest(&mut self, acc: Vec<Stmt>) -> (r: Result<Vec<Stmt>, LoxError>)
        requires
            tokens_ok(old(self).toks()),
            old(self).current < old(self).toks().len(),
        ensures
            final(self).tokens@ == old(self).tokens@,
            final(self).current < final(self).toks().len(),
            ({
                let p = sp_block_rest(old(self).toks(), old(self).current as int, stmts_view(acc@));
                match r {
                    Result::Ok(v) => {
                        &&& p.res == Result::<Seq<StmtV>, LoxErrorV>::Ok(stmts_view(v@))
                        &&& final(self).current as int == p.next
                        &&& old(self).current <= final(self).current
                        &&& ((toks_wf(old(self).toks()) && stmts_wf(stmts_view(acc@)))
                            ==> stmts_wf(stmts_view(v@)))
                    },
                    Result::Err(er) => p.res == Result::<Seq<StmtV>, LoxErrorV>::Err(er@),
                }
            }),
        decreases old(self).toks().len() - old(self).current, 14int,
    {
        if self.check(TokenType::RightBrace) || self.is_at_end() {
            return Result::Ok(acc);
        }
        let ghost acc0 = acc@;
        let d = match self.declaration() {
            Result::Ok(st) => st,
            Result::Err(e) => {
                return Result::Err(e);
            },
        };
        proof {
            lemma_stmts_view_push(acc0, d);
            if toks_wf(old(self).toks()) && stmts_wf(stmts_view(acc0)) {
                lemma_stmts_wf_push(stmts_view(acc0), d@);
            }
        }
        let mut acc2 = acc;
        acc2.push(d);
        self.block_rest(acc2)
    }

    /// The declarations of a whole program, accumulated up to the
    /// end-of-input token.
    #[verifier::rlimit(100)]
    #[verifier::spinoff_prover]
    fn program_rest(&mut self, acc: Vec<Stmt>) -> (r: Result<Vec<Stmt>, LoxError>)
        requires
            tokens_ok(old(self).toks()),
            old(self).current < old(self).toks().len(),
        ensures
            final(self).tokens@ == old(self).tokens@,
            final(self).current < final(self).toks().len(),
            ({
                let p = sp_program_rest(
                    old(self).toks(),
                    old(self).current as int,
                    stmts_view(acc@),
                );
                match r {
                    Result::Ok(v) => {
                        &&& p.res == Result::<Seq<StmtV>, LoxErrorV>::Ok(stmts_view(v@))
                        &&& final(self).current as int == p.next
                        &&& old(self).current <= final(self).current
                        &&& ((toks_wf(old(self).toks()) && stmts_wf(stmts_view(acc@)))
                            ==> stmts_wf(stmts_view(v@)))
                    },
                    Result::Err(er) => p.res == Result::<Seq<StmtV>, LoxErrorV>::Err(er@),
                }
            }),
        decreases old(self).toks().len() - old(self).current, 15int,
    {
        if self.is_at_end() {
            return Result::Ok(acc);
        }
        let ghost acc0 = acc@;
        let d = match self.declaration() {
            Result::Ok(st) => st,
            Result::Err(e) => {
                return Result::Err(e);
            },
        };
        proof {
            lemma_stmts_view_push(acc0, d);
            if toks_wf(old(self).toks()) && stmts_wf(stmts_view(acc0)) {
                lemma_stmts_wf_push(stmts_view(acc0), d@);
            }
        }
        let mut acc2 = acc;
        acc2.push(d);
        self.program_rest(acc2)
    }

    /// Parses the whole program: declarations up to the end-of-input
    /// token, stopped at the first parse error.
    #[verifier::rlimit(100)]
    #[verifier::spinoff_prover]
    pub fn parse(&mut self) -> (r: Result<Vec<Stmt>, LoxError>)
        requires
            tokens_ok(old(self).toks()),
            old(self).current < old(self).toks().len(),
        ensures
            final(self).tokens@ == old(self).tokens@,
            ({
                let p = sp_parse(old(self).toks(), old(self).current as int);
                match r {
                    Result::Ok(stmts) => {
                        &&& p.res == Result::<Seq<StmtV>, LoxErrorV>::Ok(stmts_view(stmts@))
                        &&& (toks_wf(old(self).toks()) ==> stmts_wf(stmts_view(stmts@)))
                    },
                    Result::Err(er) => p.res == Result::<Seq<StmtV>, LoxErrorV>::Err(er@),
                }
            }),
    {
        proof {
            assert(stmts_view(Seq::<Stmt>::empty()) =~= Seq::<StmtV>::empty());
        }
        self.program_rest(Vec::new())
    }

    /// Panic-mode recovery: discards tokens up to just past the next
    /// semicolon, or to the next token that begins a declaration or
    /// statement, so a later parse can resume at a clean boundary.
    pub fn synchronize(&mut self)
        requires
            tokens_ok(old(self).toks()),
            old(self).current < old(self).toks().len(),
        ensures
            final(self).tokens@ == old(self).tokens@,
            final(self).current < final(self).toks().len(),
            final(self).current as int == sp_sync(old(self).toks(), old(self).current as int),
    {
        let ghost ts = old(self).toks();
        let _ = self.advance();
        let ghost start = self.current as int;
        while !self.is_at_end()
            invariant
                tokens_ok(ts),
                self.toks() == ts,
                self.tokens@ == old(self).tokens@,
                0 < self.current || self.toks()[self.current as int].kind == TokenType::Eof,
                self.current < ts.len(),
                sp_sync_loop(ts, self.current as int) == sp_sync_loop(ts, start),
                sp_sync(ts, old(self).current as int) == sp_sync_loop(ts, start),
            decreases ts.len() - self.current,
        {
            if self.previous().kind == TokenType::Semicolon {
                return;
            }
            let k = self.tokens[self.current].kind;
            if matches!(k, TokenType::Class) || matches!(k, TokenType::Fun) || matches!(
                k,
                TokenType::Var,
            ) || matches!(k, TokenType::For) || matches!(k, TokenType::If) || matches!(
                k,
                TokenType::While,
            ) || matches!(k, TokenType::Print) || matches!(k, TokenType::Return) {
                return;
            }
            let _ = self.advance();
        }
    }
}

} // verus!

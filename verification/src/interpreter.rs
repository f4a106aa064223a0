//! The tree-walking evaluator: expression evaluation with typed runtime
//! semantics, statement execution for effect, and the fuel-indexed big-step
//! semantics the executable interpreter is proved against. Print output is
//! collected as lines of text; running out of fuel is reported as its own
//! outcome so that a runaway loop is the caller's decision, not a hang of
//! the verified core.

use vstd::prelude::*;
use crate::ast::{
    Expr, ExprV, LoxLiteral, LoxLiteralV, LoxValue, LoxValueV, Stmt, StmtV, expr_wf, stmt_wf,
    stmts_wf, stmts_view, kind_text_of, expr_view, stmt_view, lemma_stmts_view_index,
    lemma_stmts_view_len, lemma_stmts_wf_index,
};
use crate::environment::{
    Environment, EnvV, env_wf, env_lookup, env_assign_from, env_define, env_enter, env_leave,
    env_init, undefined_error, parents_ok, lemma_assign_from_props,
};
use crate::error::{LoxError, LoxErrorV};
use crate::numeric::{
    num_eq_v, num_lt_v, num_le_v, num_neg_v, add_bits, sub_bits, mul_bits, div_bits, text_of_num,
    num_eq, num_lt, num_le, num_neg, num_add, num_sub, num_mul, num_div, number_text,
};
use crate::token::{TokenType, TokenV, LoxType, LoxTypeV};

verus! {

/// Truthiness: nil and false are falsy; every other value is truthy.
pub open spec fn truthy(v: LoxValueV) -> bool {
    match v {
        LoxValueV::Nil => false,
        LoxValueV::Bool(b) => b,
        _ => true,
    }
}

/// Structural equality between values: nil equals only nil, booleans and
/// strings equal same-kind values with equal payload, numbers follow IEEE
/// equality, and values of different kinds are never equal.
pub open spec fn val_eq(l: LoxValueV, r: LoxValueV) -> bool {
    match (l, r) {
        (LoxValueV::Nil, LoxValueV::Nil) => true,
        (LoxValueV::Bool(a), LoxValueV::Bool(b)) => a == b,
        (LoxValueV::String(a), LoxValueV::String(b)) => a == b,
        (LoxValueV::Number(a), LoxValueV::Number(b)) => num_eq_v(a, b),
        _ => false,
    }
}

/// The text a value prints as: strings pass through, numbers take their
/// decimal text form, booleans and nil their literal spellings.
pub open spec fn stringify_v(v: LoxValueV) -> Seq<char> {
    match v {
        LoxValueV::String(s) => s,
        LoxValueV::Number(n) => text_of_num(n),
        LoxValueV::Bool(b) => if b {
            seq!['t', 'r', 'u', 'e']
        } else {
            seq!['f', 'a', 'l', 's', 'e']
        },
        LoxValueV::Nil => seq!['n', 'i', 'l'],
    }
}

/// The value a literal node evaluates to.
pub open spec fn literal_value(l: LoxLiteralV) -> LoxValueV {
    match l {
        LoxLiteralV::String(s) => LoxValueV::String(s),
        LoxLiteralV::Number(n) => LoxValueV::Number(n),
        LoxLiteralV::Bool(b) => LoxValueV::Bool(b),
        LoxLiteralV::Nil => LoxValueV::Nil,
    }
}

/// The message of the unary-minus type error.
pub open spec fn must_be_number_msg(v: LoxValueV) -> Seq<char> {
    kind_text_of(v) + " must be a number."@
}

/// The message of the binary arithmetic and comparison type error.
pub open spec fn must_be_numbers_msg(l: LoxValueV, r: LoxValueV) -> Seq<char> {
    kind_text_of(l) + " and "@ + kind_text_of(r) + " must be numbers."@
}

/// The message of the `+` operand type error.
pub open spec fn plus_operands_msg(l: LoxValueV, r: LoxValueV) -> Seq<char> {
    kind_text_of(l) + " and "@ + kind_text_of(r) + " must both be numbers or both be strings."@
}

/// The outcome of evaluating an expression: a value or a runtime error,
/// together with the environment as evaluation left it.
#[verifier::ext_equal]
pub struct EvalR {
    pub res: Result<LoxValueV, LoxErrorV>,
    pub env: EnvV,
}

/// What a binary operator yields on two evaluated operands.
pub open spec fn binary_value(op: TokenV, l: LoxValueV, r: LoxValueV) -> Result<
    LoxValueV,
    LoxErrorV,
> {
    match op.kind {
        TokenType::BangEqual => Result::Ok(LoxValueV::Bool(!val_eq(l, r))),
        TokenType::EqualEqual => Result::Ok(LoxValueV::Bool(val_eq(l, r))),
        TokenType::Greater => match (l, r) {
            (LoxValueV::Number(a), LoxValueV::Number(b)) => Result::Ok(
                LoxValueV::Bool(num_lt_v(b, a)),
            ),
            _ => Result::Err(
                LoxErrorV::RunTimeError { msg: must_be_numbers_msg(l, r), line: op.line },
            ),
        },
        TokenType::GreaterEqual => match (l, r) {
            (LoxValueV::Number(a), LoxValueV::Number(b)) => Result::Ok(
                LoxValueV::Bool(num_le_v(b, a)),
            ),
            _ => Result::Err(
                LoxErrorV::RunTimeError { msg: must_be_numbers_msg(l, r), line: op.line },
            ),
        },
        TokenType::Less => match (l, r) {
            (LoxValueV::Number(a), LoxValueV::Number(b)) => Result::Ok(
                LoxValueV::Bool(num_lt_v(a, b)),
            ),
            _ => Result::Err(
                LoxErrorV::RunTimeError { msg: must_be_numbers_msg(l, r), line: op.line },
            ),
        },
        TokenType::LessEqual => match (l, r) {
            (LoxValueV::Number(a), LoxValueV::Number(b)) => Result::Ok(
                LoxValueV::Bool(num_le_v(a, b)),
            ),
            _ => Result::Err(
                LoxErrorV::RunTimeError { msg: must_be_numbers_msg(l, r), line: op.line },
            ),
        },
        TokenType::Minus => match (l, r) {
            (LoxValueV::Number(a), LoxValueV::Number(b)) => Result::Ok(
                LoxValueV::Number(sub_bits(a, b)),
            ),
            _ => Result::Err(
                LoxErrorV::RunTimeError { msg: must_be_numbers_msg(l, r), line: op.line },
            ),
        },
        TokenType::Plus => match (l, r) {
            (LoxValueV::Number(a), LoxValueV::Number(b)) => Result::Ok(
                LoxValueV::Number(add_bits(a, b)),
            ),
            (LoxValueV::String(a), LoxValueV::String(b)) => Result::Ok(LoxValueV::String(a + b)),
            _ => Result::Err(
                LoxErrorV::RunTimeError { msg: plus_operands_msg(l, r), line: op.line },
            ),
        },
        TokenType::Slash => match (l, r) {
            (LoxValueV::Number(a), LoxValueV::Number(b)) => Result::Ok(
                LoxValueV::Number(div_bits(a, b)),
            ),
            _ => Result::Err(
                LoxErrorV::RunTimeError { msg: must_be_numbers_msg(l, r), line: op.line },
            ),
        },
        TokenType::Star => match (l, r) {
            (LoxValueV::Number(a), LoxValueV::Number(b)) => Result::Ok(
                LoxValueV::Number(mul_bits(a, b)),
            ),
            _ => Result::Err(
                LoxErrorV::RunTimeError { msg: must_be_numbers_msg(l, r), line: op.line },
            ),
        },
        _ => Result::Ok(LoxValueV::Nil),
    }
}

/// What a unary operator yields on an evaluated operand.
pub open spec fn unary_value(op: TokenV, v: LoxValueV) -> Result<LoxValueV, LoxErrorV> {
    match op.kind {
        TokenType::Bang => Result::Ok(LoxValueV::Bool(!truthy(v))),
        TokenType::Minus => match v {
            LoxValueV::Number(n) => Result::Ok(LoxValueV::Number(num_neg_v(n))),
            _ => Result::Err(
                LoxErrorV::RunTimeError { msg: must_be_number_msg(v), line: op.line },
            ),
        },
        _ => Result::Ok(LoxValueV::Nil),
    }
}

/// The big-step semantics of expression evaluation. Subexpressions are
/// evaluated left to right; an error aborts the expression but keeps the
/// environment as it stood at the point of error.
pub open spec fn spec_eval(e: ExprV, env: EnvV) -> EvalR
    decreases e,
{
    match e {
        ExprV::Literal { value } => EvalR { res: Result::Ok(literal_value(value)), env },
        ExprV::Grouping { expression } => spec_eval(*expression, env),
        ExprV::Variable { name } => match env_lookup(env, name.literal->Id_0) {
            Option::Some(v) => EvalR { res: Result::Ok(v), env },
            Option::None => EvalR { res: Result::Err(undefined_error(name)), env },
        },
        ExprV::Assign { name, value } => {
            let r = spec_eval(*value, env);
            match r.res {
                Result::Ok(v) => match env_assign_from(
                    r.env.scopes,
                    r.env.current,
                    name.literal->Id_0,
                    v,
                ) {
                    Option::Some(sc2) => EvalR {
                        res: Result::Ok(v),
                        env: EnvV { scopes: sc2, current: r.env.current },
                    },
                    Option::None => EvalR {
                        res: Result::Err(undefined_error(name)),
                        env: r.env,
                    },
                },
                Result::Err(_) => r,
            }
        },
        ExprV::Logical { left, operator, right } => {
            let lr = spec_eval(*left, env);
            match lr.res {
                Result::Ok(lv) => {
                    if operator.kind == TokenType::Or {
                        if truthy(lv) {
                            lr
                        } else {
                            spec_eval(*right, lr.env)
                        }
                    } else {
                        if !truthy(lv) {
                            lr
                        } else {
                            spec_eval(*right, lr.env)
                        }
                    }
                },
                Result::Err(_) => lr,
            }
        },
        ExprV::Unary { operator, right } => {
            let rr = spec_eval(*right, env);
            match rr.res {
                Result::Ok(rv) => EvalR { res: unary_value(operator, rv), env: rr.env },
                Result::Err(_) => rr,
            }
        },
        ExprV::Binary { left, operator, right } => {
            let lr = spec_eval(*left, env);
            match lr.res {
                Result::Ok(lv) => {
                    let rr = spec_eval(*right, lr.env);
                    match rr.res {
                        Result::Ok(rv) => EvalR {
                            res: binary_value(operator, lv, rv),
                            env: rr.env,
                        },
                        Result::Err(_) => rr,
                    }
                },
                Result::Err(_) => lr,
            }
        },
        _ => EvalR { res: Result::Ok(LoxValueV::Nil), env },
    }
}

/// Evaluation keeps the arena's length, the current scope and the parent
/// links, so a well-formed environment stays well formed.
pub proof fn lemma_spec_eval_shape(e: ExprV, env: EnvV)
    requires
        env_wf(env),
    ensures
        ({
            let r = spec_eval(e, env);
            &&& r.env.scopes.len() == env.scopes.len()
            &&& r.env.current == env.current
            &&& forall|j: int|
                0 <= j < env.scopes.len() ==> (#[trigger] r.env.scopes[j]).parent
                    == env.scopes[j].parent
            &&& env_wf(r.env)
        }),
    decreases e,
{
    match e {
        ExprV::Grouping { expression } => {
            lemma_spec_eval_shape(*expression, env);
        },
        ExprV::Assign { name, value } => {
            lemma_spec_eval_shape(*value, env);
            let r = spec_eval(*value, env);
            match r.res {
                Result::Ok(v) => {
                    lemma_assign_from_props(r.env.scopes, r.env.current, name.literal->Id_0, v);
                },
                Result::Err(_) => {},
            }
        },
        ExprV::Logical { left, operator, right } => {
            lemma_spec_eval_shape(*left, env);
            let lr = spec_eval(*left, env);
            if lr.res is Ok {
                lemma_spec_eval_shape(*right, lr.env);
            }
        },
        ExprV::Unary { operator, right } => {
            lemma_spec_eval_shape(*right, env);
        },
        ExprV::Binary { left, operator, right } => {
            lemma_spec_eval_shape(*left, env);
            let lr = spec_eval(*left, env);
            if lr.res is Ok {
                lemma_spec_eval_shape(*right, lr.env);
            }
        },
        _ => {},
    }
}

/// The full interpreter state: the environment and the lines printed so
/// far.
#[verifier::ext_equal]
pub struct StateV {
    pub env: EnvV,
    pub out: Seq<Seq<char>>,
}

/// How the execution of statements came out.
pub enum XKind {
    /// Every statement ran.
    Done,
    /// A runtime error aborted the remainder.
    Fail(LoxErrorV),
    /// The fuel budget ran out inside a loop.
    Out,
}

/// The outcome of executing statements: how it ended, the state it left,
/// and the fuel it did not consume.
#[verifier::ext_equal]
pub struct XRes {
    pub kind: XKind,
    pub st: StateV,
    pub fuel: nat,
}

/// The big-step semantics of one statement, indexed by the fuel that
/// bounds how many times loop bodies may run.
pub open spec fn spec_exec(s: StmtV, st: StateV, fuel: nat) -> XRes
    decreases fuel, s,
{
    match s {
        StmtV::Expression { expression } => {
            let r = spec_eval(expression, st.env);
            match r.res {
                Result::Ok(_) => XRes {
                    kind: XKind::Done,
                    st: StateV { env: r.env, out: st.out },
                    fuel,
                },
                Result::Err(er) => XRes {
                    kind: XKind::Fail(er),
                    st: StateV { env: r.env, out: st.out },
                    fuel,
                },
            }
        },
        StmtV::Print { expression } => {
            let r = spec_eval(expression, st.env);
            match r.res {
                Result::Ok(v) => XRes {
                    kind: XKind::Done,
                    st: StateV { env: r.env, out: st.out.push(stringify_v(v)) },
                    fuel,
                },
                Result::Err(er) => XRes {
                    kind: XKind::Fail(er),
                    st: StateV { env: r.env, out: st.out },
                    fuel,
                },
            }
        },
        StmtV::Var { name, initializer } => match initializer {
            Option::Some(e) => {
                let r = spec_eval(e, st.env);
                match r.res {
                    Result::Ok(v) => XRes {
                        kind: XKind::Done,
                        st: StateV {
                            env: env_define(r.env, name.literal->Id_0, v),
                            out: st.out,
                        },
                        fuel,
                    },
                    Result::Err(er) => XRes {
                        kind: XKind::Fail(er),
                        st: StateV { env: r.env, out: st.out },
                        fuel,
                    },
                }
            },
            Option::None => XRes { kind: XKind::Done, st, fuel },
        },
        StmtV::Block { statements } => {
            let entered = env_enter(st.env, st.env.current);
            let r = spec_exec_list(statements, StateV { env: entered, out: st.out }, fuel);
            XRes {
                kind: r.kind,
                st: StateV {
                    env: env_leave(r.st.env, st.env.current, st.env.scopes.len() as int),
                    out: r.st.out,
                },
                fuel: r.fuel,
            }
        },
        StmtV::If { condition, then_branch, else_branch } => {
            let r = spec_eval(condition, st.env);
            match r.res {
                Result::Ok(v) => {
                    let st2 = StateV { env: r.env, out: st.out };
                    if truthy(v) {
                        spec_exec(*then_branch, st2, fuel)
                    } else {
                        match else_branch {
                            Option::Some(b) => spec_exec(*b, st2, fuel),
                            Option::None => XRes { kind: XKind::Done, st: st2, fuel },
                        }
                    }
                },
                Result::Err(er) => XRes {
                    kind: XKind::Fail(er),
                    st: StateV { env: r.env, out: st.out },
                    fuel,
                },
            }
        },
        StmtV::While { condition, body } => {
            if fuel == 0 {
                XRes { kind: XKind::Out, st, fuel: 0 }
            } else {
                let f1 = (fuel - 1) as nat;
                let r = spec_eval(condition, st.env);
                match r.res {
                    Result::Ok(v) => {
                        let st2 = StateV { env: r.env, out: st.out };
                        if !truthy(v) {
                            XRes { kind: XKind::Done, st: st2, fuel: f1 }
                        } else {
                            let rb = spec_exec(*body, st2, f1);
                            match rb.kind {
                                XKind::Done => {
                                    let f2 = if rb.fuel < fuel {
                                        rb.fuel
                                    } else {
                                        f1
                                    };
                                    spec_exec(s, rb.st, f2)
                                },
                                _ => rb,
                            }
                        }
                    },
                    Result::Err(er) => XRes {
                        kind: XKind::Fail(er),
                        st: StateV { env: r.env, out: st.out },
                        fuel: f1,
                    },
                }
            }
        },
        _ => XRes { kind: XKind::Done, st, fuel },
    }
}

/// The big-step semantics of a statement sequence, run in order and
/// stopped by the first failure or by exhausted fuel.
pub open spec fn spec_exec_list(ss: Seq<StmtV>, st: StateV, fuel: nat) -> XRes
    decreases fuel, ss,
{
    if ss.len() == 0 {
        XRes { kind: XKind::Done, st, fuel }
    } else {
        let r = spec_exec(ss[0], st, fuel);
        match r.kind {
            XKind::Done => {
                let f2 = if r.fuel < fuel {
                    r.fuel
                } else {
                    fuel
                };
                spec_exec_list(ss.drop_first(), r.st, f2)
            },
            _ => r,
        }
    }
}

/// Statement execution hands back no more fuel than it got, restores the
/// arena's length, current scope and parent links, and keeps the output it
/// started with as a prefix.
pub proof fn lemma_spec_exec_shape(s: StmtV, st: StateV, fuel: nat)
    requires
        env_wf(st.env),
    ensures
        ({
            let r = spec_exec(s, st, fuel);
            &&& r.fuel <= fuel
            &&& r.st.env.scopes.len() == st.env.scopes.len()
            &&& r.st.env.current == st.env.current
            &&& forall|j: int|
                0 <= j < st.env.scopes.len() ==> (#[trigger] r.st.env.scopes[j]).parent
                    == st.env.scopes[j].parent
            &&& env_wf(r.st.env)
        }),
    decreases fuel, s,
{
    match s {
        StmtV::Expression { expression } => {
            lemma_spec_eval_shape(expression, st.env);
        },
        StmtV::Print { expression } => {
            lemma_spec_eval_shape(expression, st.env);
        },
        StmtV::Var { name, initializer } => {
            match initializer {
                Option::Some(e) => {
                    lemma_spec_eval_shape(e, st.env);
                },
                Option::None => {},
            }
        },
        StmtV::Block { statements } => {
            let entered = env_enter(st.env, st.env.current);
            assert(env_wf(entered));
            lemma_spec_exec_list_shape(
                statements,
                StateV { env: entered, out: st.out },
                fuel,
            );
        },
        StmtV::If { condition, then_branch, else_branch } => {
            lemma_spec_eval_shape(condition, st.env);
            let r = spec_eval(condition, st.env);
            match r.res {
                Result::Ok(v) => {
                    let st2 = StateV { env: r.env, out: st.out };
                    if truthy(v) {
                        lemma_spec_exec_shape(*then_branch, st2, fuel);
                    } else {
                        match else_branch {
                            Option::Some(b) => {
                                lemma_spec_exec_shape(*b, st2, fuel);
                            },
                            Option::None => {},
                        }
                    }
                },
                Result::Err(_) => {},
            }
        },
        StmtV::While { condition, body } => {
            if fuel > 0 {
                let f1 = (fuel - 1) as nat;
                lemma_spec_eval_shape(condition, st.env);
                let r = spec_eval(condition, st.env);
                match r.res {
                    Result::Ok(v) => {
                        let st2 = StateV { env: r.env, out: st.out };
                        if truthy(v) {
                            lemma_spec_exec_shape(*body, st2, f1);
                            let rb = spec_exec(*body, st2, f1);
                            match rb.kind {
                                XKind::Done => {
                                    let f2 = if rb.fuel < fuel {
                                        rb.fuel
                                    } else {
                                        f1
                                    };
                                    lemma_spec_exec_shape(s, rb.st, f2);
                                },
                                _ => {},
                            }
                        }
                    },
                    Result::Err(_) => {},
                }
            }
        },
        _ => {},
    }
}

/// How a run of statements ended when no runtime error aborted it.
#[derive(Debug, Clone, Copy, PartialEq, Eq, Structural)]
pub enum Outcome {
    /// Every statement ran to completion.
    Done,
    /// The fuel budget ran out inside a loop before the program finished.
    OutOfFuel,
}

/// The tree-walking interpreter: the current environment chain and the
/// lines printed so far.
pub struct Interpreter {
    pub environment: Environment,
    pub output: Vec<String>,
}

impl View for Interpreter {
    type V = StateV;

    open spec fn view(&self) -> StateV {
        StateV { env: self.environment@, out: self.output.deep_view() }
    }
}

/// The message of the binary arithmetic and comparison type error.
fn numbers_msg(l: &LoxValue, r: &LoxValue) -> (m: String)
    ensures
        m@ == must_be_numbers_msg(l@, r@),
{
    proof {
        reveal_strlit(" and ");
        reveal_strlit(" must be numbers.");
    }
    let m = String::from_str(l.kind_text()).concat(" and ").concat(r.kind_text()).concat(
        " must be numbers.",
    );
    proof {
        assert(m@ =~= must_be_numbers_msg(l@, r@));
    }
    m
}

/// The message of the `+` operand type error.
fn plus_msg(l: &LoxValue, r: &LoxValue) -> (m: String)
    ensures
        m@ == plus_operands_msg(l@, r@),
{
    proof {
        reveal_strlit(" and ");
        reveal_strlit(" must both be numbers or both be strings.");
    }
    let m = String::from_str(l.kind_text()).concat(" and ").concat(r.kind_text()).concat(
        " must both be numbers or both be strings.",
    );
    proof {
        assert(m@ =~= plus_operands_msg(l@, r@));
    }
    m
}

impl Interpreter {
    /// A fresh interpreter: an empty global scope and no output.
    pub fn new() -> (r: Interpreter)
        ensures
            r@.env == env_init(),
            r@.out =~= Seq::<Seq<char>>::empty(),
            env_wf(r@.env),
    {
        let r = Interpreter { environment: Environment::new(), output: Vec::new() };
        proof {
            assert(r@.out =~= Seq::<Seq<char>>::empty());
        }
        r
    }

    /// Truthiness of a value: nil and false are falsy, all else truthy.
    pub fn is_truthy(&self, value: &LoxValue) -> (r: bool)
        ensures
            r == truthy(value@),
    {
        match value {
            LoxValue::Nil => false,
            LoxValue::Bool(b) => *b,
            _ => true,
        }
    }

    /// Structural equality of two values; values of different kinds are
    /// never equal and never an error.
    pub fn is_equal(&self, l: &LoxValue, r: &LoxValue) -> (res: bool)
        ensures
            res == val_eq(l@, r@),
    {
        match (l, r) {
            (LoxValue::Nil, LoxValue::Nil) => true,
            (LoxValue::Bool(a), LoxValue::Bool(b)) => *a == *b,
            (LoxValue::String(a), LoxValue::String(b)) => *a == *b,
            (LoxValue::Number(a), LoxValue::Number(b)) => num_eq(*a, *b),
            _ => false,
        }
    }

    /// The text a value prints as.
    pub fn stringify(&self, value: LoxValue) -> (r: String)
        ensures
            r@ == stringify_v(value@),
    {
        match value {
            LoxValue::String(s) => s,
            LoxValue::Number(n) => number_text(n),
            LoxValue::Bool(b) => {
                if b {
                    let r = String::from_str("true");
                    proof {
                        reveal_strlit("true");
                        assert(r@ =~= seq!['t', 'r', 'u', 'e']);
                    }
                    r
                } else {
                    let r = String::from_str("false");
                    proof {
                        reveal_strlit("false");
                        assert(r@ =~= seq!['f', 'a', 'l', 's', 'e']);
                    }
                    r
                }
            },
            LoxValue::Nil => {
                let r = String::from_str("nil");
                proof {
                    reveal_strlit("nil");
                    assert(r@ =~= seq!['n', 'i', 'l']);
                }
                r
            },
        }
    }

    /// Evaluates one expression against the current environment, exactly as
    /// the big-step semantics says.
    pub fn evaluate(&mut self, e: &Expr) -> (res: Result<LoxValue, LoxError>)
        requires
            expr_wf(e@),
            env_wf(old(self).environment@),
        ensures
            ({
                let r = spec_eval(e@, old(self).environment@);
                &&& final(self).environment@ == r.env
                &&& final(self).output == old(self).output
                &&& match res {
                    Result::Ok(v) => r.res == Result::<LoxValueV, LoxErrorV>::Ok(v@),
                    Result::Err(er) => r.res == Result::<LoxValueV, LoxErrorV>::Err(er@),
                }
            }),
        decreases *e,
    {
        match e {
            Expr::Literal { value } => {
                Result::Ok(
                    match value {
                        LoxLiteral::String(s) => LoxValue::String(s.clone()),
                        LoxLiteral::Number(n) => LoxValue::Number(*n),
                        LoxLiteral::Bool(b) => LoxValue::Bool(*b),
                        LoxLiteral::Nil => LoxValue::Nil,
                    },
                )
            },
            Expr::Grouping { expression } => self.evaluate(&**expression),
            Expr::Variable { name } => self.environment.get(name),
            Expr::Assign { name, value } => {
                match self.evaluate(&**value) {
                    Result::Ok(v) => {
                        proof {
                            lemma_spec_eval_shape(expr_view(*&**value), old(self).environment@);
                        }
                        self.environment.assign(name, v)
                    },
                    Result::Err(er) => Result::Err(er),
                }
            },
            Expr::Logical { left, operator, right } => {
                match self.evaluate(&**left) {
                    Result::Ok(lv) => {
                        proof {
                            lemma_spec_eval_shape(expr_view(*&**left), old(self).environment@);
                        }
                        if operator.kind == TokenType::Or {
                            if self.is_truthy(&lv) {
                                Result::Ok(lv)
                            } else {
                                self.evaluate(&**right)
                            }
                        } else {
                            if !self.is_truthy(&lv) {
                                Result::Ok(lv)
                            } else {
                                self.evaluate(&**right)
                            }
                        }
                    },
                    Result::Err(er) => Result::Err(er),
                }
            },
            Expr::Unary { operator, right } => {
                match self.evaluate(&**right) {
                    Result::Ok(rv) => {
                        match operator.kind {
                            TokenType::Bang => Result::Ok(LoxValue::Bool(!self.is_truthy(&rv))),
                            TokenType::Minus => {
                                match rv {
                                    LoxValue::Number(n) => Result::Ok(LoxValue::Number(num_neg(n))),
                                    _ => {
                                        proof {
                                            reveal_strlit(" must be a number.");
                                        }
                                        let msg = String::from_str(rv.kind_text()).concat(
                                            " must be a number.",
                                        );
                                        proof {
                                            assert(msg@ =~= must_be_number_msg(rv@));
                                        }
                                        Result::Err(
                                            LoxError::RunTimeError { msg, line: operator.line },
                                        )
                                    },
                                }
                            },
                            _ => Result::Ok(LoxValue::Nil),
                        }
                    },
                    Result::Err(er) => Result::Err(er),
                }
            },
            Expr::Binary { left, operator, right } => {
                match self.evaluate(&**left) {
                    Result::Ok(lv) => {
                        proof {
                            lemma_spec_eval_shape(expr_view(*&**left), old(self).environment@);
                        }
                        match self.evaluate(&**right) {
                            Result::Ok(rv) => self.binary_result(operator, lv, rv),
                            Result::Err(er) => Result::Err(er),
                        }
                    },
                    Result::Err(er) => Result::Err(er),
                }
            },
            Expr::Call { .. } => unreached(),
            Expr::Get { .. } => unreached(),
            Expr::SetField { .. } => unreached(),
            Expr::Super { .. } => unreached(),
            Expr::This { .. } => unreached(),
        }
    }

    /// Applies a binary operator to two already evaluated operands.
    fn binary_result(&self, operator: &crate::token::Token, lv: LoxValue, rv: LoxValue) -> (res:
        Result<LoxValue, LoxError>)
        ensures
            match res {
                Result::Ok(v) => binary_value(operator@, lv@, rv@) == Result::<
                    LoxValueV,
                    LoxErrorV,
                >::Ok(v@),
                Result::Err(er) => binary_value(operator@, lv@, rv@) == Result::<
                    LoxValueV,
                    LoxErrorV,
                >::Err(er@),
            },
    {
        match operator.kind {
            TokenType::BangEqual => Result::Ok(LoxValue::Bool(!self.is_equal(&lv, &rv))),
            TokenType::EqualEqual => Result::Ok(LoxValue::Bool(self.is_equal(&lv, &rv))),
            TokenType::Greater => {
                match (&lv, &rv) {
                    (LoxValue::Number(a), LoxValue::Number(b)) => Result::Ok(
                        LoxValue::Bool(num_lt(*b, *a)),
                    ),
                    _ => Result::Err(
                        LoxError::RunTimeError {
                            msg: numbers_msg(&lv, &rv),
                            line: operator.line,
                        },
                    ),
                }
            },
            TokenType::GreaterEqual => {
                match (&lv, &rv) {
                    (LoxValue::Number(a), LoxValue::Number(b)) => Result::Ok(
                        LoxValue::Bool(num_le(*b, *a)),
                    ),
                    _ => Result::Err(
                        LoxError::RunTimeError {
                            msg: numbers_msg(&lv, &rv),
                            line: operator.line,
                        },
                    ),
                }
            },
            TokenType::Less => {
                match (&lv, &rv) {
                    (LoxValue::Number(a), LoxValue::Number(b)) => Result::Ok(
                        LoxValue::Bool(num_lt(*a, *b)),
                    ),
                    _ => Result::Err(
                        LoxError::RunTimeError {
                            msg: numbers_msg(&lv, &rv),
                            line: operator.line,
                        },
                    ),
                }
            },
            TokenType::LessEqual => {
                match (&lv, &rv) {
                    (LoxValue::Number(a), LoxValue::Number(b)) => Result::Ok(
                        LoxValue::Bool(num_le(*a, *b)),
                    ),
                    _ => Result::Err(
                        LoxError::RunTimeError {
                            msg: numbers_msg(&lv, &rv),
                            line: operator.line,
                        },
                    ),
                }
            },
            TokenType::Minus => {
                match (&lv, &rv) {
                    (LoxValue::Number(a), LoxValue::Number(b)) => Result::Ok(
                        LoxValue::Number(num_sub(*a, *b)),
                    ),
                    _ => Result::Err(
                        LoxError::RunTimeError {
                            msg: numbers_msg(&lv, &rv),
                            line: operator.line,
                        },
                    ),
                }
            },
            TokenType::Slash => {
                match (&lv, &rv) {
                    (LoxValue::Number(a), LoxValue::Number(b)) => Result::Ok(
                        LoxValue::Number(num_div(*a, *b)),
                    ),
                    _ => Result::Err(
                        LoxError::RunTimeError {
                            msg: numbers_msg(&lv, &rv),
                            line: operator.line,
                        },
                    ),
                }
            },
            TokenType::Star => {
                match (&lv, &rv) {
                    (LoxValue::Number(a), LoxValue::Number(b)) => Result::Ok(
                        LoxValue::Number(num_mul(*a, *b)),
                    ),
                    _ => Result::Err(
                        LoxError::RunTimeError {
                            msg: numbers_msg(&lv, &rv),
                            line: operator.line,
                        },
                    ),
                }
            },
            TokenType::Plus => {
                match (lv, rv) {
                    (LoxValue::Number(a), LoxValue::Number(b)) => Result::Ok(
                        LoxValue::Number(num_add(a, b)),
                    ),
                    (LoxValue::String(a), LoxValue::String(b)) => Result::Ok(
                        LoxValue::String(a.concat(b.as_str())),
                    ),
                    (l2, r2) => Result::Err(
                        LoxError::RunTimeError {
                            msg: plus_msg(&l2, &r2),
                            line: operator.line,
                        },
                    ),
                }
            },
            _ => Result::Ok(LoxValue::Nil),
        }
    }

    /// Executes one statement, exactly as the fuel-indexed big-step
    /// semantics says; the fuel left is handed back through the reference.
    #[verifier::rlimit(80)]
    pub fn execute(&mut self, s: &Stmt, fuel: &mut u64) -> (res: Result<Outcome, LoxError>)
        requires
            stmt_wf(s@),
            env_wf(old(self).environment@),
        ensures
            ({
                let r = spec_exec(s@, old(self)@, *old(fuel) as nat);
                &&& final(self)@ == r.st
                &&& *final(fuel) as nat == r.fuel
                &&& match res {
                    Result::Ok(Outcome::Done) => r.kind is Done,
                    Result::Ok(Outcome::OutOfFuel) => r.kind is Out,
                    Result::Err(er) => r.kind == XKind::Fail(er@),
                }
            }),
        decreases *fuel, *s,
    {
        let ghost st0 = self@;
        let ghost f0 = *fuel as nat;
        match s {
            Stmt::Expression { expression } => {
                match self.evaluate(expression) {
                    Result::Ok(_) => {
                        proof {
                            assert(final(self)@ =~~= spec_exec(s@, st0, f0).st);
                        }
                        Result::Ok(Outcome::Done)
                    },
                    Result::Err(er) => {
                        proof {
                            assert(final(self)@ =~~= spec_exec(s@, st0, f0).st);
                        }
                        Result::Err(er)
                    },
                }
            },
            Stmt::Print { expression } => {
                match self.evaluate(expression) {
                    Result::Ok(v) => {
                        let text = self.stringify(v);
                        self.output.push(text);
                        proof {
                            assert(final(self)@ =~~= spec_exec(s@, st0, f0).st);
                        }
                        Result::Ok(Outcome::Done)
                    },
                    Result::Err(er) => {
                        proof {
                            assert(final(self)@ =~~= spec_exec(s@, st0, f0).st);
                        }
                        Result::Err(er)
                    },
                }
            },
            Stmt::Var { name, initializer } => {
                match initializer {
                    Option::Some(e) => {
                        match self.evaluate(e) {
                            Result::Ok(v) => {
                                proof {
                                    lemma_spec_eval_shape(expr_view(*e), st0.env);
                                }
                                let name_str = match &name.literal {
                                    LoxType::Id(t) => t.clone(),
                                    _ => unreached(),
                                };
                                self.environment.define(name_str, v);
                                proof {
                                    assert(final(self)@ =~~= spec_exec(s@, st0, f0).st);
                                }
                                Result::Ok(Outcome::Done)
                            },
                            Result::Err(er) => {
                                proof {
                                    assert(final(self)@ =~~= spec_exec(s@, st0, f0).st);
                                }
                                Result::Err(er)
                            },
                        }
                    },
                    Option::None => Result::Ok(Outcome::Done),
                }
            },
            Stmt::Block { statements } => {
                let saved_cur = self.environment.current;
                let saved_len = self.environment.scopes.len();
                self.environment.from(saved_cur);
                let res = self.execute_block(statements, fuel);
                proof {
                    lemma_spec_exec_list_shape(
                        stmts_view(statements@),
                        StateV { env: env_enter(st0.env, st0.env.current), out: st0.out },
                        f0,
                    );
                }
                self.environment.leave(saved_cur, saved_len);
                proof {
                    assert(final(self)@ =~~= spec_exec(s@, st0, f0).st);
                }
                res
            },
            Stmt::If { condition, then_branch, else_branch } => {
                match self.evaluate(condition) {
                    Result::Ok(v) => {
                        proof {
                            lemma_spec_eval_shape(expr_view(*condition), st0.env);
                        }
                        if self.is_truthy(&v) {
                            self.execute(&**then_branch, fuel)
                        } else {
                            match else_branch {
                                Option::Some(b) => self.execute(&**b, fuel),
                                Option::None => Result::Ok(Outcome::Done),
                            }
                        }
                    },
                    Result::Err(er) => {
                        proof {
                            assert(final(self)@ =~~= spec_exec(s@, st0, f0).st);
                        }
                        Result::Err(er)
                    },
                }
            },
            Stmt::While { condition, body } => {
                loop
                    invariant
                        stmt_wf(s@),
                        s@ == (StmtV::While {
                            condition: expr_view(*condition),
                            body: Box::new(stmt_view(**body)),
                        }),
                        env_wf(self.environment@),
                        st0 == old(self)@,
                        f0 == *old(fuel) as nat,
                        *fuel as nat <= f0,
                        spec_exec(s@, self@, *fuel as nat) == spec_exec(s@, st0, f0),
                    decreases *fuel,
                {
                    let ghost cur0 = self@;
                    let ghost fc = *fuel as nat;
                    if *fuel == 0 {
                        return Result::Ok(Outcome::OutOfFuel);
                    }
                    *fuel = *fuel - 1;
                    match self.evaluate(condition) {
                        Result::Ok(v) => {
                            proof {
                                lemma_spec_eval_shape(expr_view(*condition), cur0.env);
                            }
                            if !self.is_truthy(&v) {
                                return Result::Ok(Outcome::Done);
                            }
                            match self.execute(&**body, fuel) {
                                Result::Ok(Outcome::Done) => {
                                    proof {
                                        lemma_spec_exec_shape(
                                            *s@->While_body,
                                            StateV { env: spec_eval(condition@, cur0.env).env, out: cur0.out },
                                            (fc - 1) as nat,
                                        );
                                    }
                                },
                                Result::Ok(Outcome::OutOfFuel) => {
                                    return Result::Ok(Outcome::OutOfFuel);
                                },
                                Result::Err(er) => {
                                    return Result::Err(er);
                                },
                            }
                        },
                        Result::Err(er) => {
                            return Result::Err(er);
                        },
                    }
                }
            },
            Stmt::Class { .. } => unreached(),
            Stmt::Function { .. } => unreached(),
            Stmt::Return { .. } => unreached(),
        }
    }

    /// Executes a sequence of statements in order against the current
    /// environment, stopping at the first failure or when fuel runs out.
    pub fn execute_block(&mut self, statements: &Vec<Stmt>, fuel: &mut u64) -> (res: Result<
        Outcome,
        LoxError,
    >)
        requires
            stmts_wf(stmts_view(statements@)),
            env_wf(old(self).environment@),
        ensures
            ({
                let r = spec_exec_list(stmts_view(statements@), old(self)@, *old(fuel) as nat);
                &&& final(self)@ == r.st
                &&& *final(fuel) as nat == r.fuel
                &&& match res {
                    Result::Ok(Outcome::Done) => r.kind is Done,
                    Result::Ok(Outcome::OutOfFuel) => r.kind is Out,
                    Result::Err(er) => r.kind == XKind::Fail(er@),
                }
            }),
        decreases *fuel, *statements,
    {
        let ghost st0 = self@;
        let ghost f0 = *fuel as nat;
        let ghost vs = stmts_view(statements@);
        proof {
            lemma_stmts_view_len(statements@);
        }
        let n = statements.len();
        proof {
            assert(vs.subrange(0, n as int) =~= vs);
        }
        let mut i: usize = 0;
        while i < n
            invariant
                n == statements@.len(),
                vs == stmts_view(statements@),
                vs.len() == n,
                stmts_wf(vs),
                i <= n,
                env_wf(self.environment@),
                st0 == old(self)@,
                f0 == *old(fuel) as nat,
                *fuel as nat <= f0,
                spec_exec_list(vs.subrange(i as int, n as int), self@, *fuel as nat)
                    == spec_exec_list(vs, st0, f0),
            decreases n - i,
        {
            let ghost cur0 = self@;
            let ghost fc = *fuel as nat;
            proof {
                lemma_stmts_view_index(statements@, i as int);
                lemma_stmts_wf_index(vs, i as int);
                assert(vs.subrange(i as int, n as int)[0] == vs[i as int]);
                assert(decreases_to!(*statements => statements@));
                assert(decreases_to!(statements@ => statements@[i as int]));
                assert(decreases_to!(*statements => statements@[i as int]));
            }
            let r = self.execute(&statements[i], fuel);
            proof {
                lemma_spec_exec_shape(vs[i as int], cur0, fc);
            }
            match r {
                Result::Ok(Outcome::Done) => {
                    proof {
                        assert(vs.subrange(i as int, n as int).drop_first() =~= vs.subrange(
                            i as int + 1,
                            n as int,
                        ));
                    }
                    i = i + 1;
                },
                Result::Ok(Outcome::OutOfFuel) => {
                    return Result::Ok(Outcome::OutOfFuel);
                },
                Result::Err(er) => {
                    return Result::Err(er);
                },
            }
        }
        proof {
            assert(vs.subrange(n as int, n as int) =~= Seq::<StmtV>::empty());
        }
        Result::Ok(Outcome::Done)
    }

    /// Runs a program: executes the statements strictly in order, printing
    /// into the output buffer, aborting on the first runtime error, and
    /// giving up only if the fuel budget for loop iterations runs out.
    pub fn interpret(&mut self, statements: &Vec<Stmt>, fuel: u64) -> (res: Result<
        Outcome,
        LoxError,
    >)
        requires
            stmts_wf(stmts_view(statements@)),
            env_wf(old(self).environment@),
        ensures
            ({
                let r = spec_exec_list(stmts_view(statements@), old(self)@, fuel as nat);
                &&& final(self)@ == r.st
                &&& env_wf(final(self).environment@)
                &&& match res {
                    Result::Ok(Outcome::Done) => r.kind is Done,
                    Result::Ok(Outcome::OutOfFuel) => r.kind is Out,
                    Result::Err(er) => r.kind == XKind::Fail(er@),
                }
            }),
    {
        let mut f = fuel;
        proof {
            lemma_spec_exec_list_shape(stmts_view(statements@), self@, fuel as nat);
        }
        self.execute_block(statements, &mut f)
    }
}

/// The sequence form of the shape lemma.
pub proof fn lemma_spec_exec_list_shape(ss: Seq<StmtV>, st: StateV, fuel: nat)
    requires
        env_wf(st.env),
    ensures
        ({
            let r = spec_exec_list(ss, st, fuel);
            &&& r.fuel <= fuel
            &&& r.st.env.scopes.len() == st.env.scopes.len()
            &&& r.st.env.current == st.env.current
            &&& forall|j: int|
                0 <= j < st.env.scopes.len() ==> (#[trigger] r.st.env.scopes[j]).parent
                    == st.env.scopes[j].parent
            &&& env_wf(r.st.env)
        }),
    decreases fuel, ss,
{
    if ss.len() > 0 {
        lemma_spec_exec_shape(ss[0], st, fuel);
        let r = spec_exec(ss[0], st, fuel);
        match r.kind {
            XKind::Done => {
                let f2 = if r.fuel < fuel {
                    r.fuel
                } else {
                    fuel
                };
                lemma_spec_exec_list_shape(ss.drop_first(), r.st, f2);
            },
            _ => {},
        }
    }
}

/// Short-circuit of `or`: when the left operand evaluates to a truthy
/// value, the whole `or` expression is exactly the left operand's
/// evaluation — whatever the right operand is, it is never evaluated, so
/// an error it would raise never surfaces.
pub proof fn lemma_or_short_circuit(left: ExprV, op: TokenV, right: ExprV, env: EnvV)
    requires
        op.kind == TokenType::Or,
        spec_eval(left, env).res matches Result::Ok(v) && truthy(v),
    ensures
        spec_eval(
            ExprV::Logical { left: Box::new(left), operator: op, right: Box::new(right) },
            env,
        ) == spec_eval(left, env),
{
}

/// Short-circuit of `and`: when the left operand evaluates to a falsy
/// value, the whole `and` expression is exactly the left operand's
/// evaluation, whatever the right operand is.
pub proof fn lemma_and_short_circuit(left: ExprV, op: TokenV, right: ExprV, env: EnvV)
    requires
        op.kind == TokenType::And,
        spec_eval(left, env).res matches Result::Ok(v) && !truthy(v),
    ensures
        spec_eval(
            ExprV::Logical { left: Box::new(left), operator: op, right: Box::new(right) },
            env,
        ) == spec_eval(left, env),
{
}

/// Values of different kinds are never equal, and equality never raises a
/// runtime error: on any two values an equality operator yields a boolean.
pub proof fn lemma_equality_total(op: TokenV, l: LoxValueV, r: LoxValueV)
    requires
        op.kind == TokenType::EqualEqual || op.kind == TokenType::BangEqual,
    ensures
        binary_value(op, l, r) is Ok,
        !val_kind_matches(l, r) ==> binary_value(op, l, r) == Result::<
            LoxValueV,
            LoxErrorV,
        >::Ok(LoxValueV::Bool(op.kind == TokenType::BangEqual)),
{
}

/// Whether two values are of the same kind.
pub open spec fn val_kind_matches(l: LoxValueV, r: LoxValueV) -> bool {
    match (l, r) {
        (LoxValueV::Nil, LoxValueV::Nil) => true,
        (LoxValueV::Bool(_), LoxValueV::Bool(_)) => true,
        (LoxValueV::String(_), LoxValueV::String(_)) => true,
        (LoxValueV::Number(_), LoxValueV::Number(_)) => true,
        _ => false,
    }
}

/// Equality between whole expressions never errors: when both operands
/// evaluate to values, so does the equality expression built from them.
pub proof fn lemma_equality_never_errors(left: ExprV, op: TokenV, right: ExprV, env: EnvV)
    requires
        op.kind == TokenType::EqualEqual || op.kind == TokenType::BangEqual,
        spec_eval(left, env).res is Ok,
        spec_eval(right, spec_eval(left, env).env).res is Ok,
    ensures
        spec_eval(
            ExprV::Binary { left: Box::new(left), operator: op, right: Box::new(right) },
            env,
        ).res is Ok,
{
}

} // verus!

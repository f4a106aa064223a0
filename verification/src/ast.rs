//! The syntax tree: two closed sets of node kinds, one for expressions and
//! one for statements, each a tagged union over the grammar productions, and
//! the runtime value type the evaluator computes.

use vstd::prelude::*;
use crate::token::{Token, TokenV};

verus! {

/// A literal operand as parsed: a string, a number's bit pattern, a boolean
/// or nil.
#[derive(Debug)]
pub enum LoxLiteral {
    String(String),
    Number(u64),
    Bool(bool),
    Nil,
}

/// The mathematical model of a literal operand.
pub enum LoxLiteralV {
    String(Seq<char>),
    Number(u64),
    Bool(bool),
    Nil,
}

impl View for LoxLiteral {
    type V = LoxLiteralV;

    open spec fn view(&self) -> LoxLiteralV {
        match self {
            LoxLiteral::String(s) => LoxLiteralV::String(s@),
            LoxLiteral::Number(n) => LoxLiteralV::Number(*n),
            LoxLiteral::Bool(b) => LoxLiteralV::Bool(*b),
            LoxLiteral::Nil => LoxLiteralV::Nil,
        }
    }
}

/// A runtime value: a string, a number as the bit pattern of an IEEE double,
/// a boolean, or nil. Values are plain data with no object identity.
#[derive(Debug)]
pub enum LoxValue {
    String(String),
    Number(u64),
    Bool(bool),
    Nil,
}

/// The mathematical model of a runtime value.
pub enum LoxValueV {
    String(Seq<char>),
    Number(u64),
    Bool(bool),
    Nil,
}

impl View for LoxValue {
    type V = LoxValueV;

    open spec fn view(&self) -> LoxValueV {
        match self {
            LoxValue::String(s) => LoxValueV::String(s@),
            LoxValue::Number(n) => LoxValueV::Number(*n),
            LoxValue::Bool(b) => LoxValueV::Bool(*b),
            LoxValue::Nil => LoxValueV::Nil,
        }
    }
}

/// The word naming a value's kind, used in runtime error messages.
pub open spec fn kind_text_of(v: LoxValueV) -> Seq<char> {
    match v {
        LoxValueV::String(_) => seq!['s', 't', 'r', 'i', 'n', 'g'],
        LoxValueV::Number(_) => seq!['n', 'u', 'm', 'b', 'e', 'r'],
        LoxValueV::Bool(_) => seq!['b', 'o', 'o', 'l'],
        LoxValueV::Nil => seq!['n', 'i', 'l'],
    }
}

impl LoxValue {
    /// An owned copy with the same model.
    pub fn duplicate(&self) -> (r: LoxValue)
        ensures
            r@ == self@,
    {
        match self {
            LoxValue::String(s) => LoxValue::String(s.clone()),
            LoxValue::Number(n) => LoxValue::Number(*n),
            LoxValue::Bool(b) => LoxValue::Bool(*b),
            LoxValue::Nil => LoxValue::Nil,
        }
    }

    /// The word naming this value's kind.
    pub fn kind_text(&self) -> (r: &'static str)
        ensures
            r@ == kind_text_of(self@),
    {
        match self {
            LoxValue::String(_) => {
                proof {
                    reveal_strlit("string");
                    assert("string"@ =~= kind_text_of(self@));
                }
                "string"
            },
            LoxValue::Number(_) => {
                proof {
                    reveal_strlit("number");
                    assert("number"@ =~= kind_text_of(self@));
                }
                "number"
            },
            LoxValue::Bool(_) => {
                proof {
                    reveal_strlit("bool");
                    assert("bool"@ =~= kind_text_of(self@));
                }
                "bool"
            },
            LoxValue::Nil => {
                proof {
                    reveal_strlit("nil");
                    assert("nil"@ =~= kind_text_of(self@));
                }
                "nil"
            },
        }
    }
}

/// An expression node. Each variant owns its children. The Call, Get, Set,
/// Super and This productions exist on the grammar surface but have no
/// evaluation behaviour; well-formed trees exclude them.
#[derive(Debug)]
pub enum Expr {
    Assign { name: Token, value: Box<Expr> },
    Binary { left: Box<Expr>, operator: Token, right: Box<Expr> },
    Call { callee: Box<Expr>, paren: Token, arguments: Vec<Expr> },
    Get { object: Box<Expr>, name: Token },
    Grouping { expression: Box<Expr> },
    Literal { value: LoxLiteral },
    Logical { left: Box<Expr>, operator: Token, right: Box<Expr> },
    SetField { object: Box<Expr>, name: Token, value: Box<Expr> },
    Super { keyword: Token, method: Token },
    This { keyword: Token },
    Unary { operator: Token, right: Box<Expr> },
    Variable { name: Token },
}

/// The mathematical model of an expression node.
pub enum ExprV {
    Assign { name: TokenV, value: Box<ExprV> },
    Binary { left: Box<ExprV>, operator: TokenV, right: Box<ExprV> },
    Call { callee: Box<ExprV>, paren: TokenV, arguments: Seq<ExprV> },
    Get { object: Box<ExprV>, name: TokenV },
    Grouping { expression: Box<ExprV> },
    Literal { value: LoxLiteralV },
    Logical { left: Box<ExprV>, operator: TokenV, right: Box<ExprV> },
    SetField { object: Box<ExprV>, name: TokenV, value: Box<ExprV> },
    Super { keyword: TokenV, method: TokenV },
    This { keyword: TokenV },
    Unary { operator: TokenV, right: Box<ExprV> },
    Variable { name: TokenV },
}

/// The model of an expression tree.
pub open spec fn expr_view(e: Expr) -> ExprV
    decreases e,
{
    match e {
        Expr::Assign { name, value } => ExprV::Assign {
            name: name@,
            value: Box::new(expr_view(*value)),
        },
        Expr::Binary { left, operator, right } => ExprV::Binary {
            left: Box::new(expr_view(*left)),
            operator: operator@,
            right: Box::new(expr_view(*right)),
        },
        Expr::Call { callee, paren, arguments } => ExprV::Call {
            callee: Box::new(expr_view(*callee)),
            paren: paren@,
            arguments: exprs_view(arguments@),
        },
        Expr::Get { object, name } => ExprV::Get {
            object: Box::new(expr_view(*object)),
            name: name@,
        },
        Expr::Grouping { expression } => ExprV::Grouping {
            expression: Box::new(expr_view(*expression)),
        },
        Expr::Literal { value } => ExprV::Literal { value: value@ },
        Expr::Logical { left, operator, right } => ExprV::Logical {
            left: Box::new(expr_view(*left)),
            operator: operator@,
            right: Box::new(expr_view(*right)),
        },
        Expr::SetField { object, name, value } => ExprV::SetField {
            object: Box::new(expr_view(*object)),
            name: name@,
            value: Box::new(expr_view(*value)),
        },
        Expr::Super { keyword, method } => ExprV::Super { keyword: keyword@, method: method@ },
        Expr::This { keyword } => ExprV::This { keyword: keyword@ },
        Expr::Unary { operator, right } => ExprV::Unary {
            operator: operator@,
            right: Box::new(expr_view(*right)),
        },
        Expr::Variable { name } => ExprV::Variable { name: name@ },
    }
}

/// The model of a sequence of expression trees.
pub open spec fn exprs_view(es: Seq<Expr>) -> Seq<ExprV>
    decreases es,
{
    if es.len() == 0 {
        seq![]
    } else {
        seq![expr_view(es[0])] + exprs_view(es.drop_first())
    }
}

impl View for Expr {
    type V = ExprV;

    open spec fn view(&self) -> ExprV {
        expr_view(*self)
    }
}

/// A statement node. The Class, Function and Return productions exist on the
/// grammar surface but have no execution behaviour; well-formed trees
/// exclude them.
#[derive(Debug)]
pub enum Stmt {
    Block { statements: Vec<Stmt> },
    Class { name: Token, superclass: Option<Expr>, methods: Vec<Stmt> },
    Expression { expression: Expr },
    Function { name: Token, params: Vec<Token>, body: Vec<Stmt> },
    If { condition: Expr, then_branch: Box<Stmt>, else_branch: Option<Box<Stmt>> },
    Print { expression: Expr },
    Return { keyword: Token, value: Option<Expr> },
    Var { name: Token, initializer: Option<Expr> },
    While { condition: Expr, body: Box<Stmt> },
}

/// The mathematical model of a statement node.
pub enum StmtV {
    Block { statements: Seq<StmtV> },
    Class { name: TokenV, superclass: Option<ExprV>, methods: Seq<StmtV> },
    Expression { expression: ExprV },
    Function { name: TokenV, params: Seq<TokenV>, body: Seq<StmtV> },
    If { condition: ExprV, then_branch: Box<StmtV>, else_branch: Option<Box<StmtV>> },
    Print { expression: ExprV },
    Return { keyword: TokenV, value: Option<ExprV> },
    Var { name: TokenV, initializer: Option<ExprV> },
    While { condition: ExprV, body: Box<StmtV> },
}

/// The model of a statement tree.
pub open spec fn stmt_view(s: Stmt) -> StmtV
    decreases s,
{
    match s {
        Stmt::Block { statements } => StmtV::Block { statements: stmts_view(statements@) },
        Stmt::Class { name, superclass, methods } => StmtV::Class {
            name: name@,
            superclass: match superclass {
                Option::Some(e) => Option::Some(expr_view(e)),
                Option::None => Option::None,
            },
            methods: stmts_view(methods@),
        },
        Stmt::Expression { expression } => StmtV::Expression { expression: expr_view(expression) },
        Stmt::Function { name, params, body } => StmtV::Function {
            name: name@,
            params: params@.map(|i: int, t: Token| t@),
            body: stmts_view(body@),
        },
        Stmt::If { condition, then_branch, else_branch } => StmtV::If {
            condition: expr_view(condition),
            then_branch: Box::new(stmt_view(*then_branch)),
            else_branch: match else_branch {
                Option::Some(b) => Option::Some(Box::new(stmt_view(*b))),
                Option::None => Option::None,
            },
        },
        Stmt::Print { expression } => StmtV::Print { expression: expr_view(expression) },
        Stmt::Return { keyword, value } => StmtV::Return {
            keyword: keyword@,
            value: match value {
                Option::Some(e) => Option::Some(expr_view(e)),
                Option::None => Option::None,
            },
        },
        Stmt::Var { name, initializer } => StmtV::Var {
            name: name@,
            initializer: match initializer {
                Option::Some(e) => Option::Some(expr_view(e)),
                Option::None => Option::None,
            },
        },
        Stmt::While { condition, body } => StmtV::While {
            condition: expr_view(condition),
            body: Box::new(stmt_view(*body)),
        },
    }
}

/// The model of a sequence of statement trees.
pub open spec fn stmts_view(ss: Seq<Stmt>) -> Seq<StmtV>
    decreases ss,
{
    if ss.len() == 0 {
        seq![]
    } else {
        seq![stmt_view(ss[0])] + stmts_view(ss.drop_first())
    }
}

impl View for Stmt {
    type V = StmtV;

    open spec fn view(&self) -> StmtV {
        stmt_view(*self)
    }
}

/// Whether a token can name a variable: its literal payload is an
/// identifier's text.
pub open spec fn name_token_wf(t: TokenV) -> bool {
    t.literal is Id
}

/// Whether an expression tree is well formed for evaluation: it stays on the
/// evaluated productions, and every variable-naming token carries its text.
pub open spec fn expr_wf(e: ExprV) -> bool
    decreases e,
{
    match e {
        ExprV::Assign { name, value } => name_token_wf(name) && expr_wf(*value),
        ExprV::Binary { left, operator, right } => expr_wf(*left) && expr_wf(*right),
        ExprV::Call { .. } => false,
        ExprV::Get { .. } => false,
        ExprV::Grouping { expression } => expr_wf(*expression),
        ExprV::Literal { value } => true,
        ExprV::Logical { left, operator, right } => expr_wf(*left) && expr_wf(*right),
        ExprV::SetField { .. } => false,
        ExprV::Super { .. } => false,
        ExprV::This { .. } => false,
        ExprV::Unary { operator, right } => expr_wf(*right),
        ExprV::Variable { name } => name_token_wf(name),
    }
}

/// Whether a statement tree is well formed for execution.
pub open spec fn stmt_wf(s: StmtV) -> bool
    decreases s,
{
    match s {
        StmtV::Block { statements } => stmts_wf(statements),
        StmtV::Class { .. } => false,
        StmtV::Expression { expression } => expr_wf(expression),
        StmtV::Function { .. } => false,
        StmtV::If { condition, then_branch, else_branch } => expr_wf(condition) && stmt_wf(
            *then_branch,
        ) && match else_branch {
            Option::Some(b) => stmt_wf(*b),
            Option::None => true,
        },
        StmtV::Print { expression } => expr_wf(expression),
        StmtV::Return { .. } => false,
        StmtV::Var { name, initializer } => name_token_wf(name) && match initializer {
            Option::Some(e) => expr_wf(e),
            Option::None => true,
        },
        StmtV::While { condition, body } => expr_wf(condition) && stmt_wf(*body),
    }
}

/// Whether every statement in a sequence is well formed.
pub open spec fn stmts_wf(ss: Seq<StmtV>) -> bool
    decreases ss,
{
    if ss.len() == 0 {
        true
    } else {
        stmt_wf(ss[0]) && stmts_wf(ss.drop_first())
    }
}

/// The model of a statement sequence is the sequence of the models.
pub proof fn lemma_stmts_view_index(ss: Seq<Stmt>, i: int)
    requires
        0 <= i < ss.len(),
    ensures
        stmts_view(ss).len() == ss.len(),
        stmts_view(ss)[i] == stmt_view(ss[i]),
    decreases ss.len(),
{
    lemma_stmts_view_len(ss);
    if i > 0 {
        lemma_stmts_view_index(ss.drop_first(), i - 1);
    }
}

/// A statement sequence and its model have the same length.
pub proof fn lemma_stmts_view_len(ss: Seq<Stmt>)
    ensures
        stmts_view(ss).len() == ss.len(),
    decreases ss.len(),
{
    if ss.len() > 0 {
        lemma_stmts_view_len(ss.drop_first());
    }
}

/// Viewing commutes with appending one statement.
pub proof fn lemma_stmts_view_push(ss: Seq<Stmt>, s: Stmt)
    ensures
        stmts_view(ss.push(s)) == stmts_view(ss).push(stmt_view(s)),
    decreases ss.len(),
{
    if ss.len() == 0 {
        assert(ss.push(s)[0] == s);
        assert(ss.push(s).drop_first() =~= Seq::<Stmt>::empty());
        assert(stmts_view(ss.push(s)) == seq![stmt_view(s)] + stmts_view(
            Seq::<Stmt>::empty(),
        ));
        assert(stmts_view(Seq::<Stmt>::empty()) =~= Seq::<StmtV>::empty());
        assert(stmts_view(ss) =~= Seq::<StmtV>::empty());
        assert(stmts_view(ss.push(s)) =~= stmts_view(ss).push(stmt_view(s)));
    } else {
        assert(ss.push(s)[0] == ss[0]);
        assert(ss.push(s).drop_first() =~= ss.drop_first().push(s));
        lemma_stmts_view_push(ss.drop_first(), s);
        assert(stmts_view(ss.push(s)) == seq![stmt_view(ss[0])] + stmts_view(
            ss.drop_first().push(s),
        ));
        assert(stmts_view(ss.push(s)) =~= stmts_view(ss).push(stmt_view(s)));
    }
}

/// Appending a well-formed statement keeps a sequence well formed.
pub proof fn lemma_stmts_wf_push(ss: Seq<StmtV>, s: StmtV)
    requires
        stmts_wf(ss),
        stmt_wf(s),
    ensures
        stmts_wf(ss.push(s)),
    decreases ss.len(),
{
    if ss.len() == 0 {
        assert(ss.push(s)[0] == s);
        assert(ss.push(s).drop_first() =~= Seq::<StmtV>::empty());
        assert(stmts_wf(Seq::<StmtV>::empty()));
        assert(stmts_wf(ss.push(s)));
    } else {
        assert(ss.push(s)[0] == ss[0]);
        assert(stmt_wf(ss[0]));
        assert(ss.push(s).drop_first() =~= ss.drop_first().push(s));
        assert(stmts_wf(ss.drop_first()));
        lemma_stmts_wf_push(ss.drop_first(), s);
        assert(stmts_wf(ss.push(s)));
    }
}

/// Each statement of a well-formed sequence is well formed.
pub proof fn lemma_stmts_wf_index(ss: Seq<StmtV>, i: int)
    requires
        stmts_wf(ss),
        0 <= i < ss.len(),
    ensures
        stmt_wf(ss[i]),
    decreases ss.len(),
{
    if i > 0 {
        lemma_stmts_wf_index(ss.drop_first(), i - 1);
    }
}

} // verus!

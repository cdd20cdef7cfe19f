//! The syntax tree: statements and expressions, each holding the tokens it
//! was built from.

use vstd::prelude::*;
use crate::token::{Token, TokenView};

verus! {

#[allow(inconsistent_fields)]
#[derive(Debug)]
pub enum Expression {
    Literal { value: Token },
    Array { value: Vec<Expression> },
    /// A comparison of one level: the parser gives neither side a comparison.
    BooleanExpr { lhs: Box<Expression>, rhs: Box<Expression>, operator: Token },
    FunCall { name: Token, args: Vec<Expression> },
    Type { value: Token, is_array: usize },
    Argument { name: Token, class: Box<Expression> },
    /// Stands where no expression could be built.
    Null,
}

#[derive(Debug)]
pub enum Statement {
    SetAssign { name: Token, value: Expression },
    VarAssign { name: Token, value: Expression },
    IfStatement { boolean: Expression, block: Vec<Statement> },
    FunCall { name: Token, args: Vec<Expression> },
    FunDef { name: Token, args: Vec<Expression>, yeild: Expression, block: Vec<Statement> },
    /// Stands where no statement was recognised.
    Void,
}

/// Every token that the expression holds is a token of `stream`, with its
/// text and place.
pub open spec fn expr_within(e: Expression, stream: Seq<TokenView>) -> bool
    decreases e,
{
    match e {
        Expression::Literal { value } => stream.contains(value@),
        Expression::Array { value } => forall|k: int|
            0 <= k < value@.len() ==> expr_within(#[trigger] value@[k], stream),
        Expression::BooleanExpr { lhs, rhs, operator } => expr_within(*lhs, stream) && expr_within(
            *rhs,
            stream,
        ) && stream.contains(operator@),
        Expression::FunCall { name, args } => stream.contains(name@) && forall|k: int|
            0 <= k < args@.len() ==> expr_within(#[trigger] args@[k], stream),
        Expression::Type { value, is_array } => stream.contains(value@),
        Expression::Argument { name, class } => stream.contains(name@) && expr_within(
            *class,
            stream,
        ),
        Expression::Null => true,
    }
}

/// The expression holds no placeholder, at any depth.
pub open spec fn expr_clean(e: Expression) -> bool
    decreases e,
{
    match e {
        Expression::Literal { value } => true,
        Expression::Array { value } => forall|k: int|
            0 <= k < value@.len() ==> expr_clean(#[trigger] value@[k]),
        Expression::BooleanExpr { lhs, rhs, operator } => expr_clean(*lhs) && expr_clean(*rhs),
        Expression::FunCall { name, args } => forall|k: int|
            0 <= k < args@.len() ==> expr_clean(#[trigger] args@[k]),
        Expression::Type { value, is_array } => true,
        Expression::Argument { name, class } => expr_clean(*class),
        Expression::Null => false,
    }
}

/// Every token that the statement holds is a token of `stream`.
pub open spec fn stmt_within(s: Statement, stream: Seq<TokenView>) -> bool
    decreases s,
{
    match s {
        Statement::SetAssign { name, value } => stream.contains(name@) && expr_within(
            value,
            stream,
        ),
        Statement::VarAssign { name, value } => stream.contains(name@) && expr_within(
            value,
            stream,
        ),
        Statement::IfStatement { boolean, block } => expr_within(boolean, stream) && forall|k: int|
            0 <= k < block@.len() ==> stmt_within(#[trigger] block@[k], stream),
        Statement::FunCall { name, args } => stream.contains(name@) && forall|k: int|
            0 <= k < args@.len() ==> expr_within(#[trigger] args@[k], stream),
        Statement::FunDef { name, args, yeild, block } => stream.contains(name@) && expr_within(
            yeild,
            stream,
        ) && (forall|k: int| 0 <= k < args@.len() ==> expr_within(#[trigger] args@[k], stream))
            && (forall|k: int| 0 <= k < block@.len() ==> stmt_within(#[trigger] block@[k], stream)),
        Statement::Void => true,
    }
}

/// No expression of the statement holds a placeholder, at any depth.
pub open spec fn stmt_clean(s: Statement) -> bool
    decreases s,
{
    match s {
        Statement::SetAssign { name, value } => expr_clean(value),
        Statement::VarAssign { name, value } => expr_clean(value),
        Statement::IfStatement { boolean, block } => expr_clean(boolean) && forall|k: int|
            0 <= k < block@.len() ==> stmt_clean(#[trigger] block@[k]),
        Statement::FunCall { name, args } => forall|k: int|
            0 <= k < args@.len() ==> expr_clean(#[trigger] args@[k]),
        Statement::FunDef { name, args, yeild, block } => expr_clean(yeild) && (forall|k: int|
            0 <= k < args@.len() ==> expr_clean(#[trigger] args@[k])) && (forall|k: int|
            0 <= k < block@.len() ==> stmt_clean(#[trigger] block@[k])),
        Statement::Void => true,
    }
}

pub open spec fn exprs_within(v: Seq<Expression>, stream: Seq<TokenView>) -> bool {
    forall|k: int| 0 <= k < v.len() ==> expr_within(#[trigger] v[k], stream)
}

pub open spec fn exprs_clean(v: Seq<Expression>) -> bool {
    forall|k: int| 0 <= k < v.len() ==> expr_clean(#[trigger] v[k])
}

pub open spec fn stmts_within(v: Seq<Statement>, stream: Seq<TokenView>) -> bool {
    forall|k: int| 0 <= k < v.len() ==> stmt_within(#[trigger] v[k], stream)
}

pub open spec fn stmts_clean(v: Seq<Statement>) -> bool {
    forall|k: int| 0 <= k < v.len() ==> stmt_clean(#[trigger] v[k])
}

/// An expression as a mathematical value.
pub enum ExprModel {
    Literal { token: TokenView },
    Array { items: Seq<ExprModel> },
    BooleanExpr { lhs: Box<ExprModel>, rhs: Box<ExprModel>, operator: TokenView },
    FunCall { name: TokenView, args: Seq<ExprModel> },
    Type { token: TokenView, depth: nat },
    Argument { name: TokenView, class: Box<ExprModel> },
    Null,
}

/// A statement as a mathematical value.
pub enum StmtModel {
    SetAssign { name: TokenView, value: ExprModel },
    VarAssign { name: TokenView, value: ExprModel },
    IfStatement { boolean: ExprModel, block: Seq<StmtModel> },
    FunCall { name: TokenView, args: Seq<ExprModel> },
    FunDef { name: TokenView, args: Seq<ExprModel>, yeild: ExprModel, block: Seq<StmtModel> },
    Void,
}

/// The mathematical value of an expression.
pub open spec fn expr_model(e: Expression) -> ExprModel
    decreases e,
{
    match e {
        Expression::Literal { value } => ExprModel::Literal { token: value@ },
        Expression::Array { value } => ExprModel::Array {
            items: Seq::new(
                value@.len(),
                |k: int|
                    if 0 <= k < value@.len() {
                        expr_model(value@[k])
                    } else {
                        ExprModel::Null
                    },
            ),
        },
        Expression::BooleanExpr { lhs, rhs, operator } => ExprModel::BooleanExpr {
            lhs: Box::new(expr_model(*lhs)),
            rhs: Box::new(expr_model(*rhs)),
            operator: operator@,
        },
        Expression::FunCall { name, args } => ExprModel::FunCall {
            name: name@,
            args: Seq::new(
                args@.len(),
                |k: int|
                    if 0 <= k < args@.len() {
                        expr_model(args@[k])
                    } else {
                        ExprModel::Null
                    },
            ),
        },
        Expression::Type { value, is_array } => ExprModel::Type {
            token: value@,
            depth: is_array as nat,
        },
        Expression::Argument { name, class } => ExprModel::Argument {
            name: name@,
            class: Box::new(expr_model(*class)),
        },
        Expression::Null => ExprModel::Null,
    }
}

/// The mathematical values of a sequence of expressions.
pub open spec fn expr_models(v: Seq<Expression>) -> Seq<ExprModel> {
    Seq::new(v.len(), |k: int| expr_model(v[k]))
}

/// The mathematical value of a statement.
pub open spec fn stmt_model(s: Statement) -> StmtModel
    decreases s,
{
    match s {
        Statement::SetAssign { name, value } => StmtModel::SetAssign {
            name: name@,
            value: expr_model(value),
        },
        Statement::VarAssign { name, value } => StmtModel::VarAssign {
            name: name@,
            value: expr_model(value),
        },
        Statement::IfStatement { boolean, block } => StmtModel::IfStatement {
            boolean: expr_model(boolean),
            block: Seq::new(
                block@.len(),
                |k: int|
                    if 0 <= k < block@.len() {
                        stmt_model(block@[k])
                    } else {
                        StmtModel::Void
                    },
            ),
        },
        Statement::FunCall { name, args } => StmtModel::FunCall {
            name: name@,
            args: expr_models(args@),
        },
        Statement::FunDef { name, args, yeild, block } => StmtModel::FunDef {
            name: name@,
            args: expr_models(args@),
            yeild: expr_model(yeild),
            block: Seq::new(
                block@.len(),
                |k: int|
                    if 0 <= k < block@.len() {
                        stmt_model(block@[k])
                    } else {
                        StmtModel::Void
                    },
            ),
        },
        Statement::Void => StmtModel::Void,
    }
}

/// The mathematical values of a sequence of statements.
pub open spec fn stmt_models(v: Seq<Statement>) -> Seq<StmtModel> {
    Seq::new(v.len(), |k: int| stmt_model(v[k]))
}

/// The value of an array is the array of its items' values, and likewise for
/// a call and a block.
pub proof fn lemma_models(e: Expression, s: Statement)
    ensures
        e matches Expression::Array { value } ==> expr_model(e) == (ExprModel::Array {
            items: expr_models(value@),
        }),
        e matches Expression::FunCall { name, args } ==> expr_model(e) == (ExprModel::FunCall {
            name: name@,
            args: expr_models(args@),
        }),
        s matches Statement::IfStatement { boolean, block } ==> stmt_model(s)
            == (StmtModel::IfStatement { boolean: expr_model(boolean), block: stmt_models(block@) }),
{
    match e {
        Expression::Array { value } => {
            assert(expr_model(e)->Array_items =~= expr_models(value@));
        },
        Expression::FunCall { name, args } => {
            assert(expr_model(e)->FunCall_args =~= expr_models(args@));
        },
        _ => {},
    }
    match s {
        Statement::IfStatement { boolean, block } => {
            assert(stmt_model(s)->IfStatement_block =~= stmt_models(block@));
        },
        _ => {},
    }
}

} // verus!

//! The tokens of the text of a program.

use vstd::prelude::*;
use crate::parser::ast::{ExpressionModel, LiteralModel, StatementModel};
use crate::token::TokenModel;

verus! {

/// The tokens of a list of names, separated by commas.
pub open spec fn names_tokens(names: Seq<Seq<char>>) -> Seq<TokenModel>
    decreases names.len(),
{
    if names.len() == 0 {
        Seq::empty()
    } else if names.len() == 1 {
        seq![TokenModel::Ident(names[0])]
    } else {
        names_tokens(names.drop_last()) + seq![TokenModel::Comma, TokenModel::Ident(names.last())]
    }
}

/// The tokens of a list of expressions, separated by commas.
pub open spec fn expressions_tokens(expressions: Seq<ExpressionModel>) -> Seq<TokenModel>
    decreases expressions, 1nat,
{
    if expressions.len() == 0 {
        Seq::empty()
    } else if expressions.len() == 1 {
        expression_tokens(expressions[0])
    } else {
        expressions_tokens(expressions.drop_last()) + seq![TokenModel::Comma] + expression_tokens(
            expressions.last(),
        )
    }
}

/// The tokens of one pair of a hash literal.
pub open spec fn pair_tokens(pair: (ExpressionModel, ExpressionModel)) -> Seq<TokenModel>
    decreases pair, 1nat,
{
    expression_tokens(pair.0) + seq![TokenModel::Colon] + expression_tokens(pair.1)
}

/// The tokens of the pairs of a hash literal, separated by commas.
pub open spec fn pairs_tokens(pairs: Seq<(ExpressionModel, ExpressionModel)>) -> Seq<TokenModel>
    decreases pairs, 2nat,
{
    if pairs.len() == 0 {
        Seq::empty()
    } else if pairs.len() == 1 {
        pair_tokens(pairs[0])
    } else {
        pairs_tokens(pairs.drop_last()) + seq![TokenModel::Comma] + pair_tokens(pairs.last())
    }
}

/// The tokens of a list of statements.
pub open spec fn statements_tokens(statements: Seq<StatementModel>) -> Seq<TokenModel>
    decreases statements, 1nat,
{
    if statements.len() == 0 {
        Seq::empty()
    } else {
        statements_tokens(statements.drop_last()) + statement_tokens(statements.last())
    }
}

/// The tokens of a statement.
pub open spec fn statement_tokens(statement: StatementModel) -> Seq<TokenModel>
    decreases statement, 1nat,
{
    match statement {
        StatementModel::Let(name, value) => seq![
            TokenModel::Let,
            TokenModel::Ident(name),
            TokenModel::Assign,
        ] + expression_tokens(value) + seq![TokenModel::Semicolon],
        StatementModel::Return(value) => seq![TokenModel::Return] + expression_tokens(value)
            + seq![TokenModel::Semicolon],
        StatementModel::Expr(value) => expression_tokens(value),
    }
}

/// The tokens of a block: its statements between braces.
pub open spec fn block_tokens(statements: Seq<StatementModel>) -> Seq<TokenModel>
    decreases statements, 2nat,
{
    seq![TokenModel::LBrace] + statements_tokens(statements) + seq![TokenModel::RBrace]
}

/// The tokens of the text of an expression.
pub open spec fn expression_tokens(e: ExpressionModel) -> Seq<TokenModel>
    decreases e, 0nat,
{
    match e {
        ExpressionModel::Identifier(name) => seq![TokenModel::Ident(name)],
        ExpressionModel::Lit(LiteralModel::Integer(value)) => seq![TokenModel::Int(value)],
        ExpressionModel::Lit(LiteralModel::Boolean(value)) => seq![
            if value {
                TokenModel::True
            } else {
                TokenModel::False
            },
        ],
        ExpressionModel::Lit(LiteralModel::String(value)) => seq![TokenModel::String(value)],
        ExpressionModel::Lit(LiteralModel::Array(elements)) => seq![TokenModel::LBracket]
            + expressions_tokens(elements) + seq![TokenModel::RBracket],
        ExpressionModel::Lit(LiteralModel::Hash(pairs)) => seq![TokenModel::LBrace]
            + pairs_tokens(pairs) + seq![TokenModel::RBrace],
        ExpressionModel::Prefix(operator, right) => seq![TokenModel::LParen, operator]
            + expression_tokens(*right) + seq![TokenModel::RParen],
        ExpressionModel::Infix(operator, left, right) => seq![TokenModel::LParen]
            + expression_tokens(*left) + seq![operator] + expression_tokens(*right)
            + seq![TokenModel::RParen],
        ExpressionModel::If(condition, consequence, alternative) => {
            let head = seq![TokenModel::If] + expression_tokens(*condition) + block_tokens(
                consequence,
            );
            match alternative {
                Some(block) => head + seq![TokenModel::Else] + block_tokens(block),
                None => head,
            }
        },
        ExpressionModel::Fn(parameters, body) => seq![TokenModel::Function, TokenModel::LParen]
            + names_tokens(parameters) + seq![TokenModel::RParen] + block_tokens(body),
        ExpressionModel::Call(function, arguments) => expression_tokens(*function)
            + seq![TokenModel::LParen] + expressions_tokens(arguments) + seq![TokenModel::RParen],
        ExpressionModel::Index(left, index) => seq![TokenModel::LParen] + expression_tokens(*left)
            + seq![TokenModel::LBracket] + expression_tokens(*index) + seq![
            TokenModel::RBracket,
            TokenModel::RParen,
        ],
    }
}

} // verus!

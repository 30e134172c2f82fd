//! Rendering a program and parsing the text again gives the program back.
//!
//! This holds of the programs that `program_parses_back` describes. They
//! are the programs that the parser builds, but for two kinds. The text of a
//! statement that is an expression ends without a semicolon, so the text of
//! the statement behind it must neither run into it nor continue it. And the
//! condition of an `if` is written without parentheses of its own, so it must
//! be an expression whose text has them: a prefix, a binary or an index
//! expression.

pub mod parsing;
pub mod scanning;
pub mod tokens;

use vstd::prelude::*;
use crate::lexer::{in_class, is_letter, literal_fits, literals_fit, tokens_of, CharClass};
use crate::parser::ast::{
    node_text, statements_text, ExpressionModel, LiteralModel, NodeModel, StatementModel,
};
use crate::parser::round_trip::parsing::{
    lemma_build_program, lemma_parse_program_end, program_rest_at,
};
use crate::parser::round_trip::scanning::{lemma_scan_statements, lemma_tokens_at_end};
use crate::parser::round_trip::tokens::{
    block_tokens, expression_tokens, expressions_tokens, names_tokens, pair_tokens, pairs_tokens,
    statement_tokens, statements_tokens,
};
use crate::parser::syntax::{is_infix_operator, parse_text};
use crate::token::{keyword_or_ident, TokenModel};

verus! {

/// Whether `name` is scanned as an identifier: a letter, then letters, digits
/// and underscores, and no keyword.
pub open spec fn is_identifier(name: Seq<char>) -> bool {
    &&& name.len() > 0
    &&& is_letter(name[0])
    &&& forall|i: int| 0 <= i < name.len() ==> in_class(CharClass::Name, #[trigger] name[i])
    &&& keyword_or_ident(name) == TokenModel::Ident(name)
}

/// Whether `content` can stand between the quotes of a string literal: it
/// holds no double quote.
pub open spec fn is_string_content(content: Seq<char>) -> bool {
    forall|i: int| 0 <= i < content.len() ==> #[trigger] content[i] != '"'
}

/// Whether `token` is one of the two prefix operators.
pub open spec fn is_prefix_operator(token: TokenModel) -> bool {
    token is Bang || token is Minus
}

/// Whether the text of an expression stands in parentheses.
pub open spec fn is_grouped(e: ExpressionModel) -> bool {
    e is Prefix || e is Infix || e is Index
}

/// The first token of the text of an expression.
pub open spec fn first_token(e: ExpressionModel) -> TokenModel
    decreases e,
{
    match e {
        ExpressionModel::Identifier(name) => TokenModel::Ident(name),
        ExpressionModel::Lit(LiteralModel::Integer(value)) => TokenModel::Int(value),
        ExpressionModel::Lit(LiteralModel::Boolean(value)) => if value {
            TokenModel::True
        } else {
            TokenModel::False
        },
        ExpressionModel::Lit(LiteralModel::String(value)) => TokenModel::String(value),
        ExpressionModel::Lit(LiteralModel::Array(_)) => TokenModel::LBracket,
        ExpressionModel::Lit(LiteralModel::Hash(_)) => TokenModel::LBrace,
        ExpressionModel::Prefix(_, _) => TokenModel::LParen,
        ExpressionModel::Infix(_, _, _) => TokenModel::LParen,
        ExpressionModel::Index(_, _) => TokenModel::LParen,
        ExpressionModel::If(_, _, _) => TokenModel::If,
        ExpressionModel::Fn(_, _) => TokenModel::Function,
        ExpressionModel::Call(function, _) => first_token(*function),
    }
}

/// The first token of the text of a statement.
pub open spec fn statement_first_token(statement: StatementModel) -> TokenModel {
    match statement {
        StatementModel::Let(_, _) => TokenModel::Let,
        StatementModel::Return(_) => TokenModel::Return,
        StatementModel::Expr(e) => first_token(e),
    }
}

/// Whether the text of an expression ends with a name or a keyword.
pub open spec fn ends_with_name(e: ExpressionModel) -> bool {
    e is Identifier || (e is Lit && e->Lit_0 is Boolean)
}

/// Whether the text of an expression ends with a number.
pub open spec fn ends_with_number(e: ExpressionModel) -> bool {
    e is Lit && e->Lit_0 is Integer
}

/// Whether the text of `after` can stand directly behind the text of
/// `before`. Behind a `let` or a `return` statement, which end with a
/// semicolon, anything can. Behind an expression, what follows must not start
/// with a parenthesis or a bracket, which would continue the expression as a
/// call or an index access; behind a name only a string or a hash can stand,
/// and behind a number no number.
pub open spec fn may_follow(before: StatementModel, after: StatementModel) -> bool {
    match before {
        StatementModel::Expr(e) => {
            let first = statement_first_token(after);
            &&& !(first is LParen)
            &&& !(first is LBracket)
            &&& ends_with_name(e) ==> first is String || first is LBrace
            &&& ends_with_number(e) ==> !(first is Int)
        },
        _ => true,
    }
}

/// Whether the text of an expression is parsed as the expression.
///
/// A name is an identifier, an integer literal is not negative and fits in 64
/// bits, a string holds no double quote, an operator is one that the parser
/// knows, the condition of an `if` is written in parentheses, the parameters
/// of a function are identifiers, and every part of the expression is parsed
/// back too.
pub open spec fn parses_back(e: ExpressionModel) -> bool
    decreases e,
{
    match e {
        ExpressionModel::Identifier(name) => is_identifier(name),
        ExpressionModel::Lit(LiteralModel::Integer(value)) => 0 <= value <= i64::MAX,
        ExpressionModel::Lit(LiteralModel::Boolean(_)) => true,
        ExpressionModel::Lit(LiteralModel::String(value)) => is_string_content(value),
        ExpressionModel::Lit(LiteralModel::Array(elements)) => forall|i: int|
            0 <= i < elements.len() ==> parses_back(#[trigger] elements[i]),
        ExpressionModel::Lit(LiteralModel::Hash(pairs)) => forall|i: int|
            0 <= i < pairs.len() ==> parses_back((#[trigger] pairs[i]).0) && parses_back(
                pairs[i].1,
            ),
        ExpressionModel::Prefix(operator, right) => is_prefix_operator(operator) && parses_back(
            *right,
        ),
        ExpressionModel::Infix(operator, left, right) => is_infix_operator(operator)
            && parses_back(*left) && parses_back(*right),
        ExpressionModel::If(condition, consequence, alternative) => {
            &&& is_grouped(*condition)
            &&& parses_back(*condition)
            &&& block_parses_back(consequence)
            &&& match alternative {
                Some(block) => block_parses_back(block),
                None => true,
            }
        },
        ExpressionModel::Fn(parameters, body) => {
            &&& forall|i: int| 0 <= i < parameters.len() ==> is_identifier(#[trigger] parameters[i])
            &&& block_parses_back(body)
        },
        ExpressionModel::Call(function, arguments) => {
            &&& parses_back(*function)
            &&& forall|i: int| 0 <= i < arguments.len() ==> parses_back(#[trigger] arguments[i])
        },
        ExpressionModel::Index(left, index) => parses_back(*left) && parses_back(*index),
    }
}

/// Whether the text of a statement is parsed as the statement.
pub open spec fn statement_parses_back(statement: StatementModel) -> bool
    decreases statement,
{
    match statement {
        StatementModel::Let(name, value) => is_identifier(name) && parses_back(value),
        StatementModel::Return(value) => parses_back(value),
        StatementModel::Expr(value) => parses_back(value),
    }
}

/// Whether the text of a list of statements is parsed as the list: that of
/// each statement is, and each statement may follow the one before it.
pub open spec fn block_parses_back(statements: Seq<StatementModel>) -> bool
    decreases statements,
{
    &&& forall|i: int|
        0 <= i < statements.len() ==> statement_parses_back(#[trigger] statements[i])
    &&& forall|i: int|
        0 <= i < statements.len() - 1 ==> may_follow(#[trigger] statements[i], statements[i + 1])
}

/// Whether the text of a program is parsed as the program.
pub open spec fn program_parses_back(node: NodeModel) -> bool {
    match node {
        NodeModel::Program(statements) => block_parses_back(statements),
        _ => false,
    }
}

/// The integer literals of two runs of tokens fit in 64 bits if those of
/// each run do.
proof fn lemma_fit_both(a: Seq<TokenModel>, b: Seq<TokenModel>)
    requires
        literals_fit(a),
        literals_fit(b),
    ensures
        literals_fit(a + b),
{
    assert forall|i: int| 0 <= i < (a + b).len() implies literal_fits(#[trigger] (a + b)[i]) by {
        if i < a.len() {
            assert((a + b)[i] == a[i]);
        } else {
            assert((a + b)[i] == b[i - a.len()]);
        }
    }
}

/// The integer literal of one token fits in 64 bits if the token's does.
proof fn lemma_fit_one(token: TokenModel)
    requires
        literal_fits(token),
    ensures
        literals_fit(seq![token]),
{
}

/// Every integer literal among the tokens of names fits in 64 bits: there
/// is none.
proof fn lemma_names_fit(names: Seq<Seq<char>>)
    ensures
        literals_fit(names_tokens(names)),
    decreases names.len(),
{
    if names.len() >= 2 {
        lemma_names_fit(names.drop_last());
        lemma_fit_one(TokenModel::Comma);
        lemma_fit_one(TokenModel::Ident(names.last()));
        lemma_fit_both(seq![TokenModel::Comma], seq![TokenModel::Ident(names.last())]);
        assert(seq![TokenModel::Comma] + seq![TokenModel::Ident(names.last())] =~= seq![
            TokenModel::Comma,
            TokenModel::Ident(names.last()),
        ]);
        lemma_fit_both(
            names_tokens(names.drop_last()),
            seq![TokenModel::Comma, TokenModel::Ident(names.last())],
        );
    }
}

/// Every integer literal among the tokens of a block that parses back fits
/// in 64 bits.
proof fn lemma_block_fits(statements: Seq<StatementModel>)
    requires
        block_parses_back(statements),
    ensures
        literals_fit(block_tokens(statements)),
    decreases statements, 3nat,
{
    lemma_statements_fit(statements);
    lemma_fit_one(TokenModel::LBrace);
    lemma_fit_one(TokenModel::RBrace);
    lemma_fit_both(seq![TokenModel::LBrace], statements_tokens(statements));
    lemma_fit_both(
        seq![TokenModel::LBrace] + statements_tokens(statements),
        seq![TokenModel::RBrace],
    );
}

/// Every integer literal among the tokens of statements that parse back
/// fits in 64 bits.
proof fn lemma_statements_fit(statements: Seq<StatementModel>)
    requires
        block_parses_back(statements),
    ensures
        literals_fit(statements_tokens(statements)),
    decreases statements, 2nat,
{
    if statements.len() > 0 {
        let head = statements.drop_last();
        assert(block_parses_back(head)) by {
            assert forall|i: int| 0 <= i < head.len() implies statement_parses_back(
                #[trigger] head[i],
            ) by {
                assert(head[i] == statements[i]);
            }
            assert forall|i: int| 0 <= i < head.len() - 1 implies may_follow(
                #[trigger] head[i],
                head[i + 1],
            ) by {
                assert(head[i] == statements[i]);
                assert(head[i + 1] == statements[i + 1]);
            }
        }
        lemma_statements_fit(head);
        lemma_statement_fits(statements.last());
        lemma_fit_both(statements_tokens(head), statement_tokens(statements.last()));
    }
}

/// Every integer literal among the tokens of a statement that parses back
/// fits in 64 bits.
proof fn lemma_statement_fits(statement: StatementModel)
    requires
        statement_parses_back(statement),
    ensures
        literals_fit(statement_tokens(statement)),
    decreases statement, 1nat,
{
    match statement {
        StatementModel::Let(name, value) => {
            lemma_expression_fits(value);
            let start = seq![TokenModel::Let, TokenModel::Ident(name), TokenModel::Assign];
            lemma_fit_one(TokenModel::Semicolon);
            lemma_fit_both(start, expression_tokens(value));
            lemma_fit_both(start + expression_tokens(value), seq![TokenModel::Semicolon]);
        },
        StatementModel::Return(value) => {
            lemma_expression_fits(value);
            lemma_fit_one(TokenModel::Return);
            lemma_fit_one(TokenModel::Semicolon);
            lemma_fit_both(seq![TokenModel::Return], expression_tokens(value));
            lemma_fit_both(
                seq![TokenModel::Return] + expression_tokens(value),
                seq![TokenModel::Semicolon],
            );
        },
        StatementModel::Expr(value) => {
            lemma_expression_fits(value);
        },
    }
}

/// Every integer literal among the tokens of expressions that parse back
/// fits in 64 bits.
proof fn lemma_expressions_fit(expressions: Seq<ExpressionModel>)
    requires
        forall|i: int| 0 <= i < expressions.len() ==> parses_back(#[trigger] expressions[i]),
    ensures
        literals_fit(expressions_tokens(expressions)),
    decreases expressions, 1nat,
{
    if expressions.len() == 1 {
        lemma_expression_fits(expressions[0]);
    } else if expressions.len() >= 2 {
        let head = expressions.drop_last();
        assert forall|i: int| 0 <= i < head.len() implies parses_back(#[trigger] head[i]) by {
            assert(head[i] == expressions[i]);
        }
        lemma_expressions_fit(head);
        lemma_expression_fits(expressions.last());
        lemma_fit_one(TokenModel::Comma);
        lemma_fit_both(expressions_tokens(head), seq![TokenModel::Comma]);
        lemma_fit_both(
            expressions_tokens(head) + seq![TokenModel::Comma],
            expression_tokens(expressions.last()),
        );
    }
}

/// Every integer literal among the tokens of a pair that parses back fits in
/// 64 bits.
proof fn lemma_pair_fits(pair: (ExpressionModel, ExpressionModel))
    requires
        parses_back(pair.0),
        parses_back(pair.1),
    ensures
        literals_fit(pair_tokens(pair)),
    decreases pair, 1nat,
{
    lemma_expression_fits(pair.0);
    lemma_expression_fits(pair.1);
    lemma_fit_one(TokenModel::Colon);
    lemma_fit_both(expression_tokens(pair.0), seq![TokenModel::Colon]);
    lemma_fit_both(expression_tokens(pair.0) + seq![TokenModel::Colon], expression_tokens(pair.1));
}

/// Every integer literal among the tokens of pairs that parse back fits in
/// 64 bits.
proof fn lemma_pairs_fit(pairs: Seq<(ExpressionModel, ExpressionModel)>)
    requires
        forall|i: int|
            0 <= i < pairs.len() ==> parses_back((#[trigger] pairs[i]).0) && parses_back(
                pairs[i].1,
            ),
    ensures
        literals_fit(pairs_tokens(pairs)),
    decreases pairs, 2nat,
{
    if pairs.len() == 1 {
        lemma_pair_fits(pairs[0]);
    } else if pairs.len() >= 2 {
        let head = pairs.drop_last();
        assert forall|i: int| 0 <= i < head.len() implies parses_back((#[trigger] head[i]).0)
            && parses_back(head[i].1) by {
            assert(head[i] == pairs[i]);
        }
        lemma_pairs_fit(head);
        lemma_pair_fits(pairs.last());
        lemma_fit_one(TokenModel::Comma);
        lemma_fit_both(pairs_tokens(head), seq![TokenModel::Comma]);
        lemma_fit_both(pairs_tokens(head) + seq![TokenModel::Comma], pair_tokens(pairs.last()));
    }
}

/// Every integer literal among the tokens of an expression that parses back
/// fits in 64 bits.
proof fn lemma_expression_fits(e: ExpressionModel)
    requires
        parses_back(e),
    ensures
        literals_fit(expression_tokens(e)),
    decreases e, 0nat,
{
    lemma_fit_one(TokenModel::LParen);
    lemma_fit_one(TokenModel::RParen);
    lemma_fit_one(TokenModel::LBracket);
    lemma_fit_one(TokenModel::RBracket);
    lemma_fit_one(TokenModel::LBrace);
    lemma_fit_one(TokenModel::RBrace);
    lemma_fit_one(TokenModel::If);
    lemma_fit_one(TokenModel::Else);
    match e {
        ExpressionModel::Lit(LiteralModel::Array(elements)) => {
            lemma_expressions_fit(elements);
            lemma_fit_both(seq![TokenModel::LBracket], expressions_tokens(elements));
            lemma_fit_both(
                seq![TokenModel::LBracket] + expressions_tokens(elements),
                seq![TokenModel::RBracket],
            );
        },
        ExpressionModel::Lit(LiteralModel::Hash(pairs)) => {
            lemma_pairs_fit(pairs);
            lemma_fit_both(seq![TokenModel::LBrace], pairs_tokens(pairs));
            lemma_fit_both(seq![TokenModel::LBrace] + pairs_tokens(pairs), seq![TokenModel::RBrace]);
        },
        ExpressionModel::Prefix(operator, right) => {
            lemma_expression_fits(*right);
            let start = seq![TokenModel::LParen, operator];
            lemma_fit_both(start, expression_tokens(*right));
            lemma_fit_both(start + expression_tokens(*right), seq![TokenModel::RParen]);
        },
        ExpressionModel::Infix(operator, left, right) => {
            lemma_expression_fits(*left);
            lemma_expression_fits(*right);
            lemma_fit_one(operator);
            let a = seq![TokenModel::LParen] + expression_tokens(*left);
            lemma_fit_both(seq![TokenModel::LParen], expression_tokens(*left));
            lemma_fit_both(a, seq![operator]);
            lemma_fit_both(a + seq![operator], expression_tokens(*right));
            lemma_fit_both(
                a + seq![operator] + expression_tokens(*right),
                seq![TokenModel::RParen],
            );
        },
        ExpressionModel::If(condition, consequence, alternative) => {
            lemma_expression_fits(*condition);
            lemma_block_fits(consequence);
            let head = seq![TokenModel::If] + expression_tokens(*condition) + block_tokens(
                consequence,
            );
            lemma_fit_both(seq![TokenModel::If], expression_tokens(*condition));
            lemma_fit_both(
                seq![TokenModel::If] + expression_tokens(*condition),
                block_tokens(consequence),
            );
            match alternative {
                Some(block) => {
                    lemma_block_fits(block);
                    lemma_fit_both(head, seq![TokenModel::Else]);
                    lemma_fit_both(head + seq![TokenModel::Else], block_tokens(block));
                },
                None => {},
            }
        },
        ExpressionModel::Fn(parameters, body) => {
            lemma_names_fit(parameters);
            lemma_block_fits(body);
            let start = seq![TokenModel::Function, TokenModel::LParen];
            lemma_fit_both(start, names_tokens(parameters));
            lemma_fit_both(start + names_tokens(parameters), seq![TokenModel::RParen]);
            lemma_fit_both(
                start + names_tokens(parameters) + seq![TokenModel::RParen],
                block_tokens(body),
            );
        },
        ExpressionModel::Call(function, arguments) => {
            lemma_expression_fits(*function);
            lemma_expressions_fit(arguments);
            lemma_fit_both(expression_tokens(*function), seq![TokenModel::LParen]);
            lemma_fit_both(
                expression_tokens(*function) + seq![TokenModel::LParen],
                expressions_tokens(arguments),
            );
            lemma_fit_both(
                expression_tokens(*function) + seq![TokenModel::LParen] + expressions_tokens(
                    arguments,
                ),
                seq![TokenModel::RParen],
            );
        },
        ExpressionModel::Index(left, index) => {
            lemma_expression_fits(*left);
            lemma_expression_fits(*index);
            let a = seq![TokenModel::LParen] + expression_tokens(*left);
            lemma_fit_both(seq![TokenModel::LParen], expression_tokens(*left));
            lemma_fit_both(a, seq![TokenModel::LBracket]);
            lemma_fit_both(a + seq![TokenModel::LBracket], expression_tokens(*index));
            lemma_fit_both(
                a + seq![TokenModel::LBracket] + expression_tokens(*index),
                seq![TokenModel::RBracket, TokenModel::RParen],
            );
        },
        _ => {},
    }
}

/// The text of a program that parses back is scanned as the tokens of the
/// program, every integer literal of which fits in 64 bits, and is parsed as
/// the program.
pub proof fn lemma_render_then_parse(statements: Seq<StatementModel>)
    requires
        block_parses_back(statements),
    ensures
        tokens_of(statements_text(statements)) == statements_tokens(statements),
        literals_fit(tokens_of(statements_text(statements))),
        parse_text(statements_text(statements)) == Ok::<NodeModel, Seq<char>>(
            NodeModel::Program(statements),
        ),
{
    let text = statements_text(statements);
    let ts = statements_tokens(statements);
    // the text is scanned as the program's tokens
    assert(text.subrange(0, 0int + text.len()) =~= text);
    lemma_scan_statements(statements, text, 0);
    lemma_tokens_at_end(text);
    assert(ts + Seq::<TokenModel>::empty() =~= ts);
    assert(tokens_of(text) == ts);
    lemma_statements_fit(statements);
    // the tokens are parsed as the program
    assert(ts.subrange(0, (0 + ts.len()) as int) =~= ts);
    lemma_build_program(statements, ts, 0, Seq::empty());
    lemma_parse_program_end(ts, ts.len(), statements);
    assert(Seq::<StatementModel>::empty() + statements =~= statements);
    reveal(program_rest_at);
}

/// Parsing a text, rendering the program and parsing the rendered text
/// gives the same program, where the program parses back.
pub proof fn lemma_parse_render_parse(text: Seq<char>, program: NodeModel)
    requires
        parse_text(text) == Ok::<NodeModel, Seq<char>>(program),
        program_parses_back(program),
    ensures
        parse_text(node_text(program)) == parse_text(text),
{
    lemma_render_then_parse(program->Program_0);
}

} // verus!

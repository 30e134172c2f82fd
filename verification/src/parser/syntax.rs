//! The grammar of Monkey, as functions from a token sequence and a position
//! in it to what the parser builds there.
//!
//! Each function stands for the parsing function of the same name. It is given
//! the position of the current token and returns the result together with the
//! number of tokens that the parser moves forward by. The token behind the
//! current one is the peek token; behind the end of the sequence every token
//! is the end-of-input token.

use vstd::prelude::*;
use crate::lexer::{token_or_eof, tokens_of};
use crate::parser::ast::{ExpressionModel, LiteralModel, NodeModel, StatementModel};
use crate::parser::precedence::{precedence_of, rank, Precdence};
use crate::text::decimal;
use crate::token::{token_text, TokenModel};

verus! {

/// How many tokens stand at or behind position `pos`.
pub open spec fn remaining(ts: Seq<TokenModel>, pos: nat) -> nat {
    if pos < ts.len() {
        (ts.len() - pos) as nat
    } else {
        0
    }
}

/// The current token at position `pos`.
pub open spec fn current(ts: Seq<TokenModel>, pos: nat) -> TokenModel {
    token_or_eof(ts, pos as int)
}

/// The peek token at position `pos`: the one behind the current token.
pub open spec fn peek(ts: Seq<TokenModel>, pos: nat) -> TokenModel {
    token_or_eof(ts, (pos + 1) as int)
}

/// The message for a peek token that is not the expected one.
pub open spec fn unexpected_token_message(expected: TokenModel, found: TokenModel) -> Seq<char> {
    "Expected next token to be "@ + token_text(expected) + ", received "@ + token_text(found)
}

/// The message for a `let` statement that does not start with `let`.
pub open spec fn not_let_message(found: TokenModel) -> Seq<char> {
    "Expected 'let' token, got "@ + token_text(found)
}

/// The message for a `return` statement that does not start with `return`.
pub open spec fn not_return_message(found: TokenModel) -> Seq<char> {
    "Expected 'return' token, got "@ + token_text(found)
}

/// The message for a parameter that is no identifier.
pub open spec fn not_parameter_message(found: TokenModel) -> Seq<char> {
    "Expected a parameter identifer, got "@ + token_text(found)
}

/// The message for a token that no expression starts with.
pub open spec fn no_prefix_message(found: TokenModel) -> Seq<char> {
    "No prefix parse function for "@ + token_text(found)
}

/// Messages joined by line breaks.
pub open spec fn lines_text(lines: Seq<Seq<char>>) -> Seq<char>
    decreases lines.len(),
{
    if lines.len() == 0 {
        Seq::empty()
    } else if lines.len() == 1 {
        lines[0]
    } else {
        lines_text(lines.drop_last()) + "\n"@ + lines.last()
    }
}

/// The one message that stands for all the errors of a program.
pub open spec fn aggregate_message(errors: Seq<Seq<char>>) -> Seq<char> {
    "Encountered "@ + decimal(errors.len()) + " error(s) while parsing:\n"@ + lines_text(errors)
}

/// Moves to the peek token if it is `expected`, and fails otherwise.
pub open spec fn expect_peek_token(ts: Seq<TokenModel>, pos: nat, expected: TokenModel) -> (
    Result<(), Seq<char>>,
    nat,
) {
    if peek(ts, pos) == expected {
        (Ok(()), 1)
    } else {
        (Err(unexpected_token_message(expected, peek(ts, pos))), 0)
    }
}

/// The step over an optional semicolon behind a statement.
pub open spec fn skip_semicolon(ts: Seq<TokenModel>, pos: nat) -> nat {
    if peek(ts, pos) is Semicolon {
        1
    } else {
        0
    }
}

/// Whether `token` is one of the eight binary operators.
pub open spec fn is_infix_operator(token: TokenModel) -> bool {
    token is Plus || token is Minus || token is Slash || token is Asterisk || token is Eq
        || token is NotEq || token is Lt || token is Gt
}

/// A statement: `let`, `return`, or an expression.
pub open spec fn parse_statement(ts: Seq<TokenModel>, pos: nat) -> (
    Result<StatementModel, Seq<char>>,
    nat,
)
    decreases remaining(ts, pos), 8nat,
{
    match current(ts, pos) {
        TokenModel::Let => parse_let_statement(ts, pos),
        TokenModel::Return => parse_return_statement(ts, pos),
        _ => parse_expression_statement(ts, pos),
    }
}

/// `let <identifier> = <expression>`, and a semicolon if one follows.
pub open spec fn parse_let_statement(ts: Seq<TokenModel>, pos: nat) -> (
    Result<StatementModel, Seq<char>>,
    nat,
)
    decreases remaining(ts, pos), 7nat,
{
    if !(current(ts, pos) is Let) {
        (Err(not_let_message(current(ts, pos))), 0)
    } else {
        match peek(ts, pos) {
            TokenModel::Ident(name) => {
                let (assign, _) = expect_peek_token(ts, pos + 1, TokenModel::Assign);
                match assign {
                    Err(message) => (Err(message), 1),
                    Ok(_) => {
                        let (value, n) = parse_expression(ts, pos + 3, Precdence::Lowest);
                        match value {
                            Err(message) => (Err(message), 3 + n),
                            Ok(value) => (
                                Ok(StatementModel::Let(name, value)),
                                3 + n + skip_semicolon(ts, pos + 3 + n),
                            ),
                        }
                    },
                }
            },
            _ => (Err("Expected identifier after 'let'"@), 0),
        }
    }
}

/// `return <expression>`, and a semicolon if one follows.
pub open spec fn parse_return_statement(ts: Seq<TokenModel>, pos: nat) -> (
    Result<StatementModel, Seq<char>>,
    nat,
)
    decreases remaining(ts, pos), 7nat,
{
    if !(current(ts, pos) is Return) {
        (Err(not_return_message(current(ts, pos))), 0)
    } else {
        let (value, n) = parse_expression(ts, pos + 1, Precdence::Lowest);
        match value {
            Err(message) => (Err(message), 1 + n),
            Ok(value) => (
                Ok(StatementModel::Return(value)),
                1 + n + skip_semicolon(ts, pos + 1 + n),
            ),
        }
    }
}

/// An expression standing as a statement, and a semicolon if one follows.
pub open spec fn parse_expression_statement(ts: Seq<TokenModel>, pos: nat) -> (
    Result<StatementModel, Seq<char>>,
    nat,
)
    decreases remaining(ts, pos), 7nat,
{
    let (value, n) = parse_expression(ts, pos, Precdence::Lowest);
    match value {
        Err(message) => (Err(message), n),
        Ok(value) => (Ok(StatementModel::Expr(value)), n + skip_semicolon(ts, pos + n)),
    }
}

/// An expression whose operators all bind more tightly than `precedence`:
/// what the current token starts, extended to the right for as long as the
/// peek token is an operator that binds more tightly than `precedence`.
pub open spec fn parse_expression(ts: Seq<TokenModel>, pos: nat, precedence: Precdence) -> (
    Result<ExpressionModel, Seq<char>>,
    nat,
)
    decreases remaining(ts, pos), 6nat,
{
    let (left, n) = parse_prefix(ts, pos);
    let (extended, m) = parse_infix_loop(ts, pos + n, left, precedence);
    (extended, n + m)
}

/// What the current token starts: a name, a literal, a prefix operator with
/// its operand, a group in parentheses, an `if`, a function, an array or a
/// hash.
pub open spec fn parse_prefix(ts: Seq<TokenModel>, pos: nat) -> (
    Result<ExpressionModel, Seq<char>>,
    nat,
)
    decreases remaining(ts, pos), 5nat,
{
    match current(ts, pos) {
        TokenModel::True | TokenModel::False => (parse_boolean(ts, pos), 0),
        TokenModel::Ident(_) => (parse_identifier(ts, pos), 0),
        TokenModel::Int(_) => (parse_integer_literal(ts, pos), 0),
        TokenModel::Bang | TokenModel::Minus => parse_prefix_expression(ts, pos),
        TokenModel::LParen => parse_grouped_expression(ts, pos),
        TokenModel::If => parse_if_expression(ts, pos),
        TokenModel::Function => parse_function_literal(ts, pos),
        TokenModel::String(_) => (parse_string_literal(ts, pos), 0),
        TokenModel::LBracket => parse_array_literal(ts, pos),
        TokenModel::LBrace => parse_hash_literal(ts, pos),
        other => (Err(no_prefix_message(other)), 0),
    }
}

/// The extension of `left` to the right: while the peek token is no semicolon
/// and binds more tightly than `precedence`, it is taken as a binary operator,
/// a call or an index access on what has been built so far. A failed `left`
/// is handed on once such a token has been stepped over.
pub open spec fn parse_infix_loop(
    ts: Seq<TokenModel>,
    pos: nat,
    left: Result<ExpressionModel, Seq<char>>,
    precedence: Precdence,
) -> (Result<ExpressionModel, Seq<char>>, nat)
    decreases remaining(ts, pos), 5nat,
{
    let next = peek(ts, pos);
    if next is Semicolon || !(rank(precedence) < rank(precedence_of(next))) {
        (left, 0)
    } else {
        match left {
            Err(message) => (Err(message), 1),
            Ok(left) => {
                let (extended, n) = if is_infix_operator(next) {
                    parse_infix_expression(ts, pos + 1, left)
                } else if next is LParen {
                    parse_call_expression(ts, pos + 1, left)
                } else {
                    parse_index_expresssion(ts, pos + 1, left)
                };
                let (result, m) = parse_infix_loop(ts, pos + 1 + n, extended, precedence);
                (result, 1 + n + m)
            },
        }
    }
}

/// The name under the current token.
pub open spec fn parse_identifier(ts: Seq<TokenModel>, pos: nat) -> Result<
    ExpressionModel,
    Seq<char>,
> {
    match current(ts, pos) {
        TokenModel::Ident(name) => Ok(ExpressionModel::Identifier(name)),
        _ => Err("Expected identifier"@),
    }
}

/// The integer literal under the current token.
pub open spec fn parse_integer_literal(ts: Seq<TokenModel>, pos: nat) -> Result<
    ExpressionModel,
    Seq<char>,
> {
    match current(ts, pos) {
        TokenModel::Int(value) => Ok(ExpressionModel::Lit(LiteralModel::Integer(value))),
        _ => Err("Expected integer"@),
    }
}

/// The boolean literal under the current token.
pub open spec fn parse_boolean(ts: Seq<TokenModel>, pos: nat) -> Result<
    ExpressionModel,
    Seq<char>,
> {
    match current(ts, pos) {
        TokenModel::True => Ok(ExpressionModel::Lit(LiteralModel::Boolean(true))),
        TokenModel::False => Ok(ExpressionModel::Lit(LiteralModel::Boolean(false))),
        _ => Err("Expected boolean"@),
    }
}

/// The string literal under the current token.
pub open spec fn parse_string_literal(ts: Seq<TokenModel>, pos: nat) -> Result<
    ExpressionModel,
    Seq<char>,
> {
    match current(ts, pos) {
        TokenModel::String(value) => Ok(ExpressionModel::Lit(LiteralModel::String(value))),
        _ => Err("expected string literal"@),
    }
}

/// A prefix operator, which is the current token, and its operand.
pub open spec fn parse_prefix_expression(ts: Seq<TokenModel>, pos: nat) -> (
    Result<ExpressionModel, Seq<char>>,
    nat,
)
    decreases remaining(ts, pos), 4nat,
    when pos < ts.len()
{
    let (right, n) = parse_expression(ts, pos + 1, Precdence::Prefix);
    match right {
        Err(message) => (Err(message), 1 + n),
        Ok(right) => (Ok(ExpressionModel::Prefix(current(ts, pos), Box::new(right))), 1 + n),
    }
}

/// An expression in parentheses; the current token opens them.
pub open spec fn parse_grouped_expression(ts: Seq<TokenModel>, pos: nat) -> (
    Result<ExpressionModel, Seq<char>>,
    nat,
)
    decreases remaining(ts, pos), 4nat,
    when pos < ts.len()
{
    let (inner, n) = parse_expression(ts, pos + 1, Precdence::Lowest);
    match inner {
        Err(message) => (Err(message), 1 + n),
        Ok(inner) => {
            let (closed, k) = expect_peek_token(ts, pos + 1 + n, TokenModel::RParen);
            match closed {
                Err(message) => (Err(message), 1 + n),
                Ok(_) => (Ok(inner), 2 + n),
            }
        },
    }
}

/// `if (<condition>) { <consequence> }`, and `else { <alternative> }` if it
/// follows; the current token is the `if`.
pub open spec fn parse_if_expression(ts: Seq<TokenModel>, pos: nat) -> (
    Result<ExpressionModel, Seq<char>>,
    nat,
)
    decreases remaining(ts, pos), 4nat,
    when pos < ts.len()
{
    let (opened, _) = expect_peek_token(ts, pos, TokenModel::LParen);
    match opened {
        Err(message) => (Err(message), 0),
        Ok(_) => {
            let (condition, n) = parse_expression(ts, pos + 2, Precdence::Lowest);
            match condition {
                Err(message) => (Err(message), 2 + n),
                Ok(condition) => {
                    let (closed, _) = expect_peek_token(ts, pos + 2 + n, TokenModel::RParen);
                    let (braced, _) = expect_peek_token(ts, pos + 3 + n, TokenModel::LBrace);
                    match (closed, braced) {
                        (Err(message), _) => (Err(message), 2 + n),
                        (Ok(_), Err(message)) => (Err(message), 3 + n),
                        (Ok(_), Ok(_)) => {
                            let (consequence, m) = parse_block_statement(ts, pos + 4 + n);
                            match consequence {
                                Err(message) => (Err(message), 4 + n + m),
                                Ok(consequence) => parse_alternative(
                                    ts,
                                    pos,
                                    condition,
                                    consequence,
                                    4 + n + m,
                                ),
                            }
                        },
                    }
                },
            }
        },
    }
}

/// What follows the consequence of an `if`, whose last token stands `k`
/// steps behind the `if` at `pos`: `else` and the alternative, or nothing.
pub open spec fn parse_alternative(
    ts: Seq<TokenModel>,
    pos: nat,
    condition: ExpressionModel,
    consequence: Seq<StatementModel>,
    k: nat,
) -> (Result<ExpressionModel, Seq<char>>, nat)
    decreases remaining(ts, pos), 3nat,
    when pos < ts.len() && k >= 1
{
    let end = pos + k;
    if peek(ts, end) is Else {
        let (braced, _) = expect_peek_token(ts, end + 1, TokenModel::LBrace);
        match braced {
            Err(message) => (Err(message), k + 1),
            Ok(_) => {
                let (alternative, m) = parse_block_statement(ts, end + 2);
                match alternative {
                    Err(message) => (Err(message), k + 2 + m),
                    Ok(alternative) => (
                        Ok(
                            ExpressionModel::If(
                                Box::new(condition),
                                consequence,
                                Some(alternative),
                            ),
                        ),
                        k + 2 + m,
                    ),
                }
            },
        }
    } else {
        (Ok(ExpressionModel::If(Box::new(condition), consequence, None)), k)
    }
}

/// The statements of a block; the current token is its opening brace. The
/// block ends before a closing brace or at the end of the input.
pub open spec fn parse_block_statement(ts: Seq<TokenModel>, pos: nat) -> (
    Result<Seq<StatementModel>, Seq<char>>,
    nat,
)
    decreases remaining(ts, pos), 4nat,
    when pos < ts.len()
{
    let (statements, n) = parse_block_loop(ts, pos + 1, Seq::empty());
    (statements, 1 + n)
}

/// The rest of a block, behind the statements `done`. A statement that fails
/// to parse is left out, and parsing goes on behind the token at which it
/// stopped; but where that token is a character that starts no token, the
/// block fails with the statement's message.
pub open spec fn parse_block_loop(ts: Seq<TokenModel>, pos: nat, done: Seq<StatementModel>) -> (
    Result<Seq<StatementModel>, Seq<char>>,
    nat,
)
    decreases remaining(ts, pos), 9nat,
{
    if current(ts, pos) is RBrace || current(ts, pos) is Eof {
        (Ok(done), 0)
    } else {
        let (statement, n) = parse_statement(ts, pos);
        match statement {
            Ok(statement) => {
                let (statements, m) = parse_block_loop(ts, pos + n + 1, done.push(statement));
                (statements, n + 1 + m)
            },
            Err(message) => if current(ts, pos + n) is Illegal {
                (Err(message), n)
            } else {
                let (statements, m) = parse_block_loop(ts, pos + n + 1, done);
                (statements, n + 1 + m)
            },
        }
    }
}

/// `fn(<parameters>) { <body> }`; the current token is the `fn`.
pub open spec fn parse_function_literal(ts: Seq<TokenModel>, pos: nat) -> (
    Result<ExpressionModel, Seq<char>>,
    nat,
)
    decreases remaining(ts, pos), 4nat,
    when pos < ts.len()
{
    let (opened, _) = expect_peek_token(ts, pos, TokenModel::LParen);
    match opened {
        Err(message) => (Err(message), 0),
        Ok(_) => {
            let (parameters, n) = parse_function_parameters(ts, pos + 1);
            match parameters {
                Err(message) => (Err(message), 1 + n),
                Ok(parameters) => {
                    let (braced, _) = expect_peek_token(ts, pos + 1 + n, TokenModel::LBrace);
                    match braced {
                        Err(message) => (Err(message), 1 + n),
                        Ok(_) => {
                            let (body, m) = parse_block_statement(ts, pos + 2 + n);
                            match body {
                                Err(message) => (Err(message), 2 + n + m),
                                Ok(body) => (Ok(ExpressionModel::Fn(parameters, body)), 2 + n + m),
                            }
                        },
                    }
                },
            }
        },
    }
}

/// The parameter names of a function literal, up to its closing parenthesis;
/// the current token is the opening one.
pub open spec fn parse_function_parameters(ts: Seq<TokenModel>, pos: nat) -> (
    Result<Seq<Seq<char>>, Seq<char>>,
    nat,
) {
    if peek(ts, pos) is RParen {
        (Ok(Seq::empty()), 1)
    } else {
        match peek(ts, pos) {
            TokenModel::Ident(name) => {
                let (parameters, n) = parse_parameters_loop(ts, pos + 1, seq![name]);
                (parameters, 1 + n)
            },
            other => (Err(not_parameter_message(other)), 1),
        }
    }
}

/// The rest of a parameter list, behind the names `done`.
pub open spec fn parse_parameters_loop(ts: Seq<TokenModel>, pos: nat, done: Seq<Seq<char>>) -> (
    Result<Seq<Seq<char>>, Seq<char>>,
    nat,
)
    decreases remaining(ts, pos),
{
    if peek(ts, pos) is Comma {
        match token_or_eof(ts, (pos + 2) as int) {
            TokenModel::Ident(name) => {
                let (parameters, n) = parse_parameters_loop(ts, pos + 2, done.push(name));
                (parameters, 2 + n)
            },
            other => (Err(not_parameter_message(other)), 2),
        }
    } else {
        let (closed, n) = expect_peek_token(ts, pos, TokenModel::RParen);
        match closed {
            Err(message) => (Err(message), n),
            Ok(_) => (Ok(done), n),
        }
    }
}

/// A call of `function`; the current token opens the argument list.
pub open spec fn parse_call_expression(
    ts: Seq<TokenModel>,
    pos: nat,
    function: ExpressionModel,
) -> (Result<ExpressionModel, Seq<char>>, nat)
    decreases remaining(ts, pos), 4nat,
    when pos < ts.len()
{
    let (arguments, n) = parse_expression_list(ts, pos, TokenModel::RParen);
    match arguments {
        Err(message) => (Err(message), n),
        Ok(arguments) => (Ok(ExpressionModel::Call(Box::new(function), arguments)), n),
    }
}

/// A binary operator, which is the current token, applied to `left` and to
/// the expression on its right.
pub open spec fn parse_infix_expression(ts: Seq<TokenModel>, pos: nat, left: ExpressionModel) -> (
    Result<ExpressionModel, Seq<char>>,
    nat,
)
    decreases remaining(ts, pos), 4nat,
    when pos < ts.len()
{
    let operator = current(ts, pos);
    let (right, n) = parse_expression(ts, pos + 1, precedence_of(operator));
    match right {
        Err(message) => (Err(message), 1 + n),
        Ok(right) => (
            Ok(ExpressionModel::Infix(operator, Box::new(left), Box::new(right))),
            1 + n,
        ),
    }
}

/// An array literal; the current token is its opening bracket.
pub open spec fn parse_array_literal(ts: Seq<TokenModel>, pos: nat) -> (
    Result<ExpressionModel, Seq<char>>,
    nat,
)
    decreases remaining(ts, pos), 4nat,
    when pos < ts.len()
{
    let (elements, n) = parse_expression_list(ts, pos, TokenModel::RBracket);
    match elements {
        Err(message) => (Err(message), n),
        Ok(elements) => (Ok(ExpressionModel::Lit(LiteralModel::Array(elements))), n),
    }
}

/// Expressions separated by commas, up to the token `end`; the current token
/// opens the list. The list may be empty.
pub open spec fn parse_expression_list(ts: Seq<TokenModel>, pos: nat, end: TokenModel) -> (
    Result<Seq<ExpressionModel>, Seq<char>>,
    nat,
)
    decreases remaining(ts, pos), 3nat,
    when pos < ts.len()
{
    if peek(ts, pos) == end {
        (Ok(Seq::empty()), 1)
    } else {
        let (first, n) = parse_expression(ts, pos + 1, Precdence::Lowest);
        match first {
            Err(message) => (Err(message), 1 + n),
            Ok(first) => {
                let (list, m) = parse_list_loop(ts, pos + 1 + n, seq![first], end);
                (list, 1 + n + m)
            },
        }
    }
}

/// The rest of an expression list, behind the expressions `done`.
pub open spec fn parse_list_loop(
    ts: Seq<TokenModel>,
    pos: nat,
    done: Seq<ExpressionModel>,
    end: TokenModel,
) -> (Result<Seq<ExpressionModel>, Seq<char>>, nat)
    decreases remaining(ts, pos), 9nat,
{
    if peek(ts, pos) is Comma {
        let (next, n) = parse_expression(ts, pos + 2, Precdence::Lowest);
        match next {
            Err(message) => (Err(message), 2 + n),
            Ok(next) => {
                let (list, m) = parse_list_loop(ts, pos + 2 + n, done.push(next), end);
                (list, 2 + n + m)
            },
        }
    } else {
        let (closed, n) = expect_peek_token(ts, pos, end);
        match closed {
            Err(message) => (Err(message), n),
            Ok(_) => (Ok(done), n),
        }
    }
}

/// An index access on `left`; the current token is the opening bracket.
pub open spec fn parse_index_expresssion(ts: Seq<TokenModel>, pos: nat, left: ExpressionModel) -> (
    Result<ExpressionModel, Seq<char>>,
    nat,
)
    decreases remaining(ts, pos), 4nat,
    when pos < ts.len()
{
    let (index, n) = parse_expression(ts, pos + 1, Precdence::Lowest);
    match index {
        Err(message) => (Err(message), 1 + n),
        Ok(index) => {
            let (closed, _) = expect_peek_token(ts, pos + 1 + n, TokenModel::RBracket);
            match closed {
                Err(message) => (Err(message), 1 + n),
                Ok(_) => (Ok(ExpressionModel::Index(Box::new(left), Box::new(index))), 2 + n),
            }
        },
    }
}

/// A hash literal; the current token is its opening brace.
pub open spec fn parse_hash_literal(ts: Seq<TokenModel>, pos: nat) -> (
    Result<ExpressionModel, Seq<char>>,
    nat,
)
    decreases remaining(ts, pos), 4nat,
    when pos < ts.len()
{
    let (pairs, n) = parse_hash_loop(ts, pos, Seq::empty());
    match pairs {
        Err(message) => (Err(message), n),
        Ok(pairs) => (Ok(ExpressionModel::Lit(LiteralModel::Hash(pairs))), n),
    }
}

/// One pair of a hash literal, `<key>: <value>`, behind the current token.
pub open spec fn parse_hash_pair(ts: Seq<TokenModel>, pos: nat) -> (
    Result<(ExpressionModel, ExpressionModel), Seq<char>>,
    nat,
)
    decreases remaining(ts, pos), 2nat,
    when pos < ts.len()
{
    let (key, n) = parse_expression(ts, pos + 1, Precdence::Lowest);
    match key {
        Err(message) => (Err(message), 1 + n),
        Ok(key) => {
            let (colon, _) = expect_peek_token(ts, pos + 1 + n, TokenModel::Colon);
            match colon {
                Err(message) => (Err(message), 1 + n),
                Ok(_) => {
                    let (value, m) = parse_expression(ts, pos + 3 + n, Precdence::Lowest);
                    match value {
                        Err(message) => (Err(message), 3 + n + m),
                        Ok(value) => (Ok((key, value)), 3 + n + m),
                    }
                },
            }
        },
    }
}

/// The rest of a hash literal, behind the pairs `done`: `<key>: <value>`
/// pairs separated by commas, up to the closing brace. The current token is
/// the opening brace or a comma.
pub open spec fn parse_hash_loop(
    ts: Seq<TokenModel>,
    pos: nat,
    done: Seq<(ExpressionModel, ExpressionModel)>,
) -> (Result<Seq<(ExpressionModel, ExpressionModel)>, Seq<char>>, nat)
    decreases remaining(ts, pos), 3nat,
    when pos < ts.len()
{
    if peek(ts, pos) is RBrace {
        (Ok(done), 1)
    } else {
        let (pair, n) = parse_hash_pair(ts, pos);
        match pair {
            Err(message) => (Err(message), n),
            Ok(pair) => {
                let end = pos + n;
                let done = done.push(pair);
                if peek(ts, end) is RBrace {
                    (Ok(done), n + 1)
                } else {
                    let (comma, _) = expect_peek_token(ts, end, TokenModel::Comma);
                    match comma {
                        Err(message) => (Err(message), n),
                        Ok(_) => {
                            let (pairs, k) = parse_hash_loop(ts, end + 1, done);
                            (pairs, n + 1 + k)
                        },
                    }
                }
            },
        }
    }
}

/// The statements of a program, from position `pos` to the end of the input,
/// behind the statements `done` and the messages `errors` of statements that
/// failed. After a statement, failed or not, parsing goes on behind the token
/// at which it stopped. If any statement failed, the result is the one
/// message that joins them all.
pub open spec fn parse_program(
    ts: Seq<TokenModel>,
    pos: nat,
    done: Seq<StatementModel>,
    errors: Seq<Seq<char>>,
) -> (Result<Seq<StatementModel>, Seq<char>>, nat, Seq<Seq<char>>)
    decreases remaining(ts, pos), 9nat,
{
    if current(ts, pos) is Eof {
        if errors.len() == 0 {
            (Ok(done), 0, errors)
        } else {
            (Err(aggregate_message(errors)), 0, errors)
        }
    } else {
        let (statement, n) = parse_statement(ts, pos);
        let (done, errors) = match statement {
            Ok(statement) => (done.push(statement), errors),
            Err(message) => (done, errors.push(message)),
        };
        let (result, m, errors) = parse_program(ts, pos + n + 1, done, errors);
        (result, n + 1 + m, errors)
    }
}

/// The program that a source text parses to, or the message that it fails
/// with.
pub open spec fn parse_text(text: Seq<char>) -> Result<NodeModel, Seq<char>> {
    match parse_program(tokens_of(text), 0, Seq::empty(), Seq::empty()).0 {
        Ok(statements) => Ok(NodeModel::Program(statements)),
        Err(message) => Err(message),
    }
}

} // verus!

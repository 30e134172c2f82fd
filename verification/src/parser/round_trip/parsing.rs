//! The tokens of a program are parsed as the program.

use vstd::prelude::*;
use crate::lexer::token_or_eof;
use crate::parser::ast::{ExpressionModel, LiteralModel, StatementModel};
use crate::parser::precedence::{precedence_of, rank, Precdence};
use crate::parser::round_trip::scanning::{
    lemma_first_of_part, lemma_four_parts, lemma_one_char, lemma_three_parts, lemma_two_parts,
};
use crate::parser::round_trip::tokens::{
    block_tokens, expression_tokens, expressions_tokens, names_tokens, pair_tokens, pairs_tokens,
    statement_tokens, statements_tokens,
};
use crate::parser::round_trip::{
    block_parses_back, first_token, is_grouped, is_prefix_operator, may_follow, parses_back,
    statement_first_token, statement_parses_back,
};
use crate::parser::syntax::{
    current, expect_peek_token, parse_alternative, is_infix_operator, parse_array_literal, parse_block_loop,
    parse_block_statement, parse_call_expression, parse_expression, parse_expression_list,
    parse_expression_statement, parse_function_literal, parse_function_parameters,
    parse_grouped_expression, parse_hash_literal, parse_hash_loop, parse_hash_pair,
    parse_if_expression,
    parse_index_expresssion, parse_infix_expression, parse_infix_loop, parse_let_statement,
    parse_list_loop, parse_parameters_loop, parse_prefix, parse_prefix_expression,
    parse_program, parse_return_statement, parse_statement, peek, skip_semicolon,
};
use crate::token::TokenModel;

verus! {

/// The expression that the parser builds at a position.
#[verifier::opaque]
pub open spec fn expression_at(ts: Seq<TokenModel>, pos: nat, precedence: Precdence) -> (Result<ExpressionModel, Seq<char>>, nat) {
    parse_expression(ts, pos, precedence)
}

/// What the parser builds from what the token at a position starts.
#[verifier::opaque]
pub open spec fn start_at(ts: Seq<TokenModel>, pos: nat) -> (Result<ExpressionModel, Seq<char>>, nat) {
    parse_prefix(ts, pos)
}

/// The extension of an expression that the parser has built.
#[verifier::opaque]
pub open spec fn extension_at(ts: Seq<TokenModel>, pos: nat, left: Result<ExpressionModel, Seq<char>>, precedence: Precdence) -> (Result<ExpressionModel, Seq<char>>, nat) {
    parse_infix_loop(ts, pos, left, precedence)
}

/// The list of expressions that the parser builds from an opening token.
#[verifier::opaque]
pub open spec fn list_at(ts: Seq<TokenModel>, pos: nat, end: TokenModel) -> (Result<Seq<ExpressionModel>, Seq<char>>, nat) {
    parse_expression_list(ts, pos, end)
}

/// The rest of a list of expressions.
#[verifier::opaque]
pub open spec fn list_rest_at(ts: Seq<TokenModel>, pos: nat, done: Seq<ExpressionModel>, end: TokenModel) -> (Result<Seq<ExpressionModel>, Seq<char>>, nat) {
    parse_list_loop(ts, pos, done, end)
}

/// The rest of the pairs of a hash literal.
#[verifier::opaque]
pub open spec fn pairs_at(ts: Seq<TokenModel>, pos: nat, done: Seq<(ExpressionModel, ExpressionModel)>) -> (Result<Seq<(ExpressionModel, ExpressionModel)>, Seq<char>>, nat) {
    parse_hash_loop(ts, pos, done)
}

/// The parameters that the parser builds from an opening parenthesis.
#[verifier::opaque]
pub open spec fn parameters_at(ts: Seq<TokenModel>, pos: nat) -> (Result<Seq<Seq<char>>, Seq<char>>, nat) {
    parse_function_parameters(ts, pos)
}

/// The rest of a list of parameters.
#[verifier::opaque]
pub open spec fn parameters_rest_at(ts: Seq<TokenModel>, pos: nat, done: Seq<Seq<char>>) -> (Result<Seq<Seq<char>>, Seq<char>>, nat) {
    parse_parameters_loop(ts, pos, done)
}

/// The statement that the parser builds at a position.
#[verifier::opaque]
pub open spec fn statement_at(ts: Seq<TokenModel>, pos: nat) -> (Result<StatementModel, Seq<char>>, nat) {
    parse_statement(ts, pos)
}

/// The rest of the statements of a block.
#[verifier::opaque]
pub open spec fn block_rest_at(ts: Seq<TokenModel>, pos: nat, done: Seq<StatementModel>) -> (
    Result<Seq<StatementModel>, Seq<char>>,
    nat,
) {
    parse_block_loop(ts, pos, done)
}

/// The block that the parser builds from an opening brace.
#[verifier::opaque]
pub open spec fn block_at(ts: Seq<TokenModel>, pos: nat) -> (
    Result<Seq<StatementModel>, Seq<char>>,
    nat,
) {
    parse_block_statement(ts, pos)
}

/// The statements that the parser builds for the rest of a program, where no
/// statement has failed so far.
#[verifier::opaque]
pub open spec fn program_rest_at(ts: Seq<TokenModel>, pos: nat, done: Seq<StatementModel>)
    -> Result<Seq<StatementModel>, Seq<char>> {
    parse_program(ts, pos, done, Seq::empty()).0
}


/// The tokens `part` stand at position `pos` of `ts`.
pub open spec fn stands(ts: Seq<TokenModel>, pos: nat, part: Seq<TokenModel>) -> bool {
    &&& pos + part.len() <= ts.len()
    &&& ts.subrange(pos as int, (pos + part.len()) as int) == part
}

/// The token at position `pos` of `ts`, or the end of the input.
pub open spec fn at(ts: Seq<TokenModel>, pos: nat) -> TokenModel {
    token_or_eof(ts, pos as int)
}

/// Whether a token ends the expression before it: it is no operator, no
/// opening parenthesis and no opening bracket.
pub open spec fn stops(token: TokenModel) -> bool {
    precedence_of(token) == Precdence::Lowest
}

/// A parse that took `k` steps more.
pub open spec fn shifted<R>(r: (R, nat), k: nat) -> (R, nat) {
    (r.0, r.1 + k)
}

/// What the parser builds where it has built `e` from `n` tokens at `pos`,
/// stands at the last of them, and goes on to extend `e`.
pub open spec fn continued(
    ts: Seq<TokenModel>,
    pos: nat,
    e: ExpressionModel,
    n: nat,
    precedence: Precdence,
) -> (Result<ExpressionModel, Seq<char>>, nat) {
    shifted(
        extension_at(ts, (pos + n - 1) as nat, Ok(e), precedence),
        (n - 1) as nat,
    )
}

/// Where the parser goes on from `e` and the extension of `e` is `whole`
/// after `m` steps more, the expression is `whole`.
pub proof fn lemma_continued_result(
    ts: Seq<TokenModel>,
    pos: nat,
    e: ExpressionModel,
    n: nat,
    precedence: Precdence,
    whole: ExpressionModel,
    m: nat,
)
    requires
        n >= 1,
        expression_at(ts, pos, precedence) == continued(ts, pos, e, n, precedence),
        extension_at(
            ts,
            (pos + n - 1) as nat,
            Ok::<ExpressionModel, Seq<char>>(e),
            precedence,
        ) == (Ok::<ExpressionModel, Seq<char>>(whole), m),
    ensures
        expression_at(ts, pos, precedence) == (
            Ok::<ExpressionModel, Seq<char>>(whole),
            (n - 1 + m) as nat,
        ),
{
    reveal(expression_at);
    reveal(extension_at);
}

/// Where a token that ends the expression follows, the parser builds `e` and
/// stops at its last token.
pub proof fn lemma_parse_closed(
    ts: Seq<TokenModel>,
    pos: nat,
    e: ExpressionModel,
    n: nat,
    precedence: Precdence,
)
    requires
        n >= 1,
        expression_at(ts, pos, precedence) == continued(ts, pos, e, n, precedence),
        stops(at(ts, pos + n)),
    ensures
        expression_at(ts, pos, precedence) == (
            Ok::<ExpressionModel, Seq<char>>(e),
            (n - 1) as nat,
        ),
{
    reveal(expression_at);
    reveal(extension_at);
    let here = (pos + n - 1) as nat;
    assert(peek(ts, here) == at(ts, pos + n));
    assert(extension_at(ts, here, Ok::<ExpressionModel, Seq<char>>(e), precedence) == (
        Ok::<ExpressionModel, Seq<char>>(e),
        0nat,
    ));
}

/// Where the parser builds `e` from what the token at `pos` starts, the
/// expression at `pos` is `e`, extended.
pub proof fn lemma_parse_primary(
    ts: Seq<TokenModel>,
    pos: nat,
    e: ExpressionModel,
    n: nat,
    precedence: Precdence,
)
    requires
        n >= 1,
        start_at(ts, pos) == (Ok::<ExpressionModel, Seq<char>>(e), (n - 1) as nat),
    ensures
        expression_at(ts, pos, precedence) == continued(ts, pos, e, n, precedence),
{
    reveal(expression_at);
    reveal(start_at);
    reveal(extension_at);
}

/// What stands in parentheses is parsed as a group: where the parser builds
/// `inner` behind an opening parenthesis, at the lowest precedence, and a
/// closing parenthesis follows, it builds `inner` from the opening
/// parenthesis and stops at the closing one.
pub proof fn lemma_parse_group(ts: Seq<TokenModel>, pos: nat, inner: ExpressionModel, n: nat)
    requires
        pos + 2 + n < ts.len(),
        ts[pos as int] == TokenModel::LParen,
        expression_at(ts, pos + 1, Precdence::Lowest) == (
            Ok::<ExpressionModel, Seq<char>>(inner),
            n,
        ),
        ts[(pos + 2 + n) as int] == TokenModel::RParen,
    ensures
        start_at(ts, pos) == (Ok::<ExpressionModel, Seq<char>>(inner), (2 + n) as nat),
{
    reveal(expression_at);
    reveal(start_at);
    let here = (pos + 1 + n) as nat;
    assert(peek(ts, here) == TokenModel::RParen);
    assert(expect_peek_token(ts, here, TokenModel::RParen) == (Ok::<(), Seq<char>>(()), 1nat));
    assert(parse_grouped_expression(ts, pos) == (
        Ok::<ExpressionModel, Seq<char>>(inner),
        (2 + n) as nat,
    ));
    assert(current(ts, pos) == TokenModel::LParen);
}

/// A name, a number, a boolean or a string is parsed from its one token.
pub proof fn lemma_parse_atom(ts: Seq<TokenModel>, pos: nat, e: ExpressionModel)
    requires
        pos < ts.len(),
        match e {
            ExpressionModel::Identifier(name) => ts[pos as int] == TokenModel::Ident(name),
            ExpressionModel::Lit(LiteralModel::Integer(value)) => ts[pos as int]
                == TokenModel::Int(value),
            ExpressionModel::Lit(LiteralModel::Boolean(value)) => ts[pos as int] == if value {
                TokenModel::True
            } else {
                TokenModel::False
            },
            ExpressionModel::Lit(LiteralModel::String(value)) => ts[pos as int]
                == TokenModel::String(value),
            _ => false,
        },
    ensures
        start_at(ts, pos) == (Ok::<ExpressionModel, Seq<char>>(e), 0nat),
{
    reveal(start_at);
    assert(current(ts, pos) == ts[pos as int]);
}

/// A prefix operator and its operand: where the parser builds `right` behind
/// the operator, at the precedence of prefix operators, and a closing
/// parenthesis follows, the expression behind the parenthesis before the
/// operator is the prefix expression.
pub proof fn lemma_parse_prefix_inside(
    ts: Seq<TokenModel>,
    pos: nat,
    operator: TokenModel,
    right: ExpressionModel,
    n: nat,
)
    requires
        is_prefix_operator(operator),
        pos + 2 + n < ts.len(),
        ts[pos as int] == operator,
        expression_at(ts, pos + 1, Precdence::Prefix) == (
            Ok::<ExpressionModel, Seq<char>>(right),
            n,
        ),
        ts[(pos + 2 + n) as int] == TokenModel::RParen,
    ensures
        expression_at(ts, pos, Precdence::Lowest) == (
            Ok::<ExpressionModel, Seq<char>>(ExpressionModel::Prefix(operator, Box::new(right))),
            (1 + n) as nat,
        ),
{
    reveal(expression_at);
    reveal(start_at);
    reveal(extension_at);
    let e = ExpressionModel::Prefix(operator, Box::new(right));
    assert(current(ts, pos) == operator);
    assert(parse_prefix_expression(ts, pos) == (
        Ok::<ExpressionModel, Seq<char>>(e),
        (1 + n) as nat,
    ));
    assert(start_at(ts, pos) == (Ok::<ExpressionModel, Seq<char>>(e), (1 + n) as nat));
    let here = (pos + 1 + n) as nat;
    assert(peek(ts, here) == TokenModel::RParen);
    assert(extension_at(ts, here, Ok::<ExpressionModel, Seq<char>>(e), Precdence::Lowest) == (
        Ok::<ExpressionModel, Seq<char>>(e),
        0nat,
    ));
}

/// A binary operator between its operands: where the parser has built `left`
/// and stands at its last token, the operator follows, the parser builds
/// `right` behind the operator at the operator's precedence, and a closing
/// parenthesis follows, the extension of `left` at the lowest precedence is
/// the binary expression.
pub proof fn lemma_parse_infix_inside(
    ts: Seq<TokenModel>,
    pos: nat,
    operator: TokenModel,
    left: ExpressionModel,
    right: ExpressionModel,
    n: nat,
)
    requires
        is_infix_operator(operator),
        pos + 3 + n < ts.len(),
        ts[(pos + 1) as int] == operator,
        expression_at(ts, pos + 2, precedence_of(operator)) == (
            Ok::<ExpressionModel, Seq<char>>(right),
            n,
        ),
        ts[(pos + 3 + n) as int] == TokenModel::RParen,
    ensures
        extension_at(
            ts,
            pos,
            Ok::<ExpressionModel, Seq<char>>(left),
            Precdence::Lowest,
        ) == (
            Ok::<ExpressionModel, Seq<char>>(
                ExpressionModel::Infix(operator, Box::new(left), Box::new(right)),
            ),
            (2 + n) as nat,
        ),
{
    reveal(expression_at);
    reveal(extension_at);
    let e = ExpressionModel::Infix(operator, Box::new(left), Box::new(right));
    assert(current(ts, pos + 1) == operator);
    let joined = parse_infix_expression(ts, pos + 1, left);
    assert(joined == (Ok::<ExpressionModel, Seq<char>>(e), (1 + n) as nat));
    let here = (pos + 2 + n) as nat;
    assert(peek(ts, here) == TokenModel::RParen);
    assert(extension_at(ts, here, joined.0, Precdence::Lowest) == (joined.0, 0nat));
    assert(peek(ts, pos) == operator);
    assert(rank(Precdence::Lowest) < rank(precedence_of(operator)));
}

/// An index access behind its left operand: where the parser has built
/// `left` and stands at its last token, an opening bracket follows, the
/// parser builds `index` behind it, and a closing bracket and a closing
/// parenthesis follow, the extension of `left` at the lowest precedence is
/// the index expression, and the parser stops at the closing bracket.
pub proof fn lemma_parse_index_inside(
    ts: Seq<TokenModel>,
    pos: nat,
    left: ExpressionModel,
    index: ExpressionModel,
    n: nat,
)
    requires
        pos + 4 + n < ts.len(),
        ts[(pos + 1) as int] == TokenModel::LBracket,
        expression_at(ts, pos + 2, Precdence::Lowest) == (
            Ok::<ExpressionModel, Seq<char>>(index),
            n,
        ),
        ts[(pos + 3 + n) as int] == TokenModel::RBracket,
        ts[(pos + 4 + n) as int] == TokenModel::RParen,
    ensures
        extension_at(
            ts,
            pos,
            Ok::<ExpressionModel, Seq<char>>(left),
            Precdence::Lowest,
        ) == (
            Ok::<ExpressionModel, Seq<char>>(
                ExpressionModel::Index(Box::new(left), Box::new(index)),
            ),
            (3 + n) as nat,
        ),
{
    reveal(expression_at);
    reveal(extension_at);
    let e = ExpressionModel::Index(Box::new(left), Box::new(index));
    let closing = (pos + 2 + n) as nat;
    assert(peek(ts, closing) == TokenModel::RBracket);
    assert(expect_peek_token(ts, closing, TokenModel::RBracket) == (
        Ok::<(), Seq<char>>(()),
        1nat,
    ));
    let indexed = parse_index_expresssion(ts, pos + 1, left);
    assert(indexed == (Ok::<ExpressionModel, Seq<char>>(e), (2 + n) as nat));
    let here = (pos + 3 + n) as nat;
    assert(peek(ts, here) == TokenModel::RParen);
    assert(extension_at(ts, here, indexed.0, Precdence::Lowest) == (indexed.0, 0nat));
    assert(peek(ts, pos) == TokenModel::LBracket);
    assert(rank(Precdence::Lowest) < rank(precedence_of(TokenModel::LBracket)));
    assert(!is_infix_operator(TokenModel::LBracket));
}

/// A call behind the function: where the parser has built `function` and
/// stands at its last token, an opening parenthesis follows, and the parser
/// builds the arguments `args` from it, the extension of `function` is the
/// extension of the call.
pub proof fn lemma_parse_call_behind(
    ts: Seq<TokenModel>,
    pos: nat,
    function: ExpressionModel,
    args: Seq<ExpressionModel>,
    k: nat,
    precedence: Precdence,
)
    requires
        rank(precedence) < rank(Precdence::Call),
        pos + 1 < ts.len(),
        ts[(pos + 1) as int] == TokenModel::LParen,
        list_at(ts, pos + 1, TokenModel::RParen) == (
            Ok::<Seq<ExpressionModel>, Seq<char>>(args),
            k,
        ),
    ensures
        extension_at(ts, pos, Ok::<ExpressionModel, Seq<char>>(function), precedence)
            == shifted(
            extension_at(
                ts,
                pos + 1 + k,
                Ok::<ExpressionModel, Seq<char>>(
                    ExpressionModel::Call(Box::new(function), args),
                ),
                precedence,
            ),
            1 + k,
        ),
{
    reveal(extension_at);
    reveal(list_at);
    let e = ExpressionModel::Call(Box::new(function), args);
    assert(parse_call_expression(ts, pos + 1, function) == (
        Ok::<ExpressionModel, Seq<char>>(e),
        k,
    ));
    assert(peek(ts, pos) == TokenModel::LParen);
    assert(!is_infix_operator(TokenModel::LParen));
    assert(rank(precedence) < rank(precedence_of(TokenModel::LParen)));
}

/// An array literal: where the parser builds the elements from the opening
/// bracket, it builds the array from what the bracket starts.
pub proof fn lemma_parse_array(
    ts: Seq<TokenModel>,
    pos: nat,
    elements: Seq<ExpressionModel>,
    k: nat,
)
    requires
        pos < ts.len(),
        ts[pos as int] == TokenModel::LBracket,
        list_at(ts, pos, TokenModel::RBracket) == (
            Ok::<Seq<ExpressionModel>, Seq<char>>(elements),
            k,
        ),
    ensures
        start_at(ts, pos) == (
            Ok::<ExpressionModel, Seq<char>>(ExpressionModel::Lit(LiteralModel::Array(elements))),
            k,
        ),
{
    reveal(start_at);
    reveal(list_at);
    assert(parse_array_literal(ts, pos) == (
        Ok::<ExpressionModel, Seq<char>>(ExpressionModel::Lit(LiteralModel::Array(elements))),
        k,
    ));
    assert(current(ts, pos) == TokenModel::LBracket);
}

/// A hash literal: where the parser builds the pairs from the opening brace,
/// it builds the hash from what the brace starts.
pub proof fn lemma_parse_hash(
    ts: Seq<TokenModel>,
    pos: nat,
    pairs: Seq<(ExpressionModel, ExpressionModel)>,
    k: nat,
)
    requires
        pos < ts.len(),
        ts[pos as int] == TokenModel::LBrace,
        pairs_at(ts, pos, Seq::empty()) == (
            Ok::<Seq<(ExpressionModel, ExpressionModel)>, Seq<char>>(pairs),
            k,
        ),
    ensures
        start_at(ts, pos) == (
            Ok::<ExpressionModel, Seq<char>>(ExpressionModel::Lit(LiteralModel::Hash(pairs))),
            k,
        ),
{
    reveal(start_at);
    reveal(pairs_at);
    assert(parse_hash_literal(ts, pos) == (
        Ok::<ExpressionModel, Seq<char>>(ExpressionModel::Lit(LiteralModel::Hash(pairs))),
        k,
    ));
    assert(current(ts, pos) == TokenModel::LBrace);
}

/// An empty list: the closing token follows the opening one.
pub proof fn lemma_parse_list_empty(ts: Seq<TokenModel>, pos: nat, end: TokenModel)
    requires
        pos + 1 < ts.len(),
        ts[(pos + 1) as int] == end,
    ensures
        list_at(ts, pos, end) == (
            Ok::<Seq<ExpressionModel>, Seq<char>>(Seq::empty()),
            1nat,
        ),
{
    reveal(list_at);
    assert(peek(ts, pos) == end);
}

/// The first expression of a list: where the parser builds `first` behind
/// the opening token, the list is what follows `first`.
pub proof fn lemma_parse_list_first(
    ts: Seq<TokenModel>,
    pos: nat,
    end: TokenModel,
    first: ExpressionModel,
    n: nat,
)
    requires
        pos + 1 < ts.len(),
        ts[(pos + 1) as int] != end,
        expression_at(ts, pos + 1, Precdence::Lowest) == (
            Ok::<ExpressionModel, Seq<char>>(first),
            n,
        ),
    ensures
        list_at(ts, pos, end) == shifted(
            list_rest_at(ts, pos + 1 + n, seq![first], end),
            1 + n,
        ),
{
    reveal(expression_at);
    reveal(list_at);
    reveal(list_rest_at);
    assert(peek(ts, pos) == ts[(pos + 1) as int]);
}

/// The next expression of a list: where a comma follows and the parser
/// builds `next` behind it, the list goes on behind `next`.
pub proof fn lemma_parse_list_next(
    ts: Seq<TokenModel>,
    pos: nat,
    end: TokenModel,
    done: Seq<ExpressionModel>,
    next: ExpressionModel,
    n: nat,
)
    requires
        pos + 1 < ts.len(),
        ts[(pos + 1) as int] == TokenModel::Comma,
        expression_at(ts, pos + 2, Precdence::Lowest) == (
            Ok::<ExpressionModel, Seq<char>>(next),
            n,
        ),
    ensures
        list_rest_at(ts, pos, done, end) == shifted(
            list_rest_at(ts, pos + 2 + n, done.push(next), end),
            2 + n,
        ),
{
    reveal(expression_at);
    reveal(list_rest_at);
    assert(peek(ts, pos) == TokenModel::Comma);
}

/// The end of a list: the closing token follows.
pub proof fn lemma_parse_list_end(
    ts: Seq<TokenModel>,
    pos: nat,
    end: TokenModel,
    done: Seq<ExpressionModel>,
)
    requires
        pos + 1 < ts.len(),
        ts[(pos + 1) as int] == end,
        !(end is Comma),
    ensures
        list_rest_at(ts, pos, done, end) == (
            Ok::<Seq<ExpressionModel>, Seq<char>>(done),
            1nat,
        ),
{
    reveal(list_rest_at);
    assert(peek(ts, pos) == end);
}

/// An empty hash: the closing brace follows the opening one.
pub proof fn lemma_parse_hash_empty(
    ts: Seq<TokenModel>,
    pos: nat,
    done: Seq<(ExpressionModel, ExpressionModel)>,
)
    requires
        pos + 1 < ts.len(),
        ts[(pos + 1) as int] == TokenModel::RBrace,
    ensures
        pairs_at(ts, pos, done) == (
            Ok::<Seq<(ExpressionModel, ExpressionModel)>, Seq<char>>(done),
            1nat,
        ),
{
    reveal(pairs_at);
    assert(peek(ts, pos) == TokenModel::RBrace);
}

/// A pair of a hash: where the parser builds `key` behind the token at
/// `pos`, a colon follows, and the parser builds `value` behind it, the hash
/// ends behind `value` if a closing brace follows, and goes on from the
/// comma if a comma follows.
pub proof fn lemma_parse_hash_pair(
    ts: Seq<TokenModel>,
    pos: nat,
    done: Seq<(ExpressionModel, ExpressionModel)>,
    key: ExpressionModel,
    n: nat,
    value: ExpressionModel,
    m: nat,
)
    requires
        pos + 4 + n + m < ts.len(),
        !(ts[(pos + 1) as int] is RBrace),
        expression_at(ts, pos + 1, Precdence::Lowest) == (
            Ok::<ExpressionModel, Seq<char>>(key),
            n,
        ),
        ts[(pos + 2 + n) as int] == TokenModel::Colon,
        expression_at(ts, pos + 3 + n, Precdence::Lowest) == (
            Ok::<ExpressionModel, Seq<char>>(value),
            m,
        ),
        ts[(pos + 4 + n + m) as int] is RBrace || ts[(pos + 4 + n + m) as int] is Comma,
    ensures
        ts[(pos + 4 + n + m) as int] is RBrace ==> pairs_at(ts, pos, done) == (
            Ok::<Seq<(ExpressionModel, ExpressionModel)>, Seq<char>>(done.push((key, value))),
            (4 + n + m) as nat,
        ),
        ts[(pos + 4 + n + m) as int] is Comma ==> pairs_at(ts, pos, done) == shifted(
            pairs_at(ts, pos + 4 + n + m, done.push((key, value))),
            4 + n + m,
        ),
{
    reveal(expression_at);
    reveal(pairs_at);
    assert(peek(ts, pos) == ts[(pos + 1) as int]);
    let pair = parse_hash_pair(ts, pos);
    assert(pair == (
        Ok::<(ExpressionModel, ExpressionModel), Seq<char>>((key, value)),
        (3 + n + m) as nat,
    )) by {
        let colon = (pos + 1 + n) as nat;
        assert(peek(ts, colon) == TokenModel::Colon);
        assert(expect_peek_token(ts, colon, TokenModel::Colon) == (
            Ok::<(), Seq<char>>(()),
            1nat,
        ));
    }
    let colon = (pos + 1 + n) as nat;
    assert(peek(ts, colon) == TokenModel::Colon);
    assert(expect_peek_token(ts, colon, TokenModel::Colon) == (Ok::<(), Seq<char>>(()), 1nat));
    let end = (pos + 3 + n + m) as nat;
    assert(peek(ts, end) == ts[(pos + 4 + n + m) as int]);
    if ts[(pos + 4 + n + m) as int] is Comma {
        assert(expect_peek_token(ts, end, TokenModel::Comma) == (Ok::<(), Seq<char>>(()), 1nat));
    }
}

/// No parameters: the closing parenthesis follows the opening one.
pub proof fn lemma_parse_parameters_empty(ts: Seq<TokenModel>, pos: nat)
    requires
        pos + 1 < ts.len(),
        ts[(pos + 1) as int] == TokenModel::RParen,
    ensures
        parameters_at(ts, pos) == (
            Ok::<Seq<Seq<char>>, Seq<char>>(Seq::empty()),
            1nat,
        ),
{
    reveal(parameters_at);
    assert(peek(ts, pos) == TokenModel::RParen);
}

/// The first parameter: an identifier behind the opening parenthesis.
pub proof fn lemma_parse_parameters_first(ts: Seq<TokenModel>, pos: nat, name: Seq<char>)
    requires
        pos + 1 < ts.len(),
        ts[(pos + 1) as int] == TokenModel::Ident(name),
    ensures
        parameters_at(ts, pos) == shifted(
            parameters_rest_at(ts, pos + 1, seq![name]),
            1,
        ),
{
    reveal(parameters_at);
    reveal(parameters_rest_at);
    assert(peek(ts, pos) == TokenModel::Ident(name));
}

/// The next parameter: a comma and an identifier.
pub proof fn lemma_parse_parameters_next(
    ts: Seq<TokenModel>,
    pos: nat,
    done: Seq<Seq<char>>,
    name: Seq<char>,
)
    requires
        pos + 2 < ts.len(),
        ts[(pos + 1) as int] == TokenModel::Comma,
        ts[(pos + 2) as int] == TokenModel::Ident(name),
    ensures
        parameters_rest_at(ts, pos, done) == shifted(
            parameters_rest_at(ts, pos + 2, done.push(name)),
            2,
        ),
{
    reveal(parameters_rest_at);
    assert(peek(ts, pos) == TokenModel::Comma);
}

/// The end of the parameters: the closing parenthesis follows.
pub proof fn lemma_parse_parameters_end(ts: Seq<TokenModel>, pos: nat, done: Seq<Seq<char>>)
    requires
        pos + 1 < ts.len(),
        ts[(pos + 1) as int] == TokenModel::RParen,
    ensures
        parameters_rest_at(ts, pos, done) == (Ok::<Seq<Seq<char>>, Seq<char>>(done), 1nat),
{
    reveal(parameters_rest_at);
    assert(peek(ts, pos) == TokenModel::RParen);
}

/// A `let` statement: where the parser builds `value` behind `let`, the name
/// and `=`, and a semicolon follows, it builds the statement and stops at
/// the semicolon.
pub proof fn lemma_parse_let(
    ts: Seq<TokenModel>,
    pos: nat,
    name: Seq<char>,
    value: ExpressionModel,
    n: nat,
)
    requires
        pos + 4 + n < ts.len(),
        ts[pos as int] == TokenModel::Let,
        ts[(pos + 1) as int] == TokenModel::Ident(name),
        ts[(pos + 2) as int] == TokenModel::Assign,
        expression_at(ts, pos + 3, Precdence::Lowest) == (
            Ok::<ExpressionModel, Seq<char>>(value),
            n,
        ),
        ts[(pos + 4 + n) as int] == TokenModel::Semicolon,
    ensures
        statement_at(ts, pos) == (
            Ok::<StatementModel, Seq<char>>(StatementModel::Let(name, value)),
            (4 + n) as nat,
        ),
{
    reveal(expression_at);
    reveal(statement_at);
    assert(current(ts, pos) == TokenModel::Let);
    assert(peek(ts, pos) == TokenModel::Ident(name));
    assert(peek(ts, pos + 1) == TokenModel::Assign);
    assert(expect_peek_token(ts, pos + 1, TokenModel::Assign) == (Ok::<(), Seq<char>>(()), 1nat));
    let end = (pos + 3 + n) as nat;
    assert(peek(ts, end) == TokenModel::Semicolon);
    assert(skip_semicolon(ts, end) == 1);
    assert(parse_let_statement(ts, pos) == (
        Ok::<StatementModel, Seq<char>>(StatementModel::Let(name, value)),
        (4 + n) as nat,
    ));
}

/// A `return` statement: where the parser builds `value` behind `return`
/// and a semicolon follows, it builds the statement and stops at the
/// semicolon.
pub proof fn lemma_parse_return(ts: Seq<TokenModel>, pos: nat, value: ExpressionModel, n: nat)
    requires
        pos + 2 + n < ts.len(),
        ts[pos as int] == TokenModel::Return,
        expression_at(ts, pos + 1, Precdence::Lowest) == (
            Ok::<ExpressionModel, Seq<char>>(value),
            n,
        ),
        ts[(pos + 2 + n) as int] == TokenModel::Semicolon,
    ensures
        statement_at(ts, pos) == (
            Ok::<StatementModel, Seq<char>>(StatementModel::Return(value)),
            (2 + n) as nat,
        ),
{
    reveal(expression_at);
    reveal(statement_at);
    assert(current(ts, pos) == TokenModel::Return);
    let end = (pos + 1 + n) as nat;
    assert(peek(ts, end) == TokenModel::Semicolon);
    assert(skip_semicolon(ts, end) == 1);
    assert(parse_return_statement(ts, pos) == (
        Ok::<StatementModel, Seq<char>>(StatementModel::Return(value)),
        (2 + n) as nat,
    ));
}

/// An expression as a statement: where the parser builds `value` from a
/// token that is neither `let` nor `return`, and no semicolon follows, it
/// builds the statement and stops at the last token of `value`.
pub proof fn lemma_parse_expression_statement(
    ts: Seq<TokenModel>,
    pos: nat,
    value: ExpressionModel,
    n: nat,
)
    requires
        !(at(ts, pos) is Let) && !(at(ts, pos) is Return),
        expression_at(ts, pos, Precdence::Lowest) == (
            Ok::<ExpressionModel, Seq<char>>(value),
            n,
        ),
        !(at(ts, pos + n + 1) is Semicolon),
    ensures
        statement_at(ts, pos) == (
            Ok::<StatementModel, Seq<char>>(StatementModel::Expr(value)),
            n,
        ),
{
    reveal(expression_at);
    reveal(statement_at);
    let end = (pos + n) as nat;
    assert(peek(ts, end) == at(ts, pos + n + 1));
    assert(skip_semicolon(ts, end) == 0);
    assert(parse_expression_statement(ts, pos) == (
        Ok::<StatementModel, Seq<char>>(StatementModel::Expr(value)),
        n,
    ));
    assert(current(ts, pos) == at(ts, pos));
}

/// A statement of a block: where the parser builds `statement` from the
/// token at `pos`, which is neither a closing brace nor the end of the
/// input, the block goes on behind the statement.
pub proof fn lemma_parse_block_next(
    ts: Seq<TokenModel>,
    pos: nat,
    done: Seq<StatementModel>,
    statement: StatementModel,
    n: nat,
)
    requires
        !(at(ts, pos) is RBrace) && !(at(ts, pos) is Eof),
        statement_at(ts, pos) == (Ok::<StatementModel, Seq<char>>(statement), n),
    ensures
        block_rest_at(ts, pos, done) == shifted(
            block_rest_at(ts, pos + n + 1, done.push(statement)),
            n + 1,
        ),
{
    reveal(statement_at);
    reveal(block_rest_at);
    assert(current(ts, pos) == at(ts, pos));
}

/// The end of a block: a closing brace.
pub proof fn lemma_parse_block_end(ts: Seq<TokenModel>, pos: nat, done: Seq<StatementModel>)
    requires
        at(ts, pos) is RBrace,
    ensures
        block_rest_at(ts, pos, done) == (Ok::<Seq<StatementModel>, Seq<char>>(done), 0nat),
{
    reveal(block_rest_at);
    assert(current(ts, pos) == at(ts, pos));
}

/// A block: where the statements behind the opening brace are `statements`
/// and the parser stops at the closing brace after `k` steps, the block from
/// the opening brace is `statements`.
pub proof fn lemma_parse_block(
    ts: Seq<TokenModel>,
    pos: nat,
    statements: Seq<StatementModel>,
    k: nat,
)
    requires
        pos < ts.len(),
        block_rest_at(ts, pos + 1, Seq::empty()) == (
            Ok::<Seq<StatementModel>, Seq<char>>(statements),
            k,
        ),
    ensures
        block_at(ts, pos) == (Ok::<Seq<StatementModel>, Seq<char>>(statements), (1 + k) as nat),
{
    reveal(block_rest_at);
    reveal(block_at);
}

/// A statement of a program: where the parser builds `statement` from the
/// token at `pos`, which is not the end of the input, the program goes on
/// behind the statement.
pub proof fn lemma_parse_program_next(
    ts: Seq<TokenModel>,
    pos: nat,
    done: Seq<StatementModel>,
    statement: StatementModel,
    n: nat,
)
    requires
        !(at(ts, pos) is Eof),
        statement_at(ts, pos) == (Ok::<StatementModel, Seq<char>>(statement), n),
    ensures
        program_rest_at(ts, pos, done) == program_rest_at(ts,
            pos + n + 1,
            done.push(statement)),
{
    reveal(statement_at);
    reveal(program_rest_at);
    assert(current(ts, pos) == at(ts, pos));
}

/// The end of a program: the end of the input.
pub proof fn lemma_parse_program_end(ts: Seq<TokenModel>, pos: nat, done: Seq<StatementModel>)
    requires
        at(ts, pos) is Eof,
    ensures
        program_rest_at(ts, pos, done) == Ok::<Seq<StatementModel>, Seq<char>>(done),
{
    reveal(program_rest_at);
    assert(current(ts, pos) == at(ts, pos));
}

/// A function literal: where the parser builds the parameters from the
/// opening parenthesis behind `fn` and the body from the opening brace
/// behind them, it builds the function from what `fn` starts.
pub proof fn lemma_parse_function(
    ts: Seq<TokenModel>,
    pos: nat,
    parameters: Seq<Seq<char>>,
    n: nat,
    body: Seq<StatementModel>,
    m: nat,
)
    requires
        pos + 2 + n < ts.len(),
        ts[pos as int] == TokenModel::Function,
        ts[(pos + 1) as int] == TokenModel::LParen,
        parameters_at(ts, pos + 1) == (
            Ok::<Seq<Seq<char>>, Seq<char>>(parameters),
            n,
        ),
        ts[(pos + 2 + n) as int] == TokenModel::LBrace,
        block_at(ts, pos + 2 + n) == (Ok::<Seq<StatementModel>, Seq<char>>(body), m),
    ensures
        start_at(ts, pos) == (
            Ok::<ExpressionModel, Seq<char>>(ExpressionModel::Fn(parameters, body)),
            (2 + n + m) as nat,
        ),
{
    reveal(start_at);
    reveal(parameters_at);
    reveal(block_at);
    assert(peek(ts, pos) == TokenModel::LParen);
    assert(expect_peek_token(ts, pos, TokenModel::LParen) == (Ok::<(), Seq<char>>(()), 1nat));
    let closing = (pos + 1 + n) as nat;
    assert(peek(ts, closing) == TokenModel::LBrace);
    assert(expect_peek_token(ts, closing, TokenModel::LBrace) == (Ok::<(), Seq<char>>(()), 1nat));
    assert(parse_function_literal(ts, pos) == (
        Ok::<ExpressionModel, Seq<char>>(ExpressionModel::Fn(parameters, body)),
        (2 + n + m) as nat,
    ));
    assert(current(ts, pos) == TokenModel::Function);
}

/// Behind the consequence of an `if`, no `else`: the `if` ends there.
pub proof fn lemma_parse_alternative_none(
    ts: Seq<TokenModel>,
    pos: nat,
    condition: ExpressionModel,
    consequence: Seq<StatementModel>,
    k: nat,
)
    requires
        pos < ts.len(),
        k >= 1,
        !(at(ts, pos + k + 1) is Else),
    ensures
        parse_alternative(ts, pos, condition, consequence, k) == (
            Ok::<ExpressionModel, Seq<char>>(
                ExpressionModel::If(Box::new(condition), consequence, None),
            ),
            k,
        ),
{
    assert(peek(ts, pos + k) == at(ts, pos + k + 1));
}

/// Behind the consequence of an `if`, `else` and a block: the alternative.
pub proof fn lemma_parse_alternative_else(
    ts: Seq<TokenModel>,
    pos: nat,
    condition: ExpressionModel,
    consequence: Seq<StatementModel>,
    k: nat,
    alternative: Seq<StatementModel>,
    m: nat,
)
    requires
        pos + k + 2 < ts.len(),
        k >= 1,
        ts[(pos + k + 1) as int] == TokenModel::Else,
        ts[(pos + k + 2) as int] == TokenModel::LBrace,
        block_at(ts, pos + k + 2) == (Ok::<Seq<StatementModel>, Seq<char>>(alternative), m),
    ensures
        parse_alternative(ts, pos, condition, consequence, k) == (
            Ok::<ExpressionModel, Seq<char>>(
                ExpressionModel::If(Box::new(condition), consequence, Some(alternative)),
            ),
            (k + 2 + m) as nat,
        ),
{
    reveal(block_at);
    let end = (pos + k) as nat;
    assert(peek(ts, end) == TokenModel::Else);
    assert(peek(ts, end + 1) == TokenModel::LBrace);
    assert(expect_peek_token(ts, end + 1, TokenModel::LBrace) == (Ok::<(), Seq<char>>(()), 1nat));
}

/// An `if` up to its consequence: where the parser builds the condition
/// between the parentheses behind `if` and the consequence from the opening
/// brace behind them, the `if` is what follows the consequence.
pub proof fn lemma_parse_if_head(
    ts: Seq<TokenModel>,
    pos: nat,
    condition: ExpressionModel,
    n: nat,
    consequence: Seq<StatementModel>,
    m: nat,
)
    requires
        pos + 4 + n < ts.len(),
        ts[pos as int] == TokenModel::If,
        ts[(pos + 1) as int] == TokenModel::LParen,
        expression_at(ts, pos + 2, Precdence::Lowest) == (
            Ok::<ExpressionModel, Seq<char>>(condition),
            n,
        ),
        ts[(pos + 3 + n) as int] == TokenModel::RParen,
        ts[(pos + 4 + n) as int] == TokenModel::LBrace,
        block_at(ts, pos + 4 + n) == (Ok::<Seq<StatementModel>, Seq<char>>(consequence), m),
    ensures
        start_at(ts, pos) == parse_alternative(
            ts,
            pos,
            condition,
            consequence,
            (4 + n + m) as nat,
        ),
{
    reveal(expression_at);
    reveal(block_at);
    reveal(start_at);
    assert(peek(ts, pos) == TokenModel::LParen);
    assert(expect_peek_token(ts, pos, TokenModel::LParen) == (Ok::<(), Seq<char>>(()), 1nat));
    let closing = (pos + 2 + n) as nat;
    assert(peek(ts, closing) == TokenModel::RParen);
    assert(expect_peek_token(ts, closing, TokenModel::RParen) == (Ok::<(), Seq<char>>(()), 1nat));
    assert(peek(ts, closing + 1) == TokenModel::LBrace);
    assert(expect_peek_token(ts, closing + 1, TokenModel::LBrace) == (
        Ok::<(), Seq<char>>(()),
        1nat,
    ));
    assert(parse_if_expression(ts, pos) == parse_alternative(
        ts,
        pos,
        condition,
        consequence,
        (4 + n + m) as nat,
    ));
    assert(current(ts, pos) == TokenModel::If);
}

/// An `if` without `else`: where the parser builds the condition between the
/// parentheses behind `if` and the consequence from the opening brace behind
/// them, and no `else` follows, it builds the `if` from what `if` starts.
pub proof fn lemma_parse_if(
    ts: Seq<TokenModel>,
    pos: nat,
    condition: ExpressionModel,
    n: nat,
    consequence: Seq<StatementModel>,
    m: nat,
)
    requires
        pos + 4 + n < ts.len(),
        ts[pos as int] == TokenModel::If,
        ts[(pos + 1) as int] == TokenModel::LParen,
        expression_at(ts, pos + 2, Precdence::Lowest) == (
            Ok::<ExpressionModel, Seq<char>>(condition),
            n,
        ),
        ts[(pos + 3 + n) as int] == TokenModel::RParen,
        ts[(pos + 4 + n) as int] == TokenModel::LBrace,
        block_at(ts, pos + 4 + n) == (Ok::<Seq<StatementModel>, Seq<char>>(consequence), m),
        !(at(ts, pos + 5 + n + m) is Else),
    ensures
        start_at(ts, pos) == (
            Ok::<ExpressionModel, Seq<char>>(
                ExpressionModel::If(Box::new(condition), consequence, None),
            ),
            (4 + n + m) as nat,
        ),
{
    lemma_parse_if_head(ts, pos, condition, n, consequence, m);
    lemma_parse_alternative_none(ts, pos, condition, consequence, (4 + n + m) as nat);
}

/// An `if` with `else`: where the parser builds the condition, the
/// consequence and, behind `else` and an opening brace, the alternative, it
/// builds the `if` from what `if` starts.
pub proof fn lemma_parse_if_else(
    ts: Seq<TokenModel>,
    pos: nat,
    condition: ExpressionModel,
    n: nat,
    consequence: Seq<StatementModel>,
    m: nat,
    alternative: Seq<StatementModel>,
    k: nat,
)
    requires
        pos + 6 + n + m < ts.len(),
        ts[pos as int] == TokenModel::If,
        ts[(pos + 1) as int] == TokenModel::LParen,
        expression_at(ts, pos + 2, Precdence::Lowest) == (
            Ok::<ExpressionModel, Seq<char>>(condition),
            n,
        ),
        ts[(pos + 3 + n) as int] == TokenModel::RParen,
        ts[(pos + 4 + n) as int] == TokenModel::LBrace,
        block_at(ts, pos + 4 + n) == (Ok::<Seq<StatementModel>, Seq<char>>(consequence), m),
        ts[(pos + 5 + n + m) as int] == TokenModel::Else,
        ts[(pos + 6 + n + m) as int] == TokenModel::LBrace,
        block_at(ts, pos + 6 + n + m) == (Ok::<Seq<StatementModel>, Seq<char>>(alternative), k),
    ensures
        start_at(ts, pos) == (
            Ok::<ExpressionModel, Seq<char>>(
                ExpressionModel::If(Box::new(condition), consequence, Some(alternative)),
            ),
            (6 + n + m + k) as nat,
        ),
{
    lemma_parse_if_head(ts, pos, condition, n, consequence, m);
    lemma_parse_alternative_else(
        ts,
        pos,
        condition,
        consequence,
        (4 + n + m) as nat,
        alternative,
        k,
    );
}

/// Whether a token can be the first of a statement.
pub open spec fn starts_statement(token: TokenModel) -> bool {
    token is Let || token is Return || token is Ident || token is Int || token is True
        || token is False || token is String || token is LBracket || token is LBrace
        || token is LParen || token is If || token is Function
}

/// The tokens of an expression that parses back start with its first token,
/// which can be the first of a statement and is neither `let` nor `return`.
pub proof fn lemma_first_token(e: ExpressionModel)
    requires
        parses_back(e),
    ensures
        expression_tokens(e).len() >= 1,
        expression_tokens(e)[0] == first_token(e),
        starts_statement(first_token(e)),
        !(first_token(e) is Let) && !(first_token(e) is Return),
    decreases e,
{
    match e {
        ExpressionModel::Call(function, arguments) => {
            lemma_first_token(*function);
        },
        ExpressionModel::If(condition, consequence, alternative) => {
            let head = seq![TokenModel::If] + expression_tokens(*condition) + block_tokens(
                consequence,
            );
            assert(head[0] == TokenModel::If);
        },
        _ => {},
    }
}

/// The tokens of a statement that parses back start with its first token,
/// which can be the first of a statement.
pub proof fn lemma_statement_first_token(statement: StatementModel)
    requires
        statement_parses_back(statement),
    ensures
        statement_tokens(statement).len() >= 1,
        statement_tokens(statement)[0] == statement_first_token(statement),
        starts_statement(statement_first_token(statement)),
{
    match statement {
        StatementModel::Expr(value) => {
            lemma_first_token(value);
        },
        _ => {},
    }
}

/// Tokens that stand at a position: the first of them is the token there.
pub proof fn lemma_stands_first(ts: Seq<TokenModel>, pos: nat, part: Seq<TokenModel>)
    requires
        stands(ts, pos, part),
        part.len() >= 1,
    ensures
        pos < ts.len(),
        ts[pos as int] == part[0],
        at(ts, pos) == part[0],
{
    lemma_first_of_part(ts, pos as int, part);
}

/// Where two runs of tokens stand one behind the other as one run, each
/// stands at its place.
pub proof fn lemma_stands_two(
    ts: Seq<TokenModel>,
    pos: nat,
    a: Seq<TokenModel>,
    b: Seq<TokenModel>,
)
    requires
        stands(ts, pos, a + b),
    ensures
        stands(ts, pos, a),
        stands(ts, pos + a.len(), b),
{
    lemma_two_parts(ts, pos as int, a, b);
}

/// Where three runs of tokens stand one behind the other as one run, each
/// stands at its place.
pub proof fn lemma_stands_three(
    ts: Seq<TokenModel>,
    pos: nat,
    a: Seq<TokenModel>,
    b: Seq<TokenModel>,
    c: Seq<TokenModel>,
)
    requires
        stands(ts, pos, a + b + c),
    ensures
        stands(ts, pos, a),
        stands(ts, pos + a.len(), b),
        stands(ts, pos + a.len() + b.len(), c),
{
    lemma_three_parts(ts, pos as int, a, b, c);
}

/// Where four runs of tokens stand one behind the other as one run, each
/// stands at its place.
pub proof fn lemma_stands_four(
    ts: Seq<TokenModel>,
    pos: nat,
    a: Seq<TokenModel>,
    b: Seq<TokenModel>,
    c: Seq<TokenModel>,
    d: Seq<TokenModel>,
)
    requires
        stands(ts, pos, a + b + c + d),
    ensures
        stands(ts, pos, a),
        stands(ts, pos + a.len(), b),
        stands(ts, pos + a.len() + b.len(), c),
        stands(ts, pos + a.len() + b.len() + c.len(), d),
{
    lemma_four_parts(ts, pos as int, a, b, c, d);
}

/// A single token that stands at a position is the token there.
pub proof fn lemma_stands_one(ts: Seq<TokenModel>, pos: nat, token: TokenModel)
    requires
        stands(ts, pos, seq![token]),
    ensures
        pos < ts.len(),
        ts[pos as int] == token,
        at(ts, pos) == token,
{
    lemma_one_char(ts, pos as int, token);
}

/// The places of the tokens of a prefix expression.
pub proof fn lemma_prefix_tokens(
    ts: Seq<TokenModel>,
    pos: nat,
    operator: TokenModel,
    inner: Seq<TokenModel>,
)
    requires
        stands(ts, pos, seq![TokenModel::LParen, operator] + inner + seq![TokenModel::RParen]),
    ensures
        pos + 3 + inner.len() <= ts.len(),
        ts[pos as int] == TokenModel::LParen,
        ts[(pos + 1) as int] == operator,
        stands(ts, pos + 2, inner),
        ts[(pos + 2 + inner.len()) as int] == TokenModel::RParen,
{
    assert(seq![TokenModel::LParen, operator] + inner + seq![TokenModel::RParen] =~= seq![
        TokenModel::LParen,
    ] + seq![operator] + inner + seq![TokenModel::RParen]);
    lemma_stands_four(
        ts,
        pos,
        seq![TokenModel::LParen],
        seq![operator],
        inner,
        seq![TokenModel::RParen],
    );
    lemma_stands_one(ts, pos, TokenModel::LParen);
    lemma_stands_one(ts, pos + 1, operator);
    lemma_stands_one(ts, pos + 2 + inner.len(), TokenModel::RParen);
}

/// The places of the tokens of a binary expression.
pub proof fn lemma_infix_tokens(
    ts: Seq<TokenModel>,
    pos: nat,
    operator: TokenModel,
    first: Seq<TokenModel>,
    second: Seq<TokenModel>,
)
    requires
        stands(
            ts,
            pos,
            seq![TokenModel::LParen] + first + seq![operator] + second + seq![TokenModel::RParen],
        ),
    ensures
        pos + 3 + first.len() + second.len() <= ts.len(),
        ts[pos as int] == TokenModel::LParen,
        stands(ts, pos + 1, first),
        ts[(pos + 1 + first.len()) as int] == operator,
        stands(ts, pos + 2 + first.len(), second),
        ts[(pos + 2 + first.len() + second.len()) as int] == TokenModel::RParen,
{
    let whole = seq![TokenModel::LParen] + first + seq![operator] + second + seq![
        TokenModel::RParen,
    ];
    let tail = second + seq![TokenModel::RParen];
    assert(whole =~= seq![TokenModel::LParen] + first + seq![operator] + tail);
    lemma_stands_four(ts, pos, seq![TokenModel::LParen], first, seq![operator], tail);
    lemma_stands_two(ts, pos + 2 + first.len(), second, seq![TokenModel::RParen]);
    lemma_stands_one(ts, pos, TokenModel::LParen);
    lemma_stands_one(ts, pos + 1 + first.len(), operator);
    lemma_stands_one(ts, pos + 2 + first.len() + second.len(), TokenModel::RParen);
}

/// The places of the tokens of an index expression.
pub proof fn lemma_index_tokens(
    ts: Seq<TokenModel>,
    pos: nat,
    first: Seq<TokenModel>,
    second: Seq<TokenModel>,
)
    requires
        stands(
            ts,
            pos,
            seq![TokenModel::LParen] + first + seq![TokenModel::LBracket] + second + seq![
                TokenModel::RBracket,
                TokenModel::RParen,
            ],
        ),
    ensures
        pos + 4 + first.len() + second.len() <= ts.len(),
        ts[pos as int] == TokenModel::LParen,
        stands(ts, pos + 1, first),
        ts[(pos + 1 + first.len()) as int] == TokenModel::LBracket,
        stands(ts, pos + 2 + first.len(), second),
        ts[(pos + 2 + first.len() + second.len()) as int] == TokenModel::RBracket,
        ts[(pos + 3 + first.len() + second.len()) as int] == TokenModel::RParen,
{
    let whole = seq![TokenModel::LParen] + first + seq![TokenModel::LBracket] + second + seq![
        TokenModel::RBracket,
        TokenModel::RParen,
    ];
    let tail = second + seq![TokenModel::RBracket] + seq![TokenModel::RParen];
    assert(whole =~= seq![TokenModel::LParen] + first + seq![TokenModel::LBracket] + tail);
    lemma_stands_four(ts, pos, seq![TokenModel::LParen], first, seq![TokenModel::LBracket], tail);
    lemma_stands_three(
        ts,
        pos + 2 + first.len(),
        second,
        seq![TokenModel::RBracket],
        seq![TokenModel::RParen],
    );
    lemma_stands_one(ts, pos, TokenModel::LParen);
    lemma_stands_one(ts, pos + 1 + first.len(), TokenModel::LBracket);
    lemma_stands_one(ts, pos + 2 + first.len() + second.len(), TokenModel::RBracket);
    lemma_stands_one(ts, pos + 3 + first.len() + second.len(), TokenModel::RParen);
}

/// The places of tokens between an opening and a closing token.
pub proof fn lemma_wrapped_tokens(
    ts: Seq<TokenModel>,
    pos: nat,
    open: TokenModel,
    inner: Seq<TokenModel>,
    close: TokenModel,
)
    requires
        stands(ts, pos, seq![open] + inner + seq![close]),
    ensures
        pos + 2 + inner.len() <= ts.len(),
        ts[pos as int] == open,
        stands(ts, pos + 1, inner),
        ts[(pos + 1 + inner.len()) as int] == close,
        at(ts, pos + 1 + inner.len()) == close,
{
    lemma_stands_three(ts, pos, seq![open], inner, seq![close]);
    lemma_stands_one(ts, pos, open);
    lemma_stands_one(ts, pos + 1 + inner.len(), close);
}

/// The places of two runs of tokens with one token between them.
pub proof fn lemma_separated_tokens(
    ts: Seq<TokenModel>,
    pos: nat,
    first: Seq<TokenModel>,
    between: TokenModel,
    second: Seq<TokenModel>,
)
    requires
        stands(ts, pos, first + seq![between] + second),
    ensures
        pos + 1 + first.len() + second.len() <= ts.len(),
        stands(ts, pos, first),
        ts[(pos + first.len()) as int] == between,
        at(ts, pos + first.len()) == between,
        stands(ts, pos + 1 + first.len(), second),
{
    lemma_stands_three(ts, pos, first, seq![between], second);
    lemma_stands_one(ts, pos + first.len(), between);
}

/// The places of the tokens of a call.
pub proof fn lemma_call_tokens(
    ts: Seq<TokenModel>,
    pos: nat,
    function: Seq<TokenModel>,
    arguments: Seq<TokenModel>,
)
    requires
        stands(
            ts,
            pos,
            function + seq![TokenModel::LParen] + arguments + seq![TokenModel::RParen],
        ),
    ensures
        pos + 2 + function.len() + arguments.len() <= ts.len(),
        stands(ts, pos, function),
        ts[(pos + function.len()) as int] == TokenModel::LParen,
        at(ts, pos + function.len()) == TokenModel::LParen,
        stands(ts, pos + 1 + function.len(), arguments),
        ts[(pos + 1 + function.len() + arguments.len()) as int] == TokenModel::RParen,
{
    lemma_stands_four(
        ts,
        pos,
        function,
        seq![TokenModel::LParen],
        arguments,
        seq![TokenModel::RParen],
    );
    lemma_stands_one(ts, pos + function.len(), TokenModel::LParen);
    lemma_stands_one(ts, pos + 1 + function.len() + arguments.len(), TokenModel::RParen);
}

/// The places of the tokens of a `let` statement.
pub proof fn lemma_let_tokens(
    ts: Seq<TokenModel>,
    pos: nat,
    name: Seq<char>,
    value: Seq<TokenModel>,
)
    requires
        stands(
            ts,
            pos,
            seq![TokenModel::Let, TokenModel::Ident(name), TokenModel::Assign] + value + seq![
                TokenModel::Semicolon,
            ],
        ),
    ensures
        pos + 4 + value.len() <= ts.len(),
        ts[pos as int] == TokenModel::Let,
        ts[(pos + 1) as int] == TokenModel::Ident(name),
        ts[(pos + 2) as int] == TokenModel::Assign,
        stands(ts, pos + 3, value),
        ts[(pos + 3 + value.len()) as int] == TokenModel::Semicolon,
        at(ts, pos + 3 + value.len()) == TokenModel::Semicolon,
{
    let start = seq![TokenModel::Let, TokenModel::Ident(name), TokenModel::Assign];
    lemma_stands_three(ts, pos, start, value, seq![TokenModel::Semicolon]);
    lemma_stands_one(ts, pos + 3 + value.len(), TokenModel::Semicolon);
    assert(start =~= seq![TokenModel::Let] + seq![TokenModel::Ident(name)] + seq![
        TokenModel::Assign,
    ]);
    lemma_stands_three(
        ts,
        pos,
        seq![TokenModel::Let],
        seq![TokenModel::Ident(name)],
        seq![TokenModel::Assign],
    );
    lemma_stands_one(ts, pos, TokenModel::Let);
    lemma_stands_one(ts, pos + 1, TokenModel::Ident(name));
    lemma_stands_one(ts, pos + 2, TokenModel::Assign);
}

/// The places of the tokens of a function literal.
pub proof fn lemma_function_tokens(
    ts: Seq<TokenModel>,
    pos: nat,
    names: Seq<TokenModel>,
    block: Seq<TokenModel>,
)
    requires
        stands(
            ts,
            pos,
            seq![TokenModel::Function, TokenModel::LParen] + names + seq![TokenModel::RParen]
                + block,
        ),
    ensures
        pos + 3 + names.len() + block.len() <= ts.len(),
        ts[pos as int] == TokenModel::Function,
        ts[(pos + 1) as int] == TokenModel::LParen,
        stands(ts, pos + 2, names),
        ts[(pos + 2 + names.len()) as int] == TokenModel::RParen,
        at(ts, pos + 2 + names.len()) == TokenModel::RParen,
        stands(ts, pos + 3 + names.len(), block),
{
    let start = seq![TokenModel::Function, TokenModel::LParen];
    lemma_stands_four(ts, pos, start, names, seq![TokenModel::RParen], block);
    lemma_stands_one(ts, pos + 2 + names.len(), TokenModel::RParen);
    assert(start =~= seq![TokenModel::Function] + seq![TokenModel::LParen]);
    lemma_stands_two(ts, pos, seq![TokenModel::Function], seq![TokenModel::LParen]);
    lemma_stands_one(ts, pos, TokenModel::Function);
    lemma_stands_one(ts, pos + 1, TokenModel::LParen);
}

/// Whether a token ends the expression before it and leaves it as it is:
/// it neither continues the expression nor is it an `else`.
pub open spec fn closes(token: TokenModel) -> bool {
    stops(token) && !(token is Else)
}

/// A token that can be the first of a statement and is neither an opening
/// parenthesis nor an opening bracket ends the expression before it, and is
/// neither a semicolon, a closing brace nor the end of the input.
pub proof fn lemma_statement_start_closes(token: TokenModel)
    requires
        starts_statement(token),
    ensures
        !(token is LParen) && !(token is LBracket) ==> closes(token),
        !(token is Semicolon),
        !(token is RBrace),
        !(token is Eof),
        !(token is RParen),
        !(token is RBracket),
        !(token is Else),
{
}

/// The names of a list of parameters: where they stand behind the opening
/// parenthesis, the parameters are what follows the last name.
pub proof fn lemma_build_names(names: Seq<Seq<char>>, ts: Seq<TokenModel>, q: nat)
    requires
        names.len() >= 1,
        stands(ts, q + 1, names_tokens(names)),
    ensures
        names_tokens(names).len() >= 1,
        parameters_at(ts, q) == shifted(
            parameters_rest_at(ts, q + names_tokens(names).len(), names),
            names_tokens(names).len(),
        ),
    decreases names.len(),
{
    if names.len() == 1 {
        lemma_stands_one(ts, q + 1, TokenModel::Ident(names[0]));
        lemma_parse_parameters_first(ts, q, names[0]);
        assert(seq![names[0]] =~= names);
    } else {
        let head = names.drop_last();
        let last = names.last();
        let th = names_tokens(head);
        lemma_stands_two(ts, q + 1, th, seq![TokenModel::Comma, TokenModel::Ident(last)]);
        lemma_build_names(head, ts, q);
        let c = (q + th.len()) as nat;
        assert(seq![TokenModel::Comma, TokenModel::Ident(last)] =~= seq![TokenModel::Comma]
            + seq![TokenModel::Ident(last)]);
        lemma_stands_two(
            ts,
            c + 1,
            seq![TokenModel::Comma],
            seq![TokenModel::Ident(last)],
        );
        lemma_stands_one(ts, c + 1, TokenModel::Comma);
        lemma_stands_one(ts, c + 2, TokenModel::Ident(last));
        lemma_parse_parameters_next(ts, c, head, last);
        assert(head.push(last) =~= names);
    }
}

/// The parameters of a function: where their names stand behind the opening
/// parenthesis and the closing one follows, the parser builds the names and
/// stops at the closing parenthesis.
pub proof fn lemma_build_parameters(names: Seq<Seq<char>>, ts: Seq<TokenModel>, q: nat)
    requires
        stands(ts, q + 1, names_tokens(names)),
        q + 1 + names_tokens(names).len() < ts.len(),
        ts[(q + 1 + names_tokens(names).len()) as int] == TokenModel::RParen,
    ensures
        parameters_at(ts, q) == (
            Ok::<Seq<Seq<char>>, Seq<char>>(names),
            (names_tokens(names).len() + 1) as nat,
        ),
{
    if names.len() == 0 {
        lemma_parse_parameters_empty(ts, q);
        assert(names =~= Seq::<Seq<char>>::empty());
    } else {
        lemma_build_names(names, ts, q);
        lemma_parse_parameters_end(ts, q + names_tokens(names).len(), names);
    }
}

/// An expression that parses back: where its tokens stand at `pos` and no
/// `else` follows them, the parser builds the expression from them and goes
/// on to extend it, at any precedence below that of a call.
pub proof fn lemma_build_expression(
    e: ExpressionModel,
    ts: Seq<TokenModel>,
    pos: nat,
    precedence: Precdence,
)
    requires
        parses_back(e),
        stands(ts, pos, expression_tokens(e)),
        rank(precedence) < rank(Precdence::Call),
        !(at(ts, pos + expression_tokens(e).len()) is Else),
    ensures
        expression_tokens(e).len() >= 1,
        expression_at(ts, pos, precedence) == continued(
            ts,
            pos,
            e,
            expression_tokens(e).len(),
            precedence,
        ),
    decreases e, 3nat,
{
    match e {
        ExpressionModel::Call(function, arguments) => {
            let tf = expression_tokens(*function);
            let ta = expressions_tokens(arguments);
            lemma_call_tokens(ts, pos, tf, ta);
            lemma_build_expression(*function, ts, pos, precedence);
            let open = (pos + tf.len()) as nat;
            lemma_build_whole_list(arguments, ts, open, TokenModel::RParen);
            lemma_parse_call_behind(
                ts,
                (open - 1) as nat,
                *function,
                arguments,
                ta.len() + 1,
                precedence,
            );
        },
        _ => {
            lemma_build_primary(e, ts, pos);
            lemma_parse_primary(ts, pos, e, expression_tokens(e).len(), precedence);
        },
    }
}

/// An expression that parses back: where its tokens stand at `pos` and a
/// token follows that ends it, the parser builds the expression and stops
/// at its last token.
pub proof fn lemma_build_closed(
    e: ExpressionModel,
    ts: Seq<TokenModel>,
    pos: nat,
    precedence: Precdence,
)
    requires
        parses_back(e),
        stands(ts, pos, expression_tokens(e)),
        rank(precedence) < rank(Precdence::Call),
        closes(at(ts, pos + expression_tokens(e).len())),
    ensures
        expression_tokens(e).len() >= 1,
        expression_at(ts, pos, precedence) == (
            Ok::<ExpressionModel, Seq<char>>(e),
            (expression_tokens(e).len() - 1) as nat,
        ),
    decreases e, 4nat,
{
    lemma_build_expression(e, ts, pos, precedence);
    lemma_parse_closed(ts, pos, e, expression_tokens(e).len(), precedence);
}

/// An expression other than a call: where its tokens stand at `pos`, the
/// parser builds it from what the token at `pos` starts.
pub proof fn lemma_build_primary(e: ExpressionModel, ts: Seq<TokenModel>, pos: nat)
    requires
        parses_back(e),
        !(e is Call),
        stands(ts, pos, expression_tokens(e)),
        !(at(ts, pos + expression_tokens(e).len()) is Else),
    ensures
        expression_tokens(e).len() >= 1,
        start_at(ts, pos) == (
            Ok::<ExpressionModel, Seq<char>>(e),
            (expression_tokens(e).len() - 1) as nat,
        ),
    decreases e, 2nat,
{
    let n = expression_tokens(e).len();
    if is_grouped(e) {
        lemma_build_inside(e, ts, pos);
        lemma_parse_group(ts, pos, e, (n - 3) as nat);
    } else if e is If {
        lemma_build_if(e, ts, pos);
    } else if e is Fn {
        lemma_build_fn(e, ts, pos);
    } else {
        match e {
            ExpressionModel::Lit(LiteralModel::Array(elements)) => {
                let inner = expressions_tokens(elements);
                lemma_wrapped_tokens(ts, pos, TokenModel::LBracket, inner, TokenModel::RBracket);
                lemma_build_whole_list(elements, ts, pos, TokenModel::RBracket);
                lemma_parse_array(ts, pos, elements, inner.len() + 1);
            },
            ExpressionModel::Lit(LiteralModel::Hash(pairs)) => {
                let inner = pairs_tokens(pairs);
                lemma_wrapped_tokens(ts, pos, TokenModel::LBrace, inner, TokenModel::RBrace);
                if pairs.len() == 0 {
                    lemma_parse_hash_empty(ts, pos, Seq::empty());
                    assert(pairs =~= Seq::<(ExpressionModel, ExpressionModel)>::empty());
                } else {
                    lemma_build_pairs(pairs, ts, pos);
                }
                lemma_parse_hash(ts, pos, pairs, inner.len() + 1);
            },
            _ => {
                assert(n == 1);
                lemma_stands_one(ts, pos, expression_tokens(e)[0]);
                lemma_parse_atom(ts, pos, e);
            },
        }
    }
}

/// A prefix expression: where its tokens stand at `pos`, the parser builds
/// it from what stands between its parentheses.
proof fn lemma_build_inside_prefix(e: ExpressionModel, ts: Seq<TokenModel>, pos: nat)
    requires
        parses_back(e),
        e is Prefix,
        stands(ts, pos, expression_tokens(e)),
    ensures
        expression_tokens(e).len() >= 3,
        ts[pos as int] == TokenModel::LParen,
        ts[(pos + expression_tokens(e).len() - 1) as int] == TokenModel::RParen,
        expression_at(ts, pos + 1, Precdence::Lowest) == (
            Ok::<ExpressionModel, Seq<char>>(e),
            (expression_tokens(e).len() - 3) as nat,
        ),
    decreases e, 0nat,
{
    match e {
        ExpressionModel::Prefix(operator, right) => {
            let inner = expression_tokens(*right);
            lemma_prefix_tokens(ts, pos, operator, inner);
            lemma_build_closed(*right, ts, pos + 2, Precdence::Prefix);
            lemma_parse_prefix_inside(ts, pos + 1, operator, *right, (inner.len() - 1) as nat);
        },
        _ => {},
    }
}

/// A binary expression: where its tokens stand at `pos`, the parser builds
/// it from what stands between its parentheses.
proof fn lemma_build_inside_infix(e: ExpressionModel, ts: Seq<TokenModel>, pos: nat)
    requires
        parses_back(e),
        e is Infix,
        stands(ts, pos, expression_tokens(e)),
    ensures
        expression_tokens(e).len() >= 3,
        ts[pos as int] == TokenModel::LParen,
        ts[(pos + expression_tokens(e).len() - 1) as int] == TokenModel::RParen,
        expression_at(ts, pos + 1, Precdence::Lowest) == (
            Ok::<ExpressionModel, Seq<char>>(e),
            (expression_tokens(e).len() - 3) as nat,
        ),
    decreases e, 0nat,
{
    match e {
        ExpressionModel::Infix(operator, left, right) => {
            let first = expression_tokens(*left);
            let second = expression_tokens(*right);
            lemma_infix_tokens(ts, pos, operator, first, second);
            lemma_build_expression(*left, ts, pos + 1, Precdence::Lowest);
            lemma_build_closed(*right, ts, pos + 2 + first.len(), precedence_of(operator));
            lemma_parse_infix_inside(
                ts,
                pos + first.len(),
                operator,
                *left,
                *right,
                (second.len() - 1) as nat,
            );
            lemma_continued_result(
                ts,
                pos + 1,
                *left,
                first.len(),
                Precdence::Lowest,
                e,
                second.len() + 1,
            );
        },
        _ => {},
    }
}

/// An index expression: where its tokens stand at `pos`, the parser builds
/// it from what stands between its parentheses.
proof fn lemma_build_inside_index(e: ExpressionModel, ts: Seq<TokenModel>, pos: nat)
    requires
        parses_back(e),
        e is Index,
        stands(ts, pos, expression_tokens(e)),
    ensures
        expression_tokens(e).len() >= 3,
        ts[pos as int] == TokenModel::LParen,
        ts[(pos + expression_tokens(e).len() - 1) as int] == TokenModel::RParen,
        expression_at(ts, pos + 1, Precdence::Lowest) == (
            Ok::<ExpressionModel, Seq<char>>(e),
            (expression_tokens(e).len() - 3) as nat,
        ),
    decreases e, 0nat,
{
    match e {
        ExpressionModel::Index(left, index) => {
            let first = expression_tokens(*left);
            let second = expression_tokens(*index);
            lemma_index_tokens(ts, pos, first, second);
            lemma_build_expression(*left, ts, pos + 1, Precdence::Lowest);
            lemma_build_closed(*index, ts, pos + 2 + first.len(), Precdence::Lowest);
            lemma_parse_index_inside(
                ts,
                pos + first.len(),
                *left,
                *index,
                (second.len() - 1) as nat,
            );
            lemma_continued_result(
                ts,
                pos + 1,
                *left,
                first.len(),
                Precdence::Lowest,
                e,
                second.len() + 2,
            );
        },
        _ => {},
    }
}

/// A prefix, a binary or an index expression: where its tokens stand at
/// `pos`, they start and end with a parenthesis, and the parser builds the
/// expression from what stands between them.
pub proof fn lemma_build_inside(e: ExpressionModel, ts: Seq<TokenModel>, pos: nat)
    requires
        parses_back(e),
        is_grouped(e),
        stands(ts, pos, expression_tokens(e)),
    ensures
        expression_tokens(e).len() >= 3,
        ts[pos as int] == TokenModel::LParen,
        ts[(pos + expression_tokens(e).len() - 1) as int] == TokenModel::RParen,
        expression_at(ts, pos + 1, Precdence::Lowest) == (
            Ok::<ExpressionModel, Seq<char>>(e),
            (expression_tokens(e).len() - 3) as nat,
        ),
    decreases e, 1nat,
{
    if e is Prefix {
        lemma_build_inside_prefix(e, ts, pos);
    } else if e is Infix {
        lemma_build_inside_infix(e, ts, pos);
    } else {
        lemma_build_inside_index(e, ts, pos);
    }
}

/// The places of the tokens of an `if` without `else`.
pub proof fn lemma_if_tokens(
    ts: Seq<TokenModel>,
    pos: nat,
    condition: Seq<TokenModel>,
    block: Seq<TokenModel>,
)
    requires
        stands(ts, pos, seq![TokenModel::If] + condition + block),
    ensures
        pos + 1 + condition.len() + block.len() <= ts.len(),
        ts[pos as int] == TokenModel::If,
        stands(ts, pos + 1, condition),
        stands(ts, pos + 1 + condition.len(), block),
{
    lemma_stands_three(ts, pos, seq![TokenModel::If], condition, block);
    lemma_stands_one(ts, pos, TokenModel::If);
}

/// The places of the tokens of an `if` with `else`.
pub proof fn lemma_if_else_tokens(
    ts: Seq<TokenModel>,
    pos: nat,
    condition: Seq<TokenModel>,
    first: Seq<TokenModel>,
    second: Seq<TokenModel>,
)
    requires
        stands(
            ts,
            pos,
            seq![TokenModel::If] + condition + first + seq![TokenModel::Else] + second,
        ),
    ensures
        pos + 2 + condition.len() + first.len() + second.len() <= ts.len(),
        ts[pos as int] == TokenModel::If,
        stands(ts, pos + 1, condition),
        stands(ts, pos + 1 + condition.len(), first),
        ts[(pos + 1 + condition.len() + first.len()) as int] == TokenModel::Else,
        stands(ts, pos + 2 + condition.len() + first.len(), second),
{
    let tail = seq![TokenModel::Else] + second;
    assert(seq![TokenModel::If] + condition + first + seq![TokenModel::Else] + second =~= seq![
        TokenModel::If,
    ] + condition + first + tail);
    lemma_stands_four(ts, pos, seq![TokenModel::If], condition, first, tail);
    lemma_stands_one(ts, pos, TokenModel::If);
    lemma_stands_two(
        ts,
        pos + 1 + condition.len() + first.len(),
        seq![TokenModel::Else],
        second,
    );
    lemma_stands_one(ts, pos + 1 + condition.len() + first.len(), TokenModel::Else);
}

/// An `if` expression without `else`: where its tokens stand at `pos` and no
/// `else` follows them, the parser builds it from what `if` starts.
proof fn lemma_build_if_alone(e: ExpressionModel, ts: Seq<TokenModel>, pos: nat)
    requires
        parses_back(e),
        e is If,
        e->If_2 is None,
        stands(ts, pos, expression_tokens(e)),
        !(at(ts, pos + expression_tokens(e).len()) is Else),
    ensures
        expression_tokens(e).len() >= 1,
        start_at(ts, pos) == (
            Ok::<ExpressionModel, Seq<char>>(e),
            (expression_tokens(e).len() - 1) as nat,
        ),
    decreases e, 0nat,
{
    match e {
        ExpressionModel::If(condition, consequence, alternative) => {
            let tc = expression_tokens(*condition);
            let first = block_tokens(consequence);
            let at_block = (pos + 1 + tc.len()) as nat;
            assert(expression_tokens(e) == seq![TokenModel::If] + tc + first);
            lemma_if_tokens(ts, pos, tc, first);
            lemma_build_inside(*condition, ts, pos + 1);
            lemma_build_block(consequence, ts, at_block);
            lemma_parse_if(
                ts,
                pos,
                *condition,
                (tc.len() - 3) as nat,
                consequence,
                statements_tokens(consequence).len() + 1,
            );
        },
        _ => {},
    }
}

/// An `if` expression with `else`: where its tokens stand at `pos`, the
/// parser builds it from what `if` starts.
proof fn lemma_build_if_else(e: ExpressionModel, ts: Seq<TokenModel>, pos: nat)
    requires
        parses_back(e),
        e is If,
        e->If_2 is Some,
        stands(ts, pos, expression_tokens(e)),
    ensures
        expression_tokens(e).len() >= 1,
        start_at(ts, pos) == (
            Ok::<ExpressionModel, Seq<char>>(e),
            (expression_tokens(e).len() - 1) as nat,
        ),
    decreases e, 0nat,
{
    match e {
        ExpressionModel::If(condition, consequence, alternative) => {
            match alternative {
                Some(block) => {
                    let tc = expression_tokens(*condition);
                    let first = block_tokens(consequence);
                    let second = block_tokens(block);
                    let at_block = (pos + 1 + tc.len()) as nat;
                    assert(expression_tokens(e) == seq![TokenModel::If] + tc + first + seq![
                        TokenModel::Else,
                    ] + second);
                    lemma_if_else_tokens(ts, pos, tc, first, second);
                    lemma_build_inside(*condition, ts, pos + 1);
                    lemma_build_block(consequence, ts, at_block);
                    lemma_build_block(block, ts, at_block + first.len() + 1);
                    lemma_parse_if_else(
                        ts,
                        pos,
                        *condition,
                        (tc.len() - 3) as nat,
                        consequence,
                        statements_tokens(consequence).len() + 1,
                        block,
                        statements_tokens(block).len() + 1,
                    );
                },
                None => {},
            }
        },
        _ => {},
    }
}

/// An `if` expression: where its tokens stand at `pos` and no `else` follows
/// them, the parser builds it from what `if` starts.
pub proof fn lemma_build_if(e: ExpressionModel, ts: Seq<TokenModel>, pos: nat)
    requires
        parses_back(e),
        e is If,
        stands(ts, pos, expression_tokens(e)),
        !(at(ts, pos + expression_tokens(e).len()) is Else),
    ensures
        expression_tokens(e).len() >= 1,
        start_at(ts, pos) == (
            Ok::<ExpressionModel, Seq<char>>(e),
            (expression_tokens(e).len() - 1) as nat,
        ),
    decreases e, 1nat,
{
    if e->If_2 is None {
        lemma_build_if_alone(e, ts, pos);
    } else {
        lemma_build_if_else(e, ts, pos);
    }
}

/// A function literal: where its tokens stand at `pos`, the parser builds it
/// from what `fn` starts.
pub proof fn lemma_build_fn(e: ExpressionModel, ts: Seq<TokenModel>, pos: nat)
    requires
        parses_back(e),
        e is Fn,
        stands(ts, pos, expression_tokens(e)),
    ensures
        expression_tokens(e).len() >= 1,
        start_at(ts, pos) == (
            Ok::<ExpressionModel, Seq<char>>(e),
            (expression_tokens(e).len() - 1) as nat,
        ),
    decreases e, 0nat,
{
    match e {
        ExpressionModel::Fn(parameters, body) => {
            let tn = names_tokens(parameters);
            let block = block_tokens(body);
            lemma_function_tokens(ts, pos, tn, block);
            lemma_build_parameters(parameters, ts, pos + 1);
            lemma_build_block(body, ts, pos + 3 + tn.len());
            lemma_parse_function(
                ts,
                pos,
                parameters,
                tn.len() + 1,
                body,
                statements_tokens(body).len() + 1,
            );
        },
        _ => {},
    }
}

/// The expressions of a list that is not empty: where their tokens stand
/// behind the opening token and a token follows that ends the last of them,
/// the list is what follows the last expression.
pub proof fn lemma_build_list(
    expressions: Seq<ExpressionModel>,
    ts: Seq<TokenModel>,
    q: nat,
    end: TokenModel,
)
    requires
        forall|i: int| 0 <= i < expressions.len() ==> parses_back(#[trigger] expressions[i]),
        expressions.len() >= 1,
        stands(ts, q + 1, expressions_tokens(expressions)),
        closes(at(ts, q + 1 + expressions_tokens(expressions).len())),
        end is RParen || end is RBracket,
    ensures
        expressions_tokens(expressions).len() >= 1,
        list_at(ts, q, end) == shifted(
            list_rest_at(ts, q + expressions_tokens(expressions).len(), expressions, end),
            expressions_tokens(expressions).len(),
        ),
    decreases expressions, 4nat,
{
    if expressions.len() == 1 {
        let only = expressions[0];
        let tokens = expression_tokens(only);
        lemma_first_token(only);
        lemma_stands_first(ts, q + 1, tokens);
        lemma_build_closed(only, ts, q + 1, Precdence::Lowest);
        lemma_parse_list_first(ts, q, end, only, (tokens.len() - 1) as nat);
        assert(seq![only] =~= expressions);
    } else {
        let head = expressions.drop_last();
        let last = expressions.last();
        let th = expressions_tokens(head);
        let tl = expression_tokens(last);
        lemma_separated_tokens(ts, q + 1, th, TokenModel::Comma, tl);
        assert forall|i: int| 0 <= i < head.len() implies parses_back(#[trigger] head[i]) by {
            assert(head[i] == expressions[i]);
        }
        lemma_build_list(head, ts, q, end);
        lemma_build_closed(last, ts, q + 2 + th.len(), Precdence::Lowest);
        lemma_parse_list_next(ts, q + th.len(), end, head, last, (tl.len() - 1) as nat);
        assert(head.push(last) =~= expressions);
    }
}

/// A list of expressions: where their tokens stand behind the opening token
/// and the closing token follows, the parser builds the expressions and
/// stops at the closing token.
pub proof fn lemma_build_whole_list(
    expressions: Seq<ExpressionModel>,
    ts: Seq<TokenModel>,
    q: nat,
    end: TokenModel,
)
    requires
        forall|i: int| 0 <= i < expressions.len() ==> parses_back(#[trigger] expressions[i]),
        stands(ts, q + 1, expressions_tokens(expressions)),
        q + 1 + expressions_tokens(expressions).len() < ts.len(),
        ts[(q + 1 + expressions_tokens(expressions).len()) as int] == end,
        end is RParen || end is RBracket,
    ensures
        list_at(ts, q, end) == (
            Ok::<Seq<ExpressionModel>, Seq<char>>(expressions),
            (expressions_tokens(expressions).len() + 1) as nat,
        ),
    decreases expressions, 5nat,
{
    if expressions.len() == 0 {
        lemma_parse_list_empty(ts, q, end);
        assert(expressions =~= Seq::<ExpressionModel>::empty());
    } else {
        lemma_build_list(expressions, ts, q, end);
        lemma_parse_list_end(ts, q + expressions_tokens(expressions).len(), end, expressions);
    }
}

/// A pair of a hash literal: where its tokens stand behind the token at `c`
/// and a closing brace or a comma follows them, the hash ends behind the
/// pair or goes on from the comma.
pub proof fn lemma_build_pair(
    pair: (ExpressionModel, ExpressionModel),
    ts: Seq<TokenModel>,
    c: nat,
    done: Seq<(ExpressionModel, ExpressionModel)>,
)
    requires
        parses_back(pair.0),
        parses_back(pair.1),
        stands(ts, c + 1, pair_tokens(pair)),
        c + 1 + pair_tokens(pair).len() < ts.len(),
        ts[(c + 1 + pair_tokens(pair).len()) as int] is RBrace || ts[(c + 1 + pair_tokens(
            pair,
        ).len()) as int] is Comma,
    ensures
        ts[(c + 1 + pair_tokens(pair).len()) as int] is RBrace ==> pairs_at(ts, c, done)
            == (
            Ok::<Seq<(ExpressionModel, ExpressionModel)>, Seq<char>>(done.push(pair)),
            (pair_tokens(pair).len() + 1) as nat,
        ),
        ts[(c + 1 + pair_tokens(pair).len()) as int] is Comma ==> pairs_at(ts, c, done)
            == shifted(
            pairs_at(ts, c + 1 + pair_tokens(pair).len(), done.push(pair)),
            pair_tokens(pair).len() + 1,
        ),
    decreases pair, 3nat,
{
    let tk = expression_tokens(pair.0);
    let tv = expression_tokens(pair.1);
    lemma_separated_tokens(ts, c + 1, tk, TokenModel::Colon, tv);
    lemma_first_token(pair.0);
    lemma_stands_first(ts, c + 1, tk);
    lemma_statement_start_closes(first_token(pair.0));
    lemma_build_closed(pair.0, ts, c + 1, Precdence::Lowest);
    lemma_build_closed(pair.1, ts, c + 2 + tk.len(), Precdence::Lowest);
    lemma_parse_hash_pair(
        ts,
        c,
        done,
        pair.0,
        (tk.len() - 1) as nat,
        pair.1,
        (tv.len() - 1) as nat,
    );
    assert((pair.0, pair.1) == pair);
}

/// The pairs of a hash literal that is not empty: where their tokens stand
/// behind the opening brace and a closing brace or a comma follows them,
/// the hash ends behind the last pair or goes on from the comma.
pub proof fn lemma_build_pairs(
    pairs: Seq<(ExpressionModel, ExpressionModel)>,
    ts: Seq<TokenModel>,
    q: nat,
)
    requires
        forall|i: int|
            0 <= i < pairs.len() ==> parses_back((#[trigger] pairs[i]).0) && parses_back(
                pairs[i].1,
            ),
        pairs.len() >= 1,
        stands(ts, q + 1, pairs_tokens(pairs)),
        q + 1 + pairs_tokens(pairs).len() < ts.len(),
        ts[(q + 1 + pairs_tokens(pairs).len()) as int] is RBrace || ts[(q + 1 + pairs_tokens(
            pairs,
        ).len()) as int] is Comma,
    ensures
        ts[(q + 1 + pairs_tokens(pairs).len()) as int] is RBrace ==> pairs_at(
            ts,
            q,
            Seq::empty(),
        ) == (
            Ok::<Seq<(ExpressionModel, ExpressionModel)>, Seq<char>>(pairs),
            (pairs_tokens(pairs).len() + 1) as nat,
        ),
        ts[(q + 1 + pairs_tokens(pairs).len()) as int] is Comma ==> pairs_at(
            ts,
            q,
            Seq::empty(),
        ) == shifted(
            pairs_at(ts, q + 1 + pairs_tokens(pairs).len(), pairs),
            pairs_tokens(pairs).len() + 1,
        ),
    decreases pairs, 4nat,
{
    if pairs.len() == 1 {
        lemma_build_pair(pairs[0], ts, q, Seq::empty());
        assert(Seq::<(ExpressionModel, ExpressionModel)>::empty().push(pairs[0]) =~= pairs);
    } else {
        let head = pairs.drop_last();
        let last = pairs.last();
        let th = pairs_tokens(head);
        let tl = pair_tokens(last);
        lemma_separated_tokens(ts, q + 1, th, TokenModel::Comma, tl);
        assert forall|i: int| 0 <= i < head.len() implies parses_back((#[trigger] head[i]).0)
            && parses_back(head[i].1) by {
            assert(head[i] == pairs[i]);
        }
        lemma_build_pairs(head, ts, q);
        lemma_build_pair(last, ts, q + 1 + th.len(), head);
        assert(head.push(last) =~= pairs);
    }
}

/// A statement that parses back: where its tokens stand at `pos` and, if it
/// is an expression, a token follows that ends it and is no semicolon, the
/// parser builds the statement and stops at its last token.
pub proof fn lemma_build_statement(statement: StatementModel, ts: Seq<TokenModel>, pos: nat)
    requires
        statement_parses_back(statement),
        stands(ts, pos, statement_tokens(statement)),
        statement is Expr ==> closes(at(ts, pos + statement_tokens(statement).len())) && !(at(
            ts,
            pos + statement_tokens(statement).len(),
        ) is Semicolon),
    ensures
        statement_tokens(statement).len() >= 1,
        statement_at(ts, pos) == (
            Ok::<StatementModel, Seq<char>>(statement),
            (statement_tokens(statement).len() - 1) as nat,
        ),
    decreases statement, 4nat,
{
    match statement {
        StatementModel::Let(name, value) => {
            let tv = expression_tokens(value);
            lemma_let_tokens(ts, pos, name, tv);
            lemma_build_closed(value, ts, pos + 3, Precdence::Lowest);
            lemma_parse_let(ts, pos, name, value, (tv.len() - 1) as nat);
        },
        StatementModel::Return(value) => {
            let tv = expression_tokens(value);
            lemma_wrapped_tokens(ts, pos, TokenModel::Return, tv, TokenModel::Semicolon);
            lemma_build_closed(value, ts, pos + 1, Precdence::Lowest);
            lemma_parse_return(ts, pos, value, (tv.len() - 1) as nat);
        },
        StatementModel::Expr(value) => {
            let tv = expression_tokens(value);
            lemma_first_token(value);
            lemma_stands_first(ts, pos, tv);
            lemma_build_closed(value, ts, pos, Precdence::Lowest);
            lemma_parse_expression_statement(ts, pos, value, (tv.len() - 1) as nat);
        },
    }
}

/// The statements of a list that parses back, but the last, parse back, the
/// last one does, and it may follow the one before it.
pub proof fn lemma_block_head(statements: Seq<StatementModel>)
    requires
        block_parses_back(statements),
        statements.len() > 0,
    ensures
        block_parses_back(statements.drop_last()),
        statement_parses_back(statements.last()),
        statements.len() > 1 ==> may_follow(statements.drop_last().last(), statements.last()),
{
    let head = statements.drop_last();
    assert forall|i: int| 0 <= i < head.len() implies statement_parses_back(
        #[trigger] head[i],
    ) by {
        assert(head[i] == statements[i]);
    }
    assert forall|i: int| 0 <= i < head.len() - 1 implies may_follow(
        #[trigger] head[i],
        head[i + 1],
    ) by {
        assert(head[i] == statements[i]);
        assert(head[i + 1] == statements[i + 1]);
    }
    if statements.len() > 1 {
        assert(head.last() == statements[statements.len() - 2]);
        assert(may_follow(statements[statements.len() - 2], statements[statements.len() - 1]));
    }
}

/// What follows the statements of a list but the last ends the statement
/// before the last: it is the first token of the last statement.
pub proof fn lemma_head_closed(statements: Seq<StatementModel>, ts: Seq<TokenModel>, pos: nat)
    requires
        block_parses_back(statements),
        statements.len() > 0,
        stands(ts, pos, statements_tokens(statements)),
    ensures
        stands(ts, pos, statements_tokens(statements.drop_last())),
        stands(
            ts,
            pos + statements_tokens(statements.drop_last()).len(),
            statement_tokens(statements.last()),
        ),
        statements_tokens(statements).len() == statements_tokens(statements.drop_last()).len()
            + statement_tokens(statements.last()).len(),
        ({
            let follower = at(ts, pos + statements_tokens(statements.drop_last()).len());
            &&& !(follower is RBrace)
            &&& !(follower is Eof)
            &&& statements.len() > 1 && statements.drop_last().last() is Expr ==> closes(follower)
                && !(follower is Semicolon)
        }),
{
    let head = statements.drop_last();
    let last = statements.last();
    let th = statements_tokens(head);
    let tl = statement_tokens(last);
    lemma_stands_two(ts, pos, th, tl);
    lemma_block_head(statements);
    lemma_statement_first_token(last);
    lemma_stands_first(ts, pos + th.len(), tl);
    lemma_statement_start_closes(statement_first_token(last));
}

/// Statements that parse back: where their tokens stand at `pos` and, if
/// the last of them is an expression, a token follows that ends it and is no
/// semicolon, a block goes on behind them, with the statements added to
/// those before.
pub proof fn lemma_build_statements(
    statements: Seq<StatementModel>,
    ts: Seq<TokenModel>,
    pos: nat,
    done: Seq<StatementModel>,
)
    requires
        block_parses_back(statements),
        stands(ts, pos, statements_tokens(statements)),
        statements.len() > 0 && statements.last() is Expr ==> closes(
            at(ts, pos + statements_tokens(statements).len()),
        ) && !(at(ts, pos + statements_tokens(statements).len()) is Semicolon),
    ensures
        block_rest_at(ts, pos, done) == shifted(
            block_rest_at(ts, pos + statements_tokens(statements).len(), done + statements),
            statements_tokens(statements).len(),
        ),
    decreases statements, 5nat,
{
    if statements.len() == 0 {
        assert(done + statements =~= done);
    } else {
        let head = statements.drop_last();
        let last = statements.last();
        let th = statements_tokens(head);
        let tl = statement_tokens(last);
        lemma_block_head(statements);
        lemma_head_closed(statements, ts, pos);
        lemma_build_statements(head, ts, pos, done);
        lemma_build_statement(last, ts, pos + th.len());
        lemma_parse_block_next(ts, pos + th.len(), done + head, last, (tl.len() - 1) as nat);
        assert((done + head).push(last) =~= done + statements);
    }
}

/// Statements that parse back: where their tokens stand at `pos` and, if
/// the last of them is an expression, a token follows that ends it and is no
/// semicolon, a program goes on behind them, with the statements added to
/// those before.
pub proof fn lemma_build_program(
    statements: Seq<StatementModel>,
    ts: Seq<TokenModel>,
    pos: nat,
    done: Seq<StatementModel>,
)
    requires
        block_parses_back(statements),
        stands(ts, pos, statements_tokens(statements)),
        statements.len() > 0 && statements.last() is Expr ==> closes(
            at(ts, pos + statements_tokens(statements).len()),
        ) && !(at(ts, pos + statements_tokens(statements).len()) is Semicolon),
    ensures
        program_rest_at(ts, pos, done) == program_rest_at(ts,
            pos + statements_tokens(statements).len(),
            done + statements),
    decreases statements, 5nat,
{
    if statements.len() == 0 {
        assert(done + statements =~= done);
    } else {
        let head = statements.drop_last();
        let last = statements.last();
        let th = statements_tokens(head);
        let tl = statement_tokens(last);
        lemma_block_head(statements);
        lemma_head_closed(statements, ts, pos);
        lemma_build_program(head, ts, pos, done);
        lemma_build_statement(last, ts, pos + th.len());
        lemma_parse_program_next(ts, pos + th.len(), done + head, last, (tl.len() - 1) as nat);
        assert((done + head).push(last) =~= done + statements);
    }
}

/// A block that parses back: where its tokens stand at `q`, they start and
/// end with a brace, and the parser builds the statements from the opening
/// brace and stops at the closing one.
pub proof fn lemma_build_block(statements: Seq<StatementModel>, ts: Seq<TokenModel>, q: nat)
    requires
        block_parses_back(statements),
        stands(ts, q, block_tokens(statements)),
    ensures
        q + 1 + statements_tokens(statements).len() < ts.len(),
        ts[q as int] == TokenModel::LBrace,
        block_at(ts, q) == (
            Ok::<Seq<StatementModel>, Seq<char>>(statements),
            (statements_tokens(statements).len() + 1) as nat,
        ),
    decreases statements, 6nat,
{
    let inner = statements_tokens(statements);
    lemma_wrapped_tokens(ts, q, TokenModel::LBrace, inner, TokenModel::RBrace);
    lemma_build_statements(statements, ts, q + 1, Seq::empty());
    lemma_parse_block_end(ts, q + 1 + inner.len(), statements);
    assert(Seq::<StatementModel>::empty() + statements =~= statements);
    lemma_parse_block(ts, q, statements, inner.len());
}

} // verus!

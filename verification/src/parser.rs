//! The parser: builds the syntax tree of a program from its tokens by
//! top-down operator-precedence parsing.

pub mod ast;
pub mod error;
pub mod precedence;
pub mod round_trip;
pub mod syntax;

use vstd::prelude::*;
use crate::lexer::{literals_fit, tokens_of, Lexer};
use crate::parser::ast::{
    expressions_model, lemma_expressions_model_push, lemma_models_of_empty,
    lemma_names_model_push,
    lemma_pairs_model_push, lemma_statements_model_push, names_model, pairs_model,
    statements_model, BlockStatement, Expression, ExpressionModel, Literal, LiteralModel, Node,
    NodeModel,
    Statement, StatementModel,
};
use crate::parser::error::ParserError;
use crate::parser::precedence::{precedence_of, token_precedence, Precdence};
use crate::parser::syntax::{aggregate_message, current, lines_text, parse_text, peek, remaining};
use crate::text::push_decimal;
use crate::token::{token_text, Token, TokenModel};

verus! {

/// The outcome of parsing an expression, as a model.
pub open spec fn expression_outcome(r: Result<Expression, ParserError>) -> Result<
    ExpressionModel,
    Seq<char>,
> {
    match r {
        Ok(expression) => Ok(expression@),
        Err(error) => Err(error@),
    }
}

/// The outcome of parsing a statement, as a model.
pub open spec fn statement_outcome(r: Result<Statement, ParserError>) -> Result<
    StatementModel,
    Seq<char>,
> {
    match r {
        Ok(statement) => Ok(statement@),
        Err(error) => Err(error@),
    }
}

/// The outcome of parsing a list of statements, as a model.
pub open spec fn statements_outcome(r: Result<Vec<Statement>, ParserError>) -> Result<
    Seq<StatementModel>,
    Seq<char>,
> {
    match r {
        Ok(statements) => Ok(statements_model(statements@)),
        Err(error) => Err(error@),
    }
}

/// The outcome of parsing a list of expressions, as a model.
pub open spec fn expressions_outcome(r: Result<Vec<Expression>, ParserError>) -> Result<
    Seq<ExpressionModel>,
    Seq<char>,
> {
    match r {
        Ok(expressions) => Ok(expressions_model(expressions@)),
        Err(error) => Err(error@),
    }
}

/// The outcome of parsing a pair of a hash literal, as a model.
pub open spec fn pair_outcome(r: Result<(Expression, Expression), ParserError>) -> Result<
    (ExpressionModel, ExpressionModel),
    Seq<char>,
> {
    match r {
        Ok(pair) => Ok((pair.0@, pair.1@)),
        Err(error) => Err(error@),
    }
}

/// The outcome of parsing a list of names, as a model.
pub open spec fn names_outcome(r: Result<Vec<String>, ParserError>) -> Result<
    Seq<Seq<char>>,
    Seq<char>,
> {
    match r {
        Ok(names) => Ok(names_model(names@)),
        Err(error) => Err(error@),
    }
}

/// The outcome of parsing a program, as a model.
pub open spec fn node_outcome(r: Result<Node, ParserError>) -> Result<NodeModel, Seq<char>> {
    match r {
        Ok(node) => Ok(node@),
        Err(error) => Err(error@),
    }
}

/// The outcome of a step that yields nothing, as a model.
pub open spec fn unit_outcome(r: Result<(), ParserError>) -> Result<(), Seq<char>> {
    match r {
        Ok(_) => Ok(()),
        Err(error) => Err(error@),
    }
}

/// The messages of a list of errors.
pub open spec fn messages(errors: Seq<ParserError>) -> Seq<Seq<char>> {
    Seq::new(errors.len(), |i: int| errors[i]@)
}

/// Whether two parses, one from `pa` and one from `pb`, have the same result
/// and stop at the same token.
pub open spec fn same_parse<R>(a: (R, nat), pa: nat, b: (R, nat), pb: nat) -> bool {
    a.0 == b.0 && pa + a.1 == pb + b.1
}

/// The literal of an integer.
fn integer_literal(value: i64) -> (literal: Literal)
    ensures
        literal@ == LiteralModel::Integer(value as int),
{
    Literal::Integer(value)
}

/// The literal of a boolean.
fn boolean_literal(value: bool) -> (literal: Literal)
    ensures
        literal@ == LiteralModel::Boolean(value),
{
    Literal::Boolean(value)
}

/// The literal of a string.
fn string_literal(value: String) -> (literal: Literal)
    ensures
        literal@ == LiteralModel::String(value@),
{
    Literal::String(value)
}

/// The literal of an array with the given elements.
fn array_literal(elements: Vec<Expression>) -> (literal: Literal)
    ensures
        literal@ == LiteralModel::Array(expressions_model(elements@)),
{
    Literal::Array(elements)
}

/// The literal of a hash with the given pairs.
fn hash_literal(pairs: Vec<(Expression, Expression)>) -> (literal: Literal)
    ensures
        literal@ == LiteralModel::Hash(pairs_model(pairs@)),
{
    Literal::Hash(pairs)
}

/// An error whose message is `prefix` followed by the text of `found`.
fn token_error(prefix: &str, found: &Token) -> (error: ParserError)
    ensures
        error@ == prefix@ + token_text(found@),
{
    let mut message = String::from_str(prefix);
    found.write_to(&mut message);
    ParserError::new(message)
}

/// An error whose message is `message`.
fn plain_error(message: &str) -> (error: ParserError)
    ensures
        error@ == message@,
{
    ParserError::new(String::from_str(message))
}

/// Parses a source text into a program.
///
/// The text's integer literals must fit in 64 bits; `literals_in_range`
/// tests that.
pub fn parse(input: &str) -> (r: Result<Node, ParserError>)
    requires
        literals_fit(tokens_of(input@)),
    ensures
        node_outcome(r) == parse_text(input@),
{
    let lexer = Lexer::new(input);
    let mut parser = Parser::new(lexer);
    match parser.parse_program() {
        Ok(program) => Ok(Node::Program(program)),
        Err(error) => Err(error),
    }
}

/// A parser over the tokens of a lexer. It holds the current token and the
/// one behind it, the peek token.
pub struct Parser {
    /// The lexer that the tokens come from.
    lexer: Lexer,
    /// The current token.
    current_token: Token,
    /// The token behind the current one.
    peek_token: Token,
    /// The errors of the statements that failed to parse.
    errors: Vec<ParserError>,
    /// All the tokens that the lexer held when the parser was made.
    tokens: Ghost<Seq<TokenModel>>,
    /// The index of the current token among them.
    position: Ghost<nat>,
}

impl Parser {
    /// The tokens that the parser works on.
    pub closed spec fn tokens(&self) -> Seq<TokenModel> {
        self.tokens@
    }

    /// The position of the current token among them.
    pub closed spec fn pos(&self) -> nat {
        self.position@
    }

    /// The messages of the errors collected so far.
    pub closed spec fn errors(&self) -> Seq<Seq<char>> {
        messages(self.errors@)
    }

    /// The current and the peek token are those at the parser's position, and
    /// the lexer holds what follows them.
    pub closed spec fn wf(&self) -> bool {
        &&& self.lexer.wf()
        &&& literals_fit(self.lexer@)
        &&& self.current_token@ == current(self.tokens@, self.position@)
        &&& self.peek_token@ == peek(self.tokens@, self.position@)
        &&& self.lexer@ == if self.position@ + 2 <= self.tokens@.len() {
            self.tokens@.skip((self.position@ + 2) as int)
        } else {
            Seq::empty()
        }
    }

    /// `self` is `before` moved forward by `n` tokens, with nothing else
    /// changed.
    pub open spec fn advanced(self, before: Parser, n: nat) -> bool {
        &&& self.wf()
        &&& self.tokens() == before.tokens()
        &&& self.pos() == before.pos() + n
        &&& self.errors() == before.errors()
    }

    /// A parser at the first token of `lexer`.
    pub fn new(lexer: Lexer) -> (parser: Parser)
        requires
            lexer.wf(),
            literals_fit(lexer@),
        ensures
            parser.wf(),
            parser.tokens() == lexer@,
            parser.pos() == 0,
            parser.errors() == Seq::<Seq<char>>::empty(),
    {
        let ghost tokens = lexer@;
        let mut lexer = lexer;
        let current_token = lexer.next_token();
        proof {
            assert(literals_fit(lexer@)) by {
                assert forall|i: int| 0 <= i < lexer@.len() implies crate::lexer::literal_fits(
                    #[trigger] lexer@[i],
                ) by {
                    assert(lexer@[i] == tokens[i + 1]);
                }
            }
        }
        let ghost middle = lexer@;
        let peek_token = lexer.next_token();
        proof {
            assert(literals_fit(lexer@)) by {
                assert forall|i: int| 0 <= i < lexer@.len() implies crate::lexer::literal_fits(
                    #[trigger] lexer@[i],
                ) by {
                    assert(lexer@[i] == middle[i + 1]);
                }
            }
            if tokens.len() >= 2 {
                assert(lexer@ =~= tokens.skip(2));
            } else {
                assert(lexer@ =~= Seq::<TokenModel>::empty());
            }
        }
        let parser = Parser {
            lexer,
            current_token,
            peek_token,
            errors: Vec::new(),
            tokens: Ghost(tokens),
            position: Ghost(0),
        };
        assert(parser.errors() =~= Seq::<Seq<char>>::empty());
        parser
    }

    /// Makes the peek token the current one and reads the next peek token.
    fn next_token(&mut self)
        requires
            old(self).wf(),
        ensures
            final(self).advanced(*old(self), 1),
    {
        let ghost before = self.lexer@;
        let mut next = self.lexer.next_token();
        core::mem::swap(&mut self.peek_token, &mut next);
        self.current_token = next;
        self.position = Ghost(self.position@ + 1);
        proof {
            assert(literals_fit(self.lexer@)) by {
                assert forall|i: int| 0 <= i < self.lexer@.len() implies crate::lexer::literal_fits(
                    #[trigger] self.lexer@[i],
                ) by {
                    assert(self.lexer@[i] == before[i + 1]);
                }
            }
            if self.position@ + 2 <= self.tokens@.len() {
                assert(self.lexer@ =~= self.tokens@.skip((self.position@ + 2) as int));
            } else {
                assert(self.lexer@ =~= Seq::<TokenModel>::empty());
            }
        }
    }

    /// Whether the current token is `t`.
    fn current_token_is(&self, t: &Token) -> (r: bool)
        requires
            self.wf(),
        ensures
            r == (current(self.tokens(), self.pos()) == t@),
    {
        self.current_token.same(t)
    }

    /// Whether the peek token is `t`.
    fn peek_token_is(&self, t: &Token) -> (r: bool)
        requires
            self.wf(),
        ensures
            r == (peek(self.tokens(), self.pos()) == t@),
    {
        self.peek_token.same(t)
    }

    /// Moves to the peek token if it is `t`, and fails otherwise.
    fn expect_peek_token(&mut self, t: &Token) -> (r: Result<(), ParserError>)
        requires
            old(self).wf(),
        ensures
            unit_outcome(r) == syntax::expect_peek_token(
                old(self).tokens(),
                old(self).pos(),
                t@,
            ).0,
            final(self).advanced(
                *old(self),
                syntax::expect_peek_token(old(self).tokens(), old(self).pos(), t@).1,
            ),
    {
        if self.peek_token_is(t) {
            self.next_token();
            Ok(())
        } else {
            let mut message = String::from_str("Expected next token to be ");
            t.write_to(&mut message);
            message.append(", received ");
            self.peek_token.write_to(&mut message);
            Err(ParserError::new(message))
        }
    }

    /// The precedence of the peek token.
    fn peek_precedence(&self) -> (precedence: Precdence)
        requires
            self.wf(),
        ensures
            precedence == precedence_of(peek(self.tokens(), self.pos())),
    {
        token_precedence(&self.peek_token)
    }

    /// The precedence of the current token.
    fn curr_precedence(&self) -> (precedence: Precdence)
        requires
            self.wf(),
        ensures
            precedence == precedence_of(current(self.tokens(), self.pos())),
    {
        token_precedence(&self.current_token)
    }

    /// Steps over a semicolon if one is the peek token.
    fn skip_semicolon(&mut self)
        requires
            old(self).wf(),
        ensures
            final(self).advanced(
                *old(self),
                syntax::skip_semicolon(old(self).tokens(), old(self).pos()),
            ),
    {
        if self.peek_token_is(&Token::Semicolon) {
            self.next_token();
        }
    }

    /// Parses the statement that starts at the current token.
    fn parse_statement(&mut self) -> (r: Result<Statement, ParserError>)
        requires
            old(self).wf(),
        ensures
            statement_outcome(r) == syntax::parse_statement(old(self).tokens(), old(self).pos()).0,
            final(self).advanced(
                *old(self),
                syntax::parse_statement(old(self).tokens(), old(self).pos()).1,
            ),
        decreases remaining(old(self).tokens(), old(self).pos()), 8nat,
    {
        match &self.current_token {
            Token::Let => self.parse_let_statement(),
            Token::Return => self.parse_return_statement(),
            _ => self.parse_expression_statement(),
        }
    }

    /// Parses a `let` statement.
    fn parse_let_statement(&mut self) -> (r: Result<Statement, ParserError>)
        requires
            old(self).wf(),
        ensures
            statement_outcome(r) == syntax::parse_let_statement(
                old(self).tokens(),
                old(self).pos(),
            ).0,
            final(self).advanced(
                *old(self),
                syntax::parse_let_statement(old(self).tokens(), old(self).pos()).1,
            ),
        decreases remaining(old(self).tokens(), old(self).pos()), 7nat,
    {
        if !self.current_token_is(&Token::Let) {
            return Err(token_error("Expected 'let' token, got ", &self.current_token));
        }
        let ident = match &self.peek_token {
            Token::Ident(ident) => ident.clone(),
            _ => {
                return Err(plain_error("Expected identifier after 'let'"));
            },
        };
        // consume the identifier
        self.next_token();
        match self.expect_peek_token(&Token::Assign) {
            Err(error) => {
                return Err(error);
            },
            Ok(_) => {},
        }
        self.next_token();
        let expr = match self.parse_expression(Precdence::Lowest) {
            Ok(expr) => expr,
            Err(error) => {
                return Err(error);
            },
        };
        self.skip_semicolon();
        Ok(Statement::Let(ident, expr))
    }

    /// Parses a `return` statement.
    fn parse_return_statement(&mut self) -> (r: Result<Statement, ParserError>)
        requires
            old(self).wf(),
        ensures
            statement_outcome(r) == syntax::parse_return_statement(
                old(self).tokens(),
                old(self).pos(),
            ).0,
            final(self).advanced(
                *old(self),
                syntax::parse_return_statement(old(self).tokens(), old(self).pos()).1,
            ),
        decreases remaining(old(self).tokens(), old(self).pos()), 7nat,
    {
        if !self.current_token_is(&Token::Return) {
            return Err(token_error("Expected 'return' token, got ", &self.current_token));
        }
        // consume the `return`
        self.next_token();
        let expr = match self.parse_expression(Precdence::Lowest) {
            Ok(expr) => expr,
            Err(error) => {
                return Err(error);
            },
        };
        self.skip_semicolon();
        Ok(Statement::Return(expr))
    }

    /// Parses an expression that stands as a statement.
    fn parse_expression_statement(&mut self) -> (r: Result<Statement, ParserError>)
        requires
            old(self).wf(),
        ensures
            statement_outcome(r) == syntax::parse_expression_statement(
                old(self).tokens(),
                old(self).pos(),
            ).0,
            final(self).advanced(
                *old(self),
                syntax::parse_expression_statement(old(self).tokens(), old(self).pos()).1,
            ),
        decreases remaining(old(self).tokens(), old(self).pos()), 7nat,
    {
        let expr = match self.parse_expression(Precdence::Lowest) {
            Ok(expr) => expr,
            Err(error) => {
                return Err(error);
            },
        };
        // the semicolon is optional, so that `5 + 5` alone is a statement
        self.skip_semicolon();
        Ok(Statement::Expr(expr))
    }

    /// Parses the tokens into the statements of a program. Every statement
    /// that fails adds its error to the parser's; if there is any error at the
    /// end, the result is one error that joins them all.
    pub fn parse_program(&mut self) -> (r: Result<Vec<Statement>, ParserError>)
        requires
            old(self).wf(),
        ensures
            final(self).wf(),
            final(self).tokens() == old(self).tokens(),
            statements_outcome(r) == syntax::parse_program(
                old(self).tokens(),
                old(self).pos(),
                Seq::empty(),
                old(self).errors(),
            ).0,
            final(self).pos() == old(self).pos() + syntax::parse_program(
                old(self).tokens(),
                old(self).pos(),
                Seq::empty(),
                old(self).errors(),
            ).1,
            final(self).errors() == syntax::parse_program(
                old(self).tokens(),
                old(self).pos(),
                Seq::empty(),
                old(self).errors(),
            ).2,
    {
        let mut statements: Vec<Statement> = Vec::new();
        let ghost ts = self.tokens();
        let ghost start = self.pos();
        let ghost whole = syntax::parse_program(ts, start, Seq::empty(), self.errors());
        proof {
            lemma_models_of_empty();
        }
        while !self.current_token_is(&Token::Eof)
            invariant
                self.wf(),
                self.tokens() == ts,
                ts == old(self).tokens(),
                start == old(self).pos(),
                self.pos() >= start,
                ({
                    let here = syntax::parse_program(
                        ts,
                        self.pos(),
                        statements_model(statements@),
                        self.errors(),
                    );
                    &&& here.0 == whole.0
                    &&& self.pos() + here.1 == start + whole.1
                    &&& here.2 == whole.2
                }),
            decreases remaining(ts, self.pos()),
        {
            let ghost done = statements@;
            let ghost failed = self.errors@;
            match self.parse_statement() {
                Ok(stmt) => {
                    proof {
                        lemma_statements_model_push(done, stmt);
                    }
                    statements.push(stmt);
                },
                Err(err) => {
                    self.errors.push(err);
                    assert(messages(self.errors@) =~= messages(failed).push(err@));
                },
            }
            // advance tokens
            self.next_token();
        }
        // return one error for all the errors met
        if self.errors.len() > 0 {
            let mut message = String::from_str("Encountered ");
            push_decimal(&mut message, self.errors.len() as u64);
            message.append(" error(s) while parsing:\n");
            let ghost head = message@;
            let ghost lines = messages(self.errors@);
            let mut i: usize = 0;
            while i < self.errors.len()
                invariant
                    i <= self.errors.len(),
                    lines == messages(self.errors@),
                    message@ == head + lines_text(lines.take(i as int)),
                decreases self.errors.len() - i,
            {
                if i > 0 {
                    message.append("\n");
                }
                let line = self.errors[i].to_string();
                message.append(line.as_str());
                proof {
                    assert(lines.take(i + 1).drop_last() =~= lines.take(i as int));
                    assert(message@ =~= head + lines_text(lines.take(i + 1)));
                }
                i += 1;
            }
            assert(lines.take(self.errors.len() as int) =~= lines);
            assert(message@ =~= aggregate_message(lines));
            return Err(ParserError::new(message));
        }
        Ok(statements)
    }

    /// Parses the current token as a name.
    fn parse_identifier(&self) -> (r: Result<Expression, ParserError>)
        requires
            self.wf(),
        ensures
            expression_outcome(r) == syntax::parse_identifier(self.tokens(), self.pos()),
    {
        match &self.current_token {
            Token::Ident(ident) => Ok(Expression::Identifier(ident.clone())),
            _ => Err(plain_error("Expected identifier")),
        }
    }

    /// Parses the current token as an integer literal.
    fn parse_integer_literal(&self) -> (r: Result<Expression, ParserError>)
        requires
            self.wf(),
        ensures
            expression_outcome(r) == syntax::parse_integer_literal(self.tokens(), self.pos()),
    {
        match &self.current_token {
            Token::Int(value) => Ok(Expression::Lit(integer_literal(*value))),
            _ => Err(plain_error("Expected integer")),
        }
    }

    /// Parses the current token as a boolean literal.
    fn parse_boolean(&self) -> (r: Result<Expression, ParserError>)
        requires
            self.wf(),
        ensures
            expression_outcome(r) == syntax::parse_boolean(self.tokens(), self.pos()),
    {
        match &self.current_token {
            Token::True => Ok(Expression::Lit(boolean_literal(true))),
            Token::False => Ok(Expression::Lit(boolean_literal(false))),
            _ => Err(plain_error("Expected boolean")),
        }
    }

    /// Parses the current token as a string literal.
    fn parse_string_literal(&self) -> (r: Result<Expression, ParserError>)
        requires
            self.wf(),
        ensures
            expression_outcome(r) == syntax::parse_string_literal(self.tokens(), self.pos()),
    {
        match &self.current_token {
            Token::String(value) => Ok(Expression::Lit(string_literal(value.clone()))),
            _ => Err(plain_error("expected string literal")),
        }
    }

    /// Parses an expression in parentheses, from the opening parenthesis.
    fn parse_grouped_expression(&mut self) -> (r: Result<Expression, ParserError>)
        requires
            old(self).wf(),
            old(self).pos() < old(self).tokens().len(),
        ensures
            expression_outcome(r) == syntax::parse_grouped_expression(
                old(self).tokens(),
                old(self).pos(),
            ).0,
            final(self).advanced(
                *old(self),
                syntax::parse_grouped_expression(old(self).tokens(), old(self).pos()).1,
            ),
        decreases remaining(old(self).tokens(), old(self).pos()), 4nat,
    {
        // advance past the opening parenthesis
        self.next_token();
        let expr = match self.parse_expression(Precdence::Lowest) {
            Ok(expr) => expr,
            Err(error) => {
                return Err(error);
            },
        };
        match self.expect_peek_token(&Token::RParen) {
            Err(error) => Err(error),
            Ok(_) => Ok(expr),
        }
    }

    /// Parses an `if` expression, from the `if`.
    #[verifier::rlimit(60)]
    fn parse_if_expression(&mut self) -> (r: Result<Expression, ParserError>)
        requires
            old(self).wf(),
            old(self).pos() < old(self).tokens().len(),
        ensures
            expression_outcome(r) == syntax::parse_if_expression(
                old(self).tokens(),
                old(self).pos(),
            ).0,
            final(self).advanced(
                *old(self),
                syntax::parse_if_expression(old(self).tokens(), old(self).pos()).1,
            ),
        decreases remaining(old(self).tokens(), old(self).pos()), 4nat,
    {
        match self.expect_peek_token(&Token::LParen) {
            Err(error) => {
                return Err(error);
            },
            Ok(_) => {},
        }
        self.next_token();
        // the condition
        let condition = match self.parse_expression(Precdence::Lowest) {
            Ok(expr) => expr,
            Err(error) => {
                return Err(error);
            },
        };
        match self.expect_peek_token(&Token::RParen) {
            Err(error) => {
                return Err(error);
            },
            Ok(_) => {},
        }
        // the consequence
        match self.expect_peek_token(&Token::LBrace) {
            Err(error) => {
                return Err(error);
            },
            Ok(_) => {},
        }
        let consequence = match self.parse_block_statement() {
            Ok(block) => block,
            Err(error) => {
                return Err(error);
            },
        };
        // the alternative, if there is one
        let alternative = if self.peek_token_is(&Token::Else) {
            self.next_token();
            match self.expect_peek_token(&Token::LBrace) {
                Err(error) => {
                    return Err(error);
                },
                Ok(_) => {},
            }
            match self.parse_block_statement() {
                Ok(block) => Some(block),
                Err(error) => {
                    return Err(error);
                },
            }
        } else {
            None
        };
        Ok(Expression::If(Box::new(condition), consequence, alternative))
    }

    /// Parses the statements of a block, from its opening brace. A statement
    /// that does not parse is left out; but where it stops at a character
    /// that starts no token, the block fails.
    fn parse_block_statement(&mut self) -> (r: Result<BlockStatement, ParserError>)
        requires
            old(self).wf(),
            old(self).pos() < old(self).tokens().len(),
        ensures
            statements_outcome(r) == syntax::parse_block_statement(
                old(self).tokens(),
                old(self).pos(),
            ).0,
            final(self).advanced(
                *old(self),
                syntax::parse_block_statement(old(self).tokens(), old(self).pos()).1,
            ),
        decreases remaining(old(self).tokens(), old(self).pos()), 4nat,
    {
        let ghost ts = self.tokens();
        let ghost start = self.pos();
        let ghost errors = self.errors();
        // advance past the opening brace
        self.next_token();
        let mut block_statement: Vec<Statement> = Vec::new();
        let ghost whole = syntax::parse_block_loop(ts, start + 1, Seq::empty());
        let ghost goal = syntax::parse_block_statement(ts, start);
        assert(goal == (whole.0, (1 + whole.1) as nat));
        proof {
            lemma_models_of_empty();
        }
        while !self.current_token_is(&Token::RBrace) && !self.current_token_is(&Token::Eof)
            invariant
                self.wf(),
                self.tokens() == ts,
                ts == old(self).tokens(),
                start == old(self).pos(),
                self.errors() == errors,
                errors == old(self).errors(),
                self.pos() > start,
                start < ts.len(),
                goal == syntax::parse_block_statement(old(self).tokens(), old(self).pos()),
                goal == (whole.0, (1 + whole.1) as nat),
                same_parse(
                    syntax::parse_block_loop(ts, self.pos(), statements_model(block_statement@)),
                    self.pos(),
                    whole,
                    (start + 1) as nat,
                ),
            decreases remaining(ts, self.pos()),
        {
            let ghost done = block_statement@;
            match self.parse_statement() {
                Ok(stmt) => {
                    proof {
                        lemma_statements_model_push(done, stmt);
                    }
                    block_statement.push(stmt);
                },
                Err(error) => {
                    if self.current_token_is(&Token::Illegal) {
                        return Err(error);
                    }
                },
            }
            self.next_token();
        }
        Ok(block_statement)
    }

    /// Parses a function literal, from the `fn`.
    #[verifier::rlimit(40)]
    fn parse_function_literal(&mut self) -> (r: Result<Expression, ParserError>)
        requires
            old(self).wf(),
            old(self).pos() < old(self).tokens().len(),
        ensures
            expression_outcome(r) == syntax::parse_function_literal(
                old(self).tokens(),
                old(self).pos(),
            ).0,
            final(self).advanced(
                *old(self),
                syntax::parse_function_literal(old(self).tokens(), old(self).pos()).1,
            ),
        decreases remaining(old(self).tokens(), old(self).pos()), 4nat,
    {
        match self.expect_peek_token(&Token::LParen) {
            Err(error) => {
                return Err(error);
            },
            Ok(_) => {},
        }
        let parameters = match self.parse_function_parameters() {
            Ok(parameters) => parameters,
            Err(error) => {
                return Err(error);
            },
        };
        match self.expect_peek_token(&Token::LBrace) {
            Err(error) => {
                return Err(error);
            },
            Ok(_) => {},
        }
        match self.parse_block_statement() {
            Ok(body) => Ok(Expression::Fn(parameters, body)),
            Err(error) => Err(error),
        }
    }

    /// Parses the parameters of a function literal, from the opening
    /// parenthesis up to the closing one.
    fn parse_function_parameters(&mut self) -> (r: Result<Vec<String>, ParserError>)
        requires
            old(self).wf(),
        ensures
            names_outcome(r) == syntax::parse_function_parameters(
                old(self).tokens(),
                old(self).pos(),
            ).0,
            final(self).advanced(
                *old(self),
                syntax::parse_function_parameters(old(self).tokens(), old(self).pos()).1,
            ),
    {
        let ghost ts = self.tokens();
        let ghost start = self.pos();
        let ghost errors = self.errors();
        let mut identifiers: Vec<String> = Vec::new();
        proof {
            lemma_models_of_empty();
        }
        // no parameters at all
        if self.peek_token_is(&Token::RParen) {
            self.next_token();
            return Ok(identifiers);
        }
        // advance past the opening parenthesis
        self.next_token();
        match &self.current_token {
            Token::Ident(param) => {
                proof {
                    lemma_names_model_push(identifiers@, *param);
                    assert(names_model(identifiers@).push(param@) =~= seq![param@]);
                }
                identifiers.push(param.clone());
            },
            token => {
                return Err(token_error("Expected a parameter identifer, got ", token));
            },
        }
        let ghost whole = syntax::parse_parameters_loop(ts, start + 1, names_model(identifiers@));
        let ghost goal = syntax::parse_function_parameters(ts, start);
        assert(goal == (whole.0, (1 + whole.1) as nat));
        // the parameters behind the first one
        while self.peek_token_is(&Token::Comma)
            invariant
                self.wf(),
                self.tokens() == ts,
                ts == old(self).tokens(),
                start == old(self).pos(),
                self.errors() == errors,
                errors == old(self).errors(),
                goal == syntax::parse_function_parameters(old(self).tokens(), old(self).pos()),
                goal == (whole.0, (1 + whole.1) as nat),
                self.pos() > start,
                same_parse(
                    syntax::parse_parameters_loop(ts, self.pos(), names_model(identifiers@)),
                    self.pos(),
                    whole,
                    (start + 1) as nat,
                ),
            decreases remaining(ts, self.pos()),
        {
            self.next_token();
            self.next_token();
            match &self.current_token {
                Token::Ident(param) => {
                    proof {
                        lemma_names_model_push(identifiers@, *param);
                    }
                    identifiers.push(param.clone());
                },
                token => {
                    return Err(token_error("Expected a parameter identifer, got ", token));
                },
            }
        }
        match self.expect_peek_token(&Token::RParen) {
            Err(error) => Err(error),
            Ok(_) => Ok(identifiers),
        }
    }

    /// Parses a call of `expr`, from the parenthesis that opens the arguments.
    fn parse_call_expression(&mut self, expr: Expression) -> (r: Result<Expression, ParserError>)
        requires
            old(self).wf(),
            old(self).pos() < old(self).tokens().len(),
        ensures
            expression_outcome(r) == syntax::parse_call_expression(
                old(self).tokens(),
                old(self).pos(),
                expr@,
            ).0,
            final(self).advanced(
                *old(self),
                syntax::parse_call_expression(old(self).tokens(), old(self).pos(), expr@).1,
            ),
        decreases remaining(old(self).tokens(), old(self).pos()), 4nat,
    {
        match self.parse_expression_list(&Token::RParen) {
            Ok(args) => Ok(Expression::Call(Box::new(expr), args)),
            Err(error) => Err(error),
        }
    }

    /// Parses a prefix operator, which is the current token, and its operand.
    fn parse_prefix_expression(&mut self) -> (r: Result<Expression, ParserError>)
        requires
            old(self).wf(),
            old(self).pos() < old(self).tokens().len(),
        ensures
            expression_outcome(r) == syntax::parse_prefix_expression(
                old(self).tokens(),
                old(self).pos(),
            ).0,
            final(self).advanced(
                *old(self),
                syntax::parse_prefix_expression(old(self).tokens(), old(self).pos()).1,
            ),
        decreases remaining(old(self).tokens(), old(self).pos()), 4nat,
    {
        let prefix = self.current_token.clone();
        // advance the parser
        self.next_token();
        match self.parse_expression(Precdence::Prefix) {
            Ok(expr) => Ok(Expression::Prefix(prefix, Box::new(expr))),
            Err(error) => Err(error),
        }
    }

    /// Parses a binary operator, which is the current token, and its right
    /// operand; `left` is its left operand.
    fn parse_infix_expression(&mut self, left: Expression) -> (r: Result<Expression, ParserError>)
        requires
            old(self).wf(),
            old(self).pos() < old(self).tokens().len(),
        ensures
            expression_outcome(r) == syntax::parse_infix_expression(
                old(self).tokens(),
                old(self).pos(),
                left@,
            ).0,
            final(self).advanced(
                *old(self),
                syntax::parse_infix_expression(old(self).tokens(), old(self).pos(), left@).1,
            ),
        decreases remaining(old(self).tokens(), old(self).pos()), 4nat,
    {
        let operator = self.current_token.clone();
        let precedence = self.curr_precedence();
        self.next_token();
        // the right operand
        match self.parse_expression(precedence) {
            Ok(right) => Ok(Expression::Infix(operator, Box::new(left), Box::new(right))),
            Err(error) => Err(error),
        }
    }

    /// Parses an expression by its precedence: `precedence` is the binding
    /// power of what stands on the expression's left.
    #[verifier::rlimit(60)]
    fn parse_expression(&mut self, precedence: Precdence) -> (r: Result<Expression, ParserError>)
        requires
            old(self).wf(),
        ensures
            expression_outcome(r) == syntax::parse_expression(
                old(self).tokens(),
                old(self).pos(),
                precedence,
            ).0,
            final(self).advanced(
                *old(self),
                syntax::parse_expression(old(self).tokens(), old(self).pos(), precedence).1,
            ),
        decreases remaining(old(self).tokens(), old(self).pos()), 6nat,
    {
        let ghost ts = self.tokens();
        let ghost start = self.pos();
        let ghost errors = self.errors();
        let mut left_expr = match &self.current_token {
            Token::True | Token::False => self.parse_boolean(),
            Token::Ident(_) => self.parse_identifier(),
            Token::Int(_) => self.parse_integer_literal(),
            Token::Bang | Token::Minus => self.parse_prefix_expression(),
            Token::LParen => self.parse_grouped_expression(),
            Token::If => self.parse_if_expression(),
            Token::Function => self.parse_function_literal(),
            Token::String(_) => self.parse_string_literal(),
            Token::LBracket => self.parse_array_literal(),
            Token::LBrace => self.parse_hash_literal(),
            token => Err(token_error("No prefix parse function for ", token)),
        };
        let ghost first = syntax::parse_prefix(ts, start);
        assert(expression_outcome(left_expr) == first.0);
        assert(self.pos() == start + first.1);
        let ghost whole = syntax::parse_infix_loop(ts, start + first.1, first.0, precedence);
        let ghost goal = syntax::parse_expression(ts, start, precedence);
        assert(goal == (whole.0, (first.1 + whole.1) as nat));
        // Extend the expression for as long as the next operator binds more
        // tightly than what stands on the left.
        while !self.peek_token_is(&Token::Semicolon) && precedence.weaker_than(
            &self.peek_precedence(),
        )
            invariant
                self.wf(),
                self.tokens() == ts,
                ts == old(self).tokens(),
                start == old(self).pos(),
                self.errors() == errors,
                errors == old(self).errors(),
                goal == syntax::parse_expression(
                    old(self).tokens(),
                    old(self).pos(),
                    precedence,
                ),
                goal == (whole.0, (first.1 + whole.1) as nat),
                self.pos() >= start,
                same_parse(
                    syntax::parse_infix_loop(
                        ts,
                        self.pos(),
                        expression_outcome(left_expr),
                        precedence,
                    ),
                    self.pos(),
                    whole,
                    start + first.1,
                ),
            decreases remaining(ts, self.pos()),
        {
            match &self.peek_token {
                Token::Plus
                | Token::Minus
                | Token::Slash
                | Token::Asterisk
                | Token::Eq
                | Token::NotEq
                | Token::Lt
                | Token::Gt => {
                    self.next_token();
                    match left_expr {
                        Ok(left) => {
                            left_expr = self.parse_infix_expression(left);
                        },
                        Err(error) => {
                            return Err(error);
                        },
                    }
                },
                Token::LParen => {
                    self.next_token();
                    match left_expr {
                        Ok(expr) => {
                            left_expr = self.parse_call_expression(expr);
                        },
                        Err(error) => {
                            return Err(error);
                        },
                    }
                },
                Token::LBracket => {
                    self.next_token();
                    match left_expr {
                        Ok(expr) => {
                            left_expr = self.parse_index_expresssion(expr);
                        },
                        Err(error) => {
                            return Err(error);
                        },
                    }
                },
                token => {
                    // cannot happen: no other token binds more tightly than
                    // the lowest precedence
                    proof {
                        assert(false);
                    }
                    return Err(token_error("No infix parse function for ", token));
                },
            }
        }
        left_expr
    }

    /// Parses an array literal, from its opening bracket.
    fn parse_array_literal(&mut self) -> (r: Result<Expression, ParserError>)
        requires
            old(self).wf(),
            old(self).pos() < old(self).tokens().len(),
        ensures
            expression_outcome(r) == syntax::parse_array_literal(
                old(self).tokens(),
                old(self).pos(),
            ).0,
            final(self).advanced(
                *old(self),
                syntax::parse_array_literal(old(self).tokens(), old(self).pos()).1,
            ),
        decreases remaining(old(self).tokens(), old(self).pos()), 4nat,
    {
        match self.parse_expression_list(&Token::RBracket) {
            Ok(array) => Ok(Expression::Lit(array_literal(array))),
            Err(error) => Err(error),
        }
    }

    /// Parses expressions separated by commas, up to the token `end`.
    fn parse_expression_list(&mut self, end: &Token) -> (r: Result<Vec<Expression>, ParserError>)
        requires
            old(self).wf(),
            old(self).pos() < old(self).tokens().len(),
        ensures
            expressions_outcome(r) == syntax::parse_expression_list(
                old(self).tokens(),
                old(self).pos(),
                end@,
            ).0,
            final(self).advanced(
                *old(self),
                syntax::parse_expression_list(old(self).tokens(), old(self).pos(), end@).1,
            ),
        decreases remaining(old(self).tokens(), old(self).pos()), 3nat,
    {
        let ghost ts = self.tokens();
        let ghost start = self.pos();
        let ghost errors = self.errors();
        let mut list: Vec<Expression> = Vec::new();
        proof {
            lemma_models_of_empty();
        }
        if self.peek_token_is(end) {
            self.next_token();
            return Ok(list);
        }
        self.next_token();
        match self.parse_expression(Precdence::Lowest) {
            Ok(expr) => {
                proof {
                    lemma_expressions_model_push(list@, expr);
                    assert(expressions_model(list@).push(expr@) =~= seq![expr@]);
                }
                list.push(expr);
            },
            Err(error) => {
                return Err(error);
            },
        }
        let ghost from = self.pos();
        let ghost whole = syntax::parse_list_loop(ts, from, expressions_model(list@), end@);
        let ghost goal = syntax::parse_expression_list(ts, start, end@);
        assert(goal == (whole.0, (from - start + whole.1) as nat));
        while self.peek_token_is(&Token::Comma)
            invariant
                self.wf(),
                self.tokens() == ts,
                ts == old(self).tokens(),
                start == old(self).pos(),
                self.errors() == errors,
                errors == old(self).errors(),
                from >= start,
                goal == syntax::parse_expression_list(old(self).tokens(), old(self).pos(), end@),
                goal == (whole.0, (from - start + whole.1) as nat),
                self.pos() > start,
                start < ts.len(),
                same_parse(
                    syntax::parse_list_loop(ts, self.pos(), expressions_model(list@), end@),
                    self.pos(),
                    whole,
                    from,
                ),
            decreases remaining(ts, self.pos()),
        {
            self.next_token();
            self.next_token();
            match self.parse_expression(Precdence::Lowest) {
                Ok(expr) => {
                    proof {
                        lemma_expressions_model_push(list@, expr);
                    }
                    list.push(expr);
                },
                Err(error) => {
                    return Err(error);
                },
            }
        }
        match self.expect_peek_token(end) {
            Err(error) => Err(error),
            Ok(_) => Ok(list),
        }
    }

    /// Parses an index access on `left_expr`, from the opening bracket.
    fn parse_index_expresssion(&mut self, left_expr: Expression) -> (r: Result<
        Expression,
        ParserError,
    >)
        requires
            old(self).wf(),
            old(self).pos() < old(self).tokens().len(),
        ensures
            expression_outcome(r) == syntax::parse_index_expresssion(
                old(self).tokens(),
                old(self).pos(),
                left_expr@,
            ).0,
            final(self).advanced(
                *old(self),
                syntax::parse_index_expresssion(old(self).tokens(), old(self).pos(), left_expr@).1,
            ),
        decreases remaining(old(self).tokens(), old(self).pos()), 4nat,
    {
        self.next_token();
        let index_expr = match self.parse_expression(Precdence::Lowest) {
            Ok(expr) => expr,
            Err(error) => {
                return Err(error);
            },
        };
        match self.expect_peek_token(&Token::RBracket) {
            Err(error) => Err(error),
            Ok(_) => Ok(Expression::Index(Box::new(left_expr), Box::new(index_expr))),
        }
    }

    /// Parses one pair of a hash literal, `<key>: <value>`, behind the
    /// current token.
    fn parse_hash_pair(&mut self) -> (r: Result<(Expression, Expression), ParserError>)
        requires
            old(self).wf(),
            old(self).pos() < old(self).tokens().len(),
        ensures
            pair_outcome(r) == syntax::parse_hash_pair(old(self).tokens(), old(self).pos()).0,
            final(self).advanced(
                *old(self),
                syntax::parse_hash_pair(old(self).tokens(), old(self).pos()).1,
            ),
        decreases remaining(old(self).tokens(), old(self).pos()), 2nat,
    {
        self.next_token();
        let key = match self.parse_expression(Precdence::Lowest) {
            Ok(expr) => expr,
            Err(error) => {
                return Err(error);
            },
        };
        match self.expect_peek_token(&Token::Colon) {
            Err(error) => {
                return Err(error);
            },
            Ok(_) => {},
        }
        self.next_token();
        match self.parse_expression(Precdence::Lowest) {
            Ok(value) => Ok((key, value)),
            Err(error) => Err(error),
        }
    }

    /// Parses a hash literal, from its opening brace.
    fn parse_hash_literal(&mut self) -> (r: Result<Expression, ParserError>)
        requires
            old(self).wf(),
            old(self).pos() < old(self).tokens().len(),
        ensures
            expression_outcome(r) == syntax::parse_hash_literal(
                old(self).tokens(),
                old(self).pos(),
            ).0,
            final(self).advanced(
                *old(self),
                syntax::parse_hash_literal(old(self).tokens(), old(self).pos()).1,
            ),
        decreases remaining(old(self).tokens(), old(self).pos()), 4nat,
    {
        let ghost ts = self.tokens();
        let ghost start = self.pos();
        let ghost errors = self.errors();
        let mut hash: Vec<(Expression, Expression)> = Vec::new();
        proof {
            lemma_models_of_empty();
        }
        let ghost whole = syntax::parse_hash_loop(ts, start, Seq::empty());
        let ghost goal = syntax::parse_hash_literal(ts, start);
        assert(whole.0 is Err ==> goal == (
            Err::<ExpressionModel, Seq<char>>(whole.0->Err_0),
            whole.1,
        ));
        while !self.peek_token_is(&Token::RBrace)
            invariant
                self.wf(),
                self.tokens() == ts,
                ts == old(self).tokens(),
                start == old(self).pos(),
                self.errors() == errors,
                errors == old(self).errors(),
                goal == syntax::parse_hash_literal(old(self).tokens(), old(self).pos()),
                whole.0 is Err ==> goal == (
                    Err::<ExpressionModel, Seq<char>>(whole.0->Err_0),
                    whole.1,
                ),
                start <= self.pos() < ts.len(),
                same_parse(
                    syntax::parse_hash_loop(ts, self.pos(), pairs_model(hash@)),
                    self.pos(),
                    whole,
                    start,
                ),
            decreases remaining(ts, self.pos()),
        {
            let (key, value) = match self.parse_hash_pair() {
                Ok(pair) => pair,
                Err(error) => {
                    return Err(error);
                },
            };
            proof {
                lemma_pairs_model_push(hash@, key, value);
            }
            hash.push((key, value));
            if !self.peek_token_is(&Token::RBrace) {
                match self.expect_peek_token(&Token::Comma) {
                    Err(error) => {
                        return Err(error);
                    },
                    Ok(_) => {},
                }
            }
        }
        match self.expect_peek_token(&Token::RBrace) {
            Err(error) => Err(error),
            Ok(_) => Ok(Expression::Lit(hash_literal(hash))),
        }
    }
}

} // verus!

//! The abstract syntax tree of a Monkey program, its mathematical model and
//! its canonical text.

use vstd::prelude::*;
use crate::text::{bool_text, push_bool, push_signed_decimal, signed_decimal};
use crate::token::{token_text, Token, TokenModel};

verus! {

broadcast use {vstd::std_specs::vec::group_vec_axioms, vstd::seq::group_seq_axioms};

/// A node of the tree: a whole program, one statement or one expression.
#[derive(Debug, PartialEq, Eq)]
pub enum Node {
    /// A program: a series of statements.
    Program(Vec<Statement>),
    /// A statement.
    Stmt(Statement),
    /// An expression.
    Expr(Expression),
}

/// A statement: it binds a name, returns from a function, or evaluates an
/// expression.
#[derive(Debug, PartialEq, Eq)]
pub enum Statement {
    /// `let <name> = <expression>;`
    Let(String, Expression),
    /// `return <expression>;`
    Return(Expression),
    /// An expression standing as a statement.
    Expr(Expression),
}

/// The statements between `{` and `}`.
pub type BlockStatement = Vec<Statement>;

/// An expression: it produces a value.
#[derive(Debug, PartialEq, Eq)]
pub enum Expression {
    /// A name.
    Identifier(String),
    /// A literal.
    Lit(Literal),
    /// A prefix operator and its operand.
    Prefix(Token, Box<Expression>),
    /// An infix operator with its left and right operands.
    Infix(Token, Box<Expression>, Box<Expression>),
    /// `if (<condition>) { <consequence> } else { <alternative> }`, the
    /// alternative being optional.
    If(Box<Expression>, BlockStatement, Option<BlockStatement>),
    /// `fn(<parameters>) { <body> }`
    Fn(Vec<String>, BlockStatement),
    /// `<function>(<arguments>)`
    Call(Box<Expression>, Vec<Expression>),
    /// `<collection>[<index>]`
    Index(Box<Expression>, Box<Expression>),
}

/// A literal expression.
#[derive(Debug, PartialEq, Eq)]
pub enum Literal {
    /// An integer: `5`
    Integer(i64),
    /// A boolean: `true` or `false`
    Boolean(bool),
    /// A string: `"hello"`
    String(String),
    /// An array: `[1, 2 * 2, add(3, 4)]`
    Array(Vec<Expression>),
    /// A hash: `{"one": 1, true: 2}`, its pairs in source order
    Hash(Vec<(Expression, Expression)>),
}

/// The mathematical value of a [`Node`].
pub ghost enum NodeModel {
    Program(Seq<StatementModel>),
    Stmt(StatementModel),
    Expr(ExpressionModel),
}

/// The mathematical value of a [`Statement`].
pub ghost enum StatementModel {
    Let(Seq<char>, ExpressionModel),
    Return(ExpressionModel),
    Expr(ExpressionModel),
}

/// The mathematical value of an [`Expression`].
pub ghost enum ExpressionModel {
    Identifier(Seq<char>),
    Lit(LiteralModel),
    Prefix(TokenModel, Box<ExpressionModel>),
    Infix(TokenModel, Box<ExpressionModel>, Box<ExpressionModel>),
    If(Box<ExpressionModel>, Seq<StatementModel>, Option<Seq<StatementModel>>),
    Fn(Seq<Seq<char>>, Seq<StatementModel>),
    Call(Box<ExpressionModel>, Seq<ExpressionModel>),
    Index(Box<ExpressionModel>, Box<ExpressionModel>),
}

/// The mathematical value of a [`Literal`].
pub ghost enum LiteralModel {
    Integer(int),
    Boolean(bool),
    String(Seq<char>),
    Array(Seq<ExpressionModel>),
    Hash(Seq<(ExpressionModel, ExpressionModel)>),
}

/// The model of a list of names.
pub open spec fn names_model(names: Seq<String>) -> Seq<Seq<char>> {
    Seq::new(names.len(), |i: int| names[i]@)
}

/// The model of a list of statements: the model of each, in order.
pub open spec fn statements_model(statements: Seq<Statement>) -> Seq<StatementModel>
    decreases statements,
{
    Seq::new(
        statements.len(),
        |i: int|
            if 0 <= i < statements.len() {
                statement_model(statements[i])
            } else {
                arbitrary()
            },
    )
}

/// The model of a statement.
pub open spec fn statement_model(statement: Statement) -> StatementModel
    decreases statement,
{
    match statement {
        Statement::Let(name, value) => StatementModel::Let(name@, expression_model(value)),
        Statement::Return(value) => StatementModel::Return(expression_model(value)),
        Statement::Expr(value) => StatementModel::Expr(expression_model(value)),
    }
}

/// The model of a list of expressions: the model of each, in order.
pub open spec fn expressions_model(expressions: Seq<Expression>) -> Seq<ExpressionModel>
    decreases expressions,
{
    Seq::new(
        expressions.len(),
        |i: int|
            if 0 <= i < expressions.len() {
                expression_model(expressions[i])
            } else {
                arbitrary()
            },
    )
}

/// The model of a list of key and value expressions.
pub open spec fn pairs_model(pairs: Seq<(Expression, Expression)>) -> Seq<
    (ExpressionModel, ExpressionModel),
>
    decreases pairs,
{
    Seq::new(
        pairs.len(),
        |i: int|
            if 0 <= i < pairs.len() {
                (expression_model(pairs[i].0), expression_model(pairs[i].1))
            } else {
                arbitrary()
            },
    )
}

/// The model of an expression.
pub open spec fn expression_model(expression: Expression) -> ExpressionModel
    decreases expression,
{
    match expression {
        Expression::Identifier(name) => ExpressionModel::Identifier(name@),
        Expression::Lit(literal) => ExpressionModel::Lit(literal_model(literal)),
        Expression::Prefix(operator, right) => ExpressionModel::Prefix(
            operator@,
            Box::new(expression_model(*right)),
        ),
        Expression::Infix(operator, left, right) => ExpressionModel::Infix(
            operator@,
            Box::new(expression_model(*left)),
            Box::new(expression_model(*right)),
        ),
        Expression::If(condition, consequence, alternative) => ExpressionModel::If(
            Box::new(expression_model(*condition)),
            statements_model(consequence@),
            match alternative {
                Some(block) => Some(statements_model(block@)),
                None => None,
            },
        ),
        Expression::Fn(parameters, body) => ExpressionModel::Fn(
            names_model(parameters@),
            statements_model(body@),
        ),
        Expression::Call(function, arguments) => ExpressionModel::Call(
            Box::new(expression_model(*function)),
            expressions_model(arguments@),
        ),
        Expression::Index(left, index) => ExpressionModel::Index(
            Box::new(expression_model(*left)),
            Box::new(expression_model(*index)),
        ),
    }
}

/// The model of a literal.
pub open spec fn literal_model(literal: Literal) -> LiteralModel
    decreases literal,
{
    match literal {
        Literal::Integer(value) => LiteralModel::Integer(value as int),
        Literal::Boolean(value) => LiteralModel::Boolean(value),
        Literal::String(value) => LiteralModel::String(value@),
        Literal::Array(elements) => LiteralModel::Array(expressions_model(elements@)),
        Literal::Hash(pairs) => LiteralModel::Hash(pairs_model(pairs@)),
    }
}

impl View for Statement {
    type V = StatementModel;

    open spec fn view(&self) -> StatementModel {
        statement_model(*self)
    }
}

impl View for Expression {
    type V = ExpressionModel;

    open spec fn view(&self) -> ExpressionModel {
        expression_model(*self)
    }
}

impl View for Literal {
    type V = LiteralModel;

    open spec fn view(&self) -> LiteralModel {
        literal_model(*self)
    }
}

impl View for Node {
    type V = NodeModel;

    open spec fn view(&self) -> NodeModel {
        match self {
            Node::Program(statements) => NodeModel::Program(statements_model(statements@)),
            Node::Stmt(statement) => NodeModel::Stmt(statement@),
            Node::Expr(expression) => NodeModel::Expr(expression@),
        }
    }
}

/// The model of a list with one more name is the model of the list with the
/// name's characters behind it.
pub proof fn lemma_names_model_push(names: Seq<String>, name: String)
    ensures
        names_model(names.push(name)) == names_model(names).push(name@),
{
    assert(names_model(names.push(name)) =~= names_model(names).push(name@));
}

/// The model of a list with one more statement is the model of the list with
/// the statement's model behind it.
pub proof fn lemma_statements_model_push(statements: Seq<Statement>, statement: Statement)
    ensures
        statements_model(statements.push(statement)) == statements_model(statements).push(
            statement@,
        ),
{
    assert(statements_model(statements.push(statement)) =~= statements_model(statements).push(
        statement@,
    ));
}

/// The model of a list with one more expression is the model of the list
/// with the expression's model behind it.
pub proof fn lemma_expressions_model_push(expressions: Seq<Expression>, expression: Expression)
    ensures
        expressions_model(expressions.push(expression)) == expressions_model(expressions).push(
            expression@,
        ),
{
    assert(expressions_model(expressions.push(expression)) =~= expressions_model(
        expressions,
    ).push(expression@));
}

/// The model of a list with one more pair is the model of the list with the
/// pair's models behind it.
pub proof fn lemma_pairs_model_push(pairs: Seq<(Expression, Expression)>, key: Expression, value: Expression)
    ensures
        pairs_model(pairs.push((key, value))) == pairs_model(pairs).push((key@, value@)),
{
    assert(pairs_model(pairs.push((key, value))) =~= pairs_model(pairs).push((key@, value@)));
}

/// The model of an empty list is empty.
pub proof fn lemma_models_of_empty()
    ensures
        names_model(Seq::<String>::empty()) == Seq::<Seq<char>>::empty(),
        statements_model(Seq::<Statement>::empty()) == Seq::<StatementModel>::empty(),
        expressions_model(Seq::<Expression>::empty()) == Seq::<ExpressionModel>::empty(),
        pairs_model(Seq::<(Expression, Expression)>::empty()) == Seq::<
            (ExpressionModel, ExpressionModel),
        >::empty(),
{
    assert(names_model(Seq::<String>::empty()) =~= Seq::<Seq<char>>::empty());
    assert(statements_model(Seq::<Statement>::empty()) =~= Seq::<StatementModel>::empty());
    assert(expressions_model(Seq::<Expression>::empty()) =~= Seq::<ExpressionModel>::empty());
    assert(pairs_model(Seq::<(Expression, Expression)>::empty()) =~= Seq::<
        (ExpressionModel, ExpressionModel),
    >::empty());
}

/// A copy of a list of names.
pub fn clone_names(names: &Vec<String>) -> (copy: Vec<String>)
    ensures
        names_model(copy@) == names_model(names@),
{
    let mut copy: Vec<String> = Vec::new();
    let mut i: usize = 0;
    while i < names.len()
        invariant
            i <= names.len(),
            copy@.len() == i,
            forall|j: int| 0 <= j < i ==> copy@[j]@ == names@[j]@,
        decreases names.len() - i,
    {
        copy.push(names[i].clone());
        i += 1;
    }
    assert(names_model(copy@) =~= names_model(names@));
    copy
}

/// A copy of a list of statements.
#[verifier::loop_isolation(false)]
pub fn clone_statements(statements: &Vec<Statement>) -> (copy: Vec<Statement>)
    ensures
        statements_model(copy@) == statements_model(statements@),
    decreases statements,
{
    let mut copy: Vec<Statement> = Vec::new();
    let mut i: usize = 0;
    while i < statements.len()
        invariant
            i <= statements.len(),
            copy@.len() == i,
            forall|j: int| 0 <= j < i ==> copy@[j]@ == statements@[j]@,
        decreases statements.len() - i,
    {
        copy.push(clone_statement(&statements[i]));
        i += 1;
    }
    assert(statements_model(copy@) =~= statements_model(statements@));
    copy
}

/// A copy of a statement.
pub fn clone_statement(statement: &Statement) -> (copy: Statement)
    ensures
        copy@ == statement@,
    decreases statement,
{
    match statement {
        Statement::Let(name, value) => Statement::Let(name.clone(), clone_expression(value)),
        Statement::Return(value) => Statement::Return(clone_expression(value)),
        Statement::Expr(value) => Statement::Expr(clone_expression(value)),
    }
}

/// A copy of a list of expressions.
#[verifier::loop_isolation(false)]
pub fn clone_expressions(expressions: &Vec<Expression>) -> (copy: Vec<Expression>)
    ensures
        expressions_model(copy@) == expressions_model(expressions@),
    decreases expressions,
{
    let mut copy: Vec<Expression> = Vec::new();
    let mut i: usize = 0;
    while i < expressions.len()
        invariant
            i <= expressions.len(),
            copy@.len() == i,
            forall|j: int| 0 <= j < i ==> copy@[j]@ == expressions@[j]@,
        decreases expressions.len() - i,
    {
        copy.push(clone_expression(&expressions[i]));
        i += 1;
    }
    assert(expressions_model(copy@) =~= expressions_model(expressions@));
    copy
}

/// A copy of the pairs of a hash literal.
#[verifier::loop_isolation(false)]
pub fn clone_pairs(pairs: &Vec<(Expression, Expression)>) -> (copy: Vec<(Expression, Expression)>)
    ensures
        pairs_model(copy@) == pairs_model(pairs@),
    decreases pairs,
{
    let mut copy: Vec<(Expression, Expression)> = Vec::new();
    let mut i: usize = 0;
    while i < pairs.len()
        invariant
            i <= pairs.len(),
            copy@.len() == i,
            forall|j: int|
                0 <= j < i ==> copy@[j].0@ == pairs@[j].0@ && copy@[j].1@ == pairs@[j].1@,
        decreases pairs.len() - i,
    {
        let key = clone_expression(&pairs[i].0);
        let value = clone_expression(&pairs[i].1);
        copy.push((key, value));
        i += 1;
    }
    assert(pairs_model(copy@) =~= pairs_model(pairs@));
    copy
}

/// A copy of an expression.
pub fn clone_expression(expression: &Expression) -> (copy: Expression)
    ensures
        copy@ == expression@,
    decreases expression,
{
    match expression {
        Expression::Identifier(name) => Expression::Identifier(name.clone()),
        Expression::Lit(literal) => Expression::Lit(clone_literal(literal)),
        Expression::Prefix(operator, right) => Expression::Prefix(
            operator.clone(),
            Box::new(clone_expression(right)),
        ),
        Expression::Infix(operator, left, right) => Expression::Infix(
            operator.clone(),
            Box::new(clone_expression(left)),
            Box::new(clone_expression(right)),
        ),
        Expression::If(condition, consequence, alternative) => Expression::If(
            Box::new(clone_expression(condition)),
            clone_statements(consequence),
            match alternative {
                Some(block) => Some(clone_statements(block)),
                None => None,
            },
        ),
        Expression::Fn(parameters, body) => Expression::Fn(
            clone_names(parameters),
            clone_statements(body),
        ),
        Expression::Call(function, arguments) => Expression::Call(
            Box::new(clone_expression(function)),
            clone_expressions(arguments),
        ),
        Expression::Index(left, index) => Expression::Index(
            Box::new(clone_expression(left)),
            Box::new(clone_expression(index)),
        ),
    }
}

/// A copy of a literal.
pub fn clone_literal(literal: &Literal) -> (copy: Literal)
    ensures
        copy@ == literal@,
    decreases literal,
{
    match literal {
        Literal::Integer(value) => Literal::Integer(*value),
        Literal::Boolean(value) => Literal::Boolean(*value),
        Literal::String(value) => Literal::String(value.clone()),
        Literal::Array(elements) => Literal::Array(clone_expressions(elements)),
        Literal::Hash(pairs) => Literal::Hash(clone_pairs(pairs)),
    }
}

impl Clone for Statement {
    fn clone(&self) -> (copy: Self)
        ensures
            copy@ == self@,
    {
        clone_statement(self)
    }
}

impl Clone for Expression {
    fn clone(&self) -> (copy: Self)
        ensures
            copy@ == self@,
    {
        clone_expression(self)
    }
}

impl Clone for Literal {
    fn clone(&self) -> (copy: Self)
        ensures
            copy@ == self@,
    {
        clone_literal(self)
    }
}

/// Names joined by `, `.
pub open spec fn names_text(names: Seq<Seq<char>>) -> Seq<char>
    decreases names.len(),
{
    if names.len() == 0 {
        Seq::empty()
    } else if names.len() == 1 {
        names[0]
    } else {
        names_text(names.drop_last()) + ", "@ + names.last()
    }
}

/// The text of a list of statements: the text of each, one behind the other.
pub open spec fn statements_text(statements: Seq<StatementModel>) -> Seq<char>
    decreases statements,
{
    if statements.len() == 0 {
        Seq::empty()
    } else {
        statements_text(statements.drop_last()) + statement_text(statements.last())
    }
}

/// The text of a statement.
pub open spec fn statement_text(statement: StatementModel) -> Seq<char>
    decreases statement,
{
    match statement {
        StatementModel::Let(name, value) => "let "@ + name + " = "@ + expression_text(value)
            + ";"@,
        StatementModel::Return(value) => "return "@ + expression_text(value) + ";"@,
        StatementModel::Expr(value) => expression_text(value),
    }
}

/// The text of a list of expressions, joined by `, `.
pub open spec fn expressions_text(expressions: Seq<ExpressionModel>) -> Seq<char>
    decreases expressions,
{
    if expressions.len() == 0 {
        Seq::empty()
    } else if expressions.len() == 1 {
        expression_text(expressions[0])
    } else {
        expressions_text(expressions.drop_last()) + ", "@ + expression_text(expressions.last())
    }
}

/// The text of one pair of a hash literal: `<key>: <value>`.
pub open spec fn pair_text(pair: (ExpressionModel, ExpressionModel)) -> Seq<char>
    decreases pair,
{
    expression_text(pair.0) + ": "@ + expression_text(pair.1)
}

/// The text of the pairs of a hash literal, joined by `, `.
pub open spec fn pairs_text(pairs: Seq<(ExpressionModel, ExpressionModel)>) -> Seq<char>
    decreases pairs,
{
    if pairs.len() == 0 {
        Seq::empty()
    } else if pairs.len() == 1 {
        pair_text(pairs[0])
    } else {
        pairs_text(pairs.drop_last()) + ", "@ + pair_text(pairs.last())
    }
}

/// The canonical text of an expression. Prefix, infix and index expressions
/// are written in parentheses.
pub open spec fn expression_text(expression: ExpressionModel) -> Seq<char>
    decreases expression,
{
    match expression {
        ExpressionModel::Identifier(name) => name,
        ExpressionModel::Lit(literal) => literal_text(literal),
        ExpressionModel::Prefix(operator, right) => "("@ + token_text(operator) + expression_text(
            *right,
        ) + ")"@,
        ExpressionModel::Infix(operator, left, right) => "("@ + expression_text(*left) + " "@
            + token_text(operator) + " "@ + expression_text(*right) + ")"@,
        ExpressionModel::If(condition, consequence, alternative) => {
            let head = "if "@ + expression_text(*condition) + " { "@ + statements_text(consequence)
                + " }"@;
            match alternative {
                Some(block) => head + " else { "@ + statements_text(block) + " }"@,
                None => head,
            }
        },
        ExpressionModel::Fn(parameters, body) => "fn("@ + names_text(parameters) + ") { "@
            + statements_text(body) + " }"@,
        ExpressionModel::Call(function, arguments) => expression_text(*function) + "("@
            + expressions_text(arguments) + ")"@,
        ExpressionModel::Index(left, index) => "("@ + expression_text(*left) + "["@
            + expression_text(*index) + "])"@,
    }
}

/// The canonical text of a literal. A string is written in double quotes.
pub open spec fn literal_text(literal: LiteralModel) -> Seq<char>
    decreases literal,
{
    match literal {
        LiteralModel::Integer(value) => signed_decimal(value),
        LiteralModel::Boolean(value) => bool_text(value),
        LiteralModel::String(value) => "\""@ + value + "\""@,
        LiteralModel::Array(elements) => "["@ + expressions_text(elements) + "]"@,
        LiteralModel::Hash(pairs) => "{"@ + pairs_text(pairs) + "}"@,
    }
}

/// The canonical text of a node.
pub open spec fn node_text(node: NodeModel) -> Seq<char> {
    match node {
        NodeModel::Program(statements) => statements_text(statements),
        NodeModel::Stmt(statement) => statement_text(statement),
        NodeModel::Expr(expression) => expression_text(expression),
    }
}

/// Appends `names`, joined by `, `, to `out`.
pub fn write_names(names: &Vec<String>, out: &mut String)
    ensures
        final(out)@ == old(out)@ + names_text(names_model(names@)),
{
    let ghost all = names_model(names@);
    let mut i: usize = 0;
    while i < names.len()
        invariant
            i <= names.len(),
            all == names_model(names@),
            out@ == old(out)@ + names_text(all.take(i as int)),
        decreases names.len() - i,
    {
        if i > 0 {
            out.append(", ");
        }
        out.append(names[i].as_str());
        proof {
            assert(all.take(i + 1).drop_last() =~= all.take(i as int));
            assert(out@ =~= old(out)@ + names_text(all.take(i + 1)));
        }
        i += 1;
    }
    assert(all.take(names.len() as int) =~= all);
}

/// Appends the text of `statements` to `out`.
#[verifier::loop_isolation(false)]
pub fn write_statements(statements: &Vec<Statement>, out: &mut String)
    ensures
        final(out)@ == old(out)@ + statements_text(statements_model(statements@)),
    decreases statements,
{
    let ghost all = statements_model(statements@);
    let mut i: usize = 0;
    while i < statements.len()
        invariant
            i <= statements.len(),
            out@ == old(out)@ + statements_text(all.take(i as int)),
        decreases statements.len() - i,
    {
        write_statement(&statements[i], out);
        proof {
            assert(all.take(i + 1).drop_last() =~= all.take(i as int));
            assert(out@ =~= old(out)@ + statements_text(all.take(i + 1)));
        }
        i += 1;
    }
    assert(all.take(statements.len() as int) =~= all);
}

/// Appends the text of `statement` to `out`.
pub fn write_statement(statement: &Statement, out: &mut String)
    ensures
        final(out)@ == old(out)@ + statement_text(statement@),
    decreases statement,
{
    match statement {
        Statement::Let(name, value) => {
            out.append("let ");
            out.append(name.as_str());
            out.append(" = ");
            write_expression(value, out);
            out.append(";");
            assert(final(out)@ =~= old(out)@ + statement_text(statement@));
        },
        Statement::Return(value) => {
            out.append("return ");
            write_expression(value, out);
            out.append(";");
            assert(final(out)@ =~= old(out)@ + statement_text(statement@));
        },
        Statement::Expr(value) => {
            write_expression(value, out);
        },
    }
}

/// Appends the text of `expressions`, joined by `, `, to `out`.
#[verifier::loop_isolation(false)]
pub fn write_expressions(expressions: &Vec<Expression>, out: &mut String)
    ensures
        final(out)@ == old(out)@ + expressions_text(expressions_model(expressions@)),
    decreases expressions,
{
    let ghost all = expressions_model(expressions@);
    let mut i: usize = 0;
    while i < expressions.len()
        invariant
            i <= expressions.len(),
            out@ == old(out)@ + expressions_text(all.take(i as int)),
        decreases expressions.len() - i,
    {
        if i > 0 {
            out.append(", ");
        }
        write_expression(&expressions[i], out);
        proof {
            assert(all.take(i + 1).drop_last() =~= all.take(i as int));
            assert(out@ =~= old(out)@ + expressions_text(all.take(i + 1)));
        }
        i += 1;
    }
    assert(all.take(expressions.len() as int) =~= all);
}

/// Appends the text of one pair of a hash literal, `<key>: <value>`, to
/// `out`.
pub fn write_pair(pair: &(Expression, Expression), out: &mut String)
    ensures
        final(out)@ == old(out)@ + pair_text((pair.0@, pair.1@)),
    decreases pair,
{
    write_expression(&pair.0, out);
    out.append(": ");
    write_expression(&pair.1, out);
    assert(final(out)@ =~= old(out)@ + pair_text((pair.0@, pair.1@)));
}

/// Appends the text of the pairs of a hash literal, joined by `, `, to `out`.
#[verifier::loop_isolation(false)]
pub fn write_pairs(pairs: &Vec<(Expression, Expression)>, out: &mut String)
    ensures
        final(out)@ == old(out)@ + pairs_text(pairs_model(pairs@)),
    decreases pairs,
{
    let ghost all = pairs_model(pairs@);
    let mut i: usize = 0;
    while i < pairs.len()
        invariant
            i <= pairs.len(),
            out@ == old(out)@ + pairs_text(all.take(i as int)),
        decreases pairs.len() - i,
    {
        if i > 0 {
            out.append(", ");
        }
        write_pair(&pairs[i], out);
        proof {
            assert(all.take(i + 1).drop_last() =~= all.take(i as int));
            assert(all.take(i + 1).last() == (pairs@[i as int].0@, pairs@[i as int].1@));
            assert(out@ =~= old(out)@ + pairs_text(all.take(i + 1)));
        }
        i += 1;
    }
    assert(all.take(pairs.len() as int) =~= all);
}

/// Appends the canonical text of `expression` to `out`.
pub fn write_expression(expression: &Expression, out: &mut String)
    ensures
        final(out)@ == old(out)@ + expression_text(expression@),
    decreases expression,
{
    match expression {
        Expression::Identifier(name) => {
            out.append(name.as_str());
        },
        Expression::Lit(literal) => {
            write_literal(literal, out);
        },
        Expression::Prefix(operator, right) => {
            out.append("(");
            operator.write_to(out);
            write_expression(right, out);
            out.append(")");
            assert(final(out)@ =~= old(out)@ + expression_text(expression@));
        },
        Expression::Infix(operator, left, right) => {
            out.append("(");
            write_expression(left, out);
            out.append(" ");
            operator.write_to(out);
            out.append(" ");
            write_expression(right, out);
            out.append(")");
            assert(final(out)@ =~= old(out)@ + expression_text(expression@));
        },
        Expression::If(condition, consequence, alternative) => {
            out.append("if ");
            write_expression(condition, out);
            out.append(" { ");
            write_statements(consequence, out);
            out.append(" }");
            match alternative {
                Some(block) => {
                    out.append(" else { ");
                    write_statements(block, out);
                    out.append(" }");
                },
                None => {},
            }
            assert(final(out)@ =~= old(out)@ + expression_text(expression@));
        },
        Expression::Fn(parameters, body) => {
            out.append("fn(");
            write_names(parameters, out);
            out.append(") { ");
            write_statements(body, out);
            out.append(" }");
            assert(final(out)@ =~= old(out)@ + expression_text(expression@));
        },
        Expression::Call(function, arguments) => {
            write_expression(function, out);
            out.append("(");
            write_expressions(arguments, out);
            out.append(")");
            assert(final(out)@ =~= old(out)@ + expression_text(expression@));
        },
        Expression::Index(left, index) => {
            out.append("(");
            write_expression(left, out);
            out.append("[");
            write_expression(index, out);
            out.append("])");
            assert(final(out)@ =~= old(out)@ + expression_text(expression@));
        },
    }
}

/// Appends the canonical text of `literal` to `out`.
pub fn write_literal(literal: &Literal, out: &mut String)
    ensures
        final(out)@ == old(out)@ + literal_text(literal@),
    decreases literal,
{
    match literal {
        Literal::Integer(value) => push_signed_decimal(out, *value),
        Literal::Boolean(value) => push_bool(out, *value),
        Literal::String(value) => {
            out.append("\"");
            out.append(value.as_str());
            out.append("\"");
            assert(final(out)@ =~= old(out)@ + literal_text(literal@));
        },
        Literal::Array(elements) => {
            out.append("[");
            write_expressions(elements, out);
            out.append("]");
            assert(final(out)@ =~= old(out)@ + literal_text(literal@));
        },
        Literal::Hash(pairs) => {
            out.append("{");
            write_pairs(pairs, out);
            out.append("}");
            assert(final(out)@ =~= old(out)@ + literal_text(literal@));
        },
    }
}

impl Statement {
    /// The statement's text.
    pub fn to_string(&self) -> (text: String)
        ensures
            text@ == statement_text(self@),
    {
        let mut text = String::new();
        write_statement(self, &mut text);
        assert(text@ =~= statement_text(self@));
        text
    }
}

impl Expression {
    /// The expression's canonical text.
    pub fn to_string(&self) -> (text: String)
        ensures
            text@ == expression_text(self@),
    {
        let mut text = String::new();
        write_expression(self, &mut text);
        assert(text@ =~= expression_text(self@));
        text
    }
}

impl Literal {
    /// The literal's canonical text.
    pub fn to_string(&self) -> (text: String)
        ensures
            text@ == literal_text(self@),
    {
        let mut text = String::new();
        write_literal(self, &mut text);
        assert(text@ =~= literal_text(self@));
        text
    }
}

impl Node {
    /// The node's canonical text.
    pub fn to_string(&self) -> (text: String)
        ensures
            text@ == node_text(self@),
    {
        let mut text = String::new();
        match self {
            Node::Program(statements) => write_statements(statements, &mut text),
            Node::Stmt(statement) => write_statement(statement, &mut text),
            Node::Expr(expression) => write_expression(expression, &mut text),
        }
        assert(text@ =~= node_text(self@));
        text
    }
}

/// The text of a list of statements: the text of each, one behind the other.
pub fn display_statements(stmts: &[Statement]) -> (text: String)
    ensures
        text@ == statements_text(statements_model(stmts@)),
{
    let ghost all = statements_model(stmts@);
    let mut text = String::new();
    let mut i: usize = 0;
    while i < stmts.len()
        invariant
            i <= stmts.len(),
            all == statements_model(stmts@),
            text@ == statements_text(all.take(i as int)),
        decreases stmts.len() - i,
    {
        write_statement(&stmts[i], &mut text);
        proof {
            assert(all.take(i + 1).drop_last() =~= all.take(i as int));
        }
        i += 1;
    }
    assert(all.take(stmts.len() as int) =~= all);
    text
}

/// The text of a list of expressions, joined by `, `.
pub fn display_expressions(expressions: &[Expression]) -> (text: String)
    ensures
        text@ == expressions_text(expressions_model(expressions@)),
{
    let ghost all = expressions_model(expressions@);
    let mut text = String::new();
    let mut i: usize = 0;
    while i < expressions.len()
        invariant
            i <= expressions.len(),
            all == expressions_model(expressions@),
            text@ == expressions_text(all.take(i as int)),
        decreases expressions.len() - i,
    {
        if i > 0 {
            text.append(", ");
        }
        write_expression(&expressions[i], &mut text);
        proof {
            assert(all.take(i + 1).drop_last() =~= all.take(i as int));
        }
        i += 1;
    }
    assert(all.take(expressions.len() as int) =~= all);
    text
}

} // verus!

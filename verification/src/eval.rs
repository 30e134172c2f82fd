//! The evaluator: walks the syntax tree of a program and computes its value.

pub mod builtin;
pub mod environment;
pub mod error;
pub mod facts;
pub mod object;
pub mod semantics;

use std::rc::Rc;
use vstd::prelude::*;
use crate::eval::builtin::Builtin;
use crate::eval::environment::{bind, Environment, ROOT_SCOPE};
use crate::eval::error::EvaluationError;
use crate::eval::object::{
    distinct_keys, entries_model, hash_get, hash_insert, lemma_objects_model_empty,
    lemma_objects_model_push, lemma_with_entry_distinct, object_text, objects_model, share,
    write_object, HashableObject, KeyModel, Object, ObjectModel,
};
use crate::eval::semantics::{bind_parameters, truncated_quotient, unknown_infix, wrap64};
use crate::parser::ast::{
    clone_names, clone_statements, expressions_model, names_model, pairs_model, statements_model,
    Expression, Literal, LiteralModel, Node, Statement,
};
use crate::text::{push_decimal, push_signed_decimal, same_text, signed_decimal};
use crate::token::Token;

verus! {

broadcast use {vstd::std_specs::vec::group_vec_axioms, vstd::seq::group_seq_axioms};

/// The outcome of an evaluation, as a model.
pub open spec fn outcome(r: Result<Rc<Object>, EvaluationError>) -> Result<ObjectModel, Seq<char>> {
    match r {
        Ok(object) => Ok(object@),
        Err(error) => Err(error@),
    }
}

/// The outcome of evaluating a list of expressions, as a model.
pub open spec fn objects_outcome(r: Result<Vec<Rc<Object>>, EvaluationError>) -> Result<
    Seq<ObjectModel>,
    Seq<char>,
> {
    match r {
        Ok(objects) => Ok(objects_model(objects@)),
        Err(error) => Err(error@),
    }
}

/// The outcome of evaluating a hash literal, as a model.
pub open spec fn entries_outcome(
    r: Result<Vec<(HashableObject, Rc<Object>)>, EvaluationError>,
) -> Result<Seq<(KeyModel, ObjectModel)>, Seq<char>> {
    match r {
        Ok(entries) => Ok(entries_model(entries@)),
        Err(error) => Err(error@),
    }
}

/// An error whose message is `prefix` followed by the text of `object`.
fn object_error(prefix: &str, object: &Object) -> (error: EvaluationError)
    ensures
        error@ == prefix@ + object_text(object@),
{
    let mut message = String::from_str(prefix);
    write_object(object, &mut message);
    EvaluationError::new(message)
}

/// An error whose message is `message`.
fn plain_error(message: &str) -> (error: EvaluationError)
    ensures
        error@ == message@,
{
    EvaluationError::new(String::from_str(message))
}

/// The error of a binary operator that its operands do not have.
fn unknown_infix_error(left: &str, operator: &Token, right: &str) -> (error: EvaluationError)
    ensures
        error@ == unknown_infix(left@, operator@, right@),
{
    let mut message = String::from_str("unknown operator: ");
    message.append(left);
    message.append(" ");
    operator.write_to(&mut message);
    message.append(" ");
    message.append(right);
    EvaluationError::new(message)
}

/// The decimal numeral of an integer.
fn integer_text(value: i64) -> (text: String)
    ensures
        text@ == signed_decimal(value as int),
{
    let mut text = String::new();
    push_signed_decimal(&mut text, value);
    assert(text@ =~= signed_decimal(value as int));
    text
}

/// The text of a boolean.
fn boolean_text(value: bool) -> (text: &'static str)
    ensures
        text@ == crate::text::bool_text(value),
{
    if value {
        "true"
    } else {
        "false"
    }
}

/// Whether two values are of the same kind.
fn same_kind(left: &Object, right: &Object) -> (same: bool)
    ensures
        same == semantics::same_kind(left@, right@),
{
    match (left, right) {
        (Object::Integer(_), Object::Integer(_)) => true,
        (Object::Boolean(_), Object::Boolean(_)) => true,
        (Object::String(_), Object::String(_)) => true,
        (Object::Null, Object::Null) => true,
        (Object::ReturnValue(_), Object::ReturnValue(_)) => true,
        (Object::Function(_, _, _), Object::Function(_, _, _)) => true,
        (Object::Builtin(_), Object::Builtin(_)) => true,
        (Object::Array(_), Object::Array(_)) => true,
        (Object::Hash(_), Object::Hash(_)) => true,
        _ => false,
    }
}

/// Evaluates a node in the root scope of `env`, with calls nesting as deep
/// as `env` allows. Bindings that the node makes stay in `env`, and so does
/// what it prints.
pub fn eval(node: Node, env: &mut Environment) -> (r: Result<Rc<Object>, EvaluationError>)
    requires
        old(env).wf(),
    ensures
        final(env).wf(),
        (outcome(r), final(env)@) == semantics::eval(node@, old(env)@),
{
    let depth = env.call_depth();
    match node {
        Node::Program(program) => eval_program(program.as_slice(), env, ROOT_SCOPE, depth),
        Node::Stmt(statement) => eval_statement(&statement, env, ROOT_SCOPE, depth),
        Node::Expr(expression) => eval_expression(&expression, env, ROOT_SCOPE, depth),
    }
}

/// Whether a value counts as true: every value does but `false` and `null`.
pub fn is_truthy(object: &Object) -> (truthy: bool)
    ensures
        truthy == semantics::is_truthy(object@),
{
    match object {
        Object::Boolean(false) => false,
        Object::Null => false,
        _ => true,
    }
}

/// Evaluates an expression in the scope `scope`, with calls nesting at most
/// `depth` deep.
#[verifier::rlimit(60)]
pub fn eval_expression(expression: &Expression, env: &mut Environment, scope: usize, depth: usize)
    -> (r: Result<Rc<Object>, EvaluationError>)
    requires
        old(env).wf(),
    ensures
        final(env).wf(),
        (outcome(r), final(env)@) == semantics::eval_expression(
            expression@,
            old(env)@,
            scope as nat,
            depth as nat,
        ),
    decreases depth, 1nat, expression, 0nat,
{
    match expression {
        Expression::Identifier(ident) => eval_identifier(ident.as_str(), env, scope),
        Expression::Lit(literal) => {
            match literal {
                Literal::Integer(value) => {
                    assert(literal@ == LiteralModel::Integer(*value as int));
                    Ok(Rc::new(Object::Integer(*value)))
                },
                Literal::Boolean(value) => {
                    assert(literal@ == LiteralModel::Boolean(*value));
                    Ok(Rc::new(Object::Boolean(*value)))
                },
                Literal::String(value) => {
                    assert(literal@ == LiteralModel::String(value@));
                    Ok(Rc::new(Object::String(value.clone())))
                },
                Literal::Array(arr) => {
                    assert(literal@ == LiteralModel::Array(expressions_model(arr@)));
                    match eval_expressions(arr.as_slice(), env, scope, depth) {
                        Ok(list) => Ok(Rc::new(Object::Array(list))),
                        Err(error) => Err(error),
                    }
                },
                Literal::Hash(entries) => {
                    assert(literal@ == LiteralModel::Hash(pairs_model(entries@)));
                    match eval_hash_literal(entries.as_slice(), env, scope, depth) {
                        Ok(hash) => Ok(Rc::new(Object::Hash(hash))),
                        Err(error) => Err(error),
                    }
                },
            }
        },
        Expression::Prefix(operator, expression) => {
            match eval_expression(expression, env, scope, depth) {
                Ok(right) => eval_prefix_expression(operator, &right),
                Err(error) => Err(error),
            }
        },
        Expression::Infix(operator, left, right) => {
            let left = match eval_expression(left, env, scope, depth) {
                Ok(left) => left,
                Err(error) => {
                    return Err(error);
                },
            };
            let right = match eval_expression(right, env, scope, depth) {
                Ok(right) => right,
                Err(error) => {
                    return Err(error);
                },
            };
            eval_infix_expression(operator, &left, &right)
        },
        Expression::If(condition, consequence, alternative) => {
            let condition = match eval_expression(condition, env, scope, depth) {
                Ok(condition) => condition,
                Err(error) => {
                    return Err(error);
                },
            };
            if is_truthy(&condition) {
                eval_block_statement(consequence.as_slice(), env, scope, depth)
            } else {
                match alternative {
                    Some(alt) => eval_block_statement(alt.as_slice(), env, scope, depth),
                    None => Ok(Rc::new(Object::Null)),
                }
            }
        },
        Expression::Fn(params, body) => Ok(
            Rc::new(Object::Function(clone_names(params), clone_statements(body), scope)),
        ),
        Expression::Call(func, args) => {
            let func = match eval_expression(func, env, scope, depth) {
                Ok(func) => func,
                Err(error) => {
                    return Err(error);
                },
            };
            let args = match eval_expressions(args.as_slice(), env, scope, depth) {
                Ok(args) => args,
                Err(error) => {
                    return Err(error);
                },
            };
            apply_function(&func, args.as_slice(), env, depth)
        },
        Expression::Index(left, index) => {
            // both operands are evaluated before the access
            let left_expr = match eval_expression(left, env, scope, depth) {
                Ok(left) => left,
                Err(error) => {
                    return Err(error);
                },
            };
            let index_expr = match eval_expression(index, env, scope, depth) {
                Ok(index) => index,
                Err(error) => {
                    return Err(error);
                },
            };
            eval_index_expression(&left_expr, &index_expr)
        },
    }
}

/// Evaluates the pairs of a hash literal, in source order. The keys of the
/// result are distinct.
#[verifier::loop_isolation(false)]
pub fn eval_hash_literal(
    entries: &[(Expression, Expression)],
    env: &mut Environment,
    scope: usize,
    depth: usize,
) -> (r: Result<Vec<(HashableObject, Rc<Object>)>, EvaluationError>)
    requires
        old(env).wf(),
    ensures
        final(env).wf(),
        (entries_outcome(r), final(env)@) == semantics::eval_hash_literal(
            pairs_model(entries@),
            0,
            Seq::empty(),
            old(env)@,
            scope as nat,
            depth as nat,
        ),
        r is Ok ==> distinct_keys(entries_model(r->Ok_0@)),
    decreases depth, 1nat, entries@, entries@.len() + 1,
{
    let ghost all = pairs_model(entries@);
    let ghost whole = semantics::eval_hash_literal(
        all,
        0,
        Seq::empty(),
        env@,
        scope as nat,
        depth as nat,
    );
    let mut hash: Vec<(HashableObject, Rc<Object>)> = Vec::new();
    proof {
        lemma_objects_model_empty();
    }
    let mut i: usize = 0;
    while i < entries.len()
        invariant
            i <= entries@.len(),
            env.wf(),
            distinct_keys(entries_model(hash@)),
            semantics::eval_hash_literal(
                all,
                i as nat,
                entries_model(hash@),
                env@,
                scope as nat,
                depth as nat,
            ) == whole,
        decreases entries@.len() - i,
    {
        assert(all[i as int] == (entries@[i as int].0@, entries@[i as int].1@));
        let key_obj = match eval_expression(&entries[i].0, env, scope, depth) {
            Ok(key) => key,
            Err(error) => {
                return Err(error);
            },
        };
        // the key must be one that can be hashed
        let hash_key = match key_obj.as_hashable() {
            Some(key) => key,
            None => {
                return Err(object_error("unusable as hash key: ", &key_obj));
            },
        };
        let value_obj = match eval_expression(&entries[i].1, env, scope, depth) {
            Ok(value) => value,
            Err(error) => {
                return Err(error);
            },
        };
        proof {
            lemma_with_entry_distinct(entries_model(hash@), hash_key@, value_obj@);
        }
        hash_insert(&mut hash, hash_key, value_obj);
        i += 1;
    }
    Ok(hash)
}

/// Evaluates an index access on a value.
pub fn eval_index_expression(left_expr: &Rc<Object>, index_expr: &Rc<Object>) -> (r: Result<
    Rc<Object>,
    EvaluationError,
>)
    ensures
        outcome(r) == semantics::eval_index_expression(left_expr@, index_expr@),
{
    match (&**left_expr, &**index_expr) {
        (Object::Array(arr), Object::Integer(idx)) => eval_array_index_expression(
            arr.as_slice(),
            *idx,
        ),
        (Object::Hash(hash), key) => eval_hash_index_expression(hash, key),
        _ => Err(object_error("index operator not supported: ", index_expr)),
    }
}

/// The value of a hash for a key, or `null` where it has none.
pub fn eval_hash_index_expression(hash: &Vec<(HashableObject, Rc<Object>)>, key: &Object) -> (r:
    Result<Rc<Object>, EvaluationError>)
    ensures
        outcome(r) == semantics::eval_hash_index_expression(entries_model(hash@), key@),
{
    let hash_key = match key.as_hashable() {
        Some(key) => key,
        None => {
            return Err(object_error("unusable as hash key: ", key));
        },
    };
    match hash_get(hash, &hash_key) {
        Some(val) => Ok(val),
        None => Ok(Rc::new(Object::Null)),
    }
}

/// The element of an array at an index, or `null` where the index is outside
/// the array.
pub fn eval_array_index_expression(arr: &[Rc<Object>], idx: i64) -> (r: Result<
    Rc<Object>,
    EvaluationError,
>)
    ensures
        outcome(r) == Ok::<ObjectModel, Seq<char>>(
            semantics::eval_array_index_expression(objects_model(arr@), idx as int),
        ),
{
    assert(objects_model(arr@).len() == arr@.len());
    if idx < 0 || idx as u64 >= arr.len() as u64 {
        Ok(Rc::new(Object::Null))
    } else {
        let i = idx as usize;
        assert(objects_model(arr@)[i as int] == arr@[i as int]@);
        Ok(share(&arr[i]))
    }
}

/// Applies a value to arguments, where calls may still nest `depth` deep. A
/// function runs in a new scope inside the scope that it was defined in.
#[verifier::loop_isolation(false)]
pub fn apply_function(
    func: &Rc<Object>,
    args: &[Rc<Object>],
    env: &mut Environment,
    depth: usize,
) -> (r: Result<Rc<Object>, EvaluationError>)
    requires
        old(env).wf(),
    ensures
        final(env).wf(),
        (outcome(r), final(env)@) == semantics::apply_function(
            func@,
            objects_model(args@),
            old(env)@,
            depth as nat,
        ),
    decreases depth, 0nat, func, 0nat,
{
    match &**func {
        Object::Function(params, body, defined_in) => {
            let ghost parameters = names_model(params@);
            let ghost values = objects_model(args@);
            // the number of arguments must be that of the parameters
            if params.len() != args.len() {
                let mut message = String::from_str("invalid number of arguments: expected=");
                push_decimal(&mut message, params.len() as u64);
                message.append(", got=");
                push_decimal(&mut message, args.len() as u64);
                return Err(EvaluationError::new(message));
            }
            if depth == 0 {
                return Err(plain_error("call depth exceeded"));
            }
            let inner = env.new_enclosed_environment(*defined_in);
            let ghost enclosed = env@;
            // bind the parameters to the arguments
            let mut i: usize = 0;
            while i < params.len()
                invariant
                    i <= params@.len(),
                    env.wf(),
                    bind_parameters(env@, inner as nat, parameters, values, i as nat)
                        == bind_parameters(enclosed, inner as nat, parameters, values, 0),
                decreases params@.len() - i,
            {
                assert(parameters[i as int] == params@[i as int]@);
                assert(values[i as int] == args@[i as int]@);
                env.set(inner, params[i].as_str(), share(&args[i]));
                i += 1;
            }
            match eval_block_statement(body.as_slice(), env, inner, depth - 1) {
                Ok(evaluated) => unwrap_return_value(evaluated),
                Err(error) => Err(error),
            }
        },
        Object::Builtin(builtin) => builtin.apply(args, env),
        other => Err(object_error("not a function: ", other)),
    }
}

/// Unwraps a returned value, so that a `return` ends only the function that
/// it stands in.
pub fn unwrap_return_value(object: Rc<Object>) -> (r: Result<Rc<Object>, EvaluationError>)
    ensures
        outcome(r) == Ok::<ObjectModel, Seq<char>>(semantics::unwrap_return_value(object@)),
{
    match &*object {
        Object::ReturnValue(val) => Ok(share(val)),
        _ => Ok(object),
    }
}

/// Evaluates expressions from left to right.
#[verifier::loop_isolation(false)]
pub fn eval_expressions(
    expressions: &[Expression],
    env: &mut Environment,
    scope: usize,
    depth: usize,
) -> (r: Result<Vec<Rc<Object>>, EvaluationError>)
    requires
        old(env).wf(),
    ensures
        final(env).wf(),
        (objects_outcome(r), final(env)@) == semantics::eval_expressions(
            expressions_model(expressions@),
            0,
            Seq::empty(),
            old(env)@,
            scope as nat,
            depth as nat,
        ),
    decreases depth, 1nat, expressions@, expressions@.len() + 1,
{
    let ghost all = expressions_model(expressions@);
    let ghost whole = semantics::eval_expressions(
        all,
        0,
        Seq::empty(),
        env@,
        scope as nat,
        depth as nat,
    );
    let mut result: Vec<Rc<Object>> = Vec::new();
    proof {
        lemma_objects_model_empty();
    }
    let mut i: usize = 0;
    while i < expressions.len()
        invariant
            i <= expressions@.len(),
            env.wf(),
            semantics::eval_expressions(
                all,
                i as nat,
                objects_model(result@),
                env@,
                scope as nat,
                depth as nat,
            ) == whole,
        decreases expressions@.len() - i,
    {
        assert(all[i as int] == expressions@[i as int]@);
        let val = match eval_expression(&expressions[i], env, scope, depth) {
            Ok(val) => val,
            Err(error) => {
                return Err(error);
            },
        };
        proof {
            lemma_objects_model_push(result@, val);
        }
        result.push(val);
        i += 1;
    }
    Ok(result)
}

/// The value of a name: its binding as seen from `scope`, or else the
/// built-in function of that name.
pub fn eval_identifier(ident: &str, env: &Environment, scope: usize) -> (r: Result<
    Rc<Object>,
    EvaluationError,
>)
    requires
        env.wf(),
    ensures
        outcome(r) == semantics::eval_identifier(ident@, env@, scope as nat),
{
    match env.get(scope, ident) {
        Some(obj) => Ok(obj),
        None => match Builtin::lookup(ident) {
            Some(obj) => Ok(Rc::new(obj)),
            None => {
                let mut message = String::from_str("identifier not found: ");
                message.append(ident);
                Err(EvaluationError::new(message))
            },
        },
    }
}

/// Evaluates the statements of a block, up to the first returned value.
#[verifier::loop_isolation(false)]
pub fn eval_block_statement(
    statements: &[Statement],
    env: &mut Environment,
    scope: usize,
    depth: usize,
) -> (r: Result<Rc<Object>, EvaluationError>)
    requires
        old(env).wf(),
    ensures
        final(env).wf(),
        (outcome(r), final(env)@) == semantics::eval_block_statement(
            statements_model(statements@),
            old(env)@,
            scope as nat,
            depth as nat,
        ),
    decreases depth, 1nat, statements@, statements@.len() + 1,
{
    let ghost all = statements_model(statements@);
    let ghost whole = semantics::eval_block_statement(all, env@, scope as nat, depth as nat);
    let mut result = Rc::new(Object::Null);
    let mut i: usize = 0;
    while i < statements.len()
        invariant
            i <= statements@.len(),
            env.wf(),
            semantics::eval_statements(all, i as nat, result@, env@, scope as nat, depth as nat)
                == whole,
        decreases statements@.len() - i,
    {
        assert(all[i as int] == statements@[i as int]@);
        result =
        match eval_statement(&statements[i], env, scope, depth) {
            Ok(value) => value,
            Err(error) => {
                return Err(error);
            },
        };
        match &*result {
            Object::ReturnValue(_) => {
                return Ok(result);
            },
            _ => {},
        }
        i += 1;
    }
    Ok(result)
}

/// Evaluates a binary operator on two values.
pub fn eval_infix_expression(operator: &Token, left: &Rc<Object>, right: &Rc<Object>) -> (r:
    Result<Rc<Object>, EvaluationError>)
    ensures
        outcome(r) == semantics::eval_infix_expression(operator@, left@, right@),
{
    match (&**left, &**right) {
        (Object::Integer(left_int), Object::Integer(right_int)) => eval_integer_infix_expression(
            operator,
            *left_int,
            *right_int,
        ),
        (Object::Boolean(left_b), Object::Boolean(right_b)) => eval_boolean_infix_expression(
            operator,
            *left_b,
            *right_b,
        ),
        (Object::String(left_str), Object::String(right_str)) => eval_string_infix_expression(
            operator,
            left_str.as_str(),
            right_str.as_str(),
        ),
        (left_obj, right_obj) => {
            let left_text = left_obj.to_string();
            let right_text = right_obj.to_string();
            if same_kind(left_obj, right_obj) {
                Err(unknown_infix_error(left_text.as_str(), operator, right_text.as_str()))
            } else {
                let mut message = String::from_str("type mismatch: ");
                message.append(left_text.as_str());
                message.append(" ");
                operator.write_to(&mut message);
                message.append(" ");
                message.append(right_text.as_str());
                Err(EvaluationError::new(message))
            }
        },
    }
}

/// Evaluates a binary operator on two strings: joining and comparing.
pub fn eval_string_infix_expression(operator: &Token, left_str: &str, right_str: &str) -> (r:
    Result<Rc<Object>, EvaluationError>)
    ensures
        outcome(r) == semantics::eval_string_infix_expression(operator@, left_str@, right_str@),
{
    match operator {
        Token::Plus => Ok(Rc::new(Object::String(String::from_str(left_str).concat(right_str)))),
        Token::Eq => Ok(Rc::new(Object::Boolean(same_text(left_str, right_str)))),
        Token::NotEq => Ok(Rc::new(Object::Boolean(!same_text(left_str, right_str)))),
        _ => Err(unknown_infix_error(left_str, operator, right_str)),
    }
}

/// Evaluates a binary operator on two booleans.
pub fn eval_boolean_infix_expression(operator: &Token, left_b: bool, right_b: bool) -> (r: Result<
    Rc<Object>,
    EvaluationError,
>)
    ensures
        outcome(r) == semantics::eval_boolean_infix_expression(operator@, left_b, right_b),
{
    match operator {
        Token::Eq => Ok(Rc::new(Object::Boolean(left_b == right_b))),
        Token::NotEq => Ok(Rc::new(Object::Boolean(left_b != right_b))),
        _ => Err(unknown_infix_error(boolean_text(left_b), operator, boolean_text(right_b))),
    }
}

/// The quotient of two integers, rounded towards zero and wrapped around at
/// 64 bits.
fn wrapping_quotient(left_int: i64, right_int: i64) -> (quotient: i64)
    requires
        right_int != 0,
    ensures
        quotient == wrap64(truncated_quotient(left_int as int, right_int as int)),
{
    if left_int == i64::MIN && right_int == -1 {
        i64::MIN
    } else {
        proof {
            let x = left_int as int;
            let d = right_int as int;
            if x >= 0 && d > 0 {
                vstd::arithmetic::div_mod::lemma_div_nonincreasing(x, d);
                vstd::arithmetic::div_mod::lemma_div_pos_is_pos(x, d);
            } else if x < 0 && d < 0 {
                vstd::arithmetic::div_mod::lemma_div_nonincreasing(-x, -d);
                vstd::arithmetic::div_mod::lemma_div_pos_is_pos(-x, -d);
                if d == -1 {
                    assert((-x) / 1 == -x);
                } else {
                    vstd::arithmetic::div_mod::lemma_div_is_ordered_by_denominator(-x, 2, -d);
                    vstd::arithmetic::div_mod::lemma_div_nonincreasing(-x, 2);
                    assert((-x) / 2 <= 0x4000_0000_0000_0000);
                }
                assert((-x) / (-d) <= i64::MAX);
                assert((x * -1) / (d * -1) == (-x) / (-d));
            } else if x < 0 {
                vstd::arithmetic::div_mod::lemma_div_nonincreasing(-x, d);
                vstd::arithmetic::div_mod::lemma_div_pos_is_pos(-x, d);
            } else {
                vstd::arithmetic::div_mod::lemma_div_nonincreasing(x, -d);
                vstd::arithmetic::div_mod::lemma_div_pos_is_pos(x, -d);
            }
        }
        match left_int.checked_div(right_int) {
            Some(quotient) => quotient,
            None => {
                // cannot happen: the divisor is not zero, and the one
                // quotient that does not fit was dealt with above
                proof {
                    assert(false);
                }
                0
            },
        }
    }
}

/// Evaluates a binary operator on two integers. Arithmetic wraps around at 64
/// bits.
pub fn eval_integer_infix_expression(operator: &Token, left_int: i64, right_int: i64) -> (r: Result<
    Rc<Object>,
    EvaluationError,
>)
    ensures
        outcome(r) == semantics::eval_integer_infix_expression(
            operator@,
            left_int as int,
            right_int as int,
        ),
{
    match operator {
        Token::Plus => Ok(Rc::new(Object::Integer(left_int.wrapping_add(right_int)))),
        Token::Minus => Ok(Rc::new(Object::Integer(left_int.wrapping_sub(right_int)))),
        Token::Asterisk => Ok(Rc::new(Object::Integer(left_int.wrapping_mul(right_int)))),
        Token::Slash => {
            if right_int == 0 {
                Err(plain_error("division by zero"))
            } else {
                Ok(Rc::new(Object::Integer(wrapping_quotient(left_int, right_int))))
            }
        },
        Token::Gt => Ok(Rc::new(Object::Boolean(left_int > right_int))),
        Token::Lt => Ok(Rc::new(Object::Boolean(left_int < right_int))),
        Token::Eq => Ok(Rc::new(Object::Boolean(left_int == right_int))),
        Token::NotEq => Ok(Rc::new(Object::Boolean(left_int != right_int))),
        _ => {
            let left_text = integer_text(left_int);
            let right_text = integer_text(right_int);
            Err(unknown_infix_error(left_text.as_str(), operator, right_text.as_str()))
        },
    }
}

/// Evaluates a prefix operator on a value.
pub fn eval_prefix_expression(operator: &Token, right: &Rc<Object>) -> (r: Result<
    Rc<Object>,
    EvaluationError,
>)
    ensures
        outcome(r) == semantics::eval_prefix_expression(operator@, right@),
{
    match operator {
        Token::Bang => eval_bang_operator_expression(right),
        Token::Minus => eval_minus_operator_expression(right),
        _ => {
            let mut message = String::from_str("unknown operator: ");
            operator.write_to(&mut message);
            write_object(right, &mut message);
            Err(EvaluationError::new(message))
        },
    }
}

/// Evaluates `-` on a value: the negative of an integer.
pub fn eval_minus_operator_expression(right: &Rc<Object>) -> (r: Result<
    Rc<Object>,
    EvaluationError,
>)
    ensures
        outcome(r) == semantics::eval_minus_operator_expression(right@),
{
    match &**right {
        Object::Integer(value) => Ok(Rc::new(Object::Integer(0i64.wrapping_sub(*value)))),
        other => Err(object_error("unknown operator: -", other)),
    }
}

/// Evaluates `!` on a value: whether it does not count as true.
pub fn eval_bang_operator_expression(right: &Rc<Object>) -> (r: Result<
    Rc<Object>,
    EvaluationError,
>)
    ensures
        outcome(r) == Ok::<ObjectModel, Seq<char>>(
            semantics::eval_bang_operator_expression(right@),
        ),
{
    match &**right {
        Object::Boolean(b) => Ok(Rc::new(Object::Boolean(!*b))),
        Object::Null => Ok(Rc::new(Object::Boolean(true))),
        _ => Ok(Rc::new(Object::Boolean(false))),
    }
}

/// Evaluates a statement in the scope `scope`.
pub fn eval_statement(statement: &Statement, env: &mut Environment, scope: usize, depth: usize)
    -> (r: Result<Rc<Object>, EvaluationError>)
    requires
        old(env).wf(),
    ensures
        final(env).wf(),
        (outcome(r), final(env)@) == semantics::eval_statement(
            statement@,
            old(env)@,
            scope as nat,
            depth as nat,
        ),
    decreases depth, 1nat, statement, 0nat,
{
    match statement {
        Statement::Expr(expr) => eval_expression(expr, env, scope, depth),
        Statement::Let(ident, expr) => {
            let val = match eval_expression(expr, env, scope, depth) {
                Ok(val) => val,
                Err(error) => {
                    return Err(error);
                },
            };
            // store the value in the scope
            env.set(scope, ident.as_str(), share(&val));
            Ok(val)
        },
        Statement::Return(expr) => {
            match eval_expression(expr, env, scope, depth) {
                Ok(val) => Ok(Rc::new(Object::ReturnValue(val))),
                Err(error) => Err(error),
            }
        },
    }
}

/// Evaluates the statements of a program, up to the first returned value,
/// which is handed on still wrapped.
#[verifier::loop_isolation(false)]
pub fn eval_program(program: &[Statement], env: &mut Environment, scope: usize, depth: usize) -> (r:
    Result<Rc<Object>, EvaluationError>)
    requires
        old(env).wf(),
    ensures
        final(env).wf(),
        (outcome(r), final(env)@) == semantics::eval_program(
            statements_model(program@),
            old(env)@,
            scope as nat,
            depth as nat,
        ),
    decreases depth, 1nat, program@, program@.len() + 1,
{
    let ghost all = statements_model(program@);
    let ghost whole = semantics::eval_program(all, env@, scope as nat, depth as nat);
    let mut result = Rc::new(Object::Null);
    let mut i: usize = 0;
    while i < program.len()
        invariant
            i <= program@.len(),
            env.wf(),
            semantics::eval_statements(all, i as nat, result@, env@, scope as nat, depth as nat)
                == whole,
        decreases program@.len() - i,
    {
        assert(all[i as int] == program@[i as int]@);
        result =
        match eval_statement(&program[i], env, scope, depth) {
            Ok(value) => value,
            Err(error) => {
                return Err(error);
            },
        };
        // a returned value ends the program
        match &*result {
            Object::ReturnValue(_) => {
                return Ok(result);
            },
            _ => {},
        }
        i += 1;
    }
    Ok(result)
}

} // verus!

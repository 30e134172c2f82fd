//! What evaluation means: functions from a syntax tree, an environment, a
//! scope and a limit on the depth of calls to the value that evaluation
//! yields, or the message that it fails with, and the environment afterwards.
//!
//! Each function stands for the evaluating function of the same name.

use vstd::prelude::*;
use crate::eval::builtin::{builtin_name, builtin_named, Builtin};
use crate::eval::environment::{bind, enclose, lookup, EnvironmentModel, ROOT_SCOPE};
use crate::eval::object::{entry_value, hashable, object_text, with_entry, KeyModel, ObjectModel};
use crate::parser::ast::{ExpressionModel, LiteralModel, NodeModel, StatementModel};
use crate::text::decimal;
use crate::token::{token_text, TokenModel};

verus! {

/// The 64-bit signed integer that `x` wraps around to.
pub open spec fn wrap64(x: int) -> int {
    let m = x % 0x1_0000_0000_0000_0000;
    if m > i64::MAX {
        m - 0x1_0000_0000_0000_0000
    } else {
        m
    }
}

/// The quotient of `x` by `d`, rounded towards zero.
pub open spec fn truncated_quotient(x: int, d: int) -> int
    recommends
        d != 0,
{
    if x >= 0 && d > 0 {
        x / d
    } else if x < 0 && d < 0 {
        (-x) / (-d)
    } else if x < 0 {
        -((-x) / d)
    } else {
        -(x / (-d))
    }
}

/// A length as an integer value: itself, or the largest 64-bit integer if it
/// is larger than that.
pub open spec fn length_value(n: nat) -> int {
    if n > i64::MAX {
        i64::MAX as int
    } else {
        n as int
    }
}

/// Every value counts as true but `false` and `null`.
pub open spec fn is_truthy(object: ObjectModel) -> bool {
    !(object == ObjectModel::Boolean(false) || object is Null)
}

/// Whether two values are of the same kind.
pub open spec fn same_kind(left: ObjectModel, right: ObjectModel) -> bool {
    match (left, right) {
        (ObjectModel::Integer(_), ObjectModel::Integer(_)) => true,
        (ObjectModel::Boolean(_), ObjectModel::Boolean(_)) => true,
        (ObjectModel::String(_), ObjectModel::String(_)) => true,
        (ObjectModel::Null, ObjectModel::Null) => true,
        (ObjectModel::ReturnValue(_), ObjectModel::ReturnValue(_)) => true,
        (ObjectModel::Function(_, _, _), ObjectModel::Function(_, _, _)) => true,
        (ObjectModel::Builtin(_), ObjectModel::Builtin(_)) => true,
        (ObjectModel::Array(_), ObjectModel::Array(_)) => true,
        (ObjectModel::Hash(_), ObjectModel::Hash(_)) => true,
        _ => false,
    }
}

pub open spec fn identifier_not_found(name: Seq<char>) -> Seq<char> {
    "identifier not found: "@ + name
}

pub open spec fn unusable_as_key(object: ObjectModel) -> Seq<char> {
    "unusable as hash key: "@ + object_text(object)
}

pub open spec fn index_not_supported(index: ObjectModel) -> Seq<char> {
    "index operator not supported: "@ + object_text(index)
}

pub open spec fn invalid_arguments(expected: nat, got: nat) -> Seq<char> {
    "invalid number of arguments: expected="@ + decimal(expected) + ", got="@ + decimal(got)
}

pub open spec fn wrong_arguments(expected: nat, got: nat) -> Seq<char> {
    "wrong number of arguments: expected="@ + decimal(expected) + ", got="@ + decimal(got)
}

pub open spec fn not_a_function(object: ObjectModel) -> Seq<char> {
    "not a function: "@ + object_text(object)
}

pub open spec fn unknown_infix(left: Seq<char>, operator: TokenModel, right: Seq<char>) -> Seq<
    char,
> {
    "unknown operator: "@ + left + " "@ + token_text(operator) + " "@ + right
}

pub open spec fn type_mismatch(left: ObjectModel, operator: TokenModel, right: ObjectModel)
    -> Seq<char> {
    "type mismatch: "@ + object_text(left) + " "@ + token_text(operator) + " "@ + object_text(
        right,
    )
}

pub open spec fn unknown_prefix(operator: TokenModel, right: ObjectModel) -> Seq<char> {
    "unknown operator: "@ + token_text(operator) + object_text(right)
}

pub open spec fn len_not_supported(argument: ObjectModel) -> Seq<char> {
    "argument to `len` not supported, got "@ + object_text(argument)
}

pub open spec fn must_be_array(builtin: Builtin, argument: ObjectModel) -> Seq<char> {
    "argument to `"@ + builtin_name(builtin) + "` must be ARRAY, got "@ + object_text(argument)
}

/// A binary operator on two integers. Arithmetic wraps around at 64 bits;
/// division rounds towards zero and fails on a zero divisor.
pub open spec fn eval_integer_infix_expression(operator: TokenModel, left: int, right: int)
    -> Result<ObjectModel, Seq<char>> {
    match operator {
        TokenModel::Plus => Ok(ObjectModel::Integer(wrap64(left + right))),
        TokenModel::Minus => Ok(ObjectModel::Integer(wrap64(left - right))),
        TokenModel::Asterisk => Ok(ObjectModel::Integer(wrap64(left * right))),
        TokenModel::Slash => if right == 0 {
            Err("division by zero"@)
        } else {
            Ok(ObjectModel::Integer(wrap64(truncated_quotient(left, right))))
        },
        TokenModel::Gt => Ok(ObjectModel::Boolean(left > right)),
        TokenModel::Lt => Ok(ObjectModel::Boolean(left < right)),
        TokenModel::Eq => Ok(ObjectModel::Boolean(left == right)),
        TokenModel::NotEq => Ok(ObjectModel::Boolean(left != right)),
        _ => Err(
            unknown_infix(
                object_text(ObjectModel::Integer(left)),
                operator,
                object_text(ObjectModel::Integer(right)),
            ),
        ),
    }
}

/// A binary operator on two booleans: only `==` and `!=` are defined.
pub open spec fn eval_boolean_infix_expression(operator: TokenModel, left: bool, right: bool)
    -> Result<ObjectModel, Seq<char>> {
    match operator {
        TokenModel::Eq => Ok(ObjectModel::Boolean(left == right)),
        TokenModel::NotEq => Ok(ObjectModel::Boolean(left != right)),
        _ => Err(
            unknown_infix(
                object_text(ObjectModel::Boolean(left)),
                operator,
                object_text(ObjectModel::Boolean(right)),
            ),
        ),
    }
}

/// A binary operator on two strings: `+` joins them, `==` and `!=` compare
/// them.
pub open spec fn eval_string_infix_expression(
    operator: TokenModel,
    left: Seq<char>,
    right: Seq<char>,
) -> Result<ObjectModel, Seq<char>> {
    match operator {
        TokenModel::Plus => Ok(ObjectModel::String(left + right)),
        TokenModel::Eq => Ok(ObjectModel::Boolean(left == right)),
        TokenModel::NotEq => Ok(ObjectModel::Boolean(left != right)),
        _ => Err(unknown_infix(left, operator, right)),
    }
}

/// A binary operator on two values. Operands of different kinds are a type
/// mismatch; operands of one kind that has no binary operators are an unknown
/// operator.
pub open spec fn eval_infix_expression(
    operator: TokenModel,
    left: ObjectModel,
    right: ObjectModel,
) -> Result<ObjectModel, Seq<char>> {
    match (left, right) {
        (ObjectModel::Integer(l), ObjectModel::Integer(r)) => eval_integer_infix_expression(
            operator,
            l,
            r,
        ),
        (ObjectModel::Boolean(l), ObjectModel::Boolean(r)) => eval_boolean_infix_expression(
            operator,
            l,
            r,
        ),
        (ObjectModel::String(l), ObjectModel::String(r)) => eval_string_infix_expression(
            operator,
            l,
            r,
        ),
        _ => if same_kind(left, right) {
            Err(unknown_infix(object_text(left), operator, object_text(right)))
        } else {
            Err(type_mismatch(left, operator, right))
        },
    }
}

/// `!`: the negation of whether the operand counts as true.
pub open spec fn eval_bang_operator_expression(right: ObjectModel) -> ObjectModel {
    ObjectModel::Boolean(!is_truthy(right))
}

/// `-`: the negative of an integer, wrapping around at 64 bits.
pub open spec fn eval_minus_operator_expression(right: ObjectModel) -> Result<
    ObjectModel,
    Seq<char>,
> {
    match right {
        ObjectModel::Integer(value) => Ok(ObjectModel::Integer(wrap64(-value))),
        _ => Err("unknown operator: -"@ + object_text(right)),
    }
}

/// A prefix operator on a value.
pub open spec fn eval_prefix_expression(operator: TokenModel, right: ObjectModel) -> Result<
    ObjectModel,
    Seq<char>,
> {
    match operator {
        TokenModel::Bang => Ok(eval_bang_operator_expression(right)),
        TokenModel::Minus => eval_minus_operator_expression(right),
        _ => Err(unknown_prefix(operator, right)),
    }
}

/// The element of an array at an index, or `null` where the index is outside
/// the array.
pub open spec fn eval_array_index_expression(elements: Seq<ObjectModel>, index: int)
    -> ObjectModel {
    if 0 <= index < elements.len() {
        elements[index]
    } else {
        ObjectModel::Null
    }
}

/// The value of a hash for a key, or `null` where it has none. A value that
/// cannot be a key is an error.
pub open spec fn eval_hash_index_expression(
    entries: Seq<(KeyModel, ObjectModel)>,
    key: ObjectModel,
) -> Result<ObjectModel, Seq<char>> {
    match hashable(key) {
        Some(key) => match entry_value(entries, key) {
            Some(value) => Ok(value),
            None => Ok(ObjectModel::Null),
        },
        None => Err(unusable_as_key(key)),
    }
}

/// An index access on a value: on an array by an integer, on a hash by a key.
pub open spec fn eval_index_expression(left: ObjectModel, index: ObjectModel) -> Result<
    ObjectModel,
    Seq<char>,
> {
    match (left, index) {
        (ObjectModel::Array(elements), ObjectModel::Integer(i)) => Ok(
            eval_array_index_expression(elements, i),
        ),
        (ObjectModel::Hash(entries), key) => eval_hash_index_expression(entries, key),
        _ => Err(index_not_supported(index)),
    }
}

/// The value of a name: its binding as seen from `scope`, or else the
/// built-in function of that name.
pub open spec fn eval_identifier(name: Seq<char>, env: EnvironmentModel, scope: nat) -> Result<
    ObjectModel,
    Seq<char>,
> {
    match lookup(env.scopes, scope, name) {
        Some(value) => Ok(value),
        None => match builtin_named(name) {
            Some(builtin) => Ok(ObjectModel::Builtin(builtin)),
            None => Err(identifier_not_found(name)),
        },
    }
}

/// The value inside a returned value, and any other value itself.
pub open spec fn unwrap_return_value(object: ObjectModel) -> ObjectModel {
    match object {
        ObjectModel::ReturnValue(value) => *value,
        other => other,
    }
}

/// Whether a built-in function got as many arguments as it takes.
pub open spec fn check_args_count(expected: nat, actual: nat) -> Result<(), Seq<char>> {
    if expected == actual {
        Ok(())
    } else {
        Err(wrong_arguments(expected, actual))
    }
}

/// The texts of a list of values, each a line.
pub open spec fn printed_lines(objects: Seq<ObjectModel>) -> Seq<Seq<char>> {
    Seq::new(objects.len(), |i: int| object_text(objects[i]))
}

/// `len`: the number of characters of a string, or of elements of an array.
pub open spec fn builtin_len(args: Seq<ObjectModel>) -> Result<ObjectModel, Seq<char>> {
    match check_args_count(1, args.len()) {
        Err(message) => Err(message),
        Ok(_) => match args[0] {
            ObjectModel::String(value) => Ok(ObjectModel::Integer(length_value(value.len()))),
            ObjectModel::Array(elements) => Ok(
                ObjectModel::Integer(length_value(elements.len())),
            ),
            other => Err(len_not_supported(other)),
        },
    }
}

/// `first`: the first element of an array, or `null` if it is empty.
pub open spec fn builtin_first(args: Seq<ObjectModel>) -> Result<ObjectModel, Seq<char>> {
    match check_args_count(1, args.len()) {
        Err(message) => Err(message),
        Ok(_) => match args[0] {
            ObjectModel::Array(elements) => if elements.len() > 0 {
                Ok(elements.first())
            } else {
                Ok(ObjectModel::Null)
            },
            other => Err(must_be_array(Builtin::First, other)),
        },
    }
}

/// `last`: the last element of an array, or `null` if it is empty.
pub open spec fn builtin_last(args: Seq<ObjectModel>) -> Result<ObjectModel, Seq<char>> {
    match check_args_count(1, args.len()) {
        Err(message) => Err(message),
        Ok(_) => match args[0] {
            ObjectModel::Array(elements) => if elements.len() > 0 {
                Ok(elements.last())
            } else {
                Ok(ObjectModel::Null)
            },
            other => Err(must_be_array(Builtin::Last, other)),
        },
    }
}

/// `rest`: a new array of all the elements of an array but the first, or
/// `null` if it is empty.
pub open spec fn builtin_rest(args: Seq<ObjectModel>) -> Result<ObjectModel, Seq<char>> {
    match check_args_count(1, args.len()) {
        Err(message) => Err(message),
        Ok(_) => match args[0] {
            ObjectModel::Array(elements) => if elements.len() > 0 {
                Ok(ObjectModel::Array(elements.drop_first()))
            } else {
                Ok(ObjectModel::Null)
            },
            other => Err(must_be_array(Builtin::Rest, other)),
        },
    }
}

/// `push`: a new array of the elements of an array and the second argument
/// behind them.
pub open spec fn builtin_push(args: Seq<ObjectModel>) -> Result<ObjectModel, Seq<char>> {
    match check_args_count(2, args.len()) {
        Err(message) => Err(message),
        Ok(_) => match args[0] {
            ObjectModel::Array(elements) => Ok(ObjectModel::Array(elements.push(args[1]))),
            other => Err(must_be_array(Builtin::Push, other)),
        },
    }
}

/// What a built-in function yields for its arguments, and what it has
/// printed behind what was printed before: `puts` prints the text of each
/// argument on a line of its own and yields `null`; the others print nothing.
pub open spec fn apply_builtin(
    builtin: Builtin,
    args: Seq<ObjectModel>,
    output: Seq<Seq<char>>,
) -> (Result<ObjectModel, Seq<char>>, Seq<Seq<char>>) {
    match builtin {
        Builtin::Len => (builtin_len(args), output),
        Builtin::First => (builtin_first(args), output),
        Builtin::Last => (builtin_last(args), output),
        Builtin::Rest => (builtin_rest(args), output),
        Builtin::Push => (builtin_push(args), output),
        Builtin::Puts => (Ok(ObjectModel::Null), output + printed_lines(args)),
    }
}

/// The environment with each parameter from index `from` on bound, in
/// `scope`, to the argument at its index.
pub open spec fn bind_parameters(
    env: EnvironmentModel,
    scope: nat,
    parameters: Seq<Seq<char>>,
    args: Seq<ObjectModel>,
    from: nat,
) -> EnvironmentModel
    decreases parameters.len() - from,
{
    if from >= parameters.len() || from >= args.len() {
        env
    } else {
        bind_parameters(
            bind(env, scope, parameters[from as int], args[from as int]),
            scope,
            parameters,
            args,
            from + 1,
        )
    }
}

/// The statements from index `from` on, one after the other; `last` is the
/// value of the statement before them. Evaluation ends at the first error
/// and at the first returned value, which is handed on still wrapped.
pub open spec fn eval_statements(
    statements: Seq<StatementModel>,
    from: nat,
    last: ObjectModel,
    env: EnvironmentModel,
    scope: nat,
    depth: nat,
) -> (Result<ObjectModel, Seq<char>>, EnvironmentModel)
    decreases depth, 1nat, statements, statements.len() - from,
{
    if from >= statements.len() {
        (Ok(last), env)
    } else {
        let (result, env) = eval_statement(statements[from as int], env, scope, depth);
        match result {
            Err(message) => (Err(message), env),
            Ok(value) => if value is ReturnValue {
                (Ok(value), env)
            } else {
                eval_statements(statements, from + 1, value, env, scope, depth)
            },
        }
    }
}

/// The statements of a program: the value of the last one, `null` if there
/// is none, or the value that a `return` statement wrapped.
pub open spec fn eval_program(
    program: Seq<StatementModel>,
    env: EnvironmentModel,
    scope: nat,
    depth: nat,
) -> (Result<ObjectModel, Seq<char>>, EnvironmentModel)
    decreases depth, 1nat, program, program.len() + 1,
{
    eval_statements(program, 0, ObjectModel::Null, env, scope, depth)
}

/// The statements of a block, evaluated as those of a program are.
pub open spec fn eval_block_statement(
    statements: Seq<StatementModel>,
    env: EnvironmentModel,
    scope: nat,
    depth: nat,
) -> (Result<ObjectModel, Seq<char>>, EnvironmentModel)
    decreases depth, 1nat, statements, statements.len() + 1,
{
    eval_statements(statements, 0, ObjectModel::Null, env, scope, depth)
}

/// A statement. `let` binds its value in `scope` and yields it; `return`
/// wraps its value.
pub open spec fn eval_statement(
    statement: StatementModel,
    env: EnvironmentModel,
    scope: nat,
    depth: nat,
) -> (Result<ObjectModel, Seq<char>>, EnvironmentModel)
    decreases depth, 1nat, statement, 0nat,
{
    match statement {
        StatementModel::Expr(expression) => eval_expression(expression, env, scope, depth),
        StatementModel::Let(name, expression) => {
            let (result, env) = eval_expression(expression, env, scope, depth);
            match result {
                Err(message) => (Err(message), env),
                Ok(value) => (Ok(value), bind(env, scope, name, value)),
            }
        },
        StatementModel::Return(expression) => {
            let (result, env) = eval_expression(expression, env, scope, depth);
            match result {
                Err(message) => (Err(message), env),
                Ok(value) => (Ok(ObjectModel::ReturnValue(Box::new(value))), env),
            }
        },
    }
}

/// The expressions from index `from` on, from left to right, behind the
/// values `done`. Evaluation ends at the first error.
pub open spec fn eval_expressions(
    expressions: Seq<ExpressionModel>,
    from: nat,
    done: Seq<ObjectModel>,
    env: EnvironmentModel,
    scope: nat,
    depth: nat,
) -> (Result<Seq<ObjectModel>, Seq<char>>, EnvironmentModel)
    decreases depth, 1nat, expressions, expressions.len() - from,
{
    if from >= expressions.len() {
        (Ok(done), env)
    } else {
        let (result, env) = eval_expression(expressions[from as int], env, scope, depth);
        match result {
            Err(message) => (Err(message), env),
            Ok(value) => eval_expressions(
                expressions,
                from + 1,
                done.push(value),
                env,
                scope,
                depth,
            ),
        }
    }
}

/// The pairs of a hash literal from index `from` on, in source order, behind
/// the pairs `done`: of each pair the key first, then the value. A key that
/// cannot be one is an error, met before its value is evaluated. A key that
/// occurs again replaces the value that it had.
pub open spec fn eval_hash_literal(
    pairs: Seq<(ExpressionModel, ExpressionModel)>,
    from: nat,
    done: Seq<(KeyModel, ObjectModel)>,
    env: EnvironmentModel,
    scope: nat,
    depth: nat,
) -> (Result<Seq<(KeyModel, ObjectModel)>, Seq<char>>, EnvironmentModel)
    decreases depth, 1nat, pairs, pairs.len() - from,
{
    if from >= pairs.len() {
        (Ok(done), env)
    } else {
        let (key, env) = eval_expression(pairs[from as int].0, env, scope, depth);
        match key {
            Err(message) => (Err(message), env),
            Ok(key_object) => match hashable(key_object) {
                None => (Err(unusable_as_key(key_object)), env),
                Some(key) => {
                    let (value, env) = eval_expression(pairs[from as int].1, env, scope, depth);
                    match value {
                        Err(message) => (Err(message), env),
                        Ok(value) => eval_hash_literal(
                            pairs,
                            from + 1,
                            with_entry(done, key, value),
                            env,
                            scope,
                            depth,
                        ),
                    }
                },
            },
        }
    }
}

/// An expression, in the scope `scope`, with calls nesting at most `depth`
/// deep.
pub open spec fn eval_expression(
    expression: ExpressionModel,
    env: EnvironmentModel,
    scope: nat,
    depth: nat,
) -> (Result<ObjectModel, Seq<char>>, EnvironmentModel)
    decreases depth, 1nat, expression, 0nat,
{
    match expression {
        ExpressionModel::Identifier(name) => (eval_identifier(name, env, scope), env),
        ExpressionModel::Lit(LiteralModel::Integer(value)) => (
            Ok(ObjectModel::Integer(value)),
            env,
        ),
        ExpressionModel::Lit(LiteralModel::Boolean(value)) => (
            Ok(ObjectModel::Boolean(value)),
            env,
        ),
        ExpressionModel::Lit(LiteralModel::String(value)) => (Ok(ObjectModel::String(value)), env),
        ExpressionModel::Lit(LiteralModel::Array(elements)) => {
            let (result, env) = eval_expressions(elements, 0, Seq::empty(), env, scope, depth);
            match result {
                Err(message) => (Err(message), env),
                Ok(values) => (Ok(ObjectModel::Array(values)), env),
            }
        },
        ExpressionModel::Lit(LiteralModel::Hash(pairs)) => {
            let (result, env) = eval_hash_literal(pairs, 0, Seq::empty(), env, scope, depth);
            match result {
                Err(message) => (Err(message), env),
                Ok(entries) => (Ok(ObjectModel::Hash(entries)), env),
            }
        },
        ExpressionModel::Prefix(operator, right) => {
            let (result, env) = eval_expression(*right, env, scope, depth);
            match result {
                Err(message) => (Err(message), env),
                Ok(right) => (eval_prefix_expression(operator, right), env),
            }
        },
        ExpressionModel::Infix(operator, left, right) => {
            let (left, env) = eval_expression(*left, env, scope, depth);
            match left {
                Err(message) => (Err(message), env),
                Ok(left) => {
                    let (right, env) = eval_expression(*right, env, scope, depth);
                    match right {
                        Err(message) => (Err(message), env),
                        Ok(right) => (eval_infix_expression(operator, left, right), env),
                    }
                },
            }
        },
        ExpressionModel::If(condition, consequence, alternative) => {
            let (condition, env) = eval_expression(*condition, env, scope, depth);
            match condition {
                Err(message) => (Err(message), env),
                Ok(condition) => if is_truthy(condition) {
                    eval_block_statement(consequence, env, scope, depth)
                } else {
                    match alternative {
                        Some(alternative) => eval_block_statement(alternative, env, scope, depth),
                        None => (Ok(ObjectModel::Null), env),
                    }
                },
            }
        },
        ExpressionModel::Fn(parameters, body) => (
            Ok(ObjectModel::Function(parameters, body, scope)),
            env,
        ),
        ExpressionModel::Call(function, arguments) => {
            let (function, env) = eval_expression(*function, env, scope, depth);
            match function {
                Err(message) => (Err(message), env),
                Ok(function) => {
                    let (args, env) = eval_expressions(
                        arguments,
                        0,
                        Seq::empty(),
                        env,
                        scope,
                        depth,
                    );
                    match args {
                        Err(message) => (Err(message), env),
                        Ok(args) => apply_function(function, args, env, depth),
                    }
                },
            }
        },
        ExpressionModel::Index(left, index) => {
            let (left, env) = eval_expression(*left, env, scope, depth);
            match left {
                Err(message) => (Err(message), env),
                Ok(left) => {
                    let (index, env) = eval_expression(*index, env, scope, depth);
                    match index {
                        Err(message) => (Err(message), env),
                        Ok(index) => (eval_index_expression(left, index), env),
                    }
                },
            }
        },
    }
}

/// The call of a value with arguments, where calls may still nest `depth`
/// deep.
///
/// A function must get as many arguments as it has parameters. Its body is
/// evaluated in a new scope inside the scope that the function was defined
/// in, with its parameters bound to the arguments; a returned value is
/// unwrapped. A call beyond the limit is an error. A built-in function is
/// applied to the arguments. Any other value is not a function.
pub open spec fn apply_function(
    function: ObjectModel,
    args: Seq<ObjectModel>,
    env: EnvironmentModel,
    depth: nat,
) -> (Result<ObjectModel, Seq<char>>, EnvironmentModel)
    decreases depth, 0nat, function, 0nat,
{
    match function {
        ObjectModel::Function(parameters, body, defined_in) => {
            if parameters.len() != args.len() {
                (Err(invalid_arguments(parameters.len(), args.len())), env)
            } else if depth == 0 {
                (Err("call depth exceeded"@), env)
            } else {
                let scope = env.scopes.len();
                let env = bind_parameters(enclose(env, defined_in), scope, parameters, args, 0);
                let (result, env) = eval_block_statement(body, env, scope, (depth - 1) as nat);
                match result {
                    Err(message) => (Err(message), env),
                    Ok(value) => (Ok(unwrap_return_value(value)), env),
                }
            }
        },
        ObjectModel::Builtin(builtin) => {
            let (result, output) = apply_builtin(builtin, args, env.output);
            (result, EnvironmentModel { output, ..env })
        },
        other => (Err(not_a_function(other)), env),
    }
}

/// A node, in the root scope, with calls nesting as deep as the environment
/// allows.
pub open spec fn eval(node: NodeModel, env: EnvironmentModel) -> (
    Result<ObjectModel, Seq<char>>,
    EnvironmentModel,
) {
    match node {
        NodeModel::Program(program) => eval_program(
            program,
            env,
            ROOT_SCOPE as nat,
            env.call_depth,
        ),
        NodeModel::Stmt(statement) => eval_statement(
            statement,
            env,
            ROOT_SCOPE as nat,
            env.call_depth,
        ),
        NodeModel::Expr(expression) => eval_expression(
            expression,
            env,
            ROOT_SCOPE as nat,
            env.call_depth,
        ),
    }
}

} // verus!

//! Facts about evaluation that follow from what it is defined to be.

use vstd::prelude::*;
use crate::eval::builtin::Builtin;
use crate::eval::environment::{bind, enclose, lookup, EnvironmentModel};
use crate::eval::object::{entry_value, hashable, object_text, KeyModel, ObjectModel};
use crate::eval::semantics::{
    apply_builtin, apply_function, builtin_len, builtin_push, eval_index_expression,
    eval_infix_expression, invalid_arguments, same_kind, type_mismatch, unknown_infix,
};
use crate::parser::ast::StatementModel;
use crate::text::decimal;
use crate::token::TokenModel;

verus! {

/// Whether `part` stands somewhere in `text`.
pub open spec fn contains(text: Seq<char>, part: Seq<char>) -> bool {
    exists|i: int| 0 <= i && i + part.len() <= text.len() && #[trigger] text.subrange(
        i,
        i + part.len(),
    ) == part
}

/// Calling a function of one parameter with two arguments fails: the message
/// says that one argument was expected and two were given. Nothing else
/// happens: the environment stays as it is.
pub proof fn lemma_one_parameter_two_arguments(
    parameter: Seq<char>,
    body: Seq<StatementModel>,
    defined_in: nat,
    first: ObjectModel,
    second: ObjectModel,
    env: EnvironmentModel,
    depth: nat,
)
    ensures
        apply_function(
            ObjectModel::Function(seq![parameter], body, defined_in),
            seq![first, second],
            env,
            depth,
        ) == (
            Err::<ObjectModel, Seq<char>>("invalid number of arguments: expected=1, got=2"@),
            env,
        ),
{
    reveal_strlit("invalid number of arguments: expected=");
    reveal_strlit(", got=");
    reveal_strlit("invalid number of arguments: expected=1, got=2");
    assert(decimal(1) =~= seq!['1']);
    assert(decimal(2) =~= seq!['2']);
    assert(invalid_arguments(1, 2) =~= "invalid number of arguments: expected=1, got=2"@);
}

/// A function that is given another number of arguments than it has
/// parameters is not run.
pub proof fn lemma_wrong_number_of_arguments(
    parameters: Seq<Seq<char>>,
    body: Seq<StatementModel>,
    defined_in: nat,
    args: Seq<ObjectModel>,
    env: EnvironmentModel,
    depth: nat,
)
    requires
        parameters.len() != args.len(),
    ensures
        apply_function(ObjectModel::Function(parameters, body, defined_in), args, env, depth) == (
            Err::<ObjectModel, Seq<char>>(invalid_arguments(parameters.len(), args.len())),
            env,
        ),
{
}

/// A binary operator on operands of different kinds is a type mismatch.
pub proof fn lemma_different_kinds_mismatch(
    operator: TokenModel,
    left: ObjectModel,
    right: ObjectModel,
)
    requires
        !same_kind(left, right),
    ensures
        eval_infix_expression(operator, left, right) == Err::<ObjectModel, Seq<char>>(
            type_mismatch(left, operator, right),
        ),
        contains(type_mismatch(left, operator, right), "type mismatch"@),
{
    reveal_strlit("type mismatch: ");
    reveal_strlit("type mismatch");
    let message = type_mismatch(left, operator, right);
    assert(message.subrange(0int, 0int + "type mismatch"@.len()) =~= "type mismatch"@);
}

/// A binary operator other than `==` and `!=` on two booleans is an unknown
/// operator, and so is every binary operator on two values of a kind that is
/// neither integer, boolean nor string.
pub proof fn lemma_same_kind_unknown_operator(
    operator: TokenModel,
    left: ObjectModel,
    right: ObjectModel,
)
    requires
        same_kind(left, right),
        !(left is Integer) && !(left is String),
        left is Boolean ==> !(operator is Eq) && !(operator is NotEq),
    ensures
        eval_infix_expression(operator, left, right) == Err::<ObjectModel, Seq<char>>(
            unknown_infix(object_text(left), operator, object_text(right)),
        ),
        contains(
            unknown_infix(object_text(left), operator, object_text(right)),
            "unknown operator"@,
        ),
{
    reveal_strlit("unknown operator: ");
    reveal_strlit("unknown operator");
    let message = unknown_infix(object_text(left), operator, object_text(right));
    assert(message.subrange(0int, 0int + "unknown operator"@.len()) =~= "unknown operator"@);
}

/// An index outside an array yields `null`, and so does a key that a hash
/// does not hold.
pub proof fn lemma_index_outside_is_null(
    elements: Seq<ObjectModel>,
    index: int,
    entries: Seq<(KeyModel, ObjectModel)>,
    key: ObjectModel,
)
    ensures
        index < 0 || index >= elements.len() ==> eval_index_expression(
            ObjectModel::Array(elements),
            ObjectModel::Integer(index),
        ) == Ok::<ObjectModel, Seq<char>>(ObjectModel::Null),
        hashable(key) is Some && entry_value(entries, hashable(key)->Some_0) is None
            ==> eval_index_expression(ObjectModel::Hash(entries), key) == Ok::<
            ObjectModel,
            Seq<char>,
        >(ObjectModel::Null),
{
}

/// `push` yields a new array with the value behind the elements of the old
/// one, and changes nothing: neither the environment, where the old array
/// may be bound, nor what was printed.
pub proof fn lemma_push_changes_nothing(
    elements: Seq<ObjectModel>,
    value: ObjectModel,
    env: EnvironmentModel,
    depth: nat,
)
    ensures
        apply_function(
            ObjectModel::Builtin(Builtin::Push),
            seq![ObjectModel::Array(elements), value],
            env,
            depth,
        ) == (Ok::<ObjectModel, Seq<char>>(ObjectModel::Array(elements.push(value))), env),
{
    let args = seq![ObjectModel::Array(elements), value];
    assert(builtin_push(args) == Ok::<ObjectModel, Seq<char>>(
        ObjectModel::Array(elements.push(value)),
    ));
    let applied = apply_builtin(Builtin::Push, args, env.output);
    assert(applied.1 == env.output);
    assert((EnvironmentModel { output: applied.1, ..env }) == env);
}

/// `len` of a string is the number of its characters, where that fits in 64
/// bits, and `len` of an integer is an error.
pub proof fn lemma_len(text: Seq<char>, number: int)
    ensures
        text.len() <= i64::MAX ==> builtin_len(seq![ObjectModel::String(text)]) == Ok::<
            ObjectModel,
            Seq<char>,
        >(ObjectModel::Integer(text.len() as int)),
        builtin_len(seq![ObjectModel::Integer(number)]) == Err::<ObjectModel, Seq<char>>(
            "argument to `len` not supported, got "@ + object_text(ObjectModel::Integer(number)),
        ),
{
}

/// A name bound in a scope is what the scope sees, whatever an outer scope
/// holds, and binding it changes what no other scope holds.
pub proof fn lemma_bind_then_lookup(
    env: EnvironmentModel,
    scope: nat,
    name: Seq<char>,
    value: ObjectModel,
    other: nat,
)
    requires
        scope < env.scopes.len(),
    ensures
        lookup(bind(env, scope, name, value).scopes, scope, name) == Some(value),
        other != scope && other < env.scopes.len() ==> bind(
            env,
            scope,
            name,
            value,
        ).scopes[other as int] == env.scopes[other as int],
{
}

/// A new scope sees what the scope around it sees.
pub proof fn lemma_enclosed_scope_sees_outer(env: EnvironmentModel, outer: nat, name: Seq<char>)
    requires
        outer < env.scopes.len(),
    ensures
        lookup(enclose(env, outer).scopes, env.scopes.len(), name) == lookup(
            env.scopes,
            outer,
            name,
        ),
{
    let after = enclose(env, outer).scopes;
    lemma_lookup_in_more_scopes(env.scopes, after, outer, name);
    assert(!after[env.scopes.len() as int].store.dom().contains(name));
}

/// What a scope sees does not change when more scopes are opened.
pub proof fn lemma_lookup_in_more_scopes(
    before: Seq<crate::eval::environment::ScopeModel>,
    after: Seq<crate::eval::environment::ScopeModel>,
    scope: nat,
    name: Seq<char>,
)
    requires
        scope < before.len() <= after.len(),
        forall|i: int| 0 <= i < before.len() ==> after[i] == before[i],
    ensures
        lookup(after, scope, name) == lookup(before, scope, name),
    decreases scope,
{
    if !before[scope as int].store.dom().contains(name) {
        match before[scope as int].outer {
            Some(outer) => {
                if outer < scope {
                    lemma_lookup_in_more_scopes(before, after, outer, name);
                }
            },
            None => {},
        }
    }
}

} // verus!

//! The functions that Monkey provides without a definition.

use std::rc::Rc;
use vstd::prelude::*;
use crate::eval::environment::{Environment, EnvironmentModel};
use crate::eval::error::EvaluationError;
use crate::eval::outcome;
use crate::eval::object::{
    lemma_objects_model_push, objects_model, share, write_object, Object, ObjectModel,
};
use crate::eval::semantics::{
    apply_builtin, builtin_first, builtin_last, builtin_len, builtin_push, builtin_rest,
    length_value, must_be_array, printed_lines, wrong_arguments,
};
use crate::text::{push_decimal, same_text};

verus! {

/// A built-in function.
#[derive(Debug, Clone, Copy, PartialEq, Eq)]
pub enum Builtin {
    /// The length of a string or of an array.
    Len,
    /// The first element of an array.
    First,
    /// The last element of an array.
    Last,
    /// A new array with all the elements of an array but the first.
    Rest,
    /// A new array with the elements of an array and one more behind them.
    Push,
    /// Prints its arguments, one per line.
    Puts,
}

/// The name of a built-in function.
pub open spec fn builtin_name(builtin: Builtin) -> Seq<char> {
    match builtin {
        Builtin::Len => "len"@,
        Builtin::First => "first"@,
        Builtin::Last => "last"@,
        Builtin::Rest => "rest"@,
        Builtin::Push => "push"@,
        Builtin::Puts => "puts"@,
    }
}

/// The built-in function of the given name, if there is one.
pub open spec fn builtin_named(name: Seq<char>) -> Option<Builtin> {
    if name == "len"@ {
        Some(Builtin::Len)
    } else if name == "first"@ {
        Some(Builtin::First)
    } else if name == "last"@ {
        Some(Builtin::Last)
    } else if name == "rest"@ {
        Some(Builtin::Rest)
    } else if name == "push"@ {
        Some(Builtin::Push)
    } else if name == "puts"@ {
        Some(Builtin::Puts)
    } else {
        None
    }
}

/// A length as an integer value.
fn length_object(n: usize) -> (object: Rc<Object>)
    ensures
        object@ == ObjectModel::Integer(length_value(n as nat)),
{
    let wide = n as u64;
    if wide > 0x7fff_ffff_ffff_ffffu64 {
        Rc::new(Object::Integer(i64::MAX))
    } else {
        Rc::new(Object::Integer(wide as i64))
    }
}

/// Handles on the values of `objects` from index `from` on.
fn share_from(objects: &[Rc<Object>], from: usize) -> (shared: Vec<Rc<Object>>)
    requires
        from <= objects@.len(),
    ensures
        objects_model(shared@) == objects_model(objects@).skip(from as int),
{
    let mut shared: Vec<Rc<Object>> = Vec::new();
    let mut i = from;
    while i < objects.len()
        invariant
            from <= i <= objects@.len(),
            shared@.len() == i - from,
            forall|j: int| 0 <= j < shared@.len() ==> shared@[j]@ == objects@[from + j]@,
        decreases objects@.len() - i,
    {
        shared.push(share(&objects[i]));
        i += 1;
    }
    assert(objects_model(shared@) =~= objects_model(objects@).skip(from as int));
    shared
}

/// The error of an argument that is no array.
fn must_be_array_error(builtin: Builtin, argument: &Object) -> (error: EvaluationError)
    ensures
        error@ == must_be_array(builtin, argument@),
{
    let mut message = String::from_str("argument to `");
    message.append(builtin.name());
    message.append("` must be ARRAY, got ");
    write_object(argument, &mut message);
    EvaluationError::new(message)
}

/// Verifies that a built-in function got as many arguments as it takes.
fn check_args_count(expected: usize, actual: usize) -> (r: Result<(), EvaluationError>)
    ensures
        match r {
            Ok(_) => expected == actual,
            Err(error) => expected != actual && error@ == wrong_arguments(
                expected as nat,
                actual as nat,
            ),
        },
{
    if expected == actual {
        Ok(())
    } else {
        let mut message = String::from_str("wrong number of arguments: expected=");
        push_decimal(&mut message, expected as u64);
        message.append(", got=");
        push_decimal(&mut message, actual as u64);
        Err(EvaluationError::new(message))
    }
}

/// `len`
fn apply_len(args: &[Rc<Object>]) -> (r: Result<Rc<Object>, EvaluationError>)
    ensures
        outcome(r) == builtin_len(objects_model(args@)),
{
    match check_args_count(1, args.len()) {
        Err(error) => {
            return Err(error);
        },
        Ok(_) => {},
    }
    assert(objects_model(args@)[0] == args@[0]@);
    match &*args[0] {
        Object::String(value) => Ok(length_object(value.as_str().unicode_len())),
        Object::Array(elements) => {
            assert(objects_model(elements@).len() == elements@.len());
            Ok(length_object(elements.len()))
        },
        other => {
            let mut message = String::from_str("argument to `len` not supported, got ");
            write_object(other, &mut message);
            Err(EvaluationError::new(message))
        },
    }
}

/// `first`
fn apply_first(args: &[Rc<Object>]) -> (r: Result<Rc<Object>, EvaluationError>)
    ensures
        outcome(r) == builtin_first(objects_model(args@)),
{
    match check_args_count(1, args.len()) {
        Err(error) => {
            return Err(error);
        },
        Ok(_) => {},
    }
    assert(objects_model(args@)[0] == args@[0]@);
    match &*args[0] {
        Object::Array(elements) => {
            assert(objects_model(elements@).len() == elements@.len());
            if elements.len() > 0 {
                assert(objects_model(elements@)[0] == elements@[0]@);
                Ok(share(&elements[0]))
            } else {
                Ok(Rc::new(Object::Null))
            }
        },
        other => Err(must_be_array_error(Builtin::First, other)),
    }
}

/// `last`
fn apply_last(args: &[Rc<Object>]) -> (r: Result<Rc<Object>, EvaluationError>)
    ensures
        outcome(r) == builtin_last(objects_model(args@)),
{
    match check_args_count(1, args.len()) {
        Err(error) => {
            return Err(error);
        },
        Ok(_) => {},
    }
    assert(objects_model(args@)[0] == args@[0]@);
    match &*args[0] {
        Object::Array(elements) => {
            assert(objects_model(elements@).len() == elements@.len());
            if elements.len() > 0 {
                assert(objects_model(elements@)[elements@.len() - 1] == elements@[elements@.len()
                    - 1]@);
                Ok(share(&elements[elements.len() - 1]))
            } else {
                Ok(Rc::new(Object::Null))
            }
        },
        other => Err(must_be_array_error(Builtin::Last, other)),
    }
}

/// `rest`
fn apply_rest(args: &[Rc<Object>]) -> (r: Result<Rc<Object>, EvaluationError>)
    ensures
        outcome(r) == builtin_rest(objects_model(args@)),
{
    match check_args_count(1, args.len()) {
        Err(error) => {
            return Err(error);
        },
        Ok(_) => {},
    }
    assert(objects_model(args@)[0] == args@[0]@);
    match &*args[0] {
        Object::Array(elements) => {
            assert(objects_model(elements@).len() == elements@.len());
            if elements.len() > 0 {
                let rest = share_from(elements.as_slice(), 1);
                Ok(Rc::new(Object::Array(rest)))
            } else {
                Ok(Rc::new(Object::Null))
            }
        },
        other => Err(must_be_array_error(Builtin::Rest, other)),
    }
}

/// `push`
fn apply_push(args: &[Rc<Object>]) -> (r: Result<Rc<Object>, EvaluationError>)
    ensures
        outcome(r) == builtin_push(objects_model(args@)),
{
    match check_args_count(2, args.len()) {
        Err(error) => {
            return Err(error);
        },
        Ok(_) => {},
    }
    assert(objects_model(args@)[0] == args@[0]@);
    assert(objects_model(args@)[1] == args@[1]@);
    match &*args[0] {
        Object::Array(elements) => {
            let mut extended = share_from(elements.as_slice(), 0);
            proof {
                assert(objects_model(elements@).skip(0) =~= objects_model(elements@));
                lemma_objects_model_push(extended@, args@[1]);
            }
            extended.push(share(&args[1]));
            Ok(Rc::new(Object::Array(extended)))
        },
        other => Err(must_be_array_error(Builtin::Push, other)),
    }
}

/// `puts`
fn apply_puts(args: &[Rc<Object>], env: &mut Environment)
    requires
        old(env).wf(),
    ensures
        final(env).wf(),
        final(env)@ == (EnvironmentModel {
            output: old(env)@.output + printed_lines(objects_model(args@)),
            ..old(env)@
        }),
{
    let ghost all = objects_model(args@);
    let ghost lines = printed_lines(all);
    let mut i: usize = 0;
    proof {
        assert(old(env)@.output + lines.take(0) =~= old(env)@.output);
    }
    while i < args.len()
        invariant
            i <= args@.len(),
            env.wf(),
            all == objects_model(args@),
            lines == printed_lines(all),
            env@ == (EnvironmentModel {
                output: old(env)@.output + lines.take(i as int),
                ..old(env)@
            }),
        decreases args@.len() - i,
    {
        let line = args[i].to_string();
        env.print_line(line);
        proof {
            assert(old(env)@.output + lines.take(i + 1) =~= (old(env)@.output + lines.take(
                i as int,
            )).push(lines[i as int]));
        }
        i += 1;
    }
    proof {
        assert(lines.take(args@.len() as int) =~= lines);
    }
}

impl Builtin {
    /// Applies the function to `args`. What `puts` prints is added, line by
    /// line, to what `env` has printed; nothing else of `env` changes.
    pub fn apply(&self, args: &[Rc<Object>], env: &mut Environment) -> (r: Result<
        Rc<Object>,
        EvaluationError,
    >)
        requires
            old(env).wf(),
        ensures
            final(env).wf(),
            outcome(r) == apply_builtin(*self, objects_model(args@), old(env)@.output).0,
            final(env)@ == (EnvironmentModel {
                output: apply_builtin(*self, objects_model(args@), old(env)@.output).1,
                ..old(env)@
            }),
    {
        match self {
            Builtin::Len => apply_len(args),
            Builtin::First => apply_first(args),
            Builtin::Last => apply_last(args),
            Builtin::Rest => apply_rest(args),
            Builtin::Push => apply_push(args),
            Builtin::Puts => {
                apply_puts(args, env);
                Ok(Rc::new(Object::Null))
            },
        }
    }

    /// The function's name.
    pub fn name(&self) -> (name: &'static str)
        ensures
            name@ == builtin_name(*self),
    {
        match self {
            Builtin::Len => "len",
            Builtin::First => "first",
            Builtin::Last => "last",
            Builtin::Rest => "rest",
            Builtin::Push => "push",
            Builtin::Puts => "puts",
        }
    }

    /// The function's name.
    pub fn to_string(&self) -> (name: String)
        ensures
            name@ == builtin_name(*self),
    {
        String::from_str(self.name())
    }

    /// The built-in function named `name`, as an object, if there is one.
    pub fn lookup(name: &str) -> (found: Option<Object>)
        ensures
            match builtin_named(name@) {
                Some(builtin) => found is Some && found->Some_0@ == ObjectModel::Builtin(builtin),
                None => found is None,
            },
    {
        if same_text(name, "len") {
            Some(Object::Builtin(Builtin::Len))
        } else if same_text(name, "first") {
            Some(Object::Builtin(Builtin::First))
        } else if same_text(name, "last") {
            Some(Object::Builtin(Builtin::Last))
        } else if same_text(name, "rest") {
            Some(Object::Builtin(Builtin::Rest))
        } else if same_text(name, "push") {
            Some(Object::Builtin(Builtin::Push))
        } else if same_text(name, "puts") {
            Some(Object::Builtin(Builtin::Puts))
        } else {
            None
        }
    }
}

} // verus!

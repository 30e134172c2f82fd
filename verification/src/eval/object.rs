//! The values of Monkey: what evaluation produces.

use std::rc::Rc;
use vstd::prelude::*;
use crate::eval::builtin::{builtin_name, Builtin};
use crate::parser::ast::{
    clone_names, clone_statements, names_model, names_text, statements_model, statements_text,
    write_names, write_statements, BlockStatement, StatementModel,
};
use crate::text::{bool_text, push_bool, push_signed_decimal, signed_decimal};

verus! {

broadcast use {vstd::std_specs::vec::group_vec_axioms, vstd::seq::group_seq_axioms};

/// A value.
#[derive(Debug, PartialEq, Eq)]
pub enum Object {
    /// A signed 64-bit integer.
    Integer(i64),
    /// A boolean.
    Boolean(bool),
    /// A string.
    String(String),
    /// The absence of a value.
    Null,
    /// A value on its way out of a function: a `return` statement wraps its
    /// value so, and the call unwraps it.
    ReturnValue(Rc<Object>),
    /// A function: its parameters, its body, and the scope in which it was
    /// defined, by its handle in the environment.
    Function(Vec<String>, BlockStatement, usize),
    /// A built-in function.
    Builtin(Builtin),
    /// An array: an ordered list of values.
    Array(Vec<Rc<Object>>),
    /// A hash: pairs of a key and a value, in the order in which the keys
    /// were first inserted.
    Hash(Vec<(HashableObject, Rc<Object>)>),
}

/// A value that can be the key of a hash.
#[derive(Debug, PartialEq, Eq, Hash)]
pub enum HashableObject {
    Integer(i64),
    Boolean(bool),
    String(String),
}

/// The mathematical value of an [`Object`].
pub ghost enum ObjectModel {
    Integer(int),
    Boolean(bool),
    String(Seq<char>),
    Null,
    ReturnValue(Box<ObjectModel>),
    Function(Seq<Seq<char>>, Seq<StatementModel>, nat),
    Builtin(Builtin),
    Array(Seq<ObjectModel>),
    Hash(Seq<(KeyModel, ObjectModel)>),
}

/// The mathematical value of a [`HashableObject`].
pub ghost enum KeyModel {
    Integer(int),
    Boolean(bool),
    String(Seq<char>),
}

impl View for HashableObject {
    type V = KeyModel;

    open spec fn view(&self) -> KeyModel {
        match self {
            HashableObject::Integer(value) => KeyModel::Integer(*value as int),
            HashableObject::Boolean(value) => KeyModel::Boolean(*value),
            HashableObject::String(value) => KeyModel::String(value@),
        }
    }
}

/// The model of a list of values: the model of each, in order.
pub open spec fn objects_model(objects: Seq<Rc<Object>>) -> Seq<ObjectModel>
    decreases objects,
{
    Seq::new(
        objects.len(),
        |i: int|
            if 0 <= i < objects.len() {
                object_model(*objects[i])
            } else {
                arbitrary()
            },
    )
}

/// The model of the pairs of a hash.
pub open spec fn entries_model(entries: Seq<(HashableObject, Rc<Object>)>) -> Seq<
    (KeyModel, ObjectModel),
>
    decreases entries,
{
    Seq::new(
        entries.len(),
        |i: int|
            if 0 <= i < entries.len() {
                (entries[i].0@, object_model(*entries[i].1))
            } else {
                arbitrary()
            },
    )
}

/// The model of a value.
pub open spec fn object_model(object: Object) -> ObjectModel
    decreases object,
{
    match object {
        Object::Integer(value) => ObjectModel::Integer(value as int),
        Object::Boolean(value) => ObjectModel::Boolean(value),
        Object::String(value) => ObjectModel::String(value@),
        Object::Null => ObjectModel::Null,
        Object::ReturnValue(value) => ObjectModel::ReturnValue(Box::new(object_model(*value))),
        Object::Function(parameters, body, scope) => ObjectModel::Function(
            names_model(parameters@),
            statements_model(body@),
            scope as nat,
        ),
        Object::Builtin(builtin) => ObjectModel::Builtin(builtin),
        Object::Array(elements) => ObjectModel::Array(objects_model(elements@)),
        Object::Hash(entries) => ObjectModel::Hash(entries_model(entries@)),
    }
}

impl View for Object {
    type V = ObjectModel;

    open spec fn view(&self) -> ObjectModel {
        object_model(*self)
    }
}

/// The model of a list with one more value is the model of the list with the
/// value's model behind it.
pub proof fn lemma_objects_model_push(objects: Seq<Rc<Object>>, object: Rc<Object>)
    ensures
        objects_model(objects.push(object)) == objects_model(objects).push(object@),
{
    assert(objects_model(objects.push(object)) =~= objects_model(objects).push(object@));
}

/// The model of an empty list of values is empty.
pub proof fn lemma_objects_model_empty()
    ensures
        objects_model(Seq::<Rc<Object>>::empty()) == Seq::<ObjectModel>::empty(),
        entries_model(Seq::<(HashableObject, Rc<Object>)>::empty()) == Seq::<
            (KeyModel, ObjectModel),
        >::empty(),
{
    assert(objects_model(Seq::<Rc<Object>>::empty()) =~= Seq::<ObjectModel>::empty());
    assert(entries_model(Seq::<(HashableObject, Rc<Object>)>::empty()) =~= Seq::<
        (KeyModel, ObjectModel),
    >::empty());
}

/// The key that a value gives, if it can be one: an integer, a boolean or a
/// string.
pub open spec fn hashable(object: ObjectModel) -> Option<KeyModel> {
    match object {
        ObjectModel::Integer(value) => Some(KeyModel::Integer(value)),
        ObjectModel::Boolean(value) => Some(KeyModel::Boolean(value)),
        ObjectModel::String(value) => Some(KeyModel::String(value)),
        _ => None,
    }
}

/// The value that a hash holds for `key`, if it holds one: that of the first
/// pair with this key.
pub open spec fn entry_value(entries: Seq<(KeyModel, ObjectModel)>, key: KeyModel) -> Option<
    ObjectModel,
>
    decreases entries.len(),
{
    if entries.len() == 0 {
        None
    } else if entries[0].0 == key {
        Some(entries[0].1)
    } else {
        entry_value(entries.drop_first(), key)
    }
}

/// The pairs of a hash after `value` was stored for `key`: the first pair
/// with this key holds the new value, and where there was none, a new pair
/// stands at the end.
pub open spec fn with_entry(
    entries: Seq<(KeyModel, ObjectModel)>,
    key: KeyModel,
    value: ObjectModel,
) -> Seq<(KeyModel, ObjectModel)>
    decreases entries.len(),
{
    if entries.len() == 0 {
        seq![(key, value)]
    } else if entries[0].0 == key {
        entries.update(0, (key, value))
    } else {
        seq![entries[0]] + with_entry(entries.drop_first(), key, value)
    }
}

/// No key occurs twice among the pairs of a hash.
pub open spec fn distinct_keys(entries: Seq<(KeyModel, ObjectModel)>) -> bool {
    forall|i: int, j: int|
        0 <= i < entries.len() && 0 <= j < entries.len() && i != j ==> entries[i].0
            != entries[j].0
}

/// Where no pair before index `i` has the key, looking the key up is looking
/// it up from `i` on, and storing a value for it leaves the pairs before `i`
/// as they are.
pub proof fn lemma_entries_skip(
    entries: Seq<(KeyModel, ObjectModel)>,
    key: KeyModel,
    value: ObjectModel,
    i: int,
)
    requires
        0 <= i <= entries.len(),
        forall|j: int| 0 <= j < i ==> entries[j].0 != key,
    ensures
        entry_value(entries, key) == entry_value(entries.skip(i), key),
        with_entry(entries, key, value) == entries.take(i) + with_entry(
            entries.skip(i),
            key,
            value,
        ),
    decreases i,
{
    if i == 0 {
        assert(entries.skip(0) =~= entries);
        assert(entries.take(0) + with_entry(entries, key, value) =~= with_entry(
            entries,
            key,
            value,
        ));
    } else {
        let rest = entries.drop_first();
        assert forall|j: int| 0 <= j < i - 1 implies rest[j].0 != key by {
            assert(rest[j] == entries[j + 1]);
        }
        lemma_entries_skip(rest, key, value, i - 1);
        assert(rest.skip(i - 1) =~= entries.skip(i));
        assert(seq![entries[0]] + (rest.take(i - 1) + with_entry(entries.skip(i), key, value))
            =~= entries.take(i) + with_entry(entries.skip(i), key, value));
    }
}

/// Storing a value for a key keeps the keys distinct.
pub proof fn lemma_with_entry_distinct(
    entries: Seq<(KeyModel, ObjectModel)>,
    key: KeyModel,
    value: ObjectModel,
)
    requires
        distinct_keys(entries),
    ensures
        distinct_keys(with_entry(entries, key, value)),
        with_entry(entries, key, value).len() >= entries.len(),
        forall|i: int|
            0 <= i < entries.len() ==> (#[trigger] with_entry(entries, key, value)[i]).0
                == entries[i].0,
        forall|i: int|
            entries.len() <= i < with_entry(entries, key, value).len() ==> (#[trigger] with_entry(
                entries,
                key,
                value,
            )[i]).0 == key && forall|j: int| 0 <= j < entries.len() ==> entries[j].0 != key,
    decreases entries.len(),
{
    if entries.len() == 0 {
    } else if entries[0].0 == key {
    } else {
        let rest = entries.drop_first();
        assert forall|i: int, j: int|
            0 <= i < rest.len() && 0 <= j < rest.len() && i != j implies rest[i].0
            != rest[j].0 by {
            assert(rest[i] == entries[i + 1]);
            assert(rest[j] == entries[j + 1]);
        }
        lemma_with_entry_distinct(rest, key, value);
        let after_rest = with_entry(rest, key, value);
        let after = with_entry(entries, key, value);
        assert(after == seq![entries[0]] + after_rest);
        assert forall|i: int| 0 < i < after.len() implies #[trigger] after[i] == after_rest[i
            - 1] by {}
        assert forall|i: int| 0 <= i < entries.len() implies (#[trigger] after[i]).0
            == entries[i].0 by {
            if i > 0 {
                assert(after[i] == after_rest[i - 1]);
                assert(rest[i - 1] == entries[i]);
            }
        }
        assert forall|i: int| entries.len() <= i < after.len() implies (#[trigger] after[i]).0
            == key && forall|j: int| 0 <= j < entries.len() ==> entries[j].0 != key by {
            assert(after[i] == after_rest[i - 1]);
            assert forall|j: int| 0 <= j < entries.len() implies entries[j].0 != key by {
                if j > 0 {
                    assert(rest[j - 1] == entries[j]);
                }
            }
        }
        assert forall|i: int, j: int|
            0 <= i < after.len() && 0 <= j < after.len() && i != j implies after[i].0
            != after[j].0 by {
            if i > 0 {
                assert(after[i] == after_rest[i - 1]);
            }
            if j > 0 {
                assert(after[j] == after_rest[j - 1]);
            }
            if i == 0 && j > 0 {
                if j - 1 < rest.len() {
                    assert(after_rest[j - 1].0 == rest[j - 1].0);
                    assert(rest[j - 1] == entries[j]);
                }
            }
            if j == 0 && i > 0 {
                if i - 1 < rest.len() {
                    assert(after_rest[i - 1].0 == rest[i - 1].0);
                    assert(rest[i - 1] == entries[i]);
                }
            }
        }
    }
}

/// The text of a key.
pub open spec fn key_text(key: KeyModel) -> Seq<char> {
    match key {
        KeyModel::Integer(value) => signed_decimal(value),
        KeyModel::Boolean(value) => bool_text(value),
        KeyModel::String(value) => value,
    }
}

/// The text of a list of values, joined by `, `.
pub open spec fn objects_text(objects: Seq<ObjectModel>) -> Seq<char>
    decreases objects,
{
    if objects.len() == 0 {
        Seq::empty()
    } else if objects.len() == 1 {
        object_text(objects[0])
    } else {
        objects_text(objects.drop_last()) + ", "@ + object_text(objects.last())
    }
}

/// The text of one pair of a hash: `<key>: <value>`.
pub open spec fn entry_text(entry: (KeyModel, ObjectModel)) -> Seq<char>
    decreases entry,
{
    key_text(entry.0) + ": "@ + object_text(entry.1)
}

/// The text of the pairs of a hash, joined by `, `.
pub open spec fn entries_text(entries: Seq<(KeyModel, ObjectModel)>) -> Seq<char>
    decreases entries,
{
    if entries.len() == 0 {
        Seq::empty()
    } else if entries.len() == 1 {
        entry_text(entries[0])
    } else {
        entries_text(entries.drop_last()) + ", "@ + entry_text(entries.last())
    }
}

/// The text that a value is displayed as. A string shows its characters, a
/// returned value the value itself, a function its source, a built-in
/// function its name.
pub open spec fn object_text(object: ObjectModel) -> Seq<char>
    decreases object,
{
    match object {
        ObjectModel::Integer(value) => signed_decimal(value),
        ObjectModel::Boolean(value) => bool_text(value),
        ObjectModel::String(value) => value,
        ObjectModel::Null => "null"@,
        ObjectModel::ReturnValue(value) => object_text(*value),
        ObjectModel::Function(parameters, body, _) => "fn("@ + names_text(parameters) + ") {\n "@
            + statements_text(body) + " \n}"@,
        ObjectModel::Builtin(builtin) => builtin_name(builtin),
        ObjectModel::Array(elements) => "["@ + objects_text(elements) + "]"@,
        ObjectModel::Hash(entries) => "{"@ + entries_text(entries) + "}"@,
    }
}

/// Another handle on the same value.
///
/// Trusted: states of `Rc::clone` that the new handle points to the value
/// that `object` points to.
#[verifier::external_body]
pub(crate) fn share(object: &Rc<Object>) -> (shared: Rc<Object>)
    ensures
        shared == *object,
{
    Rc::clone(object)
}

impl Clone for HashableObject {
    fn clone(&self) -> (copy: Self)
        ensures
            copy@ == self@,
    {
        match self {
            HashableObject::Integer(value) => HashableObject::Integer(*value),
            HashableObject::Boolean(value) => HashableObject::Boolean(*value),
            HashableObject::String(value) => HashableObject::String(value.clone()),
        }
    }
}

/// Handles on the values of `objects`.
fn share_all(objects: &Vec<Rc<Object>>) -> (shared: Vec<Rc<Object>>)
    ensures
        objects_model(shared@) == objects_model(objects@),
{
    let mut shared: Vec<Rc<Object>> = Vec::new();
    let mut i: usize = 0;
    while i < objects.len()
        invariant
            i <= objects@.len(),
            shared@.len() == i,
            forall|j: int| 0 <= j < i ==> shared@[j]@ == objects@[j]@,
        decreases objects@.len() - i,
    {
        shared.push(share(&objects[i]));
        i += 1;
    }
    assert(objects_model(shared@) =~= objects_model(objects@));
    shared
}

/// The pairs of a hash, with copies of the keys and handles on the values.
fn share_entries(entries: &Vec<(HashableObject, Rc<Object>)>) -> (shared: Vec<
    (HashableObject, Rc<Object>),
>)
    ensures
        entries_model(shared@) == entries_model(entries@),
{
    let mut shared: Vec<(HashableObject, Rc<Object>)> = Vec::new();
    let mut i: usize = 0;
    while i < entries.len()
        invariant
            i <= entries@.len(),
            shared@.len() == i,
            forall|j: int|
                0 <= j < i ==> shared@[j].0@ == entries@[j].0@ && shared@[j].1@ == entries@[j].1@,
        decreases entries@.len() - i,
    {
        shared.push((entries[i].0.clone(), share(&entries[i].1)));
        i += 1;
    }
    assert(entries_model(shared@) =~= entries_model(entries@));
    shared
}

impl Clone for Object {
    /// A copy of the value. What the value holds by handle, the elements of
    /// an array and the values of a hash, the copy shares with it.
    fn clone(&self) -> (copy: Self)
        ensures
            copy@ == self@,
    {
        match self {
            Object::Integer(value) => Object::Integer(*value),
            Object::Boolean(value) => Object::Boolean(*value),
            Object::String(value) => Object::String(value.clone()),
            Object::Null => Object::Null,
            Object::ReturnValue(value) => Object::ReturnValue(share(value)),
            Object::Function(parameters, body, scope) => Object::Function(
                clone_names(parameters),
                clone_statements(body),
                *scope,
            ),
            Object::Builtin(builtin) => Object::Builtin(*builtin),
            Object::Array(elements) => Object::Array(share_all(elements)),
            Object::Hash(entries) => Object::Hash(share_entries(entries)),
        }
    }
}

impl HashableObject {
    /// Whether `self` and `other` are the same key.
    pub fn same(&self, other: &HashableObject) -> (r: bool)
        ensures
            r == (self@ == other@),
    {
        match (self, other) {
            (HashableObject::Integer(a), HashableObject::Integer(b)) => *a == *b,
            (HashableObject::Boolean(a), HashableObject::Boolean(b)) => *a == *b,
            (HashableObject::String(a), HashableObject::String(b)) => *a == *b,
            _ => false,
        }
    }

    /// Appends the key's text to `out`.
    pub fn write_to(&self, out: &mut String)
        ensures
            final(out)@ == old(out)@ + key_text(self@),
    {
        match self {
            HashableObject::Integer(value) => push_signed_decimal(out, *value),
            HashableObject::Boolean(value) => push_bool(out, *value),
            HashableObject::String(value) => out.append(value.as_str()),
        }
    }

    /// The key's text.
    pub fn to_string(&self) -> (text: String)
        ensures
            text@ == key_text(self@),
    {
        let mut text = String::new();
        self.write_to(&mut text);
        assert(text@ =~= key_text(self@));
        text
    }
}

/// Appends the text of `objects`, joined by `, `, to `out`.
#[verifier::loop_isolation(false)]
pub fn write_objects(objects: &Vec<Rc<Object>>, out: &mut String)
    ensures
        final(out)@ == old(out)@ + objects_text(objects_model(objects@)),
    decreases objects,
{
    let ghost all = objects_model(objects@);
    let mut i: usize = 0;
    while i < objects.len()
        invariant
            i <= objects.len(),
            out@ == old(out)@ + objects_text(all.take(i as int)),
        decreases objects.len() - i,
    {
        if i > 0 {
            out.append(", ");
        }
        write_object(&objects[i], out);
        proof {
            assert(all.take(i + 1).drop_last() =~= all.take(i as int));
            assert(out@ =~= old(out)@ + objects_text(all.take(i + 1)));
        }
        i += 1;
    }
    assert(all.take(objects.len() as int) =~= all);
}

/// Appends the text of the pairs of a hash, joined by `, `, to `out`.
#[verifier::loop_isolation(false)]
pub fn write_entries(entries: &Vec<(HashableObject, Rc<Object>)>, out: &mut String)
    ensures
        final(out)@ == old(out)@ + entries_text(entries_model(entries@)),
    decreases entries,
{
    let ghost all = entries_model(entries@);
    let mut i: usize = 0;
    while i < entries.len()
        invariant
            i <= entries.len(),
            out@ == old(out)@ + entries_text(all.take(i as int)),
        decreases entries.len() - i,
    {
        if i > 0 {
            out.append(", ");
        }
        let ghost head = out@;
        entries[i].0.write_to(out);
        out.append(": ");
        write_object(&entries[i].1, out);
        proof {
            assert(all.take(i + 1).drop_last() =~= all.take(i as int));
            assert(all.take(i + 1).last() == (entries@[i as int].0@, entries@[i as int].1@));
            assert(out@ =~= head + entry_text(all.take(i + 1).last()));
            assert(out@ =~= old(out)@ + entries_text(all.take(i + 1)));
        }
        i += 1;
    }
    assert(all.take(entries.len() as int) =~= all);
}

/// Appends the text of `object` to `out`.
pub fn write_object(object: &Object, out: &mut String)
    ensures
        final(out)@ == old(out)@ + object_text(object@),
    decreases object,
{
    match object {
        Object::Integer(value) => push_signed_decimal(out, *value),
        Object::Boolean(value) => push_bool(out, *value),
        Object::String(value) => out.append(value.as_str()),
        Object::Null => out.append("null"),
        Object::ReturnValue(value) => write_object(value, out),
        Object::Function(parameters, body, _scope) => {
            out.append("fn(");
            write_names(parameters, out);
            out.append(") {\n ");
            write_statements(body, out);
            out.append(" \n}");
            assert(final(out)@ =~= old(out)@ + object_text(object@));
        },
        Object::Builtin(builtin) => out.append(builtin.name()),
        Object::Array(elements) => {
            out.append("[");
            write_objects(elements, out);
            out.append("]");
            assert(final(out)@ =~= old(out)@ + object_text(object@));
        },
        Object::Hash(entries) => {
            out.append("{");
            write_entries(entries, out);
            out.append("}");
            assert(final(out)@ =~= old(out)@ + object_text(object@));
        },
    }
}

/// The value that the pairs of a hash hold for `key`, if any.
pub fn hash_get(entries: &Vec<(HashableObject, Rc<Object>)>, key: &HashableObject) -> (value:
    Option<Rc<Object>>)
    ensures
        match entry_value(entries_model(entries@), key@) {
            Some(model) => value is Some && value->Some_0@ == model,
            None => value is None,
        },
{
    let ghost all = entries_model(entries@);
    let mut i: usize = 0;
    while i < entries.len()
        invariant
            i <= entries.len(),
            all == entries_model(entries@),
            forall|j: int| 0 <= j < i ==> all[j].0 != key@,
        decreases entries.len() - i,
    {
        if entries[i].0.same(key) {
            proof {
                lemma_entries_skip(all, key@, ObjectModel::Null, i as int);
                assert(all.skip(i as int)[0] == all[i as int]);
            }
            return Some(share(&entries[i].1));
        }
        i += 1;
    }
    proof {
        lemma_entries_skip(all, key@, ObjectModel::Null, i as int);
        assert(all.skip(i as int).len() == 0);
    }
    None
}

/// Stores `value` for `key` among the pairs of a hash: in place of the value
/// that the key had, or else in a new pair at the end.
pub fn hash_insert(
    entries: &mut Vec<(HashableObject, Rc<Object>)>,
    key: HashableObject,
    value: Rc<Object>,
)
    ensures
        entries_model(final(entries)@) == with_entry(entries_model(old(entries)@), key@, value@),
{
    let ghost all = entries_model(entries@);
    let mut i: usize = 0;
    while i < entries.len()
        invariant
            i <= entries.len(),
            entries@ == old(entries)@,
            all == entries_model(entries@),
            forall|j: int| 0 <= j < i ==> all[j].0 != key@,
        decreases entries.len() - i,
    {
        if entries[i].0.same(&key) {
            proof {
                lemma_entries_skip(all, key@, value@, i as int);
                let tail = all.skip(i as int);
                assert(tail[0] == all[i as int]);
                assert(all.take(i as int) + tail.update(0, (key@, value@)) =~= all.update(
                    i as int,
                    (key@, value@),
                ));
            }
            entries[i] = (key, value);
            assert(entries_model(entries@) =~= all.update(i as int, (key@, value@)));
            return ;
        }
        i += 1;
    }
    proof {
        lemma_entries_skip(all, key@, value@, i as int);
        assert(all.skip(i as int).len() == 0);
        assert(all.take(i as int) + seq![(key@, value@)] =~= all.push((key@, value@)));
    }
    entries.push((key, value));
    assert(entries_model(entries@) =~= all.push((key@, value@)));
}

impl Object {
    /// The value as a key of a hash, if it can be one.
    pub fn as_hashable(&self) -> (key: Option<HashableObject>)
        ensures
            match hashable(self@) {
                Some(model) => key is Some && key->Some_0@ == model,
                None => key is None,
            },
    {
        match self {
            Object::Integer(value) => Some(HashableObject::Integer(*value)),
            Object::Boolean(value) => Some(HashableObject::Boolean(*value)),
            Object::String(value) => Some(HashableObject::String(value.clone())),
            _ => None,
        }
    }

    /// The text that the value is displayed as.
    pub fn to_string(&self) -> (text: String)
        ensures
            text@ == object_text(self@),
    {
        let mut text = String::new();
        write_object(self, &mut text);
        assert(text@ =~= object_text(self@));
        text
    }
}

} // verus!

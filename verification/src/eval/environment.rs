//! The environment of a session: every scope that evaluation has opened, and
//! what the program has printed.
//!
//! A scope maps names to values and may lie inside an outer scope. Scopes are
//! named by handles: the root scope, which a session starts with, has the
//! handle `ROOT_SCOPE`, and each call of a function opens a new scope inside
//! the scope that the function was defined in. A function value holds the
//! handle of that scope, so that several functions can share one scope and
//! see each other's later bindings in it.

use std::rc::Rc;
use vstd::prelude::*;
use crate::eval::object::{share, Object, ObjectModel};

verus! {

/// The handle of the scope that a session starts with.
pub const ROOT_SCOPE: usize = 0;

/// How deep calls may nest, unless a session is given another limit.
pub const DEFAULT_CALL_DEPTH: usize = 500;

/// A scope: its bindings, and the handle of the scope around it.
#[derive(Debug, PartialEq, Eq)]
pub struct Scope {
    store: Vec<(String, Rc<Object>)>,
    outer: Option<usize>,
}

/// The scopes of a session and the lines that it has printed.
#[derive(Debug, PartialEq, Eq)]
pub struct Environment {
    /// The scopes, each at the index that is its handle.
    scopes: Vec<Scope>,
    /// The lines printed and not yet taken.
    output: Vec<String>,
    /// How deep calls may nest.
    call_depth: usize,
}

/// The mathematical value of a scope: a map from names to values, and the
/// handle of the outer scope.
pub ghost struct ScopeModel {
    pub store: Map<Seq<char>, ObjectModel>,
    pub outer: Option<nat>,
}

/// The mathematical value of an [`Environment`].
pub ghost struct EnvironmentModel {
    pub scopes: Seq<ScopeModel>,
    pub output: Seq<Seq<char>>,
    pub call_depth: nat,
}

/// The environment that a session starts with: an empty root scope and
/// nothing printed.
pub open spec fn initial_environment() -> EnvironmentModel {
    EnvironmentModel {
        scopes: seq![ScopeModel { store: Map::empty(), outer: None }],
        output: Seq::empty(),
        call_depth: DEFAULT_CALL_DEPTH as nat,
    }
}

/// The value that `name` is bound to as seen from `scope`: the binding of the
/// innermost scope that has one, going outward from `scope`. An outer scope
/// is always one that was opened earlier.
pub open spec fn lookup(scopes: Seq<ScopeModel>, scope: nat, name: Seq<char>) -> Option<
    ObjectModel,
>
    decreases scope,
{
    if scope >= scopes.len() {
        None
    } else if scopes[scope as int].store.dom().contains(name) {
        Some(scopes[scope as int].store[name])
    } else {
        match scopes[scope as int].outer {
            Some(outer) => if outer < scope {
                lookup(scopes, outer, name)
            } else {
                None
            },
            None => None,
        }
    }
}

/// The environment with `name` bound to `value` in `scope`, and in no other
/// scope. A handle that names no scope changes nothing.
pub open spec fn bind(env: EnvironmentModel, scope: nat, name: Seq<char>, value: ObjectModel)
    -> EnvironmentModel {
    if scope < env.scopes.len() {
        EnvironmentModel {
            scopes: env.scopes.update(
                scope as int,
                ScopeModel {
                    store: env.scopes[scope as int].store.insert(name, value),
                    outer: env.scopes[scope as int].outer,
                },
            ),
            ..env
        }
    } else {
        env
    }
}

/// The environment with one more scope, empty, inside the scope `outer`. Its
/// handle is the number of scopes before. A handle that names no scope gives
/// a scope with nothing around it.
pub open spec fn enclose(env: EnvironmentModel, outer: nat) -> EnvironmentModel {
    EnvironmentModel {
        scopes: env.scopes.push(
            ScopeModel {
                store: Map::empty(),
                outer: if outer < env.scopes.len() {
                    Some(outer)
                } else {
                    None
                },
            },
        ),
        ..env
    }
}

/// The environment with one more line printed.
pub open spec fn print(env: EnvironmentModel, line: Seq<char>) -> EnvironmentModel {
    EnvironmentModel { output: env.output.push(line), ..env }
}

/// The characters of each of a list of lines.
pub open spec fn lines_model(lines: Seq<String>) -> Seq<Seq<char>> {
    Seq::new(lines.len(), |i: int| lines[i]@)
}

/// Whether `name` is bound at index `i` of `store`.
spec fn bound_at(store: Seq<(String, Rc<Object>)>, name: Seq<char>, i: int) -> bool {
    0 <= i < store.len() && store[i].0@ == name
}

/// No name is bound twice in `store`.
spec fn distinct_names(store: Seq<(String, Rc<Object>)>) -> bool {
    forall|i: int, j: int|
        0 <= i < store.len() && 0 <= j < store.len() && i != j ==> store[i].0@ != store[j].0@
}

/// The map that a list of bindings stands for.
spec fn store_model(store: Seq<(String, Rc<Object>)>) -> Map<Seq<char>, ObjectModel> {
    Map::new(
        |name: Seq<char>| exists|i: int| bound_at(store, name, i),
        |name: Seq<char>| store[choose|i: int| bound_at(store, name, i)].1@,
    )
}

/// A name bound at index `i` is mapped to the value there.
proof fn lemma_store_found(store: Seq<(String, Rc<Object>)>, i: int)
    requires
        distinct_names(store),
        0 <= i < store.len(),
    ensures
        store_model(store).dom().contains(store[i].0@),
        store_model(store)[store[i].0@] == store[i].1@,
{
    let name = store[i].0@;
    assert(bound_at(store, name, i));
    let j = choose|j: int| bound_at(store, name, j);
    assert(j == i);
}

/// A name bound nowhere is not mapped.
proof fn lemma_store_missing(store: Seq<(String, Rc<Object>)>, name: Seq<char>)
    requires
        forall|i: int| 0 <= i < store.len() ==> store[i].0@ != name,
    ensures
        !store_model(store).dom().contains(name),
{
    if store_model(store).dom().contains(name) {
        let j = choose|j: int| bound_at(store, name, j);
        assert(bound_at(store, name, j));
    }
}

/// Replacing the value bound to a name updates the map at that name.
proof fn lemma_store_replaced(store: Seq<(String, Rc<Object>)>, i: int, key: String, value: Rc<Object>)
    requires
        distinct_names(store),
        0 <= i < store.len(),
        store[i].0@ == key@,
    ensures
        distinct_names(store.update(i, (key, value))),
        store_model(store.update(i, (key, value))) == store_model(store).insert(
            key@,
            value@,
        ),
{
    let after = store.update(i, (key, value));
    assert(distinct_names(after)) by {
        assert forall|a: int, b: int|
            0 <= a < after.len() && 0 <= b < after.len() && a != b implies after[a].0@
            != after[b].0@ by {
            assert(after[a].0@ == store[a].0@);
            assert(after[b].0@ == store[b].0@);
        }
    }
    let left = store_model(after);
    let right = store_model(store).insert(key@, value@);
    assert forall|name: Seq<char>| left.dom().contains(name) <==> right.dom().contains(
        name,
    ) by {
        if left.dom().contains(name) {
            let j = choose|j: int| bound_at(after, name, j);
            assert(bound_at(after, name, j));
            if j != i {
                assert(bound_at(store, name, j));
            }
        }
        if right.dom().contains(name) {
            if name == key@ {
                assert(bound_at(after, name, i));
            } else {
                let j = choose|j: int| bound_at(store, name, j);
                assert(bound_at(store, name, j));
                assert(bound_at(after, name, j));
            }
        }
    }
    assert forall|name: Seq<char>| left.dom().contains(name) implies left[name]
        == right[name] by {
        let j = choose|j: int| bound_at(after, name, j);
        assert(bound_at(after, name, j));
        lemma_store_found(after, j);
        if j != i {
            assert(store[j].0@ == name);
            lemma_store_found(store, j);
        }
    }
    assert(left =~= right);
}

/// Adding a binding for a name bound nowhere adds the name to the map.
proof fn lemma_store_pushed(store: Seq<(String, Rc<Object>)>, key: String, value: Rc<Object>)
    requires
        distinct_names(store),
        forall|i: int| 0 <= i < store.len() ==> store[i].0@ != key@,
    ensures
        distinct_names(store.push((key, value))),
        store_model(store.push((key, value))) == store_model(store).insert(key@, value@),
{
    let after = store.push((key, value));
    let left = store_model(after);
    let right = store_model(store).insert(key@, value@);
    assert forall|name: Seq<char>| left.dom().contains(name) <==> right.dom().contains(
        name,
    ) by {
        if left.dom().contains(name) {
            let j = choose|j: int| bound_at(after, name, j);
            assert(bound_at(after, name, j));
            if j < store.len() {
                assert(bound_at(store, name, j));
            }
        }
        if right.dom().contains(name) {
            if name == key@ {
                assert(bound_at(after, name, store.len() as int));
            } else {
                let j = choose|j: int| bound_at(store, name, j);
                assert(bound_at(store, name, j));
                assert(bound_at(after, name, j));
            }
        }
    }
    assert forall|name: Seq<char>| left.dom().contains(name) implies left[name]
        == right[name] by {
        let j = choose|j: int| bound_at(after, name, j);
        assert(bound_at(after, name, j));
        lemma_store_found(after, j);
        if j < store.len() {
            assert(store[j].0@ == name);
            lemma_store_found(store, j);
        }
    }
    assert(left =~= right);
}

impl View for Scope {
    type V = ScopeModel;

    closed spec fn view(&self) -> ScopeModel {
        ScopeModel {
            store: store_model(self.store@),
            outer: match self.outer {
                Some(outer) => Some(outer as nat),
                None => None,
            },
        }
    }
}

impl Scope {
    /// No name is bound twice, and the outer scope was opened before the
    /// scope itself, whose handle is `handle`.
    spec fn wf(&self, handle: int) -> bool {
        &&& distinct_names(self.store@)
        &&& match self.outer {
            Some(outer) => outer < handle,
            None => true,
        }
    }

    /// The index at which `name` is bound, if it is bound.
    fn find(&self, name: &String) -> (found: Option<usize>)
        ensures
            match found {
                Some(i) => bound_at(self.store@, name@, i as int),
                None => forall|i: int| 0 <= i < self.store@.len() ==> self.store@[i].0@ != name@,
            },
    {
        let mut i: usize = 0;
        while i < self.store.len()
            invariant
                i <= self.store@.len(),
                forall|j: int| 0 <= j < i ==> self.store@[j].0@ != name@,
            decreases self.store@.len() - i,
        {
            if self.store[i].0 == *name {
                return Some(i);
            }
            i += 1;
        }
        None
    }
}

impl View for Environment {
    type V = EnvironmentModel;

    closed spec fn view(&self) -> EnvironmentModel {
        EnvironmentModel {
            scopes: Seq::new(self.scopes@.len(), |i: int| self.scopes@[i]@),
            output: lines_model(self.output@),
            call_depth: self.call_depth as nat,
        }
    }
}

impl Default for Environment {
    fn default() -> (env: Environment)
        ensures
            env.wf(),
            env@ == initial_environment(),
    {
        Environment::new()
    }
}

impl Environment {
    /// There is a root scope, no scope binds a name twice, and every outer
    /// scope was opened before the scope inside it.
    pub closed spec fn wf(&self) -> bool {
        &&& self.scopes@.len() >= 1
        &&& forall|i: int| 0 <= i < self.scopes@.len() ==> (#[trigger] self.scopes@[i]).wf(i)
    }

    /// A well-formed environment has a root scope.
    pub proof fn lemma_has_root(&self)
        requires
            self.wf(),
        ensures
            self@.scopes.len() >= 1,
    {
    }

    /// The environment of a new session: an empty root scope, nothing
    /// printed, and the default limit on the depth of calls.
    pub fn new() -> (env: Environment)
        ensures
            env.wf(),
            env@ == initial_environment(),
    {
        let mut scopes: Vec<Scope> = Vec::new();
        let root = Scope { store: Vec::new(), outer: None };
        proof {
            lemma_store_missing_all(root.store@);
        }
        scopes.push(root);
        let env = Environment { scopes, output: Vec::new(), call_depth: DEFAULT_CALL_DEPTH };
        proof {
            assert(env@.scopes =~= initial_environment().scopes);
            assert(env@.output =~= initial_environment().output);
        }
        env
    }

    /// Opens a new, empty scope inside the scope `outer` and returns its
    /// handle.
    pub fn new_enclosed_environment(&mut self, outer: usize) -> (scope: usize)
        requires
            old(self).wf(),
        ensures
            final(self).wf(),
            final(self)@ == enclose(old(self)@, outer as nat),
            scope == old(self)@.scopes.len(),
    {
        let handle = self.scopes.len();
        let inner = Scope {
            store: Vec::new(),
            outer: if outer < handle {
                Some(outer)
            } else {
                None
            },
        };
        proof {
            lemma_store_missing_all(inner.store@);
        }
        self.scopes.push(inner);
        proof {
            assert(self@.scopes =~= enclose(old(self)@, outer as nat).scopes);
        }
        handle
    }

    /// The value that `name` is bound to as seen from `scope`, if any: the
    /// binding of the innermost scope that has one, going outward.
    pub fn get(&self, scope: usize, name: &str) -> (value: Option<Rc<Object>>)
        requires
            self.wf(),
        ensures
            match lookup(self@.scopes, scope as nat, name@) {
                Some(model) => value is Some && value->Some_0@ == model,
                None => value is None,
            },
    {
        let key = String::from_str(name);
        let mut current = scope;
        loop
            invariant
                self.wf(),
                key@ == name@,
                lookup(self@.scopes, current as nat, name@) == lookup(
                    self@.scopes,
                    scope as nat,
                    name@,
                ),
            decreases current,
        {
            if current >= self.scopes.len() {
                return None;
            }
            let here = &self.scopes[current];
            assert(here.wf(current as int));
            match here.find(&key) {
                Some(i) => {
                    proof {
                        lemma_store_found(here.store@, i as int);
                    }
                    return Some(share(&here.store[i].1));
                },
                None => {
                    proof {
                        lemma_store_missing(here.store@, name@);
                    }
                    match here.outer {
                        Some(outer) => {
                            current = outer;
                        },
                        None => {
                            return None;
                        },
                    }
                },
            }
        }
    }

    /// Binds `name` to `val` in `scope`, and in no other scope: a binding in
    /// an outer scope is shadowed, not changed.
    pub fn set(&mut self, scope: usize, name: &str, val: Rc<Object>)
        requires
            old(self).wf(),
        ensures
            final(self).wf(),
            final(self)@ == bind(old(self)@, scope as nat, name@, val@),
    {
        if scope >= self.scopes.len() {
            return ;
        }
        let key = String::from_str(name);
        let ghost before = self.scopes@[scope as int];
        assert(before.wf(scope as int));
        let found = self.scopes[scope].find(&key);
        let here = &mut self.scopes[scope];
        match found {
            Some(i) => {
                proof {
                    lemma_store_replaced(before.store@, i as int, key, val);
                }
                here.store[i] = (key, val);
            },
            None => {
                proof {
                    lemma_store_pushed(before.store@, key, val);
                }
                here.store.push((key, val));
            },
        }
        proof {
            assert(self@.scopes =~= bind(old(self)@, scope as nat, name@, val@).scopes);
        }
    }

    /// How deep calls may nest in this session.
    pub fn call_depth(&self) -> (limit: usize)
        ensures
            limit == self@.call_depth,
    {
        self.call_depth
    }

    /// Sets how deep calls may nest in this session.
    pub fn set_call_depth(&mut self, limit: usize)
        requires
            old(self).wf(),
        ensures
            final(self).wf(),
            final(self)@ == (EnvironmentModel { call_depth: limit as nat, ..old(self)@ }),
    {
        self.call_depth = limit;
    }

    /// Adds a line to what the session has printed.
    pub fn print_line(&mut self, line: String)
        requires
            old(self).wf(),
        ensures
            final(self).wf(),
            final(self)@ == print(old(self)@, line@),
    {
        self.output.push(line);
        proof {
            assert(self@.output =~= print(old(self)@, line@).output);
        }
    }

    /// Hands out the lines that the session has printed since they were last
    /// taken, in order.
    pub fn take_output(&mut self) -> (lines: Vec<String>)
        requires
            old(self).wf(),
        ensures
            final(self).wf(),
            lines_model(lines@) == old(self)@.output,
            final(self)@ == (EnvironmentModel { output: Seq::empty(), ..old(self)@ }),
    {
        let mut lines: Vec<String> = Vec::new();
        core::mem::swap(&mut self.output, &mut lines);
        proof {
            assert(self@.output =~= Seq::<Seq<char>>::empty());
        }
        lines
    }
}

/// An empty list of bindings stands for the empty map.
proof fn lemma_store_missing_all(store: Seq<(String, Rc<Object>)>)
    requires
        store.len() == 0,
    ensures
        store_model(store) == Map::<Seq<char>, ObjectModel>::empty(),
        distinct_names(store),
{
    assert forall|name: Seq<char>| !store_model(store).dom().contains(name) by {
        lemma_store_missing(store, name);
    }
    assert(store_model(store) =~= Map::<Seq<char>, ObjectModel>::empty());
}

} // verus!

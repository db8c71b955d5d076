//! Lexical environments: a store of binding frames, and handles into it.
//!
//! A frame maps names to values and may link to one outer frame. Frames live
//! in a `Store` and are never moved or removed, so a handle (`Env`) stays
//! good for as long as the store lives, and every handle on a frame sees what
//! any other handle writes to it.

use vstd::prelude::*;
use crate::error::{Fault, InterpreterError};
use crate::value::{SymbolicExpression, Value};

verus! {

/// A name that no frame of a chain defines.
#[derive(Debug, Clone, Copy, PartialEq, Eq)]
pub struct VariableNotFoundError;

/// A handle on one frame of a store: the innermost frame of a chain of
/// scopes.
#[derive(Debug, Clone, Copy, PartialEq, Eq)]
pub struct Env {
    current_frame: usize,
}

impl View for Env {
    type V = nat;

    closed spec fn view(&self) -> nat {
        self.current_frame as nat
    }
}

/// The mathematical content of a frame.
pub ghost struct Scope {
    pub bindings: Map<Seq<char>, Value>,
    pub outer: Option<nat>,
}

/// Every outer link points to a frame that was made earlier.
pub open spec fn chained(scopes: Seq<Scope>) -> bool {
    forall|i: int|
        0 <= i < scopes.len() ==> (#[trigger] scopes[i].outer matches Some(outer) ==> outer < i)
}

/// The nearest frame, from `at` outwards, that defines `name`.
pub open spec fn resolve(scopes: Seq<Scope>, at: nat, name: Seq<char>) -> Option<nat>
    decreases at,
{
    if at >= scopes.len() {
        None
    } else if scopes[at as int].bindings.contains_key(name) {
        Some(at)
    } else {
        match scopes[at as int].outer {
            Some(outer) => if outer < at {
                resolve(scopes, outer, name)
            } else {
                None
            },
            None => None,
        }
    }
}

/// The value that `name` has when seen from frame `at`.
pub open spec fn find(scopes: Seq<Scope>, at: nat, name: Seq<char>) -> Option<Value> {
    match resolve(scopes, at, name) {
        Some(frame) => Some(scopes[frame as int].bindings[name]),
        None => None,
    }
}

/// The store after `name` is bound to `value` in frame `at` itself.
pub open spec fn define(scopes: Seq<Scope>, at: nat, name: Seq<char>, value: Value) -> Seq<Scope> {
    if at < scopes.len() {
        scopes.update(
            at as int,
            Scope {
                bindings: scopes[at as int].bindings.insert(name, value),
                outer: scopes[at as int].outer,
            },
        )
    } else {
        scopes
    }
}

/// The store after the nearest binding of `name` is overwritten, if there is one.
pub open spec fn assign(scopes: Seq<Scope>, at: nat, name: Seq<char>, value: Value) -> Option<
    Seq<Scope>,
> {
    match resolve(scopes, at, name) {
        Some(frame) => Some(define(scopes, frame, name, value)),
        None => None,
    }
}

/// The store with one more frame, empty, inside `outer`. A link that points
/// to no frame of the store is dropped.
pub open spec fn grow(scopes: Seq<Scope>, outer: Option<nat>) -> Seq<Scope> {
    scopes.push(
        Scope {
            bindings: Map::empty(),
            outer: match outer {
                Some(around) => if around < scopes.len() {
                    Some(around)
                } else {
                    None
                },
                None => None,
            },
        },
    )
}

/// One scope's bindings, with the link to the scope around it.
struct Frame {
    names: Vec<String>,
    values: Vec<SymbolicExpression>,
    outer: Option<usize>,
}

impl Frame {
    /// Names and values pair up, and no name occurs twice.
    spec fn wf(&self) -> bool {
        &&& self.names.len() == self.values.len()
        &&& forall|i: int, j: int|
            0 <= i < j < self.names.len() ==> self.names[i]@ != self.names[j]@
    }

    /// Whether the frame binds `name`.
    spec fn has(&self, name: Seq<char>) -> bool {
        exists|i: int| 0 <= i < self.names.len() && self.names[i]@ == name
    }

    /// Where the frame binds `name`, if it does.
    spec fn index_of(&self, name: Seq<char>) -> int {
        choose|i: int| 0 <= i < self.names.len() && self.names[i]@ == name
    }

    fn new() -> (frame: Frame)
        ensures
            frame.wf(),
            frame@ == (Scope { bindings: Map::empty(), outer: None }),
    {
        let frame = Frame { names: Vec::new(), values: Vec::new(), outer: None };
        assert(frame@.bindings =~= Map::empty());
        frame
    }

    fn with_outer(outer: usize) -> (frame: Frame)
        ensures
            frame.wf(),
            frame@ == (Scope { bindings: Map::empty(), outer: Some(outer as nat) }),
    {
        let frame = Frame { names: Vec::new(), values: Vec::new(), outer: Some(outer) };
        assert(frame@.bindings =~= Map::empty());
        frame
    }

    /// Where in this frame `symbol` is bound, if it is.
    fn position(&self, symbol: &str) -> (place: Option<usize>)
        requires
            self.wf(),
        ensures
            match place {
                Some(i) => i < self.names.len() && self.names[i as int]@ == symbol@ && self.has(
                    symbol@,
                ) && self.index_of(symbol@) == i,
                None => !self.has(symbol@),
            },
    {
        let mut i: usize = 0;
        while i < self.names.len()
            invariant
                i <= self.names.len(),
                self.wf(),
                forall|j: int| 0 <= j < i ==> self.names[j]@ != symbol@,
            decreases self.names.len() - i,
        {
            if crate::text::same_text(self.names[i].as_str(), symbol) {
                return Some(i);
            }
            i += 1;
        }
        None
    }

    fn find_symbol(&self, symbol: &str) -> (found: Option<SymbolicExpression>)
        requires
            self.wf(),
        ensures
            match found {
                Some(value) => self@.bindings.contains_key(symbol@) && self@.bindings[symbol@]
                    == value@,
                None => !self@.bindings.contains_key(symbol@),
            },
    {
        match self.position(symbol) {
            Some(i) => Some(self.values[i].duplicate()),
            None => None,
        }
    }

    fn define_symbol(&mut self, symbol: &str, value: SymbolicExpression)
        requires
            old(self).wf(),
        ensures
            final(self).wf(),
            final(self)@ == (Scope {
                bindings: old(self)@.bindings.insert(symbol@, value@),
                outer: old(self)@.outer,
            }),
    {
        let ghost before = *self;
        match self.position(symbol) {
            Some(i) => {
                self.values[i] = value;
                proof {
                    assert forall|name: Seq<char>| self.has(name) == before.has(name) by {
                        if before.has(name) {
                            assert(self.names[before.index_of(name)]@ == name);
                        }
                        if self.has(name) {
                            assert(before.names[self.index_of(name)]@ == name);
                        }
                    }
                    assert forall|name: Seq<char>| self.has(name) implies self.index_of(name)
                        == before.index_of(name) by {
                        assert(before.has(name));
                    }
                    assert(self@.bindings =~= before@.bindings.insert(symbol@, value@));
                }
            },
            None => {
                self.names.push(symbol.to_owned());
                self.values.push(value);
                proof {
                    let last = before.names.len() as int;
                    assert(self.names[last]@ == symbol@);
                    assert forall|name: Seq<char>| self.has(name) == (before.has(name) || name
                        == symbol@) by {
                        if before.has(name) {
                            assert(self.names[before.index_of(name)]@ == name);
                        }
                        if self.has(name) && name != symbol@ {
                            assert(before.names[self.index_of(name)]@ == name);
                        }
                    }
                    assert forall|name: Seq<char>| before.has(name) implies self.index_of(name)
                        == before.index_of(name) by {
                        assert(self.names[before.index_of(name)]@ == name);
                    }
                    assert(self.index_of(symbol@) == last);
                    assert(self@.bindings =~= before@.bindings.insert(symbol@, value@));
                }
            },
        }
    }
}

impl View for Frame {
    type V = Scope;

    closed spec fn view(&self) -> Scope {
        Scope {
            bindings: Map::new(
                |name: Seq<char>| self.has(name),
                |name: Seq<char>| self.values[self.index_of(name)]@,
            ),
            outer: match self.outer {
                Some(outer) => Some(outer as nat),
                None => None,
            },
        }
    }
}

/// All the frames of a running program.
pub struct Store {
    frames: Vec<Frame>,
}

impl View for Store {
    type V = Seq<Scope>;

    closed spec fn view(&self) -> Seq<Scope> {
        Seq::new(self.frames.len() as nat, |i: int| self.frames[i]@)
    }
}

impl Store {
    /// Every frame is sound, and every outer link points to an earlier frame.
    pub closed spec fn wf(&self) -> bool {
        &&& forall|i: int| 0 <= i < self.frames.len() ==> (#[trigger] self.frames[i]).wf()
        &&& chained(self@)
    }

    /// Whether a handle points into this store.
    pub open spec fn holds(&self, env: Env) -> bool {
        env@ < self@.len()
    }

    /// A store without frames.
    pub fn new() -> (store: Store)
        ensures
            store.wf(),
            store@ == Seq::<Scope>::empty(),
    {
        let store = Store { frames: Vec::new() };
        assert(store@ =~= Seq::<Scope>::empty());
        store
    }

    /// Whether a handle points into this store.
    pub fn contains(&self, env: Env) -> (inside: bool)
        ensures
            inside == self.holds(env),
    {
        env.current_frame < self.frames.len()
    }

    /// Adds an empty frame, inside `outer` if one is given and points into
    /// this store.
    pub fn push_frame(&mut self, outer: Option<Env>) -> (env: Env)
        requires
            old(self).wf(),
        ensures
            final(self).wf(),
            final(self).holds(env),
            env@ == old(self)@.len(),
            final(self)@ == grow(
                old(self)@,
                match outer {
                    Some(around) => Some(around@),
                    None => None,
                },
            ),
    {
        let ghost before = *self;
        let index = self.frames.len();
        let frame = match outer {
            Some(around) => if around.current_frame < index {
                Frame::with_outer(around.current_frame)
            } else {
                Frame::new()
            },
            None => Frame::new(),
        };
        self.frames.push(frame);
        proof {
            assert(self@ =~= grow(
                before@,
                match outer {
                    Some(around) => Some(around@),
                    None => None,
                },
            ));
            assert forall|i: int| 0 <= i < self@.len() implies (
            #[trigger] self@[i].outer matches Some(o) ==> o < i) by {
                if i < before@.len() {
                    assert(self@[i] == before@[i]);
                }
            }
        }
        Env { current_frame: index }
    }

    /// The value of `symbol` as seen from `at`: that of the nearest frame that binds it.
    pub fn lookup(&self, at: Env, symbol: &str) -> (found: Option<SymbolicExpression>)
        requires
            self.wf(),
        ensures
            match found {
                Some(value) => find(self@, at@, symbol@) == Some(value@),
                None => find(self@, at@, symbol@) is None,
            },
    {
        if at.current_frame >= self.frames.len() {
            return None;
        }
        let mut index = at.current_frame;
        loop
            invariant
                self.wf(),
                index < self.frames.len(),
                resolve(self@, index as nat, symbol@) == resolve(self@, at@, symbol@),
            decreases index,
        {
            let frame = &self.frames[index];
            assert(frame@ == self@[index as int]);
            match frame.find_symbol(symbol) {
                Some(value) => {
                    return Some(value);
                },
                None => match frame.outer {
                    Some(outer) => {
                        assert(self@[index as int].outer == Some(outer as nat));
                        index = outer;
                    },
                    None => {
                        assert(self@[index as int].outer is None);
                        return None;
                    },
                },
            }
        }
    }

    /// Binds `symbol` in frame `at` itself, over any binding it had there.
    pub fn define(&mut self, at: Env, symbol: &str, value: SymbolicExpression)
        requires
            old(self).wf(),
        ensures
            final(self).wf(),
            final(self)@ == define(old(self)@, at@, symbol@, value@),
    {
        if at.current_frame >= self.frames.len() {
            return ;
        }
        let ghost before = *self;
        let frame = &mut self.frames[at.current_frame];
        frame.define_symbol(symbol, value);
        proof {
            assert(self@ =~= define(before@, at@, symbol@, value@));
            assert forall|i: int| 0 <= i < self.frames.len() implies (#[trigger] self.frames[i]).wf() by {
                if i != at.current_frame {
                    assert(self.frames[i] == before.frames[i]);
                }
            }
            assert forall|i: int| 0 <= i < self@.len() implies (
            #[trigger] self@[i].outer matches Some(o) ==> o < i) by {
                assert(self@[i].outer == before@[i].outer);
            }
        }
    }

    /// Overwrites the nearest binding of `symbol`, from `at` outwards.
    pub fn assign(&mut self, at: Env, symbol: &str, value: SymbolicExpression) -> (done: Result<
        (),
        VariableNotFoundError,
    >)
        requires
            old(self).wf(),
        ensures
            final(self).wf(),
            match assign(old(self)@, at@, symbol@, value@) {
                Some(after) => done is Ok && final(self)@ == after,
                None => done is Err && final(self)@ == old(self)@,
            },
    {
        if at.current_frame >= self.frames.len() {
            return Err(VariableNotFoundError);
        }
        let mut index = at.current_frame;
        loop
            invariant
                self.wf(),
                self == old(self),
                index < self.frames.len(),
                resolve(self@, index as nat, symbol@) == resolve(self@, at@, symbol@),
            decreases index,
        {
            let frame = &self.frames[index];
            assert(frame@ == self@[index as int]);
            match frame.position(symbol) {
                Some(_) => {
                    assert(frame@.bindings.contains_key(symbol@));
                    self.define(Env { current_frame: index }, symbol, value);
                    return Ok(());
                },
                None => {
                    assert(!frame@.bindings.contains_key(symbol@));
                    match frame.outer {
                        Some(outer) => {
                            assert(self@[index as int].outer == Some(outer as nat));
                            index = outer;
                        },
                        None => {
                            assert(self@[index as int].outer is None);
                            return Err(VariableNotFoundError);
                        },
                    }
                },
            }
        }
    }
}

impl Env {
    /// A handle on a fresh frame with no frame around it.
    pub fn new(store: &mut Store) -> (env: Env)
        requires
            old(store).wf(),
        ensures
            final(store).wf(),
            final(store).holds(env),
            env@ == old(store)@.len(),
            final(store)@ == grow(old(store)@, None),
    {
        store.push_frame(None)
    }

    /// Enters a new scope: a fresh frame inside the current one becomes current.
    pub fn add_frame(&mut self, store: &mut Store)
        requires
            old(store).wf(),
        ensures
            final(store).wf(),
            final(store).holds(*final(self)),
            final(self)@ == old(store)@.len(),
            final(store)@ == grow(old(store)@, Some(old(self)@)),
    {
        let inner = store.push_frame(Some(*self));
        *self = inner;
    }

    /// The frame around the current one, if there is one.
    pub fn outer(&self, store: &Store) -> (around: Option<Env>)
        requires
            store.wf(),
        ensures
            match around {
                Some(env) => store.holds(*self) && store.holds(env) && store@[self@ as int].outer
                    == Some(env@),
                None => !store.holds(*self) || store@[self@ as int].outer is None,
            },
    {
        if self.current_frame >= store.frames.len() {
            return None;
        }
        let frame = &store.frames[self.current_frame];
        assert(frame@ == store@[self@ as int]);
        match frame.outer {
            Some(outer) => {
                assert(chained(store@));
                Some(Env { current_frame: outer })
            },
            None => None,
        }
    }

    /// Leaves the current scope: the frame around the current one becomes current.
    pub fn pop_frame(&mut self, store: &Store)
        requires
            store.wf(),
            store.holds(*old(self)),
            store@[old(self)@ as int].outer is Some,
        ensures
            store.holds(*final(self)),
            Some(final(self)@) == store@[old(self)@ as int].outer,
    {
        let frame = &store.frames[self.current_frame];
        assert(frame@ == store@[self@ as int]);
        match frame.outer {
            Some(outer) => {
                self.current_frame = outer;
            },
            None => {},
        }
    }

    /// A handle for a closure made here: a fresh frame inside the current one.
    pub fn get_lambda_env(&self, store: &mut Store) -> (env: Env)
        requires
            old(store).wf(),
        ensures
            final(store).wf(),
            final(store).holds(env),
            env@ == old(store)@.len(),
            final(store)@ == grow(old(store)@, Some(self@)),
    {
        store.push_frame(Some(*self))
    }

    /// The value of `symbol` in the nearest frame that binds it.
    pub fn find_symbol(&self, store: &Store, symbol: &str) -> (found: Result<
        SymbolicExpression,
        InterpreterError,
    >)
        requires
            store.wf(),
        ensures
            match found {
                Ok(value) => find(store@, self@, symbol@) == Some(value@),
                Err(error) => find(store@, self@, symbol@) is None && error@
                    == Fault::VariableNotFound(symbol@),
            },
    {
        match store.lookup(*self, symbol) {
            Some(value) => Ok(value),
            None => Err(InterpreterError::variable_not_found(symbol)),
        }
    }

    /// Binds `symbol` in the current frame, over any binding it had there.
    pub fn define_symbol(&mut self, store: &mut Store, symbol: &str, value: SymbolicExpression)
        requires
            old(store).wf(),
        ensures
            *final(self) == *old(self),
            final(store).wf(),
            final(store)@ == define(old(store)@, old(self)@, symbol@, value@),
    {
        store.define(*self, symbol, value);
    }

    /// Overwrites the nearest binding of `symbol`; fails if no frame of the chain binds it.
    pub fn set_symbol(&mut self, store: &mut Store, symbol: &str, new_value: SymbolicExpression) -> (done:
        Result<(), InterpreterError>)
        requires
            old(store).wf(),
        ensures
            *final(self) == *old(self),
            final(store).wf(),
            match assign(old(store)@, old(self)@, symbol@, new_value@) {
                Some(after) => done is Ok && final(store)@ == after,
                None => final(store)@ == old(store)@ && (done matches Err(error) && error@
                    == Fault::VariableNotFound(symbol@)),
            },
    {
        match store.assign(*self, symbol, new_value) {
            Ok(()) => Ok(()),
            Err(_) => Err(InterpreterError::variable_not_found(symbol)),
        }
    }
}

} // verus!

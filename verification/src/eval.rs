//! The evaluator: the transitions of the machine, carried out on the real
//! state.

use vstd::prelude::*;
use crate::arithmetic::{combine, exponential, power};
use crate::compare::is_related;
use crate::env::{Env, Scope, Store};
use crate::error::InterpreterError;
use crate::machine::{stack_of, Continuation, Control, ControlView, Machine};
use crate::number::FloatRequest;
use crate::operation::Operation;
use crate::semantics;
use crate::semantics::State;
use crate::value::{
    lemma_expression_view,
    names_of,
    values_of,
    SymbolicExpression,
    Value,
};

verus! {

/// The stack with one more continuation on top.
fn pushed(stack: Vec<Continuation>, top: Continuation) -> (grown: Vec<Continuation>)
    ensures
        stack_of(grown@) == stack_of(stack@).push(top@),
{
    let mut grown = stack;
    grown.push(top);
    assert(stack_of(grown@) =~= stack_of(stack@).push(top@));
    grown
}

/// The arguments with one more value at the end.
fn appended(values: Vec<SymbolicExpression>, last: SymbolicExpression) -> (grown: Vec<
    SymbolicExpression,
>)
    ensures
        values_of(grown@) == values_of(values@).push(last@),
{
    let mut grown = values;
    grown.push(last);
    assert(values_of(grown@) =~= values_of(values@).push(last@));
    grown
}

/// No arguments yet.
fn no_values() -> (values: Vec<SymbolicExpression>)
    ensures
        values_of(values@) == Seq::<Value>::empty(),
{
    let values: Vec<SymbolicExpression> = Vec::new();
    assert(values_of(values@) =~= Seq::<Value>::empty());
    values
}

/// The machine in which `value` is handed to the top of `stack`.
fn returning(value: SymbolicExpression, stack: Vec<Continuation>, Ghost(scopes): Ghost<Seq<Scope>>) -> (machine:
    Machine)
    ensures
        (State { machine: machine@, scopes }) == semantics::returning(
            value@,
            stack_of(stack@),
            scopes,
        ),
{
    Machine { control: Control::Return { value }, stack }
}

/// The machine that is about to evaluate `expression` in `env`.
fn evaluating(
    expression: SymbolicExpression,
    env: Env,
    stack: Vec<Continuation>,
    Ghost(scopes): Ghost<Seq<Scope>>,
) -> (machine: Machine)
    ensures
        (State { machine: machine@, scopes }) == semantics::evaluating(
            expression@,
            env@,
            stack_of(stack@),
            scopes,
        ),
{
    Machine { control: Control::Eval { expression, env }, stack }
}

/// The machine that has ended with `error`; nothing is left waiting.
fn failing(error: InterpreterError, Ghost(scopes): Ghost<Seq<Scope>>) -> (machine: Machine)
    ensures
        (State { machine: machine@, scopes }) == semantics::failing(error@, scopes),
{
    let machine = Machine { control: Control::Failed { error }, stack: Vec::new() };
    assert(machine@.stack =~= Seq::empty());
    machine
}

/// The machine that asks the host for the answer to `request`.
fn asking(request: FloatRequest, stack: Vec<Continuation>, Ghost(scopes): Ghost<Seq<Scope>>) -> (machine:
    Machine)
    ensures
        (State { machine: machine@, scopes }) == semantics::asking(
            request,
            stack_of(stack@),
            scopes,
        ),
{
    Machine { control: Control::Float { request }, stack }
}

/// The machine with the outcome of an operation in control.
fn settle(outcome: Control, stack: Vec<Continuation>, Ghost(scopes): Ghost<Seq<Scope>>) -> (machine:
    Machine)
    ensures
        (State { machine: machine@, scopes }) == semantics::settle(
            outcome@,
            stack_of(stack@),
            scopes,
        ),
{
    match outcome {
        Control::Failed { error } => failing(error, Ghost(scopes)),
        other => Machine { control: other, stack },
    }
}

/// The list of the given values: a chain of pairs that ends in `Nil`.
fn list_of(values: Vec<SymbolicExpression>) -> (list: SymbolicExpression)
    ensures
        list@ == semantics::list_from(values_of(values@), 0),
{
    let ghost all = values_of(values@);
    let mut rest = values;
    let mut list = SymbolicExpression::Nil;
    while rest.len() > 0
        invariant
            rest.len() <= all.len(),
            values_of(rest@) == all.take(rest.len() as int),
            list@ == semantics::list_from(all, rest.len() as nat),
        decreases rest.len(),
    {
        let ghost before = rest@;
        let last = rest.pop().unwrap();
        assert(last@ == all[rest.len() as int]) by {
            assert(values_of(before)[before.len() - 1] == all.take(before.len() as int)[before.len()
                - 1]);
        }
        assert(values_of(rest@) =~= all.take(rest.len() as int)) by {
            assert forall|i: int| 0 <= i < rest.len() implies values_of(rest@)[i] == all[i] by {
                assert(values_of(before)[i] == all.take(before.len() as int)[i]);
            }
        }
        list = SymbolicExpression::Cons { head: Box::new(last), tail: Box::new(list) };
    }
    list
}

/// The names of a parameter list, if every item of it is a symbol.
fn symbols(items: &Vec<SymbolicExpression>) -> (names: Option<Vec<String>>)
    ensures
        match names {
            Some(found) => semantics::symbols(values_of(items@)) == Some(names_of(found@)),
            None => semantics::symbols(values_of(items@)) is None,
        },
{
    let mut names: Vec<String> = Vec::new();
    let mut i: usize = 0;
    while i < items.len()
        invariant
            i <= items.len(),
            names.len() == i,
            forall|j: int| 0 <= j < i ==> items[j]@ == Value::Symbol(names[j]@),
        decreases items.len() - i,
    {
        match &items[i] {
            SymbolicExpression::Symbol(name) => {
                names.push(name.clone());
            },
            _ => {
                assert(!(values_of(items@)[i as int] is Symbol));
                return None;
            },
        }
        i += 1;
    }
    proof {
        assert forall|j: int| 0 <= j < items.len() implies values_of(items@)[j] is Symbol by {
            assert(items[j]@ == Value::Symbol(names[j]@));
        }
        assert(semantics::symbols(values_of(items@))->0 =~= names_of(names@));
    }
    Some(names)
}

/// Binds parameters to the arguments at their positions, as far as both
/// go, in frame `at`.
fn define_all(
    store: &mut Store,
    at: Env,
    parameters: &Vec<String>,
    values: &Vec<SymbolicExpression>,
)
    requires
        old(store).wf(),
    ensures
        final(store).wf(),
        final(store)@ == semantics::define_all(
            old(store)@,
            at@,
            names_of(parameters@),
            values_of(values@),
            if parameters.len() < values.len() {
                parameters.len() as nat
            } else {
                values.len() as nat
            },
        ),
{
    let count = if parameters.len() < values.len() {
        parameters.len()
    } else {
        values.len()
    };
    let mut i: usize = 0;
    while i < count
        invariant
            i <= count,
            count <= parameters.len(),
            count <= values.len(),
            store.wf(),
            store@ == semantics::define_all(
                old(store)@,
                at@,
                names_of(parameters@),
                values_of(values@),
                i as nat,
            ),
        decreases count - i,
    {
        store.define(at, parameters[i].as_str(), values[i].duplicate());
        i += 1;
    }
}

/// A chained comparison from the pair at `index` on.
fn compare_from(
    operation: Operation,
    values: Vec<SymbolicExpression>,
    index: usize,
    stack: Vec<Continuation>,
    Ghost(scopes): Ghost<Seq<Scope>>,
) -> (machine: Machine)
    ensures
        (State { machine: machine@, scopes }) == semantics::compare_from(
            operation,
            values_of(values@),
            index as nat,
            stack_of(stack@),
            scopes,
        ),
{
    let mut at = index;
    loop
        invariant
            semantics::compare_from(
                operation,
                values_of(values@),
                at as nat,
                stack_of(stack@),
                scopes,
            ) == semantics::compare_from(
                operation,
                values_of(values@),
                index as nat,
                stack_of(stack@),
                scopes,
            ),
        decreases values.len() - at,
    {
        if at >= values.len() || at + 1 >= values.len() {
            return returning(SymbolicExpression::Bool(true), stack, Ghost(scopes));
        }
        let widen = match (&values[at], &values[at + 1]) {
            (SymbolicExpression::Int(integer), SymbolicExpression::Float(_)) => Some(*integer),
            (SymbolicExpression::Float(_), SymbolicExpression::Int(integer)) => Some(*integer),
            _ => None,
        };
        assert(widen == semantics::widening(
            values_of(values@)[at as int],
            values_of(values@)[at + 1],
        ));
        match widen {
            Some(integer) => {
                let waiting = pushed(stack, Continuation::Compare { operation, values, index: at });
                return asking(FloatRequest::Widen { integer }, waiting, Ghost(scopes));
            },
            None => {
                if !is_related(operation, &values[at], &values[at + 1]) {
                    return returning(SymbolicExpression::Bool(false), stack, Ghost(scopes));
                }
            },
        }
        at += 1;
    }
}

/// A comparison goes on with `widened` in the place of the integer of the
/// pair at `index`.
fn compare_widened(
    operation: Operation,
    values: Vec<SymbolicExpression>,
    index: usize,
    widened: SymbolicExpression,
    stack: Vec<Continuation>,
    Ghost(scopes): Ghost<Seq<Scope>>,
) -> (machine: Machine)
    ensures
        (State { machine: machine@, scopes }) == semantics::compare_widened(
            operation,
            values_of(values@),
            index as nat,
            widened@,
            stack_of(stack@),
            scopes,
        ),
{
    if index >= values.len() || index + 1 >= values.len() {
        return returning(SymbolicExpression::Bool(true), stack, Ghost(scopes));
    }
    let left_is_integer = match &values[index] {
        SymbolicExpression::Int(_) => true,
        _ => false,
    };
    let holds = if left_is_integer {
        is_related(operation, &widened, &values[index + 1])
    } else {
        is_related(operation, &values[index], &widened)
    };
    if holds {
        compare_from(operation, values, index + 1, stack, Ghost(scopes))
    } else {
        returning(SymbolicExpression::Bool(false), stack, Ghost(scopes))
    }
}

/// A built-in operation applied to its evaluated arguments.
fn builtin(
    operation: Operation,
    values: Vec<SymbolicExpression>,
    stack: Vec<Continuation>,
    Ghost(scopes): Ghost<Seq<Scope>>,
) -> (machine: Machine)
    ensures
        (State { machine: machine@, scopes }) == semantics::builtin(
            operation,
            values_of(values@),
            stack_of(stack@),
            scopes,
        ),
{
    match operation {
        Operation::Exp => {
            if values.len() < 1 {
                failing(InterpreterError::argument("missing arguments"), Ghost(scopes))
            } else {
                settle(exponential(&values[0]), stack, Ghost(scopes))
            }
        },
        Operation::Pow => {
            if values.len() < 2 {
                failing(InterpreterError::argument("missing arguments"), Ghost(scopes))
            } else {
                settle(power(&values[0], &values[1]), stack, Ghost(scopes))
            }
        },
        Operation::Cons => {
            if values.len() < 2 {
                failing(InterpreterError::argument("missing arguments"), Ghost(scopes))
            } else {
                let pair = SymbolicExpression::Cons {
                    head: Box::new(values[0].duplicate()),
                    tail: Box::new(values[1].duplicate()),
                };
                returning(pair, stack, Ghost(scopes))
            }
        },
        Operation::List => returning(list_of(values), stack, Ghost(scopes)),
        Operation::Car => {
            if values.len() < 1 {
                failing(InterpreterError::argument("missing arguments"), Ghost(scopes))
            } else {
                match &values[0] {
                    SymbolicExpression::Cons { head, tail } => returning(
                        head.duplicate(),
                        stack,
                        Ghost(scopes),
                    ),
                    _ => failing(InterpreterError::runtime("car on non cons type"), Ghost(scopes)),
                }
            }
        },
        Operation::Cdr => {
            if values.len() < 1 {
                failing(InterpreterError::argument("missing arguments"), Ghost(scopes))
            } else {
                match &values[0] {
                    SymbolicExpression::Cons { head, tail } => returning(
                        tail.duplicate(),
                        stack,
                        Ghost(scopes),
                    ),
                    _ => failing(InterpreterError::runtime("cdr on non cons type"), Ghost(scopes)),
                }
            }
        },
        Operation::Eq | Operation::Smaller | Operation::Greater | Operation::SmallerOrEqual
        | Operation::GreaterOrEqual => {
            if values.len() < 1 {
                failing(InterpreterError::argument("missing arguments"), Ghost(scopes))
            } else {
                compare_from(operation, values, 0, stack, Ghost(scopes))
            }
        },
        _ => failing(
            InterpreterError::SyntaxError(SymbolicExpression::Operation(operation)),
            Ghost(scopes),
        ),
    }
}

/// A callee applied to its evaluated arguments.
fn apply(
    callee: SymbolicExpression,
    values: Vec<SymbolicExpression>,
    stack: Vec<Continuation>,
    store: &mut Store,
) -> (machine: Machine)
    requires
        old(store).wf(),
    ensures
        final(store).wf(),
        (State { machine: machine@, scopes: final(store)@ }) == semantics::apply(
            callee@,
            values_of(values@),
            stack_of(stack@),
            old(store)@,
        ),
{
    match callee {
        SymbolicExpression::Operation(operation) => builtin(
            operation,
            values,
            stack,
            Ghost(store@),
        ),
        SymbolicExpression::Lambda { parameters, env, body } => {
            let frame = store.push_frame(Some(env));
            define_all(store, frame, &parameters, &values);
            evaluating(*body, frame, stack, Ghost(store@))
        },
        other => failing(InterpreterError::SyntaxError(other), Ghost(store@)),
    }
}

/// The position in a form behind the last argument that is evaluated.
fn argument_end(callee: &SymbolicExpression, length: usize) -> (end: usize)
    ensures
        end == semantics::argument_end(callee@, length as nat),
{
    let limit: usize = match callee {
        SymbolicExpression::Operation(Operation::Exp) => 2,
        SymbolicExpression::Operation(Operation::Car) => 2,
        SymbolicExpression::Operation(Operation::Cdr) => 2,
        SymbolicExpression::Operation(Operation::Pow) => 3,
        SymbolicExpression::Operation(Operation::Cons) => 3,
        _ => length,
    };
    if limit < length {
        limit
    } else {
        length
    }
}

/// The arguments of a call are evaluated from `next` on; then the callee
/// is applied to them.
fn collect(
    callee: SymbolicExpression,
    forms: Vec<SymbolicExpression>,
    next: usize,
    values: Vec<SymbolicExpression>,
    env: Env,
    stack: Vec<Continuation>,
    store: &mut Store,
) -> (machine: Machine)
    requires
        old(store).wf(),
    ensures
        final(store).wf(),
        (State { machine: machine@, scopes: final(store)@ }) == semantics::collect(
            callee@,
            values_of(forms@),
            next as nat,
            values_of(values@),
            env@,
            stack_of(stack@),
            old(store)@,
        ),
{
    if next < argument_end(&callee, forms.len()) {
        let expression = forms[next].duplicate();
        let waiting = pushed(
            stack,
            Continuation::Collect { callee, forms, next: next + 1, values, env },
        );
        evaluating(expression, env, waiting, Ghost(store@))
    } else {
        apply(callee, values, stack, store)
    }
}

/// An arithmetic fold goes on with `accumulator`.
fn fold(
    operation: Operation,
    accumulator: SymbolicExpression,
    forms: Vec<SymbolicExpression>,
    next: usize,
    env: Env,
    stack: Vec<Continuation>,
    Ghost(scopes): Ghost<Seq<Scope>>,
) -> (machine: Machine)
    ensures
        (State { machine: machine@, scopes }) == semantics::fold(
            operation,
            accumulator@,
            values_of(forms@),
            next as nat,
            env@,
            stack_of(stack@),
            scopes,
        ),
{
    if next < forms.len() {
        let expression = forms[next].duplicate();
        let waiting = pushed(
            stack,
            Continuation::Fold {
                operation,
                accumulator: Some(accumulator),
                forms,
                next: next + 1,
                env,
            },
        );
        evaluating(expression, env, waiting, Ghost(scopes))
    } else {
        returning(accumulator, stack, Ghost(scopes))
    }
}

/// A sequence goes on after a form with the value `last`.
fn sequence(
    forms: Vec<SymbolicExpression>,
    next: usize,
    env: Env,
    keep_last: bool,
    last: SymbolicExpression,
    stack: Vec<Continuation>,
    Ghost(scopes): Ghost<Seq<Scope>>,
) -> (machine: Machine)
    ensures
        (State { machine: machine@, scopes }) == semantics::sequence(
            values_of(forms@),
            next as nat,
            env@,
            keep_last,
            last@,
            stack_of(stack@),
            scopes,
        ),
{
    if next < forms.len() {
        let expression = forms[next].duplicate();
        let waiting = pushed(
            stack,
            Continuation::Sequence { forms, next: next + 1, env, keep_last },
        );
        evaluating(expression, env, waiting, Ghost(scopes))
    } else if keep_last {
        returning(last, stack, Ghost(scopes))
    } else {
        returning(SymbolicExpression::Nil, stack, Ghost(scopes))
    }
}

/// A `cond` goes on with the clause at `index`.
fn clause(
    forms: Vec<SymbolicExpression>,
    index: usize,
    env: Env,
    stack: Vec<Continuation>,
    Ghost(scopes): Ghost<Seq<Scope>>,
) -> (machine: Machine)
    ensures
        (State { machine: machine@, scopes }) == semantics::clause(
            values_of(forms@),
            index as nat,
            env@,
            stack_of(stack@),
            scopes,
        ),
{
    if index >= forms.len() {
        return failing(InterpreterError::runtime("cond all predicate false"), Ghost(scopes));
    }
    let predicate = match &forms[index] {
        SymbolicExpression::Expression(parts) => {
            proof {
                lemma_expression_view(*parts);
            }
            if parts.len() < 1 {
                None
            } else {
                Some(parts[0].duplicate())
            }
        },
        _ => None,
    };
    match predicate {
        Some(expression) => {
            let waiting = pushed(stack, Continuation::Clause { forms, index, env });
            evaluating(expression, env, waiting, Ghost(scopes))
        },
        None => failing(InterpreterError::argument("invalid argument to cond"), Ghost(scopes)),
    }
}

/// The predicate of the clause at `index` has the value `value`.
fn clause_decided(
    forms: Vec<SymbolicExpression>,
    index: usize,
    env: Env,
    value: SymbolicExpression,
    stack: Vec<Continuation>,
    Ghost(scopes): Ghost<Seq<Scope>>,
) -> (machine: Machine)
    ensures
        (State { machine: machine@, scopes }) == semantics::clause_decided(
            values_of(forms@),
            index as nat,
            env@,
            value@,
            stack_of(stack@),
            scopes,
        ),
{
    match value {
        SymbolicExpression::Bool(true) => {
            let result = if index < forms.len() {
                match &forms[index] {
                    SymbolicExpression::Expression(parts) => {
                        proof {
                            lemma_expression_view(*parts);
                        }
                        if parts.len() >= 2 {
                            Some(parts[1].duplicate())
                        } else {
                            None
                        }
                    },
                    _ => None,
                }
            } else {
                None
            };
            match result {
                Some(expression) => evaluating(expression, env, stack, Ghost(scopes)),
                None => failing(
                    InterpreterError::argument("invalid argument to cond"),
                    Ghost(scopes),
                ),
            }
        },
        SymbolicExpression::Bool(false) => {
            if index < usize::MAX {
                clause(forms, index + 1, env, stack, Ghost(scopes))
            } else {
                failing(InterpreterError::runtime("cond all predicate false"), Ghost(scopes))
            }
        },
        _ => failing(
            InterpreterError::value("predicate must evaluate to boolean"),
            Ghost(scopes),
        ),
    }
}

/// The predicate of an `if` has the value `value`.
fn branch(
    forms: Vec<SymbolicExpression>,
    env: Env,
    value: SymbolicExpression,
    stack: Vec<Continuation>,
    Ghost(scopes): Ghost<Seq<Scope>>,
) -> (machine: Machine)
    ensures
        (State { machine: machine@, scopes }) == semantics::branch(
            values_of(forms@),
            env@,
            value@,
            stack_of(stack@),
            scopes,
        ),
{
    match value {
        SymbolicExpression::Bool(true) => {
            if forms.len() > 2 {
                evaluating(forms[2].duplicate(), env, stack, Ghost(scopes))
            } else {
                failing(InterpreterError::argument("missing arguments"), Ghost(scopes))
            }
        },
        SymbolicExpression::Bool(false) => {
            if forms.len() > 3 {
                evaluating(forms[3].duplicate(), env, stack, Ghost(scopes))
            } else {
                failing(InterpreterError::argument("missing arguments"), Ghost(scopes))
            }
        },
        _ => failing(
            InterpreterError::value("predicate must evaluate to boolean"),
            Ghost(scopes),
        ),
    }
}

/// `define` and `set!`, before the value is evaluated.
fn bind(
    assign: bool,
    forms: Vec<SymbolicExpression>,
    env: Env,
    stack: Vec<Continuation>,
    Ghost(scopes): Ghost<Seq<Scope>>,
) -> (machine: Machine)
    ensures
        (State { machine: machine@, scopes }) == semantics::bind(
            assign,
            values_of(forms@),
            env@,
            stack_of(stack@),
            scopes,
        ),
{
    let name = if forms.len() < 2 {
        None
    } else {
        match &forms[1] {
            SymbolicExpression::Symbol(name) => Some(name.clone()),
            _ => None,
        }
    };
    match name {
        None => failing(
            InterpreterError::argument(
                if assign {
                    "first argument to set! has to be symbol"
                } else {
                    "first argument to define has to be symbol"
                },
            ),
            Ghost(scopes),
        ),
        Some(name) => {
            if forms.len() < 3 {
                failing(
                    InterpreterError::argument(
                        if assign {
                            "empty arguments for set!"
                        } else {
                            "empty arguments for define"
                        },
                    ),
                    Ghost(scopes),
                )
            } else {
                let expression = forms[2].duplicate();
                let waiting = pushed(stack, Continuation::Bind { name, env, assign });
                evaluating(expression, env, waiting, Ghost(scopes))
            }
        },
    }
}

/// The value for `define` or `set!` is there.
fn bound(
    name: String,
    env: Env,
    assign: bool,
    value: SymbolicExpression,
    stack: Vec<Continuation>,
    store: &mut Store,
) -> (machine: Machine)
    requires
        old(store).wf(),
    ensures
        final(store).wf(),
        (State { machine: machine@, scopes: final(store)@ }) == semantics::bound(
            name@,
            env@,
            assign,
            value@,
            stack_of(stack@),
            old(store)@,
        ),
{
    if assign {
        match store.assign(env, name.as_str(), value) {
            Ok(()) => returning(SymbolicExpression::Nil, stack, Ghost(store@)),
            Err(_) => failing(InterpreterError::VariableNotFound(name), Ghost(store@)),
        }
    } else {
        store.define(env, name.as_str(), value);
        returning(SymbolicExpression::Nil, stack, Ghost(store@))
    }
}

/// `lambda`: a closure over a fresh frame inside the current one.
fn lambda(
    forms: Vec<SymbolicExpression>,
    env: Env,
    stack: Vec<Continuation>,
    store: &mut Store,
) -> (machine: Machine)
    requires
        old(store).wf(),
    ensures
        final(store).wf(),
        (State { machine: machine@, scopes: final(store)@ }) == semantics::lambda(
            values_of(forms@),
            env@,
            stack_of(stack@),
            old(store)@,
        ),
{
    if forms.len() < 2 {
        return failing(InterpreterError::argument("invalid arg list for lambda"), Ghost(store@));
    }
    match &forms[1] {
        SymbolicExpression::Expression(items) => {
            proof {
                lemma_expression_view(*items);
            }
            match symbols(items) {
                Some(parameters) => {
                    if forms.len() < 3 {
                        failing(
                            InterpreterError::argument("missing body for lambda"),
                            Ghost(store@),
                        )
                    } else {
                        let body = forms[2].duplicate();
                        let closed = store.push_frame(Some(env));
                        returning(
                            SymbolicExpression::Lambda {
                                parameters,
                                env: closed,
                                body: Box::new(body),
                            },
                            stack,
                            Ghost(store@),
                        )
                    }
                },
                None => failing(
                    InterpreterError::argument("non symbol arg in lambda"),
                    Ghost(store@),
                ),
            }
        },
        _ => failing(InterpreterError::argument("invalid arg list for lambda"), Ghost(store@)),
    }
}

/// What a `let` does next.
enum LetStep {
    Bind { name: String, initial: SymbolicExpression },
    Body { body: SymbolicExpression },
    Invalid,
    NoBody,
}

/// A `let` goes on with the binding at `index`.
fn let_next(
    forms: Vec<SymbolicExpression>,
    index: usize,
    env: Env,
    stack: Vec<Continuation>,
    Ghost(scopes): Ghost<Seq<Scope>>,
) -> (machine: Machine)
    ensures
        (State { machine: machine@, scopes }) == semantics::let_next(
            values_of(forms@),
            index as nat,
            env@,
            stack_of(stack@),
            scopes,
        ),
{
    if forms.len() < 2 {
        return failing(InterpreterError::argument("invalid args for let"), Ghost(scopes));
    }
    let next = match &forms[1] {
        SymbolicExpression::Expression(bindings) => {
            proof {
                lemma_expression_view(*bindings);
            }
            if index < bindings.len() {
                match &bindings[index] {
                    SymbolicExpression::Expression(parts) => {
                        proof {
                            lemma_expression_view(*parts);
                        }
                        if parts.len() >= 2 {
                            match &parts[0] {
                                SymbolicExpression::Symbol(name) => LetStep::Bind {
                                    name: name.clone(),
                                    initial: parts[1].duplicate(),
                                },
                                _ => LetStep::Invalid,
                            }
                        } else {
                            LetStep::Invalid
                        }
                    },
                    _ => LetStep::Invalid,
                }
            } else if forms.len() > 2 {
                LetStep::Body { body: forms[2].duplicate() }
            } else {
                LetStep::NoBody
            }
        },
        _ => LetStep::Invalid,
    };
    match next {
        LetStep::Bind { name, initial } => {
            let waiting = pushed(
                stack,
                Continuation::LetBind { name, forms, next: index + 1, env },
            );
            evaluating(initial, env, waiting, Ghost(scopes))
        },
        LetStep::Body { body } => evaluating(body, env, stack, Ghost(scopes)),
        LetStep::Invalid => failing(
            InterpreterError::argument("invalid args for let"),
            Ghost(scopes),
        ),
        LetStep::NoBody => failing(
            InterpreterError::argument("missing body for let"),
            Ghost(scopes),
        ),
    }
}

/// The head of a form is an operation.
fn dispatch(
    operation: Operation,
    forms: Vec<SymbolicExpression>,
    env: Env,
    stack: Vec<Continuation>,
    store: &mut Store,
) -> (machine: Machine)
    requires
        old(store).wf(),
    ensures
        final(store).wf(),
        (State { machine: machine@, scopes: final(store)@ }) == semantics::dispatch(
            operation,
            values_of(forms@),
            env@,
            stack_of(stack@),
            old(store)@,
        ),
{
    match operation {
        Operation::Add | Operation::Substract | Operation::Multiply | Operation::Divide => {
            if forms.len() < 2 {
                failing(InterpreterError::argument("missing arguments"), Ghost(store@))
            } else {
                let expression = forms[1].duplicate();
                let waiting = pushed(
                    stack,
                    Continuation::Fold { operation, accumulator: None, forms, next: 2, env },
                );
                evaluating(expression, env, waiting, Ghost(store@))
            }
        },
        Operation::Begin => {
            let inner = store.push_frame(Some(env));
            sequence(forms, 1, inner, true, SymbolicExpression::Nil, stack, Ghost(store@))
        },
        Operation::Module => sequence(
            forms,
            1,
            env,
            false,
            SymbolicExpression::Nil,
            stack,
            Ghost(store@),
        ),
        Operation::If => {
            if forms.len() < 2 {
                failing(InterpreterError::argument("missing arguments"), Ghost(store@))
            } else {
                let expression = forms[1].duplicate();
                let waiting = pushed(stack, Continuation::Branch { forms, env });
                evaluating(expression, env, waiting, Ghost(store@))
            }
        },
        Operation::Cond => clause(forms, 1, env, stack, Ghost(store@)),
        Operation::Quote => {
            if forms.len() < 2 {
                failing(InterpreterError::argument("missing arguments"), Ghost(store@))
            } else {
                returning(forms[1].duplicate(), stack, Ghost(store@))
            }
        },
        Operation::Define => bind(false, forms, env, stack, Ghost(store@)),
        Operation::Assign => bind(true, forms, env, stack, Ghost(store@)),
        Operation::Lambda => lambda(forms, env, stack, store),
        Operation::Let => {
            let listed = forms.len() >= 2 && match &forms[1] {
                SymbolicExpression::Expression(_) => true,
                _ => false,
            };
            if listed {
                let inner = store.push_frame(Some(env));
                let_next(forms, 0, inner, stack, Ghost(store@))
            } else {
                failing(InterpreterError::argument("invalid args for let"), Ghost(store@))
            }
        },
        _ => collect(
            SymbolicExpression::Operation(operation),
            forms,
            1,
            no_values(),
            env,
            stack,
            store,
        ),
    }
}

/// An expression is evaluated.
fn evaluate(
    expression: SymbolicExpression,
    env: Env,
    stack: Vec<Continuation>,
    store: &Store,
) -> (machine: Machine)
    requires
        store.wf(),
    ensures
        (State { machine: machine@, scopes: store@ }) == semantics::evaluate(
            expression@,
            env@,
            stack_of(stack@),
            store@,
        ),
{
    match expression {
        SymbolicExpression::Symbol(name) => match store.lookup(env, name.as_str()) {
            Some(value) => returning(value, stack, Ghost(store@)),
            None => failing(InterpreterError::VariableNotFound(name), Ghost(store@)),
        },
        SymbolicExpression::Expression(forms) => {
            proof {
                lemma_expression_view(forms);
            }
            if forms.len() < 1 {
                failing(InterpreterError::argument("empty expression"), Ghost(store@))
            } else {
                let head = forms[0].duplicate();
                let waiting = pushed(stack, Continuation::Head { forms, env });
                evaluating(head, env, waiting, Ghost(store@))
            }
        },
        other => returning(other, stack, Ghost(store@)),
    }
}

/// A value arrives at the continuation that waited for it.
fn deliver(
    continuation: Continuation,
    value: SymbolicExpression,
    stack: Vec<Continuation>,
    store: &mut Store,
) -> (machine: Machine)
    requires
        old(store).wf(),
    ensures
        final(store).wf(),
        (State { machine: machine@, scopes: final(store)@ }) == semantics::deliver(
            continuation@,
            value@,
            stack_of(stack@),
            old(store)@,
        ),
{
    match continuation {
        Continuation::Head { forms, env } => match value {
            SymbolicExpression::Operation(operation) => dispatch(
                operation,
                forms,
                env,
                stack,
                store,
            ),
            SymbolicExpression::Lambda { parameters, env: closed, body } => collect(
                SymbolicExpression::Lambda { parameters, env: closed, body },
                forms,
                1,
                no_values(),
                env,
                stack,
                store,
            ),
            other => failing(InterpreterError::SyntaxError(other), Ghost(store@)),
        },
        Continuation::Fold { operation, accumulator, forms, next, env } => match accumulator {
            None => fold(operation, value, forms, next, env, stack, Ghost(store@)),
            Some(before) => match combine(operation, &before, &value) {
                Control::Return { value: result } => fold(
                    operation,
                    result,
                    forms,
                    next,
                    env,
                    stack,
                    Ghost(store@),
                ),
                Control::Float { request } => {
                    let waiting = pushed(
                        stack,
                        Continuation::Fold { operation, accumulator: None, forms, next, env },
                    );
                    asking(request, waiting, Ghost(store@))
                },
                other => settle(other, stack, Ghost(store@)),
            },
        },
        Continuation::Collect { callee, forms, next, values, env } => {
            let values = appended(values, value);
            collect(callee, forms, next, values, env, stack, store)
        },
        Continuation::Compare { operation, values, index } => compare_widened(
            operation,
            values,
            index,
            value,
            stack,
            Ghost(store@),
        ),
        Continuation::Sequence { forms, next, env, keep_last } => sequence(
            forms,
            next,
            env,
            keep_last,
            value,
            stack,
            Ghost(store@),
        ),
        Continuation::Branch { forms, env } => branch(forms, env, value, stack, Ghost(store@)),
        Continuation::Clause { forms, index, env } => clause_decided(
            forms,
            index,
            env,
            value,
            stack,
            Ghost(store@),
        ),
        Continuation::Bind { name, env, assign } => bound(name, env, assign, value, stack, store),
        Continuation::LetBind { name, forms, next, env } => {
            store.define(env, name.as_str(), value);
            let_next(forms, next, env, stack, Ghost(store@))
        },
    }
}

impl Machine {
    /// A machine that is about to evaluate `expression` in `env`.
    pub fn new(expression: SymbolicExpression, env: Env) -> (machine: Machine)
        ensures
            machine@ == semantics::start(expression@, env@),
    {
        let machine = Machine { control: Control::Eval { expression, env }, stack: Vec::new() };
        assert(machine@.stack =~= Seq::empty());
        machine
    }

    /// Whether the machine has stopped: it has a result, an error, or a
    /// request for the host.
    pub fn is_halted(&self) -> (stopped: bool)
        ensures
            stopped == semantics::halted(self@),
    {
        match &self.control {
            Control::Eval { .. } => false,
            Control::Return { .. } => self.stack.len() == 0,
            Control::Float { .. } => true,
            Control::Failed { .. } => true,
        }
    }

    /// The floating-point operation that the machine waits for, if it
    /// waits for one.
    pub fn request(&self) -> (pending: Option<FloatRequest>)
        ensures
            pending == match self@.control {
                ControlView::Float { request } => Some(request),
                _ => None,
            },
    {
        match &self.control {
            Control::Float { request } => Some(*request),
            _ => None,
        }
    }

    /// Hands the machine the answer to its request: the bits of the
    /// floating-point result. A machine that waits for none stays as it is.
    pub fn resume(self, answer: u64) -> (machine: Machine)
        ensures
            machine@ == semantics::resume(self@, answer),
    {
        let Machine { control, stack } = self;
        match control {
            Control::Float { .. } => Machine {
                control: Control::Return { value: SymbolicExpression::Float(answer) },
                stack,
            },
            other => Machine { control: other, stack },
        }
    }

    /// The result of the evaluation, once there is one: the value that
    /// nothing waits for any more, or the error that ended it. `None` for a
    /// machine that has not come to its end.
    pub fn result(self) -> (outcome: Option<Result<SymbolicExpression, InterpreterError>>)
        ensures
            match self@.control {
                ControlView::Return { value } => if self@.stack.len() == 0 {
                    outcome matches Some(Ok(found)) && found@ == value
                } else {
                    outcome is None
                },
                ControlView::Failed { error } => outcome matches Some(Err(found)) && found@
                    == error,
                _ => outcome is None,
            },
    {
        let Machine { control, stack } = self;
        match control {
            Control::Return { value } => if stack.len() == 0 {
                Some(Ok(value))
            } else {
                None
            },
            Control::Failed { error } => Some(Err(error)),
            _ => None,
        }
    }

    /// One transition. A machine that has halted stays as it is.
    pub fn step(self, store: &mut Store) -> (next: Machine)
        requires
            old(store).wf(),
        ensures
            final(store).wf(),
            (State { machine: next@, scopes: final(store)@ }) == semantics::step(
                State { machine: self@, scopes: old(store)@ },
            ),
    {
        let Machine { control, stack } = self;
        match control {
            Control::Eval { expression, env } => evaluate(expression, env, stack, store),
            Control::Return { value } => {
                let ghost before = stack@;
                let mut stack = stack;
                match stack.pop() {
                    Some(top) => {
                        assert(stack_of(stack@) =~= stack_of(before).drop_last());
                        assert(top@ == stack_of(before).last());
                        deliver(top, value, stack, store)
                    },
                    None => Machine { control: Control::Return { value }, stack },
                }
            },
            other => Machine { control: other, stack },
        }
    }

    /// Up to `budget` transitions, ending early where the machine halts.
    pub fn run(self, store: &mut Store, budget: u64) -> (last: Machine)
        requires
            old(store).wf(),
        ensures
            final(store).wf(),
            (State { machine: last@, scopes: final(store)@ }) == semantics::run(
                State { machine: self@, scopes: old(store)@ },
                budget as nat,
            ),
    {
        let ghost first = State { machine: self@, scopes: store@ };
        let mut machine = self;
        let mut left = budget;
        while left > 0 && !machine.is_halted()
            invariant
                store.wf(),
                semantics::run(State { machine: machine@, scopes: store@ }, left as nat)
                    == semantics::run(first, budget as nat),
            decreases left,
        {
            machine = machine.step(store);
            left -= 1;
        }
        machine
    }
}

/// Evaluates `expression` in `env`, for up to `budget` transitions. The
/// machine that comes back has the result, or waits for the host to answer
/// a floating-point request, or has used up its budget and can run on.
pub fn eval(store: &mut Store, env: &Env, expression: &SymbolicExpression, budget: u64) -> (machine:
    Machine)
    requires
        old(store).wf(),
    ensures
        final(store).wf(),
        (State { machine: machine@, scopes: final(store)@ }) == semantics::run(
            State { machine: semantics::start(expression@, env@), scopes: old(store)@ },
            budget as nat,
        ),
{
    Machine::new(expression.duplicate(), *env).run(store, budget)
}

} // verus!

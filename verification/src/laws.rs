//! What holds of every store and every evaluation.

use vstd::prelude::*;
use crate::compare::related;
use crate::env::{assign, define, find, grow, resolve, Scope};
use crate::error::Fault;
use crate::machine::{ContinuationView, ControlView};
use crate::number::FloatRequest;
use crate::operation::Operation;
use crate::semantics::{
    apply,
    define_all,
    step,
    builtin,
    combine,
    compare_from,
    failing,
    fits,
    integer_result,
    list_from,
    number_of,
    power,
    returning,
    run,
    start,
    widening,
    State,
};
use crate::value::Value;

verus! {

/// Shadowing. Bind a name in a frame, enter a new frame inside it, and
/// bind the name there: seen from the inner frame the name has the inner
/// value; the inner frame's outer link leads back to the first frame,
/// where the name still has the outer value.
pub proof fn lemma_shadowing(
    scopes: Seq<Scope>,
    frame: nat,
    name: Seq<char>,
    outer_value: Value,
    inner_value: Value,
)
    requires
        frame < scopes.len(),
    ensures
        ({
            let bound = define(scopes, frame, name, outer_value);
            let entered = grow(bound, Some(frame));
            let inner = bound.len();
            let shadowed = define(entered, inner, name, inner_value);
            &&& find(shadowed, inner, name) == Some(inner_value)
            &&& shadowed[inner as int].outer == Some(frame)
            &&& find(shadowed, frame, name) == Some(outer_value)
        }),
{
}

/// A binding made in a frame is seen from every frame inside it that does
/// not bind the name itself.
pub proof fn lemma_inner_frame_sees_outer(scopes: Seq<Scope>, frame: nat, name: Seq<char>)
    requires
        frame < scopes.len(),
    ensures
        find(grow(scopes, Some(frame)), scopes.len(), name) == find(scopes, frame, name),
{
    let entered = grow(scopes, Some(frame));
    lemma_growth_keeps_bindings(scopes, Some(frame), frame, name);
    assert(!entered[scopes.len() as int].bindings.contains_key(name));
}

/// A new frame changes nothing for the frames that were there.
pub proof fn lemma_growth_keeps_bindings(
    scopes: Seq<Scope>,
    outer: Option<nat>,
    at: nat,
    name: Seq<char>,
)
    requires
        at < scopes.len(),
    ensures
        resolve(grow(scopes, outer), at, name) == resolve(scopes, at, name),
        find(grow(scopes, outer), at, name) == find(scopes, at, name),
    decreases at,
{
    let grown = grow(scopes, outer);
    assert(grown[at as int] == scopes[at as int]);
    if !scopes[at as int].bindings.contains_key(name) {
        match scopes[at as int].outer {
            Some(around) => {
                if around < at {
                    lemma_growth_keeps_bindings(scopes, outer, around, name);
                }
            },
            None => {},
        }
    }
    match resolve(scopes, at, name) {
        Some(found) => {
            lemma_resolve_in_range(scopes, at, name);
            assert(grown[found as int] == scopes[found as int]);
        },
        None => {},
    }
}

/// The frame that binds a name is one of the store, at or before the frame
/// the search began in, and does bind the name.
pub proof fn lemma_resolve_in_range(scopes: Seq<Scope>, at: nat, name: Seq<char>)
    ensures
        resolve(scopes, at, name) matches Some(found) ==> found <= at && found < scopes.len()
            && scopes[found as int].bindings.contains_key(name),
    decreases at,
{
    if at < scopes.len() && !scopes[at as int].bindings.contains_key(name) {
        match scopes[at as int].outer {
            Some(around) => {
                if around < at {
                    lemma_resolve_in_range(scopes, around, name);
                }
            },
            None => {},
        }
    }
}

/// Overwriting a binding where it is moves no name to another frame.
pub proof fn lemma_rebinding_keeps_resolution(
    scopes: Seq<Scope>,
    frame: nat,
    name: Seq<char>,
    value: Value,
    at: nat,
    other: Seq<char>,
)
    requires
        frame < scopes.len(),
        scopes[frame as int].bindings.contains_key(name),
    ensures
        resolve(define(scopes, frame, name, value), at, other) == resolve(scopes, at, other),
    decreases at,
{
    let after = define(scopes, frame, name, value);
    if at < scopes.len() {
        assert(after[at as int].outer == scopes[at as int].outer);
        assert(after[at as int].bindings.contains_key(other) == scopes[at as int].bindings.contains_key(
            other,
        ));
        if !scopes[at as int].bindings.contains_key(other) {
            match scopes[at as int].outer {
                Some(around) => {
                    if around < at {
                        lemma_rebinding_keeps_resolution(scopes, frame, name, value, around, other);
                    }
                },
                None => {},
            }
        }
    }
}

/// Mutation is shared. Where two handles see the same binding of a name,
/// an assignment through one of them is seen through the other.
pub proof fn lemma_assignment_is_shared(
    scopes: Seq<Scope>,
    writer: nat,
    reader: nat,
    name: Seq<char>,
    value: Value,
)
    requires
        resolve(scopes, writer, name) is Some,
        resolve(scopes, reader, name) == resolve(scopes, writer, name),
    ensures
        assign(scopes, writer, name, value) matches Some(after) && find(after, reader, name)
            == Some(value),
{
    lemma_resolve_in_range(scopes, writer, name);
    let frame = resolve(scopes, writer, name)->0;
    lemma_rebinding_keeps_resolution(scopes, frame, name, value, reader, name);
}

/// An assignment to a name that no frame of the chain binds fails and
/// changes nothing; one to a bound name succeeds.
pub proof fn lemma_assignment_needs_binding(
    scopes: Seq<Scope>,
    at: nat,
    name: Seq<char>,
    value: Value,
)
    ensures
        assign(scopes, at, name, value) is Some <==> find(scopes, at, name) is Some,
{
}

/// An unbound symbol. Evaluating a symbol that no frame of the chain binds
/// ends with `VariableNotFound`, on its first transition, and leaves the
/// store as it is.
pub proof fn lemma_unbound_symbol(scopes: Seq<Scope>, env: nat, name: Seq<char>, budget: nat)
    requires
        find(scopes, env, name) is None,
        budget >= 1,
    ensures
        run(State { machine: start(Value::Symbol(name), env), scopes }, budget) == failing(
            Fault::VariableNotFound(name),
            scopes,
        ),
{
    reveal_with_fuel(run, 3);
}

/// A bound symbol evaluates to the value of its nearest binding, on its
/// first transition.
pub proof fn lemma_bound_symbol(scopes: Seq<Scope>, env: nat, name: Seq<char>, budget: nat)
    requires
        find(scopes, env, name) is Some,
        budget >= 1,
    ensures
        run(State { machine: start(Value::Symbol(name), env), scopes }, budget) == returning(
            find(scopes, env, name)->0,
            Seq::empty(),
            scopes,
        ),
{
    reveal_with_fuel(run, 3);
}

/// Quoting. `(quote form)` yields the form itself, unevaluated, after
/// three transitions, and leaves the store as it is.
pub proof fn lemma_quote(scopes: Seq<Scope>, env: nat, form: Value, budget: nat)
    requires
        budget >= 3,
    ensures
        run(
            State {
                machine: start(
                    Value::Expression(seq![Value::Operation(Operation::Quote), form]),
                    env,
                ),
                scopes,
            },
            budget,
        ) == returning(form, Seq::empty(), scopes),
{
    reveal_with_fuel(run, 5);
    let forms = seq![Value::Operation(Operation::Quote), form];
    let waiting = Seq::<ContinuationView>::empty().push(ContinuationView::Head { forms, env });
    assert(waiting.drop_last() =~= Seq::<ContinuationView>::empty());
    assert(waiting.last() == (ContinuationView::Head { forms, env }));
}

/// Pairs. `car` and `cdr` give back what `cons` put together.
pub proof fn lemma_car_cdr_of_cons(
    head: Value,
    tail: Value,
    stack: Seq<ContinuationView>,
    scopes: Seq<Scope>,
)
    ensures
        ({
            let pair = Value::Cons { head: Box::new(head), tail: Box::new(tail) };
            &&& builtin(Operation::Cons, seq![head, tail], stack, scopes) == returning(
                pair,
                stack,
                scopes,
            )
            &&& builtin(Operation::Car, seq![pair], stack, scopes) == returning(head, stack, scopes)
            &&& builtin(Operation::Cdr, seq![pair], stack, scopes) == returning(tail, stack, scopes)
        }),
{
}

/// Lists. The `car` of a list is its first item, and its `cdr` is the
/// list of the others.
pub proof fn lemma_car_cdr_of_list(
    values: Seq<Value>,
    stack: Seq<ContinuationView>,
    scopes: Seq<Scope>,
)
    requires
        values.len() >= 1,
    ensures
        ({
            let list = list_from(values, 0);
            &&& builtin(Operation::List, values, stack, scopes) == returning(list, stack, scopes)
            &&& builtin(Operation::Car, seq![list], stack, scopes) == returning(
                values[0],
                stack,
                scopes,
            )
            &&& builtin(Operation::Cdr, seq![list], stack, scopes) == returning(
                list_from(values, 1),
                stack,
                scopes,
            )
        }),
{
    reveal_with_fuel(list_from, 2);
}

/// `car` and `cdr` of anything but a pair are errors.
pub proof fn lemma_car_cdr_need_pair(value: Value, stack: Seq<ContinuationView>, scopes: Seq<Scope>)
    requires
        !(value is Cons),
    ensures
        builtin(Operation::Car, seq![value], stack, scopes) == failing(
            Fault::RuntimeError("car on non cons type"@),
            scopes,
        ),
        builtin(Operation::Cdr, seq![value], stack, scopes) == failing(
            Fault::RuntimeError("cdr on non cons type"@),
            scopes,
        ),
{
}

/// Whether the value at position `i` is related to the one behind it.
pub open spec fn related_at(operation: Operation, values: Seq<Value>, i: int) -> bool {
    related(operation, values[i], values[i + 1])
}

/// Whether the value at position `i` and the one behind it are an integer
/// and a floating-point number.
pub open spec fn mixed_at(values: Seq<Value>, i: int) -> bool {
    widening(values[i], values[i + 1]) is Some
}

/// Whether every pair of neighbours from position `index` on is related.
pub open spec fn all_related(operation: Operation, values: Seq<Value>, index: nat) -> bool {
    forall|i: int| index <= i && i + 1 < values.len() ==> #[trigger] related_at(operation, values, i)
}

/// Chained comparison. Where no pair of neighbours is an integer beside a
/// floating-point number, a comparison is true exactly if every pair of
/// neighbours is related.
pub proof fn lemma_chained_comparison(
    operation: Operation,
    values: Seq<Value>,
    index: nat,
    stack: Seq<ContinuationView>,
    scopes: Seq<Scope>,
)
    requires
        forall|i: int| index <= i && i + 1 < values.len() ==> !#[trigger] mixed_at(values, i),
    ensures
        compare_from(operation, values, index, stack, scopes) == returning(
            Value::Bool(all_related(operation, values, index)),
            stack,
            scopes,
        ),
    decreases values.len() - index,
{
    if index + 1 < values.len() {
        assert(!mixed_at(values, index as int));
        if related_at(operation, values, index as int) {
            lemma_chained_comparison(operation, values, index + 1, stack, scopes);
            assert(all_related(operation, values, index) == all_related(
                operation,
                values,
                index + 1,
            )) by {
                if all_related(operation, values, index + 1) {
                    assert forall|i: int| index <= i && i + 1 < values.len() implies related_at(
                        operation,
                        values,
                        i,
                    ) by {
                        if i > index {
                        }
                    }
                }
            }
        } else {
            assert(!related_at(operation, values, index as int));
        }
    }
}

/// An integer beside a floating-point number is compared as a
/// floating-point number: the comparison first asks for it as one.
pub proof fn lemma_mixed_comparison_widens(
    operation: Operation,
    values: Seq<Value>,
    stack: Seq<ContinuationView>,
    scopes: Seq<Scope>,
)
    requires
        values.len() >= 2,
        widening(values[0], values[1]) is Some,
    ensures
        compare_from(operation, values, 0, stack, scopes).machine.control == (ControlView::Float {
            request: FloatRequest::Widen { integer: widening(values[0], values[1])->0 },
        }),
{
}

/// Numeric promotion. Two integers under `+`, `-` or `*` give an integer,
/// the exact one, or an error if that does not fit. Division, and any
/// operation with a floating-point operand, is floating-point arithmetic.
pub proof fn lemma_numeric_promotion(operation: Operation, left: Value, right: Value)
    requires
        operation.is_arithmetic(),
        number_of(left) is Some,
        number_of(right) is Some,
    ensures
        (left matches Value::Int(a) && right matches Value::Int(b) && operation
            != Operation::Divide && fits(integer_result(operation, a as int, b as int)))
            ==> combine(operation, left, right) == (ControlView::Return {
            value: Value::Int(integer_result(operation, left->Int_0 as int, right->Int_0 as int) as i128),
        }),
        (left is Int && right is Int && operation != Operation::Divide) ==> !(combine(
            operation,
            left,
            right,
        ) is Float),
        (operation == Operation::Divide || left is Float || right is Float) ==> combine(
            operation,
            left,
            right,
        ) == (ControlView::Float {
            request: FloatRequest::Arithmetic {
                operation,
                left: number_of(left)->0,
                right: number_of(right)->0,
            },
        }),
{
}

/// A power of two integers is an integer where the exponent is not
/// negative, and floating-point arithmetic where it is.
pub proof fn lemma_power_promotion(base: i128, exponent: i128)
    ensures
        exponent >= 0 ==> !(power(Value::Int(base), Value::Int(exponent)) is Float),
        exponent < 0 ==> power(Value::Int(base), Value::Int(exponent)) is Float,
{
}

/// Whether a store has everything that an earlier one had: its frames,
/// with their outer links, and in them their names.
pub open spec fn keeps(before: Seq<Scope>, after: Seq<Scope>) -> bool {
    &&& before.len() <= after.len()
    &&& forall|i: int|
        0 <= i < before.len() ==> (#[trigger] after[i]).outer == before[i].outer
            && before[i].bindings.dom().subset_of(after[i].bindings.dom())
}

/// A new frame takes nothing from the store.
pub proof fn lemma_growth_keeps(scopes: Seq<Scope>, outer: Option<nat>)
    ensures
        keeps(scopes, grow(scopes, outer)),
{
    assert forall|i: int| 0 <= i < scopes.len() implies (#[trigger] grow(scopes, outer)[i])
        == scopes[i] by {}
}

/// A binding takes nothing from the store.
pub proof fn lemma_binding_keeps(scopes: Seq<Scope>, at: nat, name: Seq<char>, value: Value)
    ensures
        keeps(scopes, define(scopes, at, name, value)),
{
    let after = define(scopes, at, name, value);
    assert forall|i: int| 0 <= i < scopes.len() implies (#[trigger] after[i]).outer
        == scopes[i].outer && scopes[i].bindings.dom().subset_of(after[i].bindings.dom()) by {
        if i != at {
            assert(after[i] == scopes[i]);
        }
    }
}

/// What is kept twice is kept.
pub proof fn lemma_keeps_on(first: Seq<Scope>, second: Seq<Scope>, third: Seq<Scope>)
    requires
        keeps(first, second),
        keeps(second, third),
    ensures
        keeps(first, third),
{
    assert forall|i: int| 0 <= i < first.len() implies (#[trigger] third[i]).outer
        == first[i].outer && first[i].bindings.dom().subset_of(third[i].bindings.dom()) by {
        assert(second[i].outer == first[i].outer);
        assert(first[i].bindings.dom().subset_of(second[i].bindings.dom()));
        assert(second[i].bindings.dom().subset_of(third[i].bindings.dom()));
    }
}

/// Binding parameters takes nothing from the store.
pub proof fn lemma_parameters_keep(
    scopes: Seq<Scope>,
    at: nat,
    parameters: Seq<Seq<char>>,
    values: Seq<Value>,
    count: nat,
)
    ensures
        keeps(scopes, define_all(scopes, at, parameters, values, count)),
    decreases count,
{
    if count > 0 {
        let before = define_all(scopes, at, parameters, values, (count - 1) as nat);
        lemma_parameters_keep(scopes, at, parameters, values, (count - 1) as nat);
        lemma_binding_keeps(before, at, parameters[count - 1], values[count - 1]);
        lemma_keeps_on(scopes, before, define_all(scopes, at, parameters, values, count));
    }
}

/// Applying a callee takes nothing from the store.
proof fn lemma_apply_keeps(
    callee: Value,
    values: Seq<Value>,
    stack: Seq<ContinuationView>,
    scopes: Seq<Scope>,
)
    ensures
        keeps(scopes, apply(callee, values, stack, scopes).scopes),
{
    match callee {
        Value::Lambda { parameters, env, body } => {
            let count = if parameters.len() < values.len() {
                parameters.len()
            } else {
                values.len()
            };
            let entered = grow(scopes, Some(env));
            lemma_growth_keeps(scopes, Some(env));
            lemma_parameters_keep(entered, scopes.len(), parameters, values, count);
            lemma_keeps_on(
                scopes,
                entered,
                define_all(entered, scopes.len(), parameters, values, count),
            );
        },
        Value::Operation(operation) => {
            lemma_builtin_keeps(operation, values, stack, scopes);
        },
        _ => {},
    }
}

/// A comparison leaves the store as it is.
proof fn lemma_comparison_keeps(
    operation: Operation,
    values: Seq<Value>,
    index: nat,
    stack: Seq<ContinuationView>,
    scopes: Seq<Scope>,
)
    ensures
        compare_from(operation, values, index, stack, scopes).scopes == scopes,
    decreases values.len() - index,
{
    if index + 1 < values.len() {
        lemma_comparison_keeps(operation, values, index + 1, stack, scopes);
    }
}

/// A built-in operation leaves the store as it is.
proof fn lemma_builtin_keeps(
    operation: Operation,
    values: Seq<Value>,
    stack: Seq<ContinuationView>,
    scopes: Seq<Scope>,
)
    ensures
        builtin(operation, values, stack, scopes).scopes == scopes,
{
    lemma_comparison_keeps(operation, values, 0, stack, scopes);
}

/// Frames and bindings last. No transition removes a frame, changes an
/// outer link, or unbinds a name: what a closure closed over stays within
/// its reach for as long as the store lives.
pub proof fn lemma_step_keeps(state: State)
    ensures
        keeps(state.scopes, step(state).scopes),
{
    let scopes = state.scopes;
    match state.machine.control {
        ControlView::Return { value } => {
            if state.machine.stack.len() > 0 {
                let rest = state.machine.stack.drop_last();
                match state.machine.stack.last() {
                    ContinuationView::Head { forms, env } => {
                        lemma_growth_keeps(scopes, Some(env));
                        lemma_apply_keeps(value, Seq::empty(), rest, scopes);
                    },
                    ContinuationView::Collect { callee, forms, next, values, env } => {
                        lemma_apply_keeps(callee, values.push(value), rest, scopes);
                    },
                    ContinuationView::Compare { operation, values, index } => {
                        lemma_comparison_keeps(operation, values, index + 1, rest, scopes);
                    },
                    ContinuationView::Bind { name, env, assign } => {
                        let at = if assign && resolve(scopes, env, name) is Some {
                            resolve(scopes, env, name)->0
                        } else {
                            env
                        };
                        lemma_binding_keeps(scopes, at, name, value);
                    },
                    ContinuationView::LetBind { name, forms, next, env } => {
                        lemma_binding_keeps(scopes, env, name, value);
                    },
                    _ => {},
                }
            }
        },
        _ => {},
    }
}

/// Frames and bindings last through any number of transitions.
pub proof fn lemma_run_keeps(state: State, budget: nat)
    ensures
        keeps(state.scopes, run(state, budget).scopes),
    decreases budget,
{
    if budget > 0 && !crate::semantics::halted(state.machine) {
        lemma_step_keeps(state);
        lemma_run_keeps(step(state), (budget - 1) as nat);
    }
}

} // verus!

//! The machine computes what expressions mean.
//!
//! Where an expression has a meaning, the machine that starts on it and
//! whose requests the host answers comes, after finitely many
//! transitions, to halt with that meaning: the same value or error, and
//! the same store.

use vstd::prelude::*;
use crate::env::{assign, define, grow, Scope};
use crate::machine::{ContinuationView, ControlView, MachineView};
use crate::meaning::{
    apply_meaning,
    builtin_result,
    call_meaning,
    chain_holds,
    clause_meaning,
    complete,
    fold_meaning,
    form_meaning,
    let_meaning,
    meaning,
    pair_related,
    sequence_meaning,
    Oracle,
    Outcome,
};
use crate::number::FloatRequest;
use crate::operation::Operation;
use crate::semantics::{
    apply,
    argument_end,
    asking,
    bound,
    builtin,
    clause,
    collect,
    combine,
    compare_from,
    compare_widened,
    deliver,
    dispatch,
    evaluating,
    exponential,
    failing,
    fold,
    let_next,
    power,
    resume,
    returning,
    run,
    halted,
    sequence,
    settle,
    start,
    step,
    widening,
    State,
};
use crate::value::Value;

verus! {

/// One transition of a machine whose requests the host answers at once.
pub open spec fn answered(state: State, oracle: Oracle) -> State {
    match state.machine.control {
        ControlView::Float { request } => State {
            machine: resume(state.machine, oracle(request)),
            scopes: state.scopes,
        },
        _ => step(state),
    }
}

/// The state after `steps` such transitions.
pub open spec fn drive(state: State, oracle: Oracle, steps: nat) -> State
    decreases steps,
{
    if steps == 0 {
        state
    } else {
        drive(answered(state, oracle), oracle, (steps - 1) as nat)
    }
}

/// The state in which an evaluation has come to its outcome, for
/// whatever waits on `stack`: a value is handed to its top, an error
/// drops it.
pub open spec fn settled(outcome: Outcome, stack: Seq<ContinuationView>) -> State {
    match outcome.result {
        Ok(value) => returning(value, stack, outcome.scopes),
        Err(fault) => failing(fault, outcome.scopes),
    }
}

/// Transitions add up.
pub proof fn lemma_drive_adds(state: State, oracle: Oracle, first: nat, second: nat)
    ensures
        drive(state, oracle, first + second) == drive(drive(state, oracle, first), oracle, second),
    decreases first,
{
    if first > 0 {
        lemma_drive_adds(answered(state, oracle), oracle, (first - 1) as nat, second);
        assert((first + second - 1) as nat == (first - 1) as nat + second);
    }
}

/// Whether the machine is at rest: it has its result or has failed.
pub open spec fn at_rest(machine: MachineView) -> bool {
    halted(machine) && !(machine.control is Float)
}

/// A machine at rest stays as it is.
pub proof fn lemma_rest_stays(state: State, oracle: Oracle, steps: nat)
    requires
        at_rest(state.machine),
    ensures
        drive(state, oracle, steps) == state,
    decreases steps,
{
    if steps > 0 {
        lemma_rest_stays(state, oracle, (steps - 1) as nat);
    }
}

/// A value on its way to the top of the stack arrives in one transition.
pub proof fn lemma_arrival(
    continuation: ContinuationView,
    value: Value,
    stack: Seq<ContinuationView>,
    scopes: Seq<Scope>,
    oracle: Oracle,
)
    ensures
        answered(returning(value, stack.push(continuation), scopes), oracle) == deliver(
            continuation,
            value,
            stack,
            scopes,
        ),
{
    assert(stack.push(continuation).drop_last() =~= stack);
}

/// A request is answered in one transition: the answer is on its way to
/// the top of the stack.
pub proof fn lemma_answer(
    request: FloatRequest,
    stack: Seq<ContinuationView>,
    scopes: Seq<Scope>,
    oracle: Oracle,
)
    ensures
        answered(asking(request, stack, scopes), oracle) == returning(
            Value::Float(oracle(request)),
            stack,
            scopes,
        ),
{
}

/// The outcome of an operation comes to be settled: at once if it is a
/// value or an error, after the host's answer if it is a request.
pub proof fn lemma_settles(
    outcome: ControlView,
    stack: Seq<ContinuationView>,
    scopes: Seq<Scope>,
    oracle: Oracle,
) -> (steps: nat)
    requires
        !(outcome is Eval),
    ensures
        drive(settle(outcome, stack, scopes), oracle, steps) == settled(
            Outcome { result: complete(outcome, oracle), scopes },
            stack,
        ),
{
    match outcome {
        ControlView::Float { request } => {
            lemma_answer(request, stack, scopes, oracle);
            reveal_with_fuel(drive, 2);
            1
        },
        _ => 0,
    }
}

/// A chained comparison comes to its truth value.
pub proof fn lemma_comparison(
    operation: Operation,
    values: Seq<Value>,
    index: nat,
    stack: Seq<ContinuationView>,
    scopes: Seq<Scope>,
    oracle: Oracle,
) -> (steps: nat)
    ensures
        drive(compare_from(operation, values, index, stack, scopes), oracle, steps) == returning(
            Value::Bool(chain_holds(operation, values, index, oracle)),
            stack,
            scopes,
        ),
    decreases values.len() - index,
{
    if index + 1 >= values.len() {
        0
    } else {
        let left = values[index as int];
        let right = values[index + 1 as int];
        match widening(left, right) {
            Some(integer) => {
                let request = FloatRequest::Widen { integer };
                let waiting = ContinuationView::Compare { operation, values, index };
                let answer = Value::Float(oracle(request));
                lemma_answer(request, stack.push(waiting), scopes, oracle);
                lemma_arrival(waiting, answer, stack, scopes, oracle);
                let after = compare_widened(operation, values, index, answer, stack, scopes);
                assert(drive(compare_from(operation, values, index, stack, scopes), oracle, 2)
                    == after) by {
                    reveal_with_fuel(drive, 3);
                }
                if pair_related(operation, left, right, oracle) {
                    let rest = lemma_comparison(operation, values, index + 1, stack, scopes, oracle);
                    lemma_drive_adds(
                        compare_from(operation, values, index, stack, scopes),
                        oracle,
                        2,
                        rest,
                    );
                    2 + rest
                } else {
                    2
                }
            },
            None => {
                if pair_related(operation, left, right, oracle) {
                    lemma_comparison(operation, values, index + 1, stack, scopes, oracle)
                } else {
                    0
                }
            },
        }
    }
}

/// A built-in operation on its arguments comes to its result.
pub proof fn lemma_builtin(
    operation: Operation,
    values: Seq<Value>,
    stack: Seq<ContinuationView>,
    scopes: Seq<Scope>,
    oracle: Oracle,
) -> (steps: nat)
    ensures
        drive(builtin(operation, values, stack, scopes), oracle, steps) == settled(
            Outcome { result: builtin_result(operation, values, oracle), scopes },
            stack,
        ),
{
    match operation {
        Operation::Exp => {
            if values.len() < 1 {
                0
            } else {
                lemma_settles(exponential(values[0]), stack, scopes, oracle)
            }
        },
        Operation::Pow => {
            if values.len() < 2 {
                0
            } else {
                lemma_settles(power(values[0], values[1]), stack, scopes, oracle)
            }
        },
        Operation::Eq | Operation::Smaller | Operation::Greater | Operation::SmallerOrEqual
        | Operation::GreaterOrEqual => {
            if values.len() < 1 {
                0
            } else {
                lemma_comparison(operation, values, 0, stack, scopes, oracle)
            }
        },
        _ => 0,
    }
}

/// One transition is one transition.
proof fn lemma_one(state: State, oracle: Oracle)
    ensures
        drive(state, oracle, 1) == answered(state, oracle),
{
    reveal_with_fuel(drive, 2);
}

/// What is reached from what is reached is reached.
proof fn lemma_chain(first: State, middle: State, last: State, oracle: Oracle, a: nat, b: nat)
    requires
        drive(first, oracle, a) == middle,
        drive(middle, oracle, b) == last,
    ensures
        drive(first, oracle, a + b) == last,
{
    lemma_drive_adds(first, oracle, a, b);
}

/// A value that is reached on its way to the top of the stack arrives
/// one transition later.
proof fn lemma_then_arrives(
    first: State,
    continuation: ContinuationView,
    value: Value,
    stack: Seq<ContinuationView>,
    scopes: Seq<Scope>,
    oracle: Oracle,
    a: nat,
)
    requires
        drive(first, oracle, a) == returning(value, stack.push(continuation), scopes),
    ensures
        drive(first, oracle, a + 1) == deliver(continuation, value, stack, scopes),
{
    lemma_arrival(continuation, value, stack, scopes, oracle);
    lemma_one(returning(value, stack.push(continuation), scopes), oracle);
    lemma_drive_adds(first, oracle, a, 1);
}

/// The machine that evaluates an expression comes to what the
/// expression means, whatever waits on its stack, which it leaves as it
/// is.
pub proof fn lemma_meaning(
    expression: Value,
    env: nat,
    stack: Seq<ContinuationView>,
    scopes: Seq<Scope>,
    oracle: Oracle,
    depth: nat,
) -> (steps: nat)
    requires
        meaning(expression, env, scopes, oracle, depth) is Some,
    ensures
        drive(evaluating(expression, env, stack, scopes), oracle, steps) == settled(
            meaning(expression, env, scopes, oracle, depth)->0,
            stack,
        ),
    decreases depth, 0nat, 0nat,
{
    let first = evaluating(expression, env, stack, scopes);
    lemma_one(first, oracle);
    match expression {
        Value::Expression(forms) => {
            if forms.len() < 1 {
                1
            } else {
                let inner = (depth - 1) as nat;
                let waiting = ContinuationView::Head { forms, env };
                let second = evaluating(forms[0], env, stack.push(waiting), scopes);
                let n1 = lemma_meaning(forms[0], env, stack.push(waiting), scopes, oracle, inner);
                let head = meaning(forms[0], env, scopes, oracle, inner)->0;
                lemma_chain(first, second, settled(head, stack.push(waiting)), oracle, 1, n1);
                match head.result {
                    Err(fault) => 1 + n1,
                    Ok(value) => {
                        lemma_then_arrives(first, waiting, value, stack, head.scopes, oracle, 1 + n1);
                        match value {
                            Value::Operation(operation) => {
                                let n2 = lemma_form(
                                    operation,
                                    forms,
                                    env,
                                    stack,
                                    head.scopes,
                                    oracle,
                                    inner,
                                );
                                lemma_chain(
                                    first,
                                    dispatch(operation, forms, env, stack, head.scopes),
                                    settled(
                                        form_meaning(
                                            operation,
                                            forms,
                                            env,
                                            head.scopes,
                                            oracle,
                                            inner,
                                        )->0,
                                        stack,
                                    ),
                                    oracle,
                                    1 + n1 + 1,
                                    n2,
                                );
                                1 + n1 + 1 + n2
                            },
                            Value::Lambda { parameters, env: closed, body } => {
                                let n2 = lemma_call(
                                    value,
                                    forms,
                                    1,
                                    Seq::empty(),
                                    env,
                                    stack,
                                    head.scopes,
                                    oracle,
                                    inner,
                                );
                                lemma_chain(
                                    first,
                                    collect(value, forms, 1, Seq::empty(), env, stack, head.scopes),
                                    settled(
                                        call_meaning(
                                            value,
                                            forms,
                                            1,
                                            Seq::empty(),
                                            env,
                                            head.scopes,
                                            oracle,
                                            inner,
                                        )->0,
                                        stack,
                                    ),
                                    oracle,
                                    1 + n1 + 1,
                                    n2,
                                );
                                1 + n1 + 1 + n2
                            },
                            _ => 1 + n1 + 1,
                        }
                    },
                }
            }
        },
        _ => 1,
    }
}

/// A callee applied to its arguments comes to what the application means.
pub proof fn lemma_apply(
    callee: Value,
    values: Seq<Value>,
    stack: Seq<ContinuationView>,
    scopes: Seq<Scope>,
    oracle: Oracle,
    depth: nat,
) -> (steps: nat)
    requires
        apply_meaning(callee, values, scopes, oracle, depth) is Some,
    ensures
        drive(apply(callee, values, stack, scopes), oracle, steps) == settled(
            apply_meaning(callee, values, scopes, oracle, depth)->0,
            stack,
        ),
    decreases depth, 1nat, 0nat,
{
    match callee {
        Value::Operation(operation) => lemma_builtin(operation, values, stack, scopes, oracle),
        Value::Lambda { parameters, env, body } => {
            let frame = scopes.len();
            let count = if parameters.len() < values.len() {
                parameters.len()
            } else {
                values.len()
            };
            lemma_meaning(
                *body,
                frame,
                stack,
                crate::semantics::define_all(
                    grow(scopes, Some(env)),
                    frame,
                    parameters,
                    values,
                    count,
                ),
                oracle,
                depth,
            )
        },
        _ => 0,
    }
}

/// A call whose arguments are evaluated from `next` on comes to what it
/// means.
pub proof fn lemma_call(
    callee: Value,
    forms: Seq<Value>,
    next: nat,
    values: Seq<Value>,
    env: nat,
    stack: Seq<ContinuationView>,
    scopes: Seq<Scope>,
    oracle: Oracle,
    depth: nat,
) -> (steps: nat)
    requires
        call_meaning(callee, forms, next, values, env, scopes, oracle, depth) is Some,
    ensures
        drive(collect(callee, forms, next, values, env, stack, scopes), oracle, steps) == settled(
            call_meaning(callee, forms, next, values, env, scopes, oracle, depth)->0,
            stack,
        ),
    decreases depth, 2nat, forms.len() - next,
{
    if next < argument_end(callee, forms.len()) {
        let first = collect(callee, forms, next, values, env, stack, scopes);
        let waiting = ContinuationView::Collect { callee, forms, next: next + 1, values, env };
        let n1 = lemma_meaning(forms[next as int], env, stack.push(waiting), scopes, oracle, depth);
        let argument = meaning(forms[next as int], env, scopes, oracle, depth)->0;
        match argument.result {
            Err(fault) => n1,
            Ok(value) => {
                lemma_then_arrives(first, waiting, value, stack, argument.scopes, oracle, n1);
                let n2 = lemma_call(
                    callee,
                    forms,
                    next + 1,
                    values.push(value),
                    env,
                    stack,
                    argument.scopes,
                    oracle,
                    depth,
                );
                lemma_chain(
                    first,
                    collect(callee, forms, next + 1, values.push(value), env, stack, argument.scopes),
                    settled(
                        call_meaning(
                            callee,
                            forms,
                            next + 1,
                            values.push(value),
                            env,
                            argument.scopes,
                            oracle,
                            depth,
                        )->0,
                        stack,
                    ),
                    oracle,
                    n1 + 1,
                    n2,
                );
                n1 + 1 + n2
            },
        }
    } else {
        lemma_apply(callee, values, stack, scopes, oracle, depth)
    }
}

/// An arithmetic fold that has come to `accumulator` comes to what it
/// means.
pub proof fn lemma_fold(
    operation: Operation,
    accumulator: Value,
    forms: Seq<Value>,
    next: nat,
    env: nat,
    stack: Seq<ContinuationView>,
    scopes: Seq<Scope>,
    oracle: Oracle,
    depth: nat,
) -> (steps: nat)
    requires
        fold_meaning(operation, accumulator, forms, next, env, scopes, oracle, depth) is Some,
    ensures
        drive(fold(operation, accumulator, forms, next, env, stack, scopes), oracle, steps)
            == settled(
            fold_meaning(operation, accumulator, forms, next, env, scopes, oracle, depth)->0,
            stack,
        ),
    decreases depth, 2nat, forms.len() - next,
{
    if next < forms.len() {
        let first = fold(operation, accumulator, forms, next, env, stack, scopes);
        let waiting = ContinuationView::Fold {
            operation,
            accumulator: Some(accumulator),
            forms,
            next: next + 1,
            env,
        };
        let n1 = lemma_meaning(forms[next as int], env, stack.push(waiting), scopes, oracle, depth);
        let operand = meaning(forms[next as int], env, scopes, oracle, depth)->0;
        match operand.result {
            Err(fault) => n1,
            Ok(value) => {
                lemma_then_arrives(first, waiting, value, stack, operand.scopes, oracle, n1);
                let combined = combine(operation, accumulator, value);
                match combined {
                    ControlView::Return { value: result } => {
                        let n2 = lemma_fold(
                            operation,
                            result,
                            forms,
                            next + 1,
                            env,
                            stack,
                            operand.scopes,
                            oracle,
                            depth,
                        );
                        lemma_chain(
                            first,
                            fold(operation, result, forms, next + 1, env, stack, operand.scopes),
                            settled(
                                fold_meaning(
                                    operation,
                                    result,
                                    forms,
                                    next + 1,
                                    env,
                                    operand.scopes,
                                    oracle,
                                    depth,
                                )->0,
                                stack,
                            ),
                            oracle,
                            n1 + 1,
                            n2,
                        );
                        n1 + 1 + n2
                    },
                    ControlView::Float { request } => {
                        let resumed = ContinuationView::Fold {
                            operation,
                            accumulator: None,
                            forms,
                            next: next + 1,
                            env,
                        };
                        let result = Value::Float(oracle(request));
                        let asked = asking(request, stack.push(resumed), operand.scopes);
                        lemma_answer(request, stack.push(resumed), operand.scopes, oracle);
                        lemma_one(asked, oracle);
                        lemma_chain(
                            first,
                            asked,
                            returning(result, stack.push(resumed), operand.scopes),
                            oracle,
                            n1 + 1,
                            1,
                        );
                        lemma_then_arrives(
                            first,
                            resumed,
                            result,
                            stack,
                            operand.scopes,
                            oracle,
                            n1 + 1 + 1,
                        );
                        let n2 = lemma_fold(
                            operation,
                            result,
                            forms,
                            next + 1,
                            env,
                            stack,
                            operand.scopes,
                            oracle,
                            depth,
                        );
                        lemma_chain(
                            first,
                            fold(operation, result, forms, next + 1, env, stack, operand.scopes),
                            settled(
                                fold_meaning(
                                    operation,
                                    result,
                                    forms,
                                    next + 1,
                                    env,
                                    operand.scopes,
                                    oracle,
                                    depth,
                                )->0,
                                stack,
                            ),
                            oracle,
                            n1 + 1 + 1 + 1,
                            n2,
                        );
                        n1 + 1 + 1 + 1 + n2
                    },
                    _ => n1 + 1,
                }
            },
        }
    } else {
        0
    }
}

/// A sequence that goes on after a form with the value `last` comes to
/// what it means.
pub proof fn lemma_sequence(
    forms: Seq<Value>,
    next: nat,
    env: nat,
    keep_last: bool,
    last: Value,
    stack: Seq<ContinuationView>,
    scopes: Seq<Scope>,
    oracle: Oracle,
    depth: nat,
) -> (steps: nat)
    requires
        sequence_meaning(forms, next, env, keep_last, last, scopes, oracle, depth) is Some,
    ensures
        drive(sequence(forms, next, env, keep_last, last, stack, scopes), oracle, steps)
            == settled(
            sequence_meaning(forms, next, env, keep_last, last, scopes, oracle, depth)->0,
            stack,
        ),
    decreases depth, 2nat, forms.len() - next,
{
    if next < forms.len() {
        let first = sequence(forms, next, env, keep_last, last, stack, scopes);
        let waiting = ContinuationView::Sequence { forms, next: next + 1, env, keep_last };
        let n1 = lemma_meaning(forms[next as int], env, stack.push(waiting), scopes, oracle, depth);
        let form = meaning(forms[next as int], env, scopes, oracle, depth)->0;
        match form.result {
            Err(fault) => n1,
            Ok(value) => {
                lemma_then_arrives(first, waiting, value, stack, form.scopes, oracle, n1);
                let n2 = lemma_sequence(
                    forms,
                    next + 1,
                    env,
                    keep_last,
                    value,
                    stack,
                    form.scopes,
                    oracle,
                    depth,
                );
                lemma_chain(
                    first,
                    sequence(forms, next + 1, env, keep_last, value, stack, form.scopes),
                    settled(
                        sequence_meaning(
                            forms,
                            next + 1,
                            env,
                            keep_last,
                            value,
                            form.scopes,
                            oracle,
                            depth,
                        )->0,
                        stack,
                    ),
                    oracle,
                    n1 + 1,
                    n2,
                );
                n1 + 1 + n2
            },
        }
    } else {
        0
    }
}

/// A `cond` that goes on with the clause at `index` comes to what it means.
pub proof fn lemma_clause(
    forms: Seq<Value>,
    index: nat,
    env: nat,
    stack: Seq<ContinuationView>,
    scopes: Seq<Scope>,
    oracle: Oracle,
    depth: nat,
) -> (steps: nat)
    requires
        clause_meaning(forms, index, env, scopes, oracle, depth) is Some,
    ensures
        drive(clause(forms, index, env, stack, scopes), oracle, steps) == settled(
            clause_meaning(forms, index, env, scopes, oracle, depth)->0,
            stack,
        ),
    decreases depth, 2nat, forms.len() - index,
{
    if index >= forms.len() {
        0
    } else {
        match forms[index as int] {
            Value::Expression(parts) => {
                if parts.len() < 1 {
                    0
                } else {
                    let first = clause(forms, index, env, stack, scopes);
                    let waiting = ContinuationView::Clause { forms, index, env };
                    let n1 = lemma_meaning(
                        parts[0],
                        env,
                        stack.push(waiting),
                        scopes,
                        oracle,
                        depth,
                    );
                    let predicate = meaning(parts[0], env, scopes, oracle, depth)->0;
                    match predicate.result {
                        Err(fault) => n1,
                        Ok(value) => {
                            lemma_then_arrives(
                                first,
                                waiting,
                                value,
                                stack,
                                predicate.scopes,
                                oracle,
                                n1,
                            );
                            match value {
                                Value::Bool(true) => {
                                    if parts.len() >= 2 {
                                        let n2 = lemma_meaning(
                                            parts[1],
                                            env,
                                            stack,
                                            predicate.scopes,
                                            oracle,
                                            depth,
                                        );
                                        lemma_chain(
                                            first,
                                            evaluating(parts[1], env, stack, predicate.scopes),
                                            settled(
                                                meaning(
                                                    parts[1],
                                                    env,
                                                    predicate.scopes,
                                                    oracle,
                                                    depth,
                                                )->0,
                                                stack,
                                            ),
                                            oracle,
                                            n1 + 1,
                                            n2,
                                        );
                                        n1 + 1 + n2
                                    } else {
                                        n1 + 1
                                    }
                                },
                                Value::Bool(false) => {
                                    let n2 = lemma_clause(
                                        forms,
                                        index + 1,
                                        env,
                                        stack,
                                        predicate.scopes,
                                        oracle,
                                        depth,
                                    );
                                    lemma_chain(
                                        first,
                                        clause(forms, index + 1, env, stack, predicate.scopes),
                                        settled(
                                            clause_meaning(
                                                forms,
                                                index + 1,
                                                env,
                                                predicate.scopes,
                                                oracle,
                                                depth,
                                            )->0,
                                            stack,
                                        ),
                                        oracle,
                                        n1 + 1,
                                        n2,
                                    );
                                    n1 + 1 + n2
                                },
                                _ => n1 + 1,
                            }
                        },
                    }
                }
            },
            _ => 0,
        }
    }
}

/// A `let` that goes on with the binding at `index` comes to what it means.
pub proof fn lemma_let(
    forms: Seq<Value>,
    index: nat,
    env: nat,
    stack: Seq<ContinuationView>,
    scopes: Seq<Scope>,
    oracle: Oracle,
    depth: nat,
) -> (steps: nat)
    requires
        let_meaning(forms, index, env, scopes, oracle, depth) is Some,
    ensures
        drive(let_next(forms, index, env, stack, scopes), oracle, steps) == settled(
            let_meaning(forms, index, env, scopes, oracle, depth)->0,
            stack,
        ),
    decreases depth, 2nat, forms[1]->Expression_0.len() - index,
{
    if forms.len() < 2 || !(forms[1] is Expression) {
        0
    } else {
        let bindings = forms[1]->Expression_0;
        if index < bindings.len() {
            match bindings[index as int] {
                Value::Expression(parts) => {
                    if parts.len() >= 2 && parts[0] is Symbol {
                        let name = parts[0]->Symbol_0;
                        let first = let_next(forms, index, env, stack, scopes);
                        let waiting = ContinuationView::LetBind { name, forms, next: index + 1, env };
                        let n1 = lemma_meaning(
                            parts[1],
                            env,
                            stack.push(waiting),
                            scopes,
                            oracle,
                            depth,
                        );
                        let initial = meaning(parts[1], env, scopes, oracle, depth)->0;
                        match initial.result {
                            Err(fault) => n1,
                            Ok(value) => {
                                lemma_then_arrives(
                                    first,
                                    waiting,
                                    value,
                                    stack,
                                    initial.scopes,
                                    oracle,
                                    n1,
                                );
                                let after = define(initial.scopes, env, name, value);
                                let n2 = lemma_let(forms, index + 1, env, stack, after, oracle, depth);
                                lemma_chain(
                                    first,
                                    let_next(forms, index + 1, env, stack, after),
                                    settled(
                                        let_meaning(forms, index + 1, env, after, oracle, depth)->0,
                                        stack,
                                    ),
                                    oracle,
                                    n1 + 1,
                                    n2,
                                );
                                n1 + 1 + n2
                            },
                        }
                    } else {
                        0
                    }
                },
                _ => 0,
            }
        } else if forms.len() > 2 {
            lemma_meaning(forms[2], env, stack, scopes, oracle, depth)
        } else {
            0
        }
    }
}

/// A form whose head is an operation comes to what it means.
pub proof fn lemma_form(
    operation: Operation,
    forms: Seq<Value>,
    env: nat,
    stack: Seq<ContinuationView>,
    scopes: Seq<Scope>,
    oracle: Oracle,
    depth: nat,
) -> (steps: nat)
    requires
        form_meaning(operation, forms, env, scopes, oracle, depth) is Some,
    ensures
        drive(dispatch(operation, forms, env, stack, scopes), oracle, steps) == settled(
            form_meaning(operation, forms, env, scopes, oracle, depth)->0,
            stack,
        ),
    decreases depth, 3nat, 0nat,
{
    let first = dispatch(operation, forms, env, stack, scopes);
    match operation {
        Operation::Add | Operation::Substract | Operation::Multiply | Operation::Divide => {
            if forms.len() < 2 {
                0
            } else {
                let waiting = ContinuationView::Fold {
                    operation,
                    accumulator: None,
                    forms,
                    next: 2,
                    env,
                };
                let n1 = lemma_meaning(forms[1], env, stack.push(waiting), scopes, oracle, depth);
                let operand = meaning(forms[1], env, scopes, oracle, depth)->0;
                match operand.result {
                    Err(fault) => n1,
                    Ok(value) => {
                        lemma_then_arrives(first, waiting, value, stack, operand.scopes, oracle, n1);
                        let n2 = lemma_fold(
                            operation,
                            value,
                            forms,
                            2,
                            env,
                            stack,
                            operand.scopes,
                            oracle,
                            depth,
                        );
                        lemma_chain(
                            first,
                            fold(operation, value, forms, 2, env, stack, operand.scopes),
                            settled(
                                fold_meaning(
                                    operation,
                                    value,
                                    forms,
                                    2,
                                    env,
                                    operand.scopes,
                                    oracle,
                                    depth,
                                )->0,
                                stack,
                            ),
                            oracle,
                            n1 + 1,
                            n2,
                        );
                        n1 + 1 + n2
                    },
                }
            }
        },
        Operation::Begin => lemma_sequence(
            forms,
            1,
            scopes.len(),
            true,
            Value::Nil,
            stack,
            grow(scopes, Some(env)),
            oracle,
            depth,
        ),
        Operation::Module => lemma_sequence(
            forms,
            1,
            env,
            false,
            Value::Nil,
            stack,
            scopes,
            oracle,
            depth,
        ),
        Operation::If => {
            if forms.len() < 2 {
                0
            } else {
                let waiting = ContinuationView::Branch { forms, env };
                let n1 = lemma_meaning(forms[1], env, stack.push(waiting), scopes, oracle, depth);
                let predicate = meaning(forms[1], env, scopes, oracle, depth)->0;
                match predicate.result {
                    Err(fault) => n1,
                    Ok(value) => {
                        lemma_then_arrives(
                            first,
                            waiting,
                            value,
                            stack,
                            predicate.scopes,
                            oracle,
                            n1,
                        );
                        let chosen: int = match value {
                            Value::Bool(true) => 2,
                            Value::Bool(false) => 3,
                            _ => 0,
                        };
                        if chosen > 0 && forms.len() > chosen {
                            let n2 = lemma_meaning(
                                forms[chosen],
                                env,
                                stack,
                                predicate.scopes,
                                oracle,
                                depth,
                            );
                            lemma_chain(
                                first,
                                evaluating(forms[chosen], env, stack, predicate.scopes),
                                settled(
                                    meaning(forms[chosen], env, predicate.scopes, oracle, depth)->0,
                                    stack,
                                ),
                                oracle,
                                n1 + 1,
                                n2,
                            );
                            n1 + 1 + n2
                        } else {
                            n1 + 1
                        }
                    },
                }
            }
        },
        Operation::Cond => lemma_clause(forms, 1, env, stack, scopes, oracle, depth),
        Operation::Quote => 0,
        Operation::Define | Operation::Assign => {
            if forms.len() < 2 || !(forms[1] is Symbol) || forms.len() < 3 {
                0
            } else {
                let name = forms[1]->Symbol_0;
                let waiting = ContinuationView::Bind {
                    name,
                    env,
                    assign: operation == Operation::Assign,
                };
                let n1 = lemma_meaning(forms[2], env, stack.push(waiting), scopes, oracle, depth);
                let bound = meaning(forms[2], env, scopes, oracle, depth)->0;
                match bound.result {
                    Err(fault) => n1,
                    Ok(value) => {
                        lemma_then_arrives(first, waiting, value, stack, bound.scopes, oracle, n1);
                        n1 + 1
                    },
                }
            }
        },
        Operation::Lambda => 0,
        Operation::Let => {
            if forms.len() < 2 || !(forms[1] is Expression) {
                0
            } else {
                lemma_let(forms, 0, scopes.len(), stack, grow(scopes, Some(env)), oracle, depth)
            }
        },
        _ => lemma_call(
            Value::Operation(operation),
            forms,
            1,
            Seq::empty(),
            env,
            stack,
            scopes,
            oracle,
            depth,
        ),
    }
}

/// The machine implements the meaning of expressions. Where an
/// expression has a meaning, the machine that starts on it, and whose
/// requests the host answers, halts after `steps` transitions with that
/// meaning: its value or its error, and its store.
pub proof fn theorem_machine_computes_meaning(
    expression: Value,
    env: nat,
    scopes: Seq<Scope>,
    oracle: Oracle,
    depth: nat,
) -> (steps: nat)
    requires
        meaning(expression, env, scopes, oracle, depth) is Some,
    ensures
        drive(State { machine: start(expression, env), scopes }, oracle, steps) == settled(
            meaning(expression, env, scopes, oracle, depth)->0,
            Seq::empty(),
        ),
{
    lemma_meaning(expression, env, Seq::empty(), scopes, oracle, depth)
}

/// Running is driving up to the first request. A machine that runs on a
/// budget makes the transitions of one whose requests are answered, as
/// many as the budget allows, and stops early only where it has halted:
/// with a result, or with a request that its host has yet to answer.
pub proof fn lemma_run_drives(state: State, oracle: Oracle, budget: nat) -> (steps: nat)
    ensures
        steps <= budget,
        run(state, budget) == drive(state, oracle, steps),
        steps == budget || halted(run(state, budget).machine),
    decreases budget,
{
    if budget == 0 || halted(state.machine) {
        0
    } else {
        1 + lemma_run_drives(step(state), oracle, (budget - 1) as nat)
    }
}

/// An evaluation that asks nothing of the host needs no host. Where an
/// expression has a meaning and the machine that starts on it runs, on a
/// budget, to a halt at which it asks nothing, it has halted with that
/// meaning.
pub proof fn lemma_run_computes_meaning(
    expression: Value,
    env: nat,
    scopes: Seq<Scope>,
    oracle: Oracle,
    depth: nat,
    budget: nat,
)
    requires
        meaning(expression, env, scopes, oracle, depth) is Some,
        at_rest(run(State { machine: start(expression, env), scopes }, budget).machine),
    ensures
        run(State { machine: start(expression, env), scopes }, budget) == settled(
            meaning(expression, env, scopes, oracle, depth)->0,
            Seq::empty(),
        ),
{
    let first = State { machine: start(expression, env), scopes };
    let last = run(first, budget);
    let ran = lemma_run_drives(first, oracle, budget);
    let needed = theorem_machine_computes_meaning(expression, env, scopes, oracle, depth);
    let outcome = settled(meaning(expression, env, scopes, oracle, depth)->0, Seq::empty());
    // Both states are at rest, so the one that is reached later is the other.
    if ran <= needed {
        lemma_drive_adds(first, oracle, ran, (needed - ran) as nat);
        lemma_rest_stays(last, oracle, (needed - ran) as nat);
    } else {
        lemma_drive_adds(first, oracle, needed, (ran - needed) as nat);
        lemma_rest_stays(outcome, oracle, (ran - needed) as nat);
    }
}

/// An expression has one meaning. The depth bounds how deep an
/// evaluation may nest, and nothing else: wherever the meaning is defined,
/// it is the same.
pub proof fn lemma_one_meaning(
    expression: Value,
    env: nat,
    scopes: Seq<Scope>,
    oracle: Oracle,
    depth: nat,
    deeper: nat,
)
    requires
        meaning(expression, env, scopes, oracle, depth) is Some,
        meaning(expression, env, scopes, oracle, deeper) is Some,
    ensures
        meaning(expression, env, scopes, oracle, depth) == meaning(
            expression,
            env,
            scopes,
            oracle,
            deeper,
        ),
{
    let first = State { machine: start(expression, env), scopes };
    let one = meaning(expression, env, scopes, oracle, depth)->0;
    let other = meaning(expression, env, scopes, oracle, deeper)->0;
    let a = theorem_machine_computes_meaning(expression, env, scopes, oracle, depth);
    let b = theorem_machine_computes_meaning(expression, env, scopes, oracle, deeper);
    // Both outcomes are reached, and the machine rests at whichever it
    // reaches first.
    if a <= b {
        lemma_drive_adds(first, oracle, a, (b - a) as nat);
        lemma_rest_stays(settled(one, Seq::empty()), oracle, (b - a) as nat);
    } else {
        lemma_drive_adds(first, oracle, b, (a - b) as nat);
        lemma_rest_stays(settled(other, Seq::empty()), oracle, (a - b) as nat);
    }
    assert(settled(one, Seq::empty()) == settled(other, Seq::empty()));
}

} // verus!

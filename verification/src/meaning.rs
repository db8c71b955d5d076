//! What an expression means: its value, and what its evaluation does to
//! the store, stated by recursion over the expression.
//!
//! The meaning depends on the host's floating-point arithmetic, which
//! stands here as a function from requests to answers, and is defined up
//! to a depth of nested evaluations.

use vstd::prelude::*;
use crate::compare::related;
use crate::env::{assign, define, find, grow, Scope};
use crate::error::Fault;
use crate::machine::ControlView;
use crate::number::FloatRequest;
use crate::operation::Operation;
use crate::semantics::{
    argument_end,
    combine,
    define_all,
    exponential,
    list_from,
    power,
    symbols,
    widening,
};
use crate::value::Value;

verus! {

/// The host's floating-point arithmetic: the answer to each request.
pub type Oracle = spec_fn(FloatRequest) -> u64;

/// How an evaluation ends: with a value or an error, and with a store.
pub ghost struct Outcome {
    pub result: Result<Value, Fault>,
    pub scopes: Seq<Scope>,
}

/// An evaluation that ends with a value.
pub open spec fn done(value: Value, scopes: Seq<Scope>) -> Option<Outcome> {
    Some(Outcome { result: Ok(value), scopes })
}

/// An evaluation that ends with an error.
pub open spec fn fails(fault: Fault, scopes: Seq<Scope>) -> Option<Outcome> {
    Some(Outcome { result: Err(fault), scopes })
}

/// The result of an operation, once the host has answered what the
/// operation asks of it.
pub open spec fn complete(outcome: ControlView, oracle: Oracle) -> Result<Value, Fault> {
    match outcome {
        ControlView::Return { value } => Ok(value),
        ControlView::Float { request } => Ok(Value::Float(oracle(request))),
        ControlView::Failed { error } => Err(error),
        ControlView::Eval { expression, env } => Ok(expression),
    }
}

/// Whether a pair of neighbours of a comparison is related. An integer
/// beside a floating-point number counts as the floating-point number
/// that the host makes of it.
pub open spec fn pair_related(operation: Operation, left: Value, right: Value, oracle: Oracle) -> bool {
    match widening(left, right) {
        Some(integer) => {
            let widened = Value::Float(oracle(FloatRequest::Widen { integer }));
            if left is Int {
                related(operation, widened, right)
            } else {
                related(operation, left, widened)
            }
        },
        None => related(operation, left, right),
    }
}

/// Whether every pair of neighbours from position `index` on is related.
pub open spec fn chain_holds(operation: Operation, values: Seq<Value>, index: nat, oracle: Oracle) -> bool
    decreases values.len() - index,
{
    if index + 1 >= values.len() {
        true
    } else {
        pair_related(operation, values[index as int], values[index + 1 as int], oracle) && chain_holds(
            operation,
            values,
            index + 1,
            oracle,
        )
    }
}

/// The result of a built-in operation on its evaluated arguments.
pub open spec fn builtin_result(operation: Operation, values: Seq<Value>, oracle: Oracle) -> Result<
    Value,
    Fault,
> {
    match operation {
        Operation::Exp => if values.len() < 1 {
            Err(Fault::ArgumentError("missing arguments"@))
        } else {
            complete(exponential(values[0]), oracle)
        },
        Operation::Pow => if values.len() < 2 {
            Err(Fault::ArgumentError("missing arguments"@))
        } else {
            complete(power(values[0], values[1]), oracle)
        },
        Operation::Cons => if values.len() < 2 {
            Err(Fault::ArgumentError("missing arguments"@))
        } else {
            Ok(Value::Cons { head: Box::new(values[0]), tail: Box::new(values[1]) })
        },
        Operation::List => Ok(list_from(values, 0)),
        Operation::Car => if values.len() < 1 {
            Err(Fault::ArgumentError("missing arguments"@))
        } else {
            match values[0] {
                Value::Cons { head, tail } => Ok(*head),
                _ => Err(Fault::RuntimeError("car on non cons type"@)),
            }
        },
        Operation::Cdr => if values.len() < 1 {
            Err(Fault::ArgumentError("missing arguments"@))
        } else {
            match values[0] {
                Value::Cons { head, tail } => Ok(*tail),
                _ => Err(Fault::RuntimeError("cdr on non cons type"@)),
            }
        },
        Operation::Eq | Operation::Smaller | Operation::Greater | Operation::SmallerOrEqual
        | Operation::GreaterOrEqual => if values.len() < 1 {
            Err(Fault::ArgumentError("missing arguments"@))
        } else {
            Ok(Value::Bool(chain_holds(operation, values, 0, oracle)))
        },
        _ => Err(Fault::SyntaxError(Value::Operation(operation))),
    }
}

/// The meaning of an expression in an environment, or `None` where its
/// evaluation nests deeper than `depth`.
///
/// A symbol means the value of its nearest binding; a form means what its
/// head, once evaluated, makes of it; anything else means itself.
pub open spec fn meaning(
    expression: Value,
    env: nat,
    scopes: Seq<Scope>,
    oracle: Oracle,
    depth: nat,
) -> Option<Outcome>
    decreases depth, 0nat, 0nat,
{
    match expression {
        Value::Symbol(name) => match find(scopes, env, name) {
            Some(value) => done(value, scopes),
            None => fails(Fault::VariableNotFound(name), scopes),
        },
        Value::Expression(forms) => if forms.len() < 1 {
            fails(Fault::ArgumentError("empty expression"@), scopes)
        } else if depth == 0 {
            None
        } else {
            match meaning(forms[0], env, scopes, oracle, (depth - 1) as nat) {
                None => None,
                Some(head) => match head.result {
                    Err(fault) => Some(head),
                    Ok(Value::Operation(operation)) => form_meaning(
                        operation,
                        forms,
                        env,
                        head.scopes,
                        oracle,
                        (depth - 1) as nat,
                    ),
                    Ok(Value::Lambda { parameters, env: closed, body }) => call_meaning(
                        Value::Lambda { parameters, env: closed, body },
                        forms,
                        1,
                        Seq::empty(),
                        env,
                        head.scopes,
                        oracle,
                        (depth - 1) as nat,
                    ),
                    Ok(other) => fails(Fault::SyntaxError(other), head.scopes),
                },
            }
        },
        _ => done(expression, scopes),
    }
}

/// The meaning of a callee applied to its evaluated arguments. A closure
/// gets a fresh frame inside the one it closed over; its parameters are
/// bound there to the arguments at their positions, as far as both go;
/// its body is evaluated there.
pub open spec fn apply_meaning(
    callee: Value,
    values: Seq<Value>,
    scopes: Seq<Scope>,
    oracle: Oracle,
    depth: nat,
) -> Option<Outcome>
    decreases depth, 1nat, 0nat,
{
    match callee {
        Value::Operation(operation) => Some(
            Outcome { result: builtin_result(operation, values, oracle), scopes },
        ),
        Value::Lambda { parameters, env, body } => {
            let frame = scopes.len();
            let count = if parameters.len() < values.len() {
                parameters.len()
            } else {
                values.len()
            };
            meaning(
                *body,
                frame,
                define_all(grow(scopes, Some(env)), frame, parameters, values, count),
                oracle,
                depth,
            )
        },
        _ => fails(Fault::SyntaxError(callee), scopes),
    }
}

/// The meaning of a call whose arguments are evaluated from `next` on,
/// left to right, in the caller's environment, before the callee is
/// applied to them. The first error ends the call.
pub open spec fn call_meaning(
    callee: Value,
    forms: Seq<Value>,
    next: nat,
    values: Seq<Value>,
    env: nat,
    scopes: Seq<Scope>,
    oracle: Oracle,
    depth: nat,
) -> Option<Outcome>
    decreases depth, 2nat, forms.len() - next,
{
    if next < argument_end(callee, forms.len()) {
        match meaning(forms[next as int], env, scopes, oracle, depth) {
            None => None,
            Some(argument) => match argument.result {
                Err(fault) => Some(argument),
                Ok(value) => call_meaning(
                    callee,
                    forms,
                    next + 1,
                    values.push(value),
                    env,
                    argument.scopes,
                    oracle,
                    depth,
                ),
            },
        }
    } else {
        apply_meaning(callee, values, scopes, oracle, depth)
    }
}

/// The meaning of an arithmetic fold that has come to `accumulator`: the
/// operands from `next` on are evaluated and combined with it, one after
/// the other.
pub open spec fn fold_meaning(
    operation: Operation,
    accumulator: Value,
    forms: Seq<Value>,
    next: nat,
    env: nat,
    scopes: Seq<Scope>,
    oracle: Oracle,
    depth: nat,
) -> Option<Outcome>
    decreases depth, 2nat, forms.len() - next,
{
    if next < forms.len() {
        match meaning(forms[next as int], env, scopes, oracle, depth) {
            None => None,
            Some(operand) => match operand.result {
                Err(fault) => Some(operand),
                Ok(value) => match complete(combine(operation, accumulator, value), oracle) {
                    Ok(result) => fold_meaning(
                        operation,
                        result,
                        forms,
                        next + 1,
                        env,
                        operand.scopes,
                        oracle,
                        depth,
                    ),
                    Err(fault) => fails(fault, operand.scopes),
                },
            },
        }
    } else {
        done(accumulator, scopes)
    }
}

/// The meaning of a sequence from the form at `next` on: each form is
/// evaluated in order, and the value of the last is the value of the
/// sequence (`Nil` where the sequence keeps no value).
pub open spec fn sequence_meaning(
    forms: Seq<Value>,
    next: nat,
    env: nat,
    keep_last: bool,
    last: Value,
    scopes: Seq<Scope>,
    oracle: Oracle,
    depth: nat,
) -> Option<Outcome>
    decreases depth, 2nat, forms.len() - next,
{
    if next < forms.len() {
        match meaning(forms[next as int], env, scopes, oracle, depth) {
            None => None,
            Some(form) => match form.result {
                Err(fault) => Some(form),
                Ok(value) => sequence_meaning(
                    forms,
                    next + 1,
                    env,
                    keep_last,
                    value,
                    form.scopes,
                    oracle,
                    depth,
                ),
            },
        }
    } else {
        done(
            if keep_last {
                last
            } else {
                Value::Nil
            },
            scopes,
        )
    }
}

/// The meaning of a `cond` from the clause at `index` on: the first
/// clause whose predicate is true gives the value; a predicate that is no
/// truth value is an error, and so is a `cond` without a true predicate.
pub open spec fn clause_meaning(
    forms: Seq<Value>,
    index: nat,
    env: nat,
    scopes: Seq<Scope>,
    oracle: Oracle,
    depth: nat,
) -> Option<Outcome>
    decreases depth, 2nat, forms.len() - index,
{
    if index >= forms.len() {
        fails(Fault::RuntimeError("cond all predicate false"@), scopes)
    } else {
        match forms[index as int] {
            Value::Expression(parts) => if parts.len() < 1 {
                fails(Fault::ArgumentError("invalid argument to cond"@), scopes)
            } else {
                match meaning(parts[0], env, scopes, oracle, depth) {
                    None => None,
                    Some(predicate) => match predicate.result {
                        Err(fault) => Some(predicate),
                        Ok(Value::Bool(true)) => if parts.len() >= 2 {
                            meaning(parts[1], env, predicate.scopes, oracle, depth)
                        } else {
                            fails(
                                Fault::ArgumentError("invalid argument to cond"@),
                                predicate.scopes,
                            )
                        },
                        Ok(Value::Bool(false)) => clause_meaning(
                            forms,
                            index + 1,
                            env,
                            predicate.scopes,
                            oracle,
                            depth,
                        ),
                        Ok(_) => fails(
                            Fault::ValueError("predicate must evaluate to boolean"@),
                            predicate.scopes,
                        ),
                    },
                }
            },
            _ => fails(Fault::ArgumentError("invalid argument to cond"@), scopes),
        }
    }
}

/// The meaning of a `let` from the binding at `index` on, in the frame of
/// the `let`: each initial value is evaluated there, where the bindings
/// before it are seen, and bound there; then the body is evaluated there.
pub open spec fn let_meaning(
    forms: Seq<Value>,
    index: nat,
    env: nat,
    scopes: Seq<Scope>,
    oracle: Oracle,
    depth: nat,
) -> Option<Outcome>
    decreases depth, 2nat, forms[1]->Expression_0.len() - index,
{
    if forms.len() < 2 || !(forms[1] is Expression) {
        fails(Fault::ArgumentError("invalid args for let"@), scopes)
    } else {
        let bindings = forms[1]->Expression_0;
        if index < bindings.len() {
            match bindings[index as int] {
                Value::Expression(parts) => if parts.len() >= 2 && parts[0] is Symbol {
                    match meaning(parts[1], env, scopes, oracle, depth) {
                        None => None,
                        Some(initial) => match initial.result {
                            Err(fault) => Some(initial),
                            Ok(value) => let_meaning(
                                forms,
                                index + 1,
                                env,
                                define(initial.scopes, env, parts[0]->Symbol_0, value),
                                oracle,
                                depth,
                            ),
                        },
                    }
                } else {
                    fails(Fault::ArgumentError("invalid args for let"@), scopes)
                },
                _ => fails(Fault::ArgumentError("invalid args for let"@), scopes),
            }
        } else if forms.len() > 2 {
            meaning(forms[2], env, scopes, oracle, depth)
        } else {
            fails(Fault::ArgumentError("missing body for let"@), scopes)
        }
    }
}

/// The meaning of a form whose head is an operation.
pub open spec fn form_meaning(
    operation: Operation,
    forms: Seq<Value>,
    env: nat,
    scopes: Seq<Scope>,
    oracle: Oracle,
    depth: nat,
) -> Option<Outcome>
    decreases depth, 3nat, 0nat,
{
    match operation {
        // Arithmetic: a fold over the evaluated operands, from the left.
        Operation::Add | Operation::Substract | Operation::Multiply | Operation::Divide => if forms.len()
            < 2 {
            fails(Fault::ArgumentError("missing arguments"@), scopes)
        } else {
            match meaning(forms[1], env, scopes, oracle, depth) {
                None => None,
                Some(first) => match first.result {
                    Err(fault) => Some(first),
                    Ok(value) => fold_meaning(
                        operation,
                        value,
                        forms,
                        2,
                        env,
                        first.scopes,
                        oracle,
                        depth,
                    ),
                },
            }
        },
        // A sequence in a frame of its own.
        Operation::Begin => sequence_meaning(
            forms,
            1,
            scopes.len(),
            true,
            Value::Nil,
            grow(scopes, Some(env)),
            oracle,
            depth,
        ),
        // A sequence in the current frame, for its effects alone.
        Operation::Module => sequence_meaning(forms, 1, env, false, Value::Nil, scopes, oracle, depth),
        // One of two branches, by a predicate that has to be a truth value.
        Operation::If => if forms.len() < 2 {
            fails(Fault::ArgumentError("missing arguments"@), scopes)
        } else {
            match meaning(forms[1], env, scopes, oracle, depth) {
                None => None,
                Some(predicate) => match predicate.result {
                    Err(fault) => Some(predicate),
                    Ok(Value::Bool(true)) => if forms.len() > 2 {
                        meaning(forms[2], env, predicate.scopes, oracle, depth)
                    } else {
                        fails(Fault::ArgumentError("missing arguments"@), predicate.scopes)
                    },
                    Ok(Value::Bool(false)) => if forms.len() > 3 {
                        meaning(forms[3], env, predicate.scopes, oracle, depth)
                    } else {
                        fails(Fault::ArgumentError("missing arguments"@), predicate.scopes)
                    },
                    Ok(_) => fails(
                        Fault::ValueError("predicate must evaluate to boolean"@),
                        predicate.scopes,
                    ),
                },
            }
        },
        Operation::Cond => clause_meaning(forms, 1, env, scopes, oracle, depth),
        // The argument itself, unevaluated.
        Operation::Quote => if forms.len() < 2 {
            fails(Fault::ArgumentError("missing arguments"@), scopes)
        } else {
            done(forms[1], scopes)
        },
        // A binding in the current frame.
        Operation::Define => if forms.len() < 2 || !(forms[1] is Symbol) {
            fails(Fault::ArgumentError("first argument to define has to be symbol"@), scopes)
        } else if forms.len() < 3 {
            fails(Fault::ArgumentError("empty arguments for define"@), scopes)
        } else {
            match meaning(forms[2], env, scopes, oracle, depth) {
                None => None,
                Some(bound) => match bound.result {
                    Err(fault) => Some(bound),
                    Ok(value) => done(
                        Value::Nil,
                        define(bound.scopes, env, forms[1]->Symbol_0, value),
                    ),
                },
            }
        },
        // A new value for the nearest binding, which has to exist.
        Operation::Assign => if forms.len() < 2 || !(forms[1] is Symbol) {
            fails(Fault::ArgumentError("first argument to set! has to be symbol"@), scopes)
        } else if forms.len() < 3 {
            fails(Fault::ArgumentError("empty arguments for set!"@), scopes)
        } else {
            match meaning(forms[2], env, scopes, oracle, depth) {
                None => None,
                Some(bound) => match bound.result {
                    Err(fault) => Some(bound),
                    Ok(value) => match assign(bound.scopes, env, forms[1]->Symbol_0, value) {
                        Some(after) => done(Value::Nil, after),
                        None => fails(Fault::VariableNotFound(forms[1]->Symbol_0), bound.scopes),
                    },
                },
            }
        },
        // A closure over a fresh frame inside the current one.
        Operation::Lambda => if forms.len() < 2 || !(forms[1] is Expression) {
            fails(Fault::ArgumentError("invalid arg list for lambda"@), scopes)
        } else {
            match symbols(forms[1]->Expression_0) {
                Some(parameters) => if forms.len() < 3 {
                    fails(Fault::ArgumentError("missing body for lambda"@), scopes)
                } else {
                    done(
                        Value::Lambda { parameters, env: scopes.len(), body: Box::new(forms[2]) },
                        grow(scopes, Some(env)),
                    )
                },
                None => fails(Fault::ArgumentError("non symbol arg in lambda"@), scopes),
            }
        },
        // Bindings, one after the other, and a body, in a frame of their own.
        Operation::Let => if forms.len() < 2 || !(forms[1] is Expression) {
            fails(Fault::ArgumentError("invalid args for let"@), scopes)
        } else {
            let_meaning(forms, 0, scopes.len(), grow(scopes, Some(env)), oracle, depth)
        },
        // Every other operation is applied to its evaluated arguments.
        _ => call_meaning(
            Value::Operation(operation),
            forms,
            1,
            Seq::empty(),
            env,
            scopes,
            oracle,
            depth,
        ),
    }
}

} // verus!

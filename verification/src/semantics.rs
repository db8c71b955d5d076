//! What evaluation means: the transition function of the machine, over the
//! mathematical content of its state.

use vstd::prelude::*;
use vstd::arithmetic::power::pow;
use crate::compare::related;
use crate::env::{assign, define, find, grow, Scope};
use crate::error::Fault;
use crate::machine::{ContinuationView, ControlView, MachineView};
use crate::number::{FloatRequest, Number};
use crate::operation::Operation;
use crate::value::Value;

verus! {

/// A machine together with the store it runs on.
pub ghost struct State {
    pub machine: MachineView,
    pub scopes: Seq<Scope>,
}

/// The state in which `value` is handed to the top of `stack`.
pub open spec fn returning(value: Value, stack: Seq<ContinuationView>, scopes: Seq<Scope>) -> State {
    State { machine: MachineView { control: ControlView::Return { value }, stack }, scopes }
}

/// The state in which `expression` is about to be evaluated in `env`.
pub open spec fn evaluating(
    expression: Value,
    env: nat,
    stack: Seq<ContinuationView>,
    scopes: Seq<Scope>,
) -> State {
    State { machine: MachineView { control: ControlView::Eval { expression, env }, stack }, scopes }
}

/// The state in which the evaluation has ended with `error`. Nothing is
/// left waiting.
pub open spec fn failing(error: Fault, scopes: Seq<Scope>) -> State {
    State {
        machine: MachineView { control: ControlView::Failed { error }, stack: Seq::empty() },
        scopes,
    }
}

/// The state in which the host is asked for the answer to `request`.
pub open spec fn asking(request: FloatRequest, stack: Seq<ContinuationView>, scopes: Seq<Scope>) -> State {
    State { machine: MachineView { control: ControlView::Float { request }, stack }, scopes }
}

/// Whether the machine has stopped: it has a result, an error, or a
/// question for the host.
pub open spec fn halted(machine: MachineView) -> bool {
    match machine.control {
        ControlView::Eval { .. } => false,
        ControlView::Return { .. } => machine.stack.len() == 0,
        ControlView::Float { .. } => true,
        ControlView::Failed { .. } => true,
    }
}

/// The number that a value is, if it is one.
pub open spec fn number_of(value: Value) -> Option<Number> {
    match value {
        Value::Int(integer) => Some(Number::Int(integer)),
        Value::Float(bits) => Some(Number::Float(bits)),
        _ => None,
    }
}

/// Whether an integer fits in 128 bits.
pub open spec fn fits(integer: int) -> bool {
    i128::MIN <= integer <= i128::MAX
}

/// The exact result of an integer operation.
pub open spec fn integer_result(operation: Operation, left: int, right: int) -> int {
    match operation {
        Operation::Add => left + right,
        Operation::Substract => left - right,
        _ => left * right,
    }
}

/// The message for operands that an arithmetic operation cannot take.
pub open spec fn operand_message(operation: Operation) -> Seq<char> {
    match operation {
        Operation::Add => "wrong type for +"@,
        Operation::Substract => "wrong type for -"@,
        Operation::Multiply => "wrong type for *"@,
        _ => "wrong types for /"@,
    }
}

/// One step of an arithmetic fold. Two integers give an integer, except
/// under division; a floating-point operand, or division, makes the
/// operation one for the host; anything else is an error.
pub open spec fn combine(operation: Operation, left: Value, right: Value) -> ControlView {
    match (number_of(left), number_of(right)) {
        (Some(Number::Int(a)), Some(Number::Int(b))) => if operation == Operation::Divide {
            ControlView::Float {
                request: FloatRequest::Arithmetic {
                    operation,
                    left: Number::Int(a),
                    right: Number::Int(b),
                },
            }
        } else if fits(integer_result(operation, a as int, b as int)) {
            ControlView::Return {
                value: Value::Int(integer_result(operation, a as int, b as int) as i128),
            }
        } else {
            ControlView::Failed { error: Fault::RuntimeError("integer overflow"@) }
        },
        (Some(a), Some(b)) => ControlView::Float {
            request: FloatRequest::Arithmetic { operation, left: a, right: b },
        },
        _ => ControlView::Failed { error: Fault::ValueError(operand_message(operation)) },
    }
}

/// `base` raised to `exponent`. Two integers with an exponent that is not
/// negative give an integer; other numbers make the operation one for the
/// host.
pub open spec fn power(base: Value, exponent: Value) -> ControlView {
    match (number_of(base), number_of(exponent)) {
        (Some(Number::Int(b)), Some(Number::Int(e))) => if e < 0 {
            ControlView::Float {
                request: FloatRequest::Pow { base: Number::Int(b), exponent: Number::Int(e) },
            }
        } else if fits(pow(b as int, e as nat)) {
            ControlView::Return { value: Value::Int(pow(b as int, e as nat) as i128) }
        } else {
            ControlView::Failed { error: Fault::RuntimeError("integer overflow"@) }
        },
        (Some(b), Some(e)) => ControlView::Float { request: FloatRequest::Pow { base: b, exponent: e } },
        _ => ControlView::Failed { error: Fault::ValueError("wrong types for pow"@) },
    }
}

/// The exponential function: always an operation for the host.
pub open spec fn exponential(value: Value) -> ControlView {
    match number_of(value) {
        Some(number) => ControlView::Float { request: FloatRequest::Exp { value: number } },
        None => ControlView::Failed { error: Fault::RuntimeError("exp on a value that is no number"@) },
    }
}

/// The list of the values from `start` on: a chain of pairs that ends in `Nil`.
pub open spec fn list_from(values: Seq<Value>, start: nat) -> Value
    decreases values.len() - start,
{
    if start >= values.len() {
        Value::Nil
    } else {
        Value::Cons {
            head: Box::new(values[start as int]),
            tail: Box::new(list_from(values, start + 1)),
        }
    }
}

/// The names of a parameter list, if every item of it is a symbol.
pub open spec fn symbols(items: Seq<Value>) -> Option<Seq<Seq<char>>> {
    if forall|i: int| 0 <= i < items.len() ==> items[i] is Symbol {
        Some(Seq::new(items.len(), |i: int| items[i]->Symbol_0))
    } else {
        None
    }
}

/// The store after the first `count` parameters are bound, in order, to the
/// arguments at their positions, in frame `at`.
pub open spec fn define_all(
    scopes: Seq<Scope>,
    at: nat,
    parameters: Seq<Seq<char>>,
    values: Seq<Value>,
    count: nat,
) -> Seq<Scope>
    decreases count,
{
    if count == 0 {
        scopes
    } else {
        define(
            define_all(scopes, at, parameters, values, (count - 1) as nat),
            at,
            parameters[count - 1 as int],
            values[count - 1 as int],
        )
    }
}

/// The integer of a pair of an integer and a floating-point number: the
/// side that has to become a floating-point number before the two compare.
pub open spec fn widening(left: Value, right: Value) -> Option<i128> {
    match (left, right) {
        (Value::Int(integer), Value::Float(_)) => Some(integer),
        (Value::Float(_), Value::Int(integer)) => Some(integer),
        _ => None,
    }
}

/// The position in a form behind the last argument that is evaluated:
/// `exp`, `car` and `cdr` take one argument, `pow` and `cons` two, and
/// every other callee all there are.
pub open spec fn argument_end(callee: Value, length: nat) -> nat {
    let limit: nat = match callee {
        Value::Operation(Operation::Exp) => 2,
        Value::Operation(Operation::Car) => 2,
        Value::Operation(Operation::Cdr) => 2,
        Value::Operation(Operation::Pow) => 3,
        Value::Operation(Operation::Cons) => 3,
        _ => length,
    };
    if limit < length {
        limit
    } else {
        length
    }
}

/// The state with the outcome of an operation in control: a value is
/// handed to the top of the stack, a request waits above it, and an error
/// drops it.
pub open spec fn settle(outcome: ControlView, stack: Seq<ContinuationView>, scopes: Seq<Scope>) -> State {
    match outcome {
        ControlView::Failed { error } => failing(error, scopes),
        _ => State { machine: MachineView { control: outcome, stack }, scopes },
    }
}

/// A chained comparison from the pair at `index` on: true if every pair of
/// neighbours is related, false at the first that is not. A pair of an
/// integer and a floating-point number first asks the host for the integer
/// as a floating-point number.
pub open spec fn compare_from(
    operation: Operation,
    values: Seq<Value>,
    index: nat,
    stack: Seq<ContinuationView>,
    scopes: Seq<Scope>,
) -> State
    decreases values.len() - index,
{
    if index + 1 >= values.len() {
        returning(Value::Bool(true), stack, scopes)
    } else {
        match widening(values[index as int], values[index + 1 as int]) {
            Some(integer) => asking(
                FloatRequest::Widen { integer },
                stack.push(ContinuationView::Compare { operation, values, index }),
                scopes,
            ),
            None => if related(operation, values[index as int], values[index + 1 as int]) {
                compare_from(operation, values, index + 1, stack, scopes)
            } else {
                returning(Value::Bool(false), stack, scopes)
            },
        }
    }
}

/// A comparison goes on with `widened` in the place of the integer of the
/// pair at `index`.
pub open spec fn compare_widened(
    operation: Operation,
    values: Seq<Value>,
    index: nat,
    widened: Value,
    stack: Seq<ContinuationView>,
    scopes: Seq<Scope>,
) -> State {
    if index + 1 >= values.len() {
        returning(Value::Bool(true), stack, scopes)
    } else {
        let left = if values[index as int] is Int {
            widened
        } else {
            values[index as int]
        };
        let right = if values[index as int] is Int {
            values[index + 1 as int]
        } else {
            widened
        };
        if related(operation, left, right) {
            compare_from(operation, values, index + 1, stack, scopes)
        } else {
            returning(Value::Bool(false), stack, scopes)
        }
    }
}

/// A built-in operation applied to its evaluated arguments.
pub open spec fn builtin(
    operation: Operation,
    values: Seq<Value>,
    stack: Seq<ContinuationView>,
    scopes: Seq<Scope>,
) -> State {
    match operation {
        Operation::Exp => if values.len() < 1 {
            failing(Fault::ArgumentError("missing arguments"@), scopes)
        } else {
            settle(exponential(values[0]), stack, scopes)
        },
        Operation::Pow => if values.len() < 2 {
            failing(Fault::ArgumentError("missing arguments"@), scopes)
        } else {
            settle(power(values[0], values[1]), stack, scopes)
        },
        Operation::Cons => if values.len() < 2 {
            failing(Fault::ArgumentError("missing arguments"@), scopes)
        } else {
            returning(
                Value::Cons { head: Box::new(values[0]), tail: Box::new(values[1]) },
                stack,
                scopes,
            )
        },
        Operation::List => returning(list_from(values, 0), stack, scopes),
        Operation::Car => if values.len() < 1 {
            failing(Fault::ArgumentError("missing arguments"@), scopes)
        } else {
            match values[0] {
                Value::Cons { head, tail } => returning(*head, stack, scopes),
                _ => failing(Fault::RuntimeError("car on non cons type"@), scopes),
            }
        },
        Operation::Cdr => if values.len() < 1 {
            failing(Fault::ArgumentError("missing arguments"@), scopes)
        } else {
            match values[0] {
                Value::Cons { head, tail } => returning(*tail, stack, scopes),
                _ => failing(Fault::RuntimeError("cdr on non cons type"@), scopes),
            }
        },
        Operation::Eq | Operation::Smaller | Operation::Greater | Operation::SmallerOrEqual
        | Operation::GreaterOrEqual => if values.len() < 1 {
            failing(Fault::ArgumentError("missing arguments"@), scopes)
        } else {
            compare_from(operation, values, 0, stack, scopes)
        },
        _ => failing(Fault::SyntaxError(Value::Operation(operation)), scopes),
    }
}

/// A callee applied to its evaluated arguments. A closure gets a fresh
/// frame inside the one it closed over; its parameters are bound there to
/// the arguments at their positions, as far as both go; its body is
/// evaluated there.
pub open spec fn apply(
    callee: Value,
    values: Seq<Value>,
    stack: Seq<ContinuationView>,
    scopes: Seq<Scope>,
) -> State {
    match callee {
        Value::Operation(operation) => builtin(operation, values, stack, scopes),
        Value::Lambda { parameters, env, body } => {
            let frame = scopes.len();
            let count = if parameters.len() < values.len() {
                parameters.len()
            } else {
                values.len()
            };
            evaluating(
                *body,
                frame,
                stack,
                define_all(grow(scopes, Some(env)), frame, parameters, values, count),
            )
        },
        _ => failing(Fault::SyntaxError(callee), scopes),
    }
}

/// The arguments of a call are evaluated from `next` on, left to right, in
/// the caller's environment; then the callee is applied to them.
pub open spec fn collect(
    callee: Value,
    forms: Seq<Value>,
    next: nat,
    values: Seq<Value>,
    env: nat,
    stack: Seq<ContinuationView>,
    scopes: Seq<Scope>,
) -> State {
    if next < argument_end(callee, forms.len()) {
        evaluating(
            forms[next as int],
            env,
            stack.push(ContinuationView::Collect { callee, forms, next: next + 1, values, env }),
            scopes,
        )
    } else {
        apply(callee, values, stack, scopes)
    }
}

/// An arithmetic fold goes on with `accumulator`: the next operand is
/// evaluated, or, if none is left, the accumulator is the result.
pub open spec fn fold(
    operation: Operation,
    accumulator: Value,
    forms: Seq<Value>,
    next: nat,
    env: nat,
    stack: Seq<ContinuationView>,
    scopes: Seq<Scope>,
) -> State {
    if next < forms.len() {
        evaluating(
            forms[next as int],
            env,
            stack.push(
                ContinuationView::Fold {
                    operation,
                    accumulator: Some(accumulator),
                    forms,
                    next: next + 1,
                    env,
                },
            ),
            scopes,
        )
    } else {
        returning(accumulator, stack, scopes)
    }
}

/// A sequence goes on: the form at `next` is evaluated, or, if none is
/// left, the value of the last one is the result (`Nil` where the sequence
/// keeps no value).
pub open spec fn sequence(
    forms: Seq<Value>,
    next: nat,
    env: nat,
    keep_last: bool,
    last: Value,
    stack: Seq<ContinuationView>,
    scopes: Seq<Scope>,
) -> State {
    if next < forms.len() {
        evaluating(
            forms[next as int],
            env,
            stack.push(ContinuationView::Sequence { forms, next: next + 1, env, keep_last }),
            scopes,
        )
    } else {
        returning(
            if keep_last {
                last
            } else {
                Value::Nil
            },
            stack,
            scopes,
        )
    }
}

/// A `cond` goes on with the clause at `index`: its predicate is evaluated.
/// With no clause left, the `cond` fails.
pub open spec fn clause(
    forms: Seq<Value>,
    index: nat,
    env: nat,
    stack: Seq<ContinuationView>,
    scopes: Seq<Scope>,
) -> State {
    if index >= forms.len() {
        failing(Fault::RuntimeError("cond all predicate false"@), scopes)
    } else {
        match forms[index as int] {
            Value::Expression(parts) => if parts.len() < 1 {
                failing(Fault::ArgumentError("invalid argument to cond"@), scopes)
            } else {
                evaluating(
                    parts[0],
                    env,
                    stack.push(ContinuationView::Clause { forms, index, env }),
                    scopes,
                )
            },
            _ => failing(Fault::ArgumentError("invalid argument to cond"@), scopes),
        }
    }
}

/// The predicate of the clause at `index` has the value `value`.
pub open spec fn clause_decided(
    forms: Seq<Value>,
    index: nat,
    env: nat,
    value: Value,
    stack: Seq<ContinuationView>,
    scopes: Seq<Scope>,
) -> State {
    match value {
        Value::Bool(true) => if index < forms.len() && forms[index as int] is Expression
            && forms[index as int]->Expression_0.len() >= 2 {
            evaluating(forms[index as int]->Expression_0[1], env, stack, scopes)
        } else {
            failing(Fault::ArgumentError("invalid argument to cond"@), scopes)
        },
        Value::Bool(false) => clause(forms, index + 1, env, stack, scopes),
        _ => failing(Fault::ValueError("predicate must evaluate to boolean"@), scopes),
    }
}

/// The predicate of an `if` has the value `value`: exactly one of the two
/// branches is evaluated.
pub open spec fn branch(
    forms: Seq<Value>,
    env: nat,
    value: Value,
    stack: Seq<ContinuationView>,
    scopes: Seq<Scope>,
) -> State {
    match value {
        Value::Bool(true) => if forms.len() > 2 {
            evaluating(forms[2], env, stack, scopes)
        } else {
            failing(Fault::ArgumentError("missing arguments"@), scopes)
        },
        Value::Bool(false) => if forms.len() > 3 {
            evaluating(forms[3], env, stack, scopes)
        } else {
            failing(Fault::ArgumentError("missing arguments"@), scopes)
        },
        _ => failing(Fault::ValueError("predicate must evaluate to boolean"@), scopes),
    }
}

/// `define` and `set!`: the first argument has to be a symbol; the second
/// is evaluated in the current environment.
pub open spec fn bind(
    assign: bool,
    forms: Seq<Value>,
    env: nat,
    stack: Seq<ContinuationView>,
    scopes: Seq<Scope>,
) -> State {
    if forms.len() < 2 || !(forms[1] is Symbol) {
        failing(
            Fault::ArgumentError(
                if assign {
                    "first argument to set! has to be symbol"@
                } else {
                    "first argument to define has to be symbol"@
                },
            ),
            scopes,
        )
    } else if forms.len() < 3 {
        failing(
            Fault::ArgumentError(
                if assign {
                    "empty arguments for set!"@
                } else {
                    "empty arguments for define"@
                },
            ),
            scopes,
        )
    } else {
        evaluating(
            forms[2],
            env,
            stack.push(ContinuationView::Bind { name: forms[1]->Symbol_0, env, assign }),
            scopes,
        )
    }
}

/// The value for `define` or `set!` is there. `define` binds the name in
/// the current frame; `set!` overwrites its nearest binding and fails if
/// there is none. Either yields `Nil`.
pub open spec fn bound(
    name: Seq<char>,
    env: nat,
    assign: bool,
    value: Value,
    stack: Seq<ContinuationView>,
    scopes: Seq<Scope>,
) -> State {
    if assign {
        match crate::env::assign(scopes, env, name, value) {
            Some(after) => returning(Value::Nil, stack, after),
            None => failing(Fault::VariableNotFound(name), scopes),
        }
    } else {
        returning(Value::Nil, stack, define(scopes, env, name, value))
    }
}

/// `lambda`: a closure over a fresh frame inside the current one. The
/// first argument has to be a list of symbols; the second is the body,
/// which is not evaluated.
pub open spec fn lambda(
    forms: Seq<Value>,
    env: nat,
    stack: Seq<ContinuationView>,
    scopes: Seq<Scope>,
) -> State {
    if forms.len() < 2 || !(forms[1] is Expression) {
        failing(Fault::ArgumentError("invalid arg list for lambda"@), scopes)
    } else {
        match symbols(forms[1]->Expression_0) {
            Some(parameters) => if forms.len() < 3 {
                failing(Fault::ArgumentError("missing body for lambda"@), scopes)
            } else {
                returning(
                    Value::Lambda { parameters, env: scopes.len(), body: Box::new(forms[2]) },
                    stack,
                    grow(scopes, Some(env)),
                )
            },
            None => failing(Fault::ArgumentError("non symbol arg in lambda"@), scopes),
        }
    }
}

/// A `let` goes on with the binding at `index`: its initial value is
/// evaluated in the frame of the `let`, which holds the bindings before
/// it. With no binding left, the body is evaluated there.
pub open spec fn let_next(
    forms: Seq<Value>,
    index: nat,
    env: nat,
    stack: Seq<ContinuationView>,
    scopes: Seq<Scope>,
) -> State {
    if forms.len() < 2 || !(forms[1] is Expression) {
        failing(Fault::ArgumentError("invalid args for let"@), scopes)
    } else {
        let bindings = forms[1]->Expression_0;
        if index < bindings.len() {
            match bindings[index as int] {
                Value::Expression(parts) => if parts.len() >= 2 && parts[0] is Symbol {
                    evaluating(
                        parts[1],
                        env,
                        stack.push(
                            ContinuationView::LetBind {
                                name: parts[0]->Symbol_0,
                                forms,
                                next: index + 1,
                                env,
                            },
                        ),
                        scopes,
                    )
                } else {
                    failing(Fault::ArgumentError("invalid args for let"@), scopes)
                },
                _ => failing(Fault::ArgumentError("invalid args for let"@), scopes),
            }
        } else if forms.len() > 2 {
            evaluating(forms[2], env, stack, scopes)
        } else {
            failing(Fault::ArgumentError("missing body for let"@), scopes)
        }
    }
}

/// The head of a form is an operation: what happens to the rest of the
/// form depends on which.
pub open spec fn dispatch(
    operation: Operation,
    forms: Seq<Value>,
    env: nat,
    stack: Seq<ContinuationView>,
    scopes: Seq<Scope>,
) -> State {
    match operation {
        Operation::Add | Operation::Substract | Operation::Multiply | Operation::Divide => if forms.len()
            < 2 {
            failing(Fault::ArgumentError("missing arguments"@), scopes)
        } else {
            evaluating(
                forms[1],
                env,
                stack.push(
                    ContinuationView::Fold { operation, accumulator: None, forms, next: 2, env },
                ),
                scopes,
            )
        },
        Operation::Begin => sequence(
            forms,
            1,
            scopes.len(),
            true,
            Value::Nil,
            stack,
            grow(scopes, Some(env)),
        ),
        Operation::Module => sequence(forms, 1, env, false, Value::Nil, stack, scopes),
        Operation::If => if forms.len() < 2 {
            failing(Fault::ArgumentError("missing arguments"@), scopes)
        } else {
            evaluating(forms[1], env, stack.push(ContinuationView::Branch { forms, env }), scopes)
        },
        Operation::Cond => clause(forms, 1, env, stack, scopes),
        Operation::Quote => if forms.len() < 2 {
            failing(Fault::ArgumentError("missing arguments"@), scopes)
        } else {
            returning(forms[1], stack, scopes)
        },
        Operation::Define => bind(false, forms, env, stack, scopes),
        Operation::Assign => bind(true, forms, env, stack, scopes),
        Operation::Lambda => lambda(forms, env, stack, scopes),
        Operation::Let => if forms.len() < 2 || !(forms[1] is Expression) {
            failing(Fault::ArgumentError("invalid args for let"@), scopes)
        } else {
            let_next(forms, 0, scopes.len(), stack, grow(scopes, Some(env)))
        },
        _ => collect(Value::Operation(operation), forms, 1, Seq::empty(), env, stack, scopes),
    }
}

/// An expression is evaluated: a symbol has the value that its nearest
/// binding gives it, a form starts with the evaluation of its head, and
/// anything else is its own value.
pub open spec fn evaluate(
    expression: Value,
    env: nat,
    stack: Seq<ContinuationView>,
    scopes: Seq<Scope>,
) -> State {
    match expression {
        Value::Symbol(name) => match find(scopes, env, name) {
            Some(value) => returning(value, stack, scopes),
            None => failing(Fault::VariableNotFound(name), scopes),
        },
        Value::Expression(forms) => if forms.len() < 1 {
            failing(Fault::ArgumentError("empty expression"@), scopes)
        } else {
            evaluating(forms[0], env, stack.push(ContinuationView::Head { forms, env }), scopes)
        },
        _ => returning(expression, stack, scopes),
    }
}

/// A value arrives at the continuation that waited for it.
pub open spec fn deliver(
    continuation: ContinuationView,
    value: Value,
    stack: Seq<ContinuationView>,
    scopes: Seq<Scope>,
) -> State {
    match continuation {
        ContinuationView::Head { forms, env } => match value {
            Value::Operation(operation) => dispatch(operation, forms, env, stack, scopes),
            Value::Lambda { .. } => collect(value, forms, 1, Seq::empty(), env, stack, scopes),
            _ => failing(Fault::SyntaxError(value), scopes),
        },
        ContinuationView::Fold { operation, accumulator, forms, next, env } => match accumulator {
            None => fold(operation, value, forms, next, env, stack, scopes),
            Some(before) => match combine(operation, before, value) {
                ControlView::Return { value: result } => fold(
                    operation,
                    result,
                    forms,
                    next,
                    env,
                    stack,
                    scopes,
                ),
                ControlView::Float { request } => asking(
                    request,
                    stack.push(
                        ContinuationView::Fold { operation, accumulator: None, forms, next, env },
                    ),
                    scopes,
                ),
                other => settle(other, stack, scopes),
            },
        },
        ContinuationView::Collect { callee, forms, next, values, env } => collect(
            callee,
            forms,
            next,
            values.push(value),
            env,
            stack,
            scopes,
        ),
        ContinuationView::Compare { operation, values, index } => compare_widened(
            operation,
            values,
            index,
            value,
            stack,
            scopes,
        ),
        ContinuationView::Sequence { forms, next, env, keep_last } => sequence(
            forms,
            next,
            env,
            keep_last,
            value,
            stack,
            scopes,
        ),
        ContinuationView::Branch { forms, env } => branch(forms, env, value, stack, scopes),
        ContinuationView::Clause { forms, index, env } => clause_decided(
            forms,
            index,
            env,
            value,
            stack,
            scopes,
        ),
        ContinuationView::Bind { name, env, assign } => bound(name, env, assign, value, stack, scopes),
        ContinuationView::LetBind { name, forms, next, env } => let_next(
            forms,
            next,
            env,
            stack,
            define(scopes, env, name, value),
        ),
    }
}

/// One transition of the machine. A machine that has halted stays as it is.
pub open spec fn step(state: State) -> State {
    match state.machine.control {
        ControlView::Eval { expression, env } => evaluate(
            expression,
            env,
            state.machine.stack,
            state.scopes,
        ),
        ControlView::Return { value } => if state.machine.stack.len() == 0 {
            state
        } else {
            deliver(
                state.machine.stack.last(),
                value,
                state.machine.stack.drop_last(),
                state.scopes,
            )
        },
        _ => state,
    }
}

/// Up to `budget` transitions, ending early where the machine halts.
pub open spec fn run(state: State, budget: nat) -> State
    decreases budget,
{
    if budget == 0 || halted(state.machine) {
        state
    } else {
        run(step(state), (budget - 1) as nat)
    }
}

/// The machine after the host has answered its request: the answer is a
/// floating-point value for whatever waits on top of the stack.
pub open spec fn resume(machine: MachineView, answer: u64) -> MachineView {
    match machine.control {
        ControlView::Float { .. } => MachineView {
            control: ControlView::Return { value: Value::Float(answer) },
            stack: machine.stack,
        },
        _ => machine,
    }
}

/// The machine that is about to evaluate `expression` in `env`.
pub open spec fn start(expression: Value, env: nat) -> MachineView {
    MachineView { control: ControlView::Eval { expression, env }, stack: Seq::empty() }
}

} // verus!

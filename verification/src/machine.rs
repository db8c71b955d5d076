//! The state of an evaluation: what is being worked on now, and what is
//! left to do once that has a value.

use vstd::prelude::*;
use crate::env::Env;
use crate::error::{Fault, InterpreterError};
use crate::number::FloatRequest;
use crate::operation::Operation;
use crate::value::{values_of, SymbolicExpression, Value};

verus! {

/// What the machine is working on.
#[derive(Debug, PartialEq)]
pub enum Control {
    /// An expression to evaluate in an environment.
    Eval { expression: SymbolicExpression, env: Env },
    /// A value, for whatever waits on top of the stack.
    Return { value: SymbolicExpression },
    /// A floating-point operation whose answer the host owes.
    Float { request: FloatRequest },
    /// The error that ended the evaluation.
    Failed { error: InterpreterError },
}

/// The mathematical content of a `Control`.
pub ghost enum ControlView {
    Eval { expression: Value, env: nat },
    Return { value: Value },
    Float { request: FloatRequest },
    Failed { error: Fault },
}

impl View for Control {
    type V = ControlView;

    open spec fn view(&self) -> ControlView {
        match self {
            Control::Eval { expression, env } => ControlView::Eval {
                expression: expression@,
                env: env@,
            },
            Control::Return { value } => ControlView::Return { value: value@ },
            Control::Float { request } => ControlView::Float { request: *request },
            Control::Failed { error } => ControlView::Failed { error: error@ },
        }
    }
}

/// Work that waits for a value. `forms` is always the whole form under
/// evaluation, operator first; `env` is the environment it is evaluated in.
#[derive(Debug, PartialEq)]
pub enum Continuation {
    /// Waits for the head of a form, to decide how the form is evaluated.
    Head { forms: Vec<SymbolicExpression>, env: Env },
    /// Waits for the next operand of an arithmetic fold, or, with no
    /// accumulator, for the value that becomes the accumulator.
    Fold {
        operation: Operation,
        accumulator: Option<SymbolicExpression>,
        forms: Vec<SymbolicExpression>,
        next: usize,
        env: Env,
    },
    /// Waits for the next argument of a call; `values` holds the earlier ones.
    Collect {
        callee: SymbolicExpression,
        forms: Vec<SymbolicExpression>,
        next: usize,
        values: Vec<SymbolicExpression>,
        env: Env,
    },
    /// Waits for the floating-point number that stands for the integer of
    /// the pair at `index` of a comparison.
    Compare { operation: Operation, values: Vec<SymbolicExpression>, index: usize },
    /// Waits for the value of one form of a sequence.
    Sequence { forms: Vec<SymbolicExpression>, next: usize, env: Env, keep_last: bool },
    /// Waits for the predicate of an `if`.
    Branch { forms: Vec<SymbolicExpression>, env: Env },
    /// Waits for the predicate of the clause at `index` of a `cond`.
    Clause { forms: Vec<SymbolicExpression>, index: usize, env: Env },
    /// Waits for the value that `define` or `set!` gives to `name`.
    Bind { name: String, env: Env, assign: bool },
    /// Waits for the value of one binding of a `let`.
    LetBind { name: String, forms: Vec<SymbolicExpression>, next: usize, env: Env },
}

/// The mathematical content of a `Continuation`.
pub ghost enum ContinuationView {
    Head { forms: Seq<Value>, env: nat },
    Fold { operation: Operation, accumulator: Option<Value>, forms: Seq<Value>, next: nat, env: nat },
    Collect { callee: Value, forms: Seq<Value>, next: nat, values: Seq<Value>, env: nat },
    Compare { operation: Operation, values: Seq<Value>, index: nat },
    Sequence { forms: Seq<Value>, next: nat, env: nat, keep_last: bool },
    Branch { forms: Seq<Value>, env: nat },
    Clause { forms: Seq<Value>, index: nat, env: nat },
    Bind { name: Seq<char>, env: nat, assign: bool },
    LetBind { name: Seq<char>, forms: Seq<Value>, next: nat, env: nat },
}

impl View for Continuation {
    type V = ContinuationView;

    open spec fn view(&self) -> ContinuationView {
        match self {
            Continuation::Head { forms, env } => ContinuationView::Head {
                forms: values_of(forms@),
                env: env@,
            },
            Continuation::Fold { operation, accumulator, forms, next, env } => ContinuationView::Fold {
                operation: *operation,
                accumulator: match accumulator {
                    Some(value) => Some(value@),
                    None => None,
                },
                forms: values_of(forms@),
                next: *next as nat,
                env: env@,
            },
            Continuation::Collect { callee, forms, next, values, env } => ContinuationView::Collect {
                callee: callee@,
                forms: values_of(forms@),
                next: *next as nat,
                values: values_of(values@),
                env: env@,
            },
            Continuation::Compare { operation, values, index } => ContinuationView::Compare {
                operation: *operation,
                values: values_of(values@),
                index: *index as nat,
            },
            Continuation::Sequence { forms, next, env, keep_last } => ContinuationView::Sequence {
                forms: values_of(forms@),
                next: *next as nat,
                env: env@,
                keep_last: *keep_last,
            },
            Continuation::Branch { forms, env } => ContinuationView::Branch {
                forms: values_of(forms@),
                env: env@,
            },
            Continuation::Clause { forms, index, env } => ContinuationView::Clause {
                forms: values_of(forms@),
                index: *index as nat,
                env: env@,
            },
            Continuation::Bind { name, env, assign } => ContinuationView::Bind {
                name: name@,
                env: env@,
                assign: *assign,
            },
            Continuation::LetBind { name, forms, next, env } => ContinuationView::LetBind {
                name: name@,
                forms: values_of(forms@),
                next: *next as nat,
                env: env@,
            },
        }
    }
}

/// The mathematical content of a stack of continuations, innermost last.
pub open spec fn stack_of(stack: Seq<Continuation>) -> Seq<ContinuationView> {
    Seq::new(stack.len(), |i: int| stack[i]@)
}

/// An evaluation in progress.
#[derive(Debug, PartialEq)]
pub struct Machine {
    pub control: Control,
    pub stack: Vec<Continuation>,
}

/// The mathematical content of a `Machine`.
pub ghost struct MachineView {
    pub control: ControlView,
    pub stack: Seq<ContinuationView>,
}

impl View for Machine {
    type V = MachineView;

    open spec fn view(&self) -> MachineView {
        MachineView { control: self.control@, stack: stack_of(self.stack@) }
    }
}

} // verus!

//! The errors that evaluation reports.

use vstd::prelude::*;
use vstd::string::StringExecFns;
use crate::value::{SymbolicExpression, Value};

verus! {

/// The outcome of an operation that may fail.
pub type Result<T> = std::result::Result<T, InterpreterError>;

/// An error that stops an evaluation.
#[derive(Debug, PartialEq)]
pub enum InterpreterError {
    /// Lookup of, or assignment to, a symbol that no frame of the chain defines.
    VariableNotFound(String),
    /// The head of a call evaluated to something that cannot be called.
    SyntaxError(SymbolicExpression),
    /// A failure of meaning at run time.
    RuntimeError(String),
    /// An operand of the wrong kind.
    ValueError(String),
    /// A special form with arguments of the wrong shape.
    ArgumentError(String),
}

/// The mathematical content of an `InterpreterError`.
pub ghost enum Fault {
    VariableNotFound(Seq<char>),
    SyntaxError(Value),
    RuntimeError(Seq<char>),
    ValueError(Seq<char>),
    ArgumentError(Seq<char>),
}

impl View for InterpreterError {
    type V = Fault;

    open spec fn view(&self) -> Fault {
        match self {
            InterpreterError::VariableNotFound(name) => Fault::VariableNotFound(name@),
            InterpreterError::SyntaxError(value) => Fault::SyntaxError(value@),
            InterpreterError::RuntimeError(message) => Fault::RuntimeError(message@),
            InterpreterError::ValueError(message) => Fault::ValueError(message@),
            InterpreterError::ArgumentError(message) => Fault::ArgumentError(message@),
        }
    }
}

impl InterpreterError {
    /// A `VariableNotFound` for the given name.
    pub fn variable_not_found(name: &str) -> (error: InterpreterError)
        ensures
            error@ == Fault::VariableNotFound(name@),
    {
        InterpreterError::VariableNotFound(String::from_str(name))
    }

    /// A `RuntimeError` with the given message.
    pub fn runtime(message: &str) -> (error: InterpreterError)
        ensures
            error@ == Fault::RuntimeError(message@),
    {
        InterpreterError::RuntimeError(String::from_str(message))
    }

    /// A `ValueError` with the given message.
    pub fn value(message: &str) -> (error: InterpreterError)
        ensures
            error@ == Fault::ValueError(message@),
    {
        InterpreterError::ValueError(String::from_str(message))
    }

    /// An `ArgumentError` with the given message.
    pub fn argument(message: &str) -> (error: InterpreterError)
        ensures
            error@ == Fault::ArgumentError(message@),
    {
        InterpreterError::ArgumentError(String::from_str(message))
    }
}

} // verus!

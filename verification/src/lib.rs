//! A small Lisp, evaluated by an abstract machine over a store of lexical
//! frames.
//!
//! * `value`, `operation`, `error`: expressions, the reserved operations,
//!   and the errors of evaluation.
//! * `env`: the store of frames, and the handles (`Env`) that closures and
//!   scopes hold on them.
//! * `machine`, `semantics`, `eval`: the state of an evaluation, its
//!   transition function, and the code that carries the transitions out.
//! * `meaning`, `agreement`: what an expression means, by recursion over the
//!   expression, and the proof that the machine computes it.
//! * `number`, `arithmetic`, `compare`: numbers and the built-in operations
//!   on them.
//! * `tokenize`, `parse`, `render`, `text`: text to expressions and back.
//! * `laws`: what holds of every store and every evaluation.
//!
//! The library holds floating-point numbers by their bits and does no
//! floating-point arithmetic. Where an evaluation needs some, the machine
//! halts with a `FloatRequest`; its host carries the operation out and hands
//! the answer to `Machine::resume`. In the same way the host tells
//! `tokenize` which pieces of a text spell floating-point numbers, and
//! `render` how such numbers are written.

pub mod agreement;
pub mod arithmetic;
pub mod compare;
pub mod env;
pub mod error;
pub mod eval;
pub mod laws;
pub mod machine;
pub mod meaning;
pub mod number;
pub mod operation;
pub mod parse;
pub mod render;
pub mod semantics;
pub mod text;
pub mod tokenize;
pub mod value;

pub use env::{Env, Store, VariableNotFoundError};
pub use error::InterpreterError;
pub use eval::eval;
pub use machine::{Continuation, Control, Machine};
pub use number::{FloatRequest, Number, Order};
pub use operation::Operation;
pub use parse::parse;
pub use tokenize::{split, tokenize, Token};
pub use value::SymbolicExpression;

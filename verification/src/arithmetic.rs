//! Arithmetic on values: integer results are computed here, and what
//! needs floating-point arithmetic becomes a request to the host.

use vstd::prelude::*;
use vstd::arithmetic::power::{lemma0_pow, lemma1_pow, lemma_pow0, pow};
use crate::error::InterpreterError;
use crate::machine::Control;
use crate::number::{FloatRequest, Number};
use crate::operation::Operation;
use crate::semantics;
use crate::semantics::{fits, number_of};
use crate::value::SymbolicExpression;

verus! {

/// The number that a value is, if it is one.
pub fn number(value: &SymbolicExpression) -> (found: Option<Number>)
    ensures
        found == number_of(value@),
{
    match value {
        SymbolicExpression::Int(integer) => Some(Number::Int(*integer)),
        SymbolicExpression::Float(bits) => Some(Number::Float(*bits)),
        _ => None,
    }
}

/// Once a power is out of range, every later power is.
proof fn lemma_power_stays_out(base: int, reached: nat, exponent: nat)
    requires
        base >= 2 || base <= -2,
        reached <= exponent,
        !fits(pow(base, reached)),
    ensures
        !fits(pow(base, exponent)),
    decreases exponent - reached,
{
    if reached < exponent {
        let here = pow(base, reached);
        assert(pow(base, reached + 1) == base * here) by {
            reveal(pow);
        }
        assert(!fits(base * here)) by (nonlinear_arith)
            requires
                base >= 2 || base <= -2,
                here > i128::MAX || here < i128::MIN,
        {
        }
        lemma_power_stays_out(base, reached + 1, exponent);
    }
}

/// The powers of -1 alternate.
proof fn lemma_power_of_minus_one(exponent: nat)
    ensures
        pow(-1, exponent) == if exponent % 2 == 0 {
            1int
        } else {
            -1int
        },
    decreases exponent,
{
    reveal(pow);
    if exponent > 0 {
        lemma_power_of_minus_one((exponent - 1) as nat);
    }
}

/// `base` raised to `exponent`, if it fits in 128 bits.
pub fn integer_power(base: i128, exponent: i128) -> (result: Option<i128>)
    requires
        exponent >= 0,
    ensures
        match result {
            Some(power) => power == pow(base as int, exponent as nat),
            None => !fits(pow(base as int, exponent as nat)),
        },
{
    if exponent == 0 {
        proof {
            lemma_pow0(base as int);
        }
        return Some(1);
    }
    if base == 0 {
        proof {
            lemma0_pow(exponent as nat);
        }
        return Some(0);
    }
    if base == 1 {
        proof {
            lemma1_pow(exponent as nat);
        }
        return Some(1);
    }
    if base == -1 {
        proof {
            lemma_power_of_minus_one(exponent as nat);
        }
        return Some(
            if exponent % 2 == 0 {
                1
            } else {
                -1
            },
        );
    }
    let mut result: i128 = 1;
    let mut done: i128 = 0;
    proof {
        lemma_pow0(base as int);
    }
    while done < exponent
        invariant
            0 <= done <= exponent,
            base >= 2 || base <= -2,
            result == pow(base as int, done as nat),
        decreases exponent - done,
    {
        proof {
            assert(pow(base as int, (done + 1) as nat) == base * pow(base as int, done as nat)) by {
                reveal(pow);
            }
        }
        match result.checked_mul(base) {
            Some(next) => {
                result = next;
            },
            None => {
                proof {
                    assert(result * base == base * result) by (nonlinear_arith);
                    lemma_power_stays_out(base as int, (done + 1) as nat, exponent as nat);
                }
                return None;
            },
        }
        done += 1;
    }
    Some(result)
}

/// One step of an arithmetic fold.
pub fn combine(operation: Operation, left: &SymbolicExpression, right: &SymbolicExpression) -> (outcome:
    Control)
    ensures
        outcome@ == semantics::combine(operation, left@, right@),
{
    match (number(left), number(right)) {
        (Some(Number::Int(a)), Some(Number::Int(b))) => {
            let exact = match operation {
                Operation::Divide => {
                    return Control::Float {
                        request: FloatRequest::Arithmetic {
                            operation,
                            left: Number::Int(a),
                            right: Number::Int(b),
                        },
                    };
                },
                Operation::Add => a.checked_add(b),
                Operation::Substract => a.checked_sub(b),
                _ => a.checked_mul(b),
            };
            match exact {
                Some(result) => Control::Return { value: SymbolicExpression::Int(result) },
                None => Control::Failed { error: InterpreterError::runtime("integer overflow") },
            }
        },
        (Some(a), Some(b)) => Control::Float {
            request: FloatRequest::Arithmetic { operation, left: a, right: b },
        },
        _ => Control::Failed {
            error: InterpreterError::value(
                match operation {
                    Operation::Add => "wrong type for +",
                    Operation::Substract => "wrong type for -",
                    Operation::Multiply => "wrong type for *",
                    _ => "wrong types for /",
                },
            ),
        },
    }
}

/// `base` raised to `exponent`.
pub fn power(base: &SymbolicExpression, exponent: &SymbolicExpression) -> (outcome: Control)
    ensures
        outcome@ == semantics::power(base@, exponent@),
{
    match (number(base), number(exponent)) {
        (Some(Number::Int(b)), Some(Number::Int(e))) => {
            if e < 0 {
                Control::Float {
                    request: FloatRequest::Pow { base: Number::Int(b), exponent: Number::Int(e) },
                }
            } else {
                match integer_power(b, e) {
                    Some(result) => Control::Return { value: SymbolicExpression::Int(result) },
                    None => Control::Failed {
                        error: InterpreterError::runtime("integer overflow"),
                    },
                }
            }
        },
        (Some(b), Some(e)) => Control::Float { request: FloatRequest::Pow { base: b, exponent: e } },
        _ => Control::Failed { error: InterpreterError::value("wrong types for pow") },
    }
}

/// The exponential function.
pub fn exponential(value: &SymbolicExpression) -> (outcome: Control)
    ensures
        outcome@ == semantics::exponential(value@),
{
    match number(value) {
        Some(found) => Control::Float { request: FloatRequest::Exp { value: found } },
        None => Control::Failed {
            error: InterpreterError::runtime("exp on a value that is no number"),
        },
    }
}

} // verus!

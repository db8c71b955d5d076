//! Numbers: 128-bit integers, and 64-bit floating-point numbers held by
//! their IEEE-754 bit patterns.
//!
//! The library orders and compares floating-point numbers by their bits. It
//! does no floating-point arithmetic itself: where an evaluation needs some,
//! it states the operation as a `FloatRequest` for its host to carry out.

use vstd::prelude::*;
use crate::operation::Operation;

verus! {

/// An integer or the bits of a floating-point number.
#[derive(Debug, Clone, Copy, PartialEq, Eq, Structural)]
pub enum Number {
    Int(i128),
    Float(u64),
}

/// One floating-point operation that the host is asked to carry out. The
/// answer is the bit pattern of the result. An integer operand is first
/// converted to the nearest floating-point number.
#[derive(Debug, Clone, Copy, PartialEq, Eq, Structural)]
pub enum FloatRequest {
    /// `left + right`, `left - right`, `left * right` or `left / right`,
    /// by the operation given.
    Arithmetic { operation: Operation, left: Number, right: Number },
    /// The exponential function of `value`.
    Exp { value: Number },
    /// `base` raised to `exponent`.
    Pow { base: Number, exponent: Number },
    /// The floating-point number nearest to `value`.
    Widen { integer: i128 },
}

/// How one value stands to another.
#[derive(Debug, Clone, Copy, PartialEq, Eq, Structural)]
pub enum Order {
    Less,
    Equal,
    Greater,
}

/// The sign bit of a floating-point number.
pub const SIGN_BIT: u64 = 0x8000_0000_0000_0000;

/// The bits of positive infinity: every bit pattern whose magnitude is
/// greater stands for no number.
pub const INFINITY_BITS: u64 = 0x7ff0_0000_0000_0000;

/// How two integers stand to each other.
pub open spec fn int_order(left: int, right: int) -> Order {
    if left < right {
        Order::Less
    } else if left == right {
        Order::Equal
    } else {
        Order::Greater
    }
}

/// The bits without the sign.
pub open spec fn magnitude(bits: u64) -> int {
    if bits >= SIGN_BIT {
        bits - SIGN_BIT
    } else {
        bits as int
    }
}

/// Whether the bits stand for no number.
pub open spec fn is_nan(bits: u64) -> bool {
    magnitude(bits) > INFINITY_BITS
}

/// An integer that orders floating-point numbers as their values do: the
/// magnitude, negated under the sign bit. Both zeros have rank 0.
pub open spec fn float_rank(bits: u64) -> int {
    if bits >= SIGN_BIT {
        -(bits - SIGN_BIT)
    } else {
        bits as int
    }
}

/// How two floating-point numbers stand to each other; `None` if either is
/// no number.
pub open spec fn float_order(left: u64, right: u64) -> Option<Order> {
    if is_nan(left) || is_nan(right) {
        None
    } else {
        Some(int_order(float_rank(left), float_rank(right)))
    }
}

/// How two integers stand to each other.
pub fn order_ints(left: i128, right: i128) -> (order: Order)
    ensures
        order == int_order(left as int, right as int),
{
    if left < right {
        Order::Less
    } else if left == right {
        Order::Equal
    } else {
        Order::Greater
    }
}

/// Whether the bits stand for no number.
pub fn float_is_nan(bits: u64) -> (nan: bool)
    ensures
        nan == is_nan(bits),
{
    let magnitude: u64 = if bits >= SIGN_BIT {
        bits - SIGN_BIT
    } else {
        bits
    };
    magnitude > INFINITY_BITS
}

/// How two floating-point numbers, given by their bits, stand to each other.
pub fn order_floats(left: u64, right: u64) -> (order: Option<Order>)
    ensures
        order == float_order(left, right),
{
    if float_is_nan(left) || float_is_nan(right) {
        return None;
    }
    let left_rank: i128 = if left >= SIGN_BIT {
        -((left - SIGN_BIT) as i128)
    } else {
        left as i128
    };
    let right_rank: i128 = if right >= SIGN_BIT {
        -((right - SIGN_BIT) as i128)
    } else {
        right as i128
    };
    Some(order_ints(left_rank, right_rank))
}

} // verus!

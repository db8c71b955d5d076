//! Equality and order of values.

use vstd::prelude::*;
use crate::number::{float_order, int_order, order_floats, order_ints, Order};
use crate::operation::Operation;
use crate::text::same_text;
use crate::text::{order_texts, text_order};
use crate::value::{values_of, lemma_expression_view, SymbolicExpression, Value};

verus! {

/// Whether two values are equal: of the same kind and with equal parts.
/// Floating-point numbers are equal as numbers, so both zeros are equal and
/// what is no number equals nothing. An integer never equals a
/// floating-point number here, and a closure equals nothing.
pub open spec fn equal(left: Value, right: Value) -> bool
    decreases left,
{
    match (left, right) {
        (Value::Str(a), Value::Str(b)) => a == b,
        (Value::Symbol(a), Value::Symbol(b)) => a == b,
        (Value::Float(a), Value::Float(b)) => float_order(a, b) == Some(Order::Equal),
        (Value::Int(a), Value::Int(b)) => a == b,
        (Value::Bool(a), Value::Bool(b)) => a == b,
        (Value::Cons { head: h1, tail: t1 }, Value::Cons { head: h2, tail: t2 }) => equal(*h1, *h2)
            && equal(*t1, *t2),
        (Value::Nil, Value::Nil) => true,
        (Value::Expression(a), Value::Expression(b)) => a.len() == b.len() && forall|i: int|
            0 <= i < a.len() ==> equal(a[i], b[i]),
        (Value::Operation(a), Value::Operation(b)) => a == b,
        _ => false,
    }
}

/// How two values of one ordered kind stand to each other: two strings, two
/// integers or two floating-point numbers. `None` for any other pair.
pub open spec fn ordering(left: Value, right: Value) -> Option<Order> {
    match (left, right) {
        (Value::Str(a), Value::Str(b)) => Some(text_order(a, b)),
        (Value::Float(a), Value::Float(b)) => float_order(a, b),
        (Value::Int(a), Value::Int(b)) => Some(int_order(a as int, b as int)),
        _ => None,
    }
}

/// Whether the relation that a comparison names holds of a pair. Values
/// that cannot be ordered are in no order relation.
pub open spec fn related(operation: Operation, left: Value, right: Value) -> bool {
    match operation {
        Operation::Eq => equal(left, right),
        Operation::Smaller => ordering(left, right) == Some(Order::Less),
        Operation::Greater => ordering(left, right) == Some(Order::Greater),
        Operation::SmallerOrEqual => ordering(left, right) == Some(Order::Less) || ordering(
            left,
            right,
        ) == Some(Order::Equal),
        Operation::GreaterOrEqual => ordering(left, right) == Some(Order::Greater) || ordering(
            left,
            right,
        ) == Some(Order::Equal),
        _ => false,
    }
}

/// Whether two values are equal.
pub fn is_equal(left: &SymbolicExpression, right: &SymbolicExpression) -> (same: bool)
    ensures
        same == equal(left@, right@),
    decreases left,
{
    match (left, right) {
        (SymbolicExpression::Str(a), SymbolicExpression::Str(b)) => same_text(
            a.as_str(),
            b.as_str(),
        ),
        (SymbolicExpression::Symbol(a), SymbolicExpression::Symbol(b)) => same_text(
            a.as_str(),
            b.as_str(),
        ),
        (SymbolicExpression::Float(a), SymbolicExpression::Float(b)) => {
            match order_floats(*a, *b) {
                Some(Order::Equal) => true,
                _ => false,
            }
        },
        (SymbolicExpression::Int(a), SymbolicExpression::Int(b)) => *a == *b,
        (SymbolicExpression::Bool(a), SymbolicExpression::Bool(b)) => *a == *b,
        (
            SymbolicExpression::Cons { head: h1, tail: t1 },
            SymbolicExpression::Cons { head: h2, tail: t2 },
        ) => is_equal(h1, h2) && is_equal(t1, t2),
        (SymbolicExpression::Nil, SymbolicExpression::Nil) => true,
        (SymbolicExpression::Expression(a), SymbolicExpression::Expression(b)) => {
            proof {
                lemma_expression_view(*a);
                lemma_expression_view(*b);
            }
            if a.len() != b.len() {
                return false;
            }
            let mut i: usize = 0;
            while i < a.len()
                invariant
                    i <= a.len(),
                    a.len() == b.len(),
                    *left == SymbolicExpression::Expression(*a),
                    left@ == Value::Expression(values_of(a@)),
                    right@ == Value::Expression(values_of(b@)),
                    forall|j: int| 0 <= j < i ==> equal(a[j]@, b[j]@),
                decreases a.len() - i,
            {
                proof {
                    vstd::std_specs::vec::axiom_vec_index_decreases(*a, i as int);
                    assert(decreases_to!(*left => left->Expression_0));
                }
                if !is_equal(&a[i], &b[i]) {
                    assert(!equal(values_of(a@)[i as int], values_of(b@)[i as int]));
                    return false;
                }
                i += 1;
            }
            assert forall|j: int| 0 <= j < values_of(a@).len() implies equal(
                values_of(a@)[j],
                values_of(b@)[j],
            ) by {
                assert(equal(a[j]@, b[j]@));
            }
            true
        },
        (SymbolicExpression::Operation(a), SymbolicExpression::Operation(b)) => *a == *b,
        _ => false,
    }
}

/// How two values stand to each other, if they are of one ordered kind.
pub fn order_values(left: &SymbolicExpression, right: &SymbolicExpression) -> (order: Option<Order>)
    ensures
        order == ordering(left@, right@),
{
    match (left, right) {
        (SymbolicExpression::Str(a), SymbolicExpression::Str(b)) => Some(
            order_texts(a.as_str(), b.as_str()),
        ),
        (SymbolicExpression::Float(a), SymbolicExpression::Float(b)) => order_floats(*a, *b),
        (SymbolicExpression::Int(a), SymbolicExpression::Int(b)) => Some(order_ints(*a, *b)),
        _ => None,
    }
}

/// Whether the relation that a comparison names holds of a pair.
pub fn is_related(operation: Operation, left: &SymbolicExpression, right: &SymbolicExpression) -> (holds:
    bool)
    ensures
        holds == related(operation, left@, right@),
{
    match operation {
        Operation::Eq => is_equal(left, right),
        Operation::Smaller => match order_values(left, right) {
            Some(Order::Less) => true,
            _ => false,
        },
        Operation::Greater => match order_values(left, right) {
            Some(Order::Greater) => true,
            _ => false,
        },
        Operation::SmallerOrEqual => match order_values(left, right) {
            Some(Order::Less) => true,
            Some(Order::Equal) => true,
            _ => false,
        },
        Operation::GreaterOrEqual => match order_values(left, right) {
            Some(Order::Greater) => true,
            Some(Order::Equal) => true,
            _ => false,
        },
        _ => false,
    }
}

} // verus!

//! Expressions: the one type that serves both as parsed syntax and as the
//! values that evaluation yields.

use vstd::prelude::*;
use crate::env::Env;
use crate::operation::Operation;

verus! {

/// A syntax-tree node or a runtime value.
///
/// `Float` holds the IEEE-754 bit pattern of a 64-bit floating-point number.
/// A `Lambda` refers to the frame it closed over by its handle; the frame
/// itself lives in the store.
#[derive(Debug, PartialEq)]
pub enum SymbolicExpression {
    Str(String),
    Symbol(String),
    Float(u64),
    Int(i128),
    Bool(bool),
    Cons { head: Box<SymbolicExpression>, tail: Box<SymbolicExpression> },
    Nil,
    Expression(Vec<SymbolicExpression>),
    Lambda { parameters: Vec<String>, env: Env, body: Box<SymbolicExpression> },
    Operation(Operation),
}

/// The mathematical value that a `SymbolicExpression` stands for.
pub ghost enum Value {
    Str(Seq<char>),
    Symbol(Seq<char>),
    Float(u64),
    Int(i128),
    Bool(bool),
    Cons { head: Box<Value>, tail: Box<Value> },
    Nil,
    Expression(Seq<Value>),
    Lambda { parameters: Seq<Seq<char>>, env: nat, body: Box<Value> },
    Operation(Operation),
}

/// The character sequences that a vector of strings holds.
pub open spec fn names_of(names: Seq<String>) -> Seq<Seq<char>> {
    Seq::new(names.len(), |i: int| names[i]@)
}

/// The values that a sequence of expressions stands for.
pub open spec fn values_of(items: Seq<SymbolicExpression>) -> Seq<Value> {
    Seq::new(items.len(), |i: int| items[i]@)
}

impl SymbolicExpression {
    /// The value of this expression, structurally.
    pub open spec fn model(&self) -> Value
        decreases self,
    {
        match self {
            SymbolicExpression::Str(text) => Value::Str(text@),
            SymbolicExpression::Symbol(name) => Value::Symbol(name@),
            SymbolicExpression::Float(bits) => Value::Float(*bits),
            SymbolicExpression::Int(number) => Value::Int(*number),
            SymbolicExpression::Bool(truth) => Value::Bool(*truth),
            SymbolicExpression::Cons { head, tail } => Value::Cons {
                head: Box::new(head.model()),
                tail: Box::new(tail.model()),
            },
            SymbolicExpression::Nil => Value::Nil,
            SymbolicExpression::Expression(forms) => Value::Expression(
                Seq::new(
                    forms@.len(),
                    |i: int|
                        if 0 <= i < forms@.len() {
                            forms@[i].model()
                        } else {
                            Value::Nil
                        },
                ),
            ),
            SymbolicExpression::Lambda { parameters, env, body } => Value::Lambda {
                parameters: names_of(parameters@),
                env: env@,
                body: Box::new(body.model()),
            },
            SymbolicExpression::Operation(operation) => Value::Operation(*operation),
        }
    }

    /// A deep copy.
    pub fn duplicate(&self) -> (copy: SymbolicExpression)
        ensures
            copy@ == self@,
        decreases self,
    {
        match self {
            SymbolicExpression::Str(text) => SymbolicExpression::Str(text.clone()),
            SymbolicExpression::Symbol(name) => SymbolicExpression::Symbol(name.clone()),
            SymbolicExpression::Float(bits) => SymbolicExpression::Float(*bits),
            SymbolicExpression::Int(number) => SymbolicExpression::Int(*number),
            SymbolicExpression::Bool(truth) => SymbolicExpression::Bool(*truth),
            SymbolicExpression::Cons { head, tail } => SymbolicExpression::Cons {
                head: Box::new(head.duplicate()),
                tail: Box::new(tail.duplicate()),
            },
            SymbolicExpression::Nil => SymbolicExpression::Nil,
            SymbolicExpression::Expression(forms) => {
                let mut copies: Vec<SymbolicExpression> = Vec::new();
                let mut i: usize = 0;
                while i < forms.len()
                    invariant
                        i <= forms.len(),
                        copies.len() == i,
                        *self == SymbolicExpression::Expression(*forms),
                        forall|j: int| 0 <= j < i ==> copies[j]@ == forms[j]@,
                    decreases forms.len() - i,
                {
                    proof {
                        vstd::std_specs::vec::axiom_vec_index_decreases(*forms, i as int);
                        assert(decreases_to!(*self => self->Expression_0));
                    }
                    copies.push(forms[i].duplicate());
                    i += 1;
                }
                proof {
                    lemma_expression_view(*forms);
                    lemma_expression_view(copies);
                    assert(values_of(copies@) =~= values_of(forms@));
                }
                SymbolicExpression::Expression(copies)
            },
            SymbolicExpression::Lambda { parameters, env, body } => SymbolicExpression::Lambda {
                parameters: duplicate_names(parameters),
                env: *env,
                body: Box::new(body.duplicate()),
            },
            SymbolicExpression::Operation(operation) => SymbolicExpression::Operation(*operation),
        }
    }
}

impl View for SymbolicExpression {
    type V = Value;

    open spec fn view(&self) -> Value {
        self.model()
    }
}

impl Clone for SymbolicExpression {
    fn clone(&self) -> (copy: Self)
        ensures
            copy@ == self@,
    {
        self.duplicate()
    }
}

/// An `Expression` stands for the values of its forms, in order.
pub proof fn lemma_expression_view(forms: Vec<SymbolicExpression>)
    ensures
        SymbolicExpression::Expression(forms)@ == Value::Expression(values_of(forms@)),
{
    assert(SymbolicExpression::Expression(forms)@->Expression_0 =~= values_of(forms@));
}

/// Copies a vector of names.
pub fn duplicate_names(names: &Vec<String>) -> (copies: Vec<String>)
    ensures
        names_of(copies@) == names_of(names@),
{
    let mut copies: Vec<String> = Vec::new();
    let mut i: usize = 0;
    while i < names.len()
        invariant
            i <= names.len(),
            copies.len() == i,
            forall|j: int| 0 <= j < i ==> copies[j]@ == names[j]@,
        decreases names.len() - i,
    {
        copies.push(names[i].clone());
        i += 1;
    }
    assert(names_of(copies@) =~= names_of(names@));
    copies
}

} // verus!
